# polynomial_series

Chebyshev series on a physical domain, with contracts checked by Verus:
evaluation by Clenshaw's recurrence, derivatives and antiderivatives,
arithmetic (products through z-series convolution), truncation and trimming,
least-squares fitting, interpolation and root finding.

Layout:

- `src/scalar.rs` — the coefficient type and the calls for its arithmetic,
  finiteness, `min`, `max` and square root.
- `src/scaling.rs` — maps between the physical domain and `[-1, 1]`.
- `src/c_series.rs`, `src/z_series.rs` — coefficient lists and their
  z-series form, with trimming, sums, differences and products.
- `src/chebyshev/` — the series type and its operations; fitting,
  interpolation and the eigenvalues of root finding call `ndarray-linalg`
  through `src/linalg.rs`.
- `src/traits.rs` — the interface shared by polynomial bases.
- `src/laws.rs` — properties that hold across operations.
- `app/` — an error type with `Display` and `std::error::Error`, and
  serialisable records of series.

`ndarray-linalg` is used without its BLAS feature, so matrix-vector
products are ndarray's own unrolled dot products, as `src/linalg.rs` states.
Fitting, interpolation and root finding of degree two and above need a
LAPACK library at link time.
