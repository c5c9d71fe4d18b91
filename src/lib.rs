//! Matrices of fixed shape over a flat, row-major buffer.
//!
//! A `Matrix<T, M, N, LEN>` holds `M` rows and `N` columns in `LEN == M * N` elements; the
//! element at `(r, c)` sits at offset `r * N + c`. Elements are machine integers, seen in
//! every contract as the mathematical integers they stand for (`scalar`). Arithmetic,
//! the determinant and the inverse are stated over those integers (`mat`, `linalg`).

pub mod errors;
pub mod identities;
pub mod iters;
pub mod laws;
pub mod linalg;
pub mod mat;
pub mod math;
pub mod position;
pub mod rowops;
pub mod scalar;
