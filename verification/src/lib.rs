//! Verified building blocks of a sumcheck-based proof system: a prime
//! field, multilinear points and sparse MLEs, power-of-two vectors, the
//! sumcheck protocol with the reductions of matrix-product queries and of
//! batched openings built on it, commitments, and the spreadsheet circuit
//! compiler with its constraint polynomial.
pub mod commitment;
pub mod field;
pub mod flcs;
pub mod math;
pub mod multipoint;
pub mod matrix_oracle;
pub mod matrix_product;
pub mod matrix_reduction;
pub mod pow2vec;
pub mod relation;
pub mod spark;
pub mod sponge;
pub mod spreadsheet;
pub mod sumcheck;
pub mod sums;
