//! The sumcheck protocol and its pieces: points and the equality
//! polynomial, prover messages, degrees of composed polynomials, the natures
//! of oracle evaluations, the composite oracle, sumcheck functions, and the
//! prover and verifier over a duplex sponge.
pub mod point;
pub mod message;
pub mod degree;
pub mod oracles;
pub mod composite;
pub mod function;
pub mod protocol;
