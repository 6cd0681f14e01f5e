//! Commitments to multilinear polynomials, given by their tables.
use crate::field::{Fm, P};
use crate::multipoint::batched_sum;
use crate::sumcheck::point::values;
use crate::sums::horner;
use vstd::prelude::*;

verus! {

/// A commitment scheme for the tables of multilinear polynomials: a
/// commitment is a function of the table, and two commitments can be
/// compared.
pub trait CommitmentScheme {
    type Commitment;

    /// The commitment to a table.
    spec fn commit_spec(&self, mle: Seq<nat>) -> Self::Commitment;

    /// Commits to the table `mle`.
    fn commit_mle(&self, mle: &[Fm]) -> (r: Self::Commitment)
        ensures
            r == self.commit_spec(values(mle@)),
    ;

    /// Whether two commitments are the same.
    fn same_commitment(&self, a: &Self::Commitment, b: &Self::Commitment) -> (r: bool)
        ensures
            r == (*a == *b),
    ;
}

/// The base of [`HornerCommitment`].
pub const COMMIT_BASE: u64 = 65537u64;

/// A transparent commitment: the table combined by powers of
/// [`COMMIT_BASE`]. It binds a table only as far as that combination does;
/// it stands for a scheme where the relations need one, not for a
/// cryptographic commitment.
pub struct HornerCommitment;

impl CommitmentScheme for HornerCommitment {
    type Commitment = u64;

    open spec fn commit_spec(&self, mle: Seq<nat>) -> u64 {
        horner(mle, COMMIT_BASE as nat) as u64
    }

    fn commit_mle(&self, mle: &[Fm]) -> (r: u64) {
        let base = Fm::from_u64(COMMIT_BASE);
        let acc = batched_sum(mle, base);
        acc.value()
    }

    fn same_commitment(&self, a: &u64, b: &u64) -> (r: bool) {
        *a == *b
    }
}

} // verus!
