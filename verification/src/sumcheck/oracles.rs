//! Where the evaluations of an oracle's polynomials come from, and the
//! evaluations a prover sends to the verifier.
use crate::field::Fm;
use crate::sumcheck::point::MultiPoint;
use vstd::prelude::*;

verus! {

/// Where the evaluation of a polynomial is obtained.
#[derive(Clone, Copy, Debug, PartialEq, Eq, Structural)]
pub enum EvalLocation {
    /// Fixed by the structure of the relation.
    Structure,
    /// Part of the instance, known to the verifier.
    Instance,
    /// Part of the witness.
    Witness,
}

/// One of two alternatives.
#[derive(Clone, Copy, Debug, PartialEq, Eq)]
pub enum Either<A, B> {
    Left(A),
    Right(B),
}

/// The nature of the polynomials of the testing oracle: all are witness.
#[derive(Clone, Copy, Debug)]
pub struct TestingNature;

impl TestingNature {
    /// Testing polynomials are part of the witness.
    pub fn location(self) -> (r: EvalLocation)
        ensures
            r == EvalLocation::Witness,
    {
        EvalLocation::Witness
    }
}

/// What an oracle answers for one polynomial at a queried point.
#[derive(Clone, Copy, Debug)]
pub enum OracleEval {
    /// The oracle computes the evaluation itself.
    Computed(Fm),
    /// The evaluation is provided by the prover, to be checked later.
    ProverProvided,
    /// The polynomial does not belong to this oracle.
    Absent,
}

/// A query to a partial oracle: the evaluations at `point` of the
/// polynomials it answers for (`None` for the others), and its instance.
#[derive(Clone, Debug)]
pub struct PartialQueryInstance<E, I> {
    pub evals: E,
    pub oracle_instance: I,
    pub point: MultiPoint,
}

/// The evaluations the prover provides to the two oracles of a composite
/// oracle.
#[derive(Clone, Debug)]
pub struct ProverEvals(pub Vec<Fm>);

impl ProverEvals {
    /// The number of field elements of the message.
    pub fn len(params: &usize) -> (r: usize)
        ensures
            r == *params,
    {
        *params
    }

    /// The evaluations as field elements, if there are as many as expected.
    pub fn to_field_elements(&self, params: &usize) -> (r: Result<Vec<Fm>, ()>)
        ensures
            self.0@.len() == *params ==> (r matches Ok(v) && v@ == self.0@),
            self.0@.len() != *params ==> r is Err,
    {
        let expected_len = *params;
        if self.0.len() == expected_len {
            let mut v: Vec<Fm> = Vec::new();
            let mut i: usize = 0;
            while i < self.0.len()
                invariant
                    i <= self.0@.len(),
                    v@ == self.0@.take(i as int),
                decreases self.0@.len() - i,
            {
                v.push(self.0[i]);
                i = i + 1;
                proof {
                    assert(v@ =~= self.0@.take(i as int));
                }
            }
            proof {
                assert(v@ =~= self.0@);
            }
            Ok(v)
        } else {
            Err(())
        }
    }
}

} // verus!
