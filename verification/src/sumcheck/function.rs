//! The polynomial a sumcheck runs on, as a function of the evaluations of
//! its multilinear polynomials at one point.
use crate::field::{Fm, P};
use crate::sumcheck::point::values;
use vstd::prelude::*;

verus! {

/// A sumcheck function: a fixed number of slots, one per multilinear
/// polynomial, combined by a function of their evaluations and of some
/// fixed data.
pub trait SumcheckFunction {
    /// The data the function depends on besides the evaluations.
    type Data;

    /// The number of slots.
    spec fn slots() -> nat;

    /// The value of the function at the evaluations `evals`, one per slot
    /// in slot order.
    spec fn function_spec(data: Self::Data, evals: Seq<nat>) -> nat;

    /// The function's values are field elements.
    proof fn lemma_function_canonical(data: Self::Data, evals: Seq<nat>)
        ensures
            Self::function_spec(data, evals) < P,
    ;

    /// Computes the function at `evals`, one per slot in slot order.
    fn function(data: &Self::Data, evals: &[Fm]) -> (r: Fm)
        requires
            evals@.len() == Self::slots(),
        ensures
            r@ == Self::function_spec(*data, values(evals@)),
    ;
}

} // verus!
