//! The composite oracle: two partial oracles sharing the polynomials of a
//! sumcheck function, each answering for the polynomials of its side.
//!
//! The polynomials of a sumcheck function are taken here as a sequence of
//! slots. The nature of a slot says which oracle it belongs to (`Left` for
//! the first, `Right` for the second) and whether the prover provides its
//! evaluation at the final point of the sumcheck (the `bool`).
use crate::field::Fm;
use crate::sumcheck::function::SumcheckFunction;
use crate::sumcheck::oracles::{EvalLocation, Either, OracleEval};
use crate::sumcheck::point::values;
use vstd::prelude::*;

verus! {

/// The nature of one polynomial: its oracle, and whether the prover provides
/// its evaluation.
pub type SlotNature = Either<bool, bool>;

/// The prover provides the evaluation of this polynomial.
pub open spec fn provided(n: SlotNature) -> bool {
    match n {
        Either::Left(p) => p,
        Either::Right(p) => p,
    }
}

/// The polynomial belongs to the first oracle.
pub open spec fn on_left(n: SlotNature) -> bool {
    n is Left
}

/// The number of slots before `s` whose evaluation the prover provides.
pub open spec fn provided_before(natures: Seq<SlotNature>, s: int) -> nat
    decreases s,
{
    if s <= 0 {
        0
    } else {
        provided_before(natures, s - 1) + if provided(natures[s - 1]) {
            1nat
        } else {
            0nat
        }
    }
}

/// Counts never decrease along the slots.
proof fn lemma_provided_before_monotone(natures: Seq<SlotNature>, s: int, t: int)
    requires
        s <= t,
    ensures
        provided_before(natures, s) <= provided_before(natures, t),
    decreases t - s,
{
    if s < t {
        lemma_provided_before_monotone(natures, s, t - 1);
    }
}

/// The side of each slot: `Left(())` for the first oracle, `Right(())` for
/// the second.
pub fn evals_per_oracle(natures: &[SlotNature]) -> (r: Vec<Either<(), ()>>)
    ensures
        r@.len() == natures@.len(),
        forall|s: int| 0 <= s < natures@.len() ==> ((#[trigger] r@[s]) is Left <==> natures@[s] is Left),
{
    let mut sides: Vec<Either<(), ()>> = Vec::new();
    let mut s: usize = 0;
    while s < natures.len()
        invariant
            s <= natures@.len(),
            sides@.len() == s,
            forall|t: int| 0 <= t < s ==> ((#[trigger] sides@[t]) is Left <==> natures@[t] is Left),
        decreases natures@.len() - s,
    {
        match natures[s] {
            Either::Left(_) => sides.push(Either::Left(())),
            Either::Right(_) => sides.push(Either::Right(())),
        }
        s = s + 1;
    }
    sides
}

/// The number of evaluations the prover provides.
pub fn prover_evals_count(natures: &[SlotNature]) -> (r: usize)
    ensures
        r == provided_before(natures@, natures@.len() as int),
{
    let mut count: usize = 0;
    let mut s: usize = 0;
    while s < natures.len()
        invariant
            s <= natures@.len(),
            count == provided_before(natures@, s as int),
            count <= s,
        decreases natures@.len() - s,
    {
        let p = match natures[s] {
            Either::Left(p) => p,
            Either::Right(p) => p,
        };
        if p {
            count = count + 1;
        }
        s = s + 1;
    }
    count
}

/// What one oracle learns of a polynomial from its own answer and the
/// evaluation the prover provided for it.
pub open spec fn answered(query: OracleEval, prover_eval: Option<Fm>) -> Option<Fm> {
    match query {
        OracleEval::Computed(e) => Some(e),
        OracleEval::ProverProvided => prover_eval,
        OracleEval::Absent => None,
    }
}

/// The evaluation the verifier gets for a slot, when exactly the oracle of
/// its side answers for it.
pub open spec fn combined_eval(e1: Option<Fm>, e2: Option<Fm>, nature: SlotNature) -> Option<Fm> {
    match (e1, e2, nature) {
        (None, Some(e), Either::Right(_)) => Some(e),
        (Some(e), None, Either::Left(_)) => Some(e),
        _ => None,
    }
}

/// The prover evaluation of slot `s`, read in order from the provided ones.
pub open spec fn distributed(natures: Seq<SlotNature>, prover_evals: Seq<Fm>, s: int) -> Option<Fm> {
    if provided(natures[s]) {
        Some(prover_evals[provided_before(natures, s) as int])
    } else {
        None
    }
}

/// The verifier's view of a composite query, once the prover's evaluations
/// are received: what each oracle learns of each slot, and the evaluation of
/// each slot.
pub struct VerifierEvals {
    pub evals1: Vec<Option<Fm>>,
    pub evals2: Vec<Option<Fm>>,
    pub evals: Vec<Fm>,
}

/// What the first oracle learns of slot `s`.
pub open spec fn learnt1(
    natures: Seq<SlotNature>,
    sides: Seq<Either<(), ()>>,
    prover_evals: Seq<Fm>,
    query1: Seq<OracleEval>,
    s: int,
) -> Option<Fm> {
    answered(
        query1[s],
        if sides[s] is Left {
            distributed(natures, prover_evals, s)
        } else {
            None
        },
    )
}

/// What the second oracle learns of slot `s`.
pub open spec fn learnt2(
    natures: Seq<SlotNature>,
    sides: Seq<Either<(), ()>>,
    prover_evals: Seq<Fm>,
    query2: Seq<OracleEval>,
    s: int,
) -> Option<Fm> {
    answered(
        query2[s],
        if sides[s] is Left {
            None
        } else {
            distributed(natures, prover_evals, s)
        },
    )
}

/// Slot `s` is answered by the oracle of its nature alone.
pub open spec fn slot_answered(
    natures: Seq<SlotNature>,
    sides: Seq<Either<(), ()>>,
    prover_evals: Seq<Fm>,
    query1: Seq<OracleEval>,
    query2: Seq<OracleEval>,
    s: int,
) -> bool {
    combined_eval(
        learnt1(natures, sides, prover_evals, query1, s),
        learnt2(natures, sides, prover_evals, query2, s),
        natures[s],
    ) is Some
}

/// The oracles answer as their sides say: each slot is answered by the
/// oracle of its nature alone.
pub open spec fn answers_consistent(
    natures: Seq<SlotNature>,
    sides: Seq<Either<(), ()>>,
    prover_evals: Seq<Fm>,
    query1: Seq<OracleEval>,
    query2: Seq<OracleEval>,
) -> bool {
    forall|s: int|
        0 <= s < natures.len() ==> #[trigger] slot_answered(
            natures,
            sides,
            prover_evals,
            query1,
            query2,
            s,
        )
}

/// The verifier's side of a composite query: the prover's evaluations are
/// handed out in order to the provided slots, each to the oracle of its
/// side; each oracle's answers are completed with them; and each slot takes
/// the evaluation of the oracle of its nature.
pub fn verifier_evals(
    natures: &[SlotNature],
    sides: &[Either<(), ()>],
    prover_evals: &[Fm],
    query1: &[OracleEval],
    query2: &[OracleEval],
) -> (r: VerifierEvals)
    requires
        sides@.len() == natures@.len(),
        query1@.len() == natures@.len(),
        query2@.len() == natures@.len(),
        prover_evals@.len() == provided_before(natures@, natures@.len() as int),
        answers_consistent(natures@, sides@, prover_evals@, query1@, query2@),
    ensures
        r.evals1@.len() == natures@.len(),
        r.evals2@.len() == natures@.len(),
        r.evals@.len() == natures@.len(),
        forall|s: int|
            0 <= s < natures@.len() ==> {
                &&& #[trigger] r.evals1@[s] == learnt1(natures@, sides@, prover_evals@, query1@, s)
                &&& r.evals2@[s] == learnt2(natures@, sides@, prover_evals@, query2@, s)
                &&& Some(r.evals@[s]) == combined_eval(r.evals1@[s], r.evals2@[s], natures@[s])
            },
{
    let mut evals1: Vec<Option<Fm>> = Vec::new();
    let mut evals2: Vec<Option<Fm>> = Vec::new();
    let mut evals: Vec<Fm> = Vec::new();
    let mut next: usize = 0;
    let mut s: usize = 0;
    while s < natures.len()
        invariant
            s <= natures@.len(),
            sides@.len() == natures@.len(),
            query1@.len() == natures@.len(),
            query2@.len() == natures@.len(),
            prover_evals@.len() == provided_before(natures@, natures@.len() as int),
            answers_consistent(natures@, sides@, prover_evals@, query1@, query2@),
            next == provided_before(natures@, s as int),
            evals1@.len() == s,
            evals2@.len() == s,
            evals@.len() == s,
            forall|t: int|
                0 <= t < s ==> {
                    &&& #[trigger] evals1@[t] == learnt1(natures@, sides@, prover_evals@, query1@, t)
                    &&& evals2@[t] == learnt2(natures@, sides@, prover_evals@, query2@, t)
                    &&& Some(evals@[t]) == combined_eval(evals1@[t], evals2@[t], natures@[t])
                },
        decreases natures@.len() - s,
    {
        let nature = natures[s];
        let is_provided = match nature {
            Either::Left(p) => p,
            Either::Right(p) => p,
        };
        proof {
            lemma_provided_before_monotone(natures@, s + 1, natures@.len() as int);
        }
        let prover_eval: Option<Fm> = if is_provided {
            let e = prover_evals[next];
            next = next + 1;
            Some(e)
        } else {
            None
        };
        let (in1, in2) = match sides[s] {
            Either::Left(_) => (prover_eval, None),
            Either::Right(_) => (None, prover_eval),
        };
        let e1 = match query1[s] {
            OracleEval::Computed(e) => Some(e),
            OracleEval::ProverProvided => in1,
            OracleEval::Absent => None,
        };
        let e2 = match query2[s] {
            OracleEval::Computed(e) => Some(e),
            OracleEval::ProverProvided => in2,
            OracleEval::Absent => None,
        };
        proof {
            assert(slot_answered(natures@, sides@, prover_evals@, query1@, query2@, s as int));
            assert(e1 == learnt1(natures@, sides@, prover_evals@, query1@, s as int));
            assert(e2 == learnt2(natures@, sides@, prover_evals@, query2@, s as int));
            assert(combined_eval(e1, e2, nature) is Some);
        }
        let e = match (e1, e2, nature) {
            (None, Some(e), Either::Right(_)) => e,
            (Some(e), None, Either::Left(_)) => e,
            _ => {
                proof {
                    assert(false);
                }
                Fm::zero()
            },
        };
        evals1.push(e1);
        evals2.push(e2);
        evals.push(e);
        s = s + 1;
    }
    VerifierEvals { evals1, evals2, evals }
}

/// The verifier's conclusion of a composite query: the query holds exactly
/// when the sumcheck function of the slot evaluations is the claimed
/// evaluation, and the queries to the two oracles are then what each learnt.
pub fn verify_query(
    evals: VerifierEvals,
    function_eval: Fm,
    expected_eval: Fm,
) -> (r: Result<(Vec<Option<Fm>>, Vec<Option<Fm>>), ()>)
    ensures
        r is Ok <==> function_eval@ == expected_eval@,
        r matches Ok(q) ==> q.0@ == evals.evals1@ && q.1@ == evals.evals2@,
{
    if function_eval.equals(&expected_eval) {
        Ok((evals.evals1, evals.evals2))
    } else {
        Err(())
    }
}

/// The side of each slot, as its nature says.
pub open spec fn sides_of(natures: Seq<SlotNature>) -> Seq<Either<(), ()>> {
    Seq::new(
        natures.len(),
        |s: int|
            if natures[s] is Left {
                Either::Left(())
            } else {
                Either::Right(())
            },
    )
}

/// The evaluation the verifier assembles for every slot.
pub open spec fn slot_evals(
    natures: Seq<SlotNature>,
    prover_evals: Seq<Fm>,
    query1: Seq<OracleEval>,
    query2: Seq<OracleEval>,
) -> Seq<nat> {
    Seq::new(
        natures.len(),
        |s: int|
            combined_eval(
                learnt1(natures, sides_of(natures), prover_evals, query1, s),
                learnt2(natures, sides_of(natures), prover_evals, query2, s),
                natures[s],
            ).unwrap()@,
    )
}

/// The sides computed from the natures are [`sides_of`].
proof fn lemma_sides_of(natures: Seq<SlotNature>, sides: Seq<Either<(), ()>>)
    requires
        sides.len() == natures.len(),
        forall|s: int| 0 <= s < natures.len() ==> ((#[trigger] sides[s]) is Left <==> natures[s] is Left),
    ensures
        sides == sides_of(natures),
{
    assert forall|s: int| 0 <= s < natures.len() implies #[trigger] sides[s] == sides_of(natures)[s] by {
        match sides[s] {
            Either::Left(u) => {
                assert(u == ());
            },
            Either::Right(u) => {
                assert(u == ());
            },
        }
    }
    assert(sides =~= sides_of(natures));
}

/// The verifier of a composite query: the prover's evaluations are handed
/// out to the two oracles, the evaluation of every slot is assembled, and
/// the query is accepted exactly when the sumcheck function of these
/// evaluations is the claimed evaluation; the queries to the two oracles are
/// then what each learnt.
pub fn composite_verify<SF: SumcheckFunction>(
    data: &SF::Data,
    natures: &[SlotNature],
    prover_evals: &[Fm],
    query1: &[OracleEval],
    query2: &[OracleEval],
    expected_eval: Fm,
) -> (r: Result<(Vec<Option<Fm>>, Vec<Option<Fm>>), ()>)
    requires
        natures@.len() == SF::slots(),
        query1@.len() == natures@.len(),
        query2@.len() == natures@.len(),
        prover_evals@.len() == provided_before(natures@, natures@.len() as int),
        answers_consistent(natures@, sides_of(natures@), prover_evals@, query1@, query2@),
    ensures
        r is Ok <==> SF::function_spec(*data, slot_evals(natures@, prover_evals@, query1@, query2@))
            == expected_eval@,
        r matches Ok(q) ==> {
            &&& q.0@.len() == natures@.len()
            &&& q.1@.len() == natures@.len()
            &&& forall|s: int|
                0 <= s < natures@.len() ==> {
                    &&& #[trigger] q.0@[s] == learnt1(
                        natures@,
                        sides_of(natures@),
                        prover_evals@,
                        query1@,
                        s,
                    )
                    &&& q.1@[s] == learnt2(natures@, sides_of(natures@), prover_evals@, query2@, s)
                }
        },
{
    let sides = evals_per_oracle(natures);
    proof {
        lemma_sides_of(natures@, sides@);
    }
    let assembled = verifier_evals(natures, sides.as_slice(), prover_evals, query1, query2);
    proof {
        assert forall|t: int| 0 <= t < natures@.len() implies #[trigger] values(assembled.evals@)[t]
            == slot_evals(natures@, prover_evals@, query1@, query2@)[t] by {
            assert(Some(assembled.evals@[t]) == combined_eval(
                assembled.evals1@[t],
                assembled.evals2@[t],
                natures@[t],
            ));
        }
        assert(values(assembled.evals@) =~= slot_evals(natures@, prover_evals@, query1@, query2@));
    }
    let function_eval = SF::function(data, assembled.evals.as_slice());
    verify_query(assembled, function_eval, expected_eval)
}

/// The prover of a composite query on a claim that holds: the claimed
/// evaluation is the sumcheck function of the evaluations, each oracle is
/// told the evaluations it answers for, and the prover sends those of the
/// slots it provides, in slot order.
pub fn composite_prove<SF: SumcheckFunction>(
    data: &SF::Data,
    natures: &[SlotNature],
    evals: &[Fm],
    query1: &[OracleEval],
    query2: &[OracleEval],
    instance_eval: Fm,
) -> (r: ProverQuery)
    requires
        natures@.len() == SF::slots(),
        evals@.len() == natures@.len(),
        query1@.len() == natures@.len(),
        query2@.len() == natures@.len(),
        SF::function_spec(*data, values(evals@)) == instance_eval@,
        prover_answers_consistent(natures@, sides_of(natures@), evals@, query1@, query2@),
    ensures
        r.evals1@.len() == natures@.len(),
        r.evals2@.len() == natures@.len(),
        r.prover_evals@.len() == provided_before(natures@, natures@.len() as int),
        forall|s: int|
            0 <= s < natures@.len() ==> {
                &&& #[trigger] r.evals1@[s] == prover_answered(query1@[s], evals@[s])
                &&& r.evals2@[s] == prover_answered(query2@[s], evals@[s])
                &&& provided(natures@[s]) ==> r.prover_evals@[provided_before(natures@, s) as int]
                    == evals@[s]
            },
{
    let sides = evals_per_oracle(natures);
    proof {
        lemma_sides_of(natures@, sides@);
    }
    prover_evals(natures, sides.as_slice(), evals, query1, query2)
}

/// Law: the composite verifier accepts what the composite prover sends.
/// When the claim holds of the evaluations, each oracle computes only true
/// evaluations and answers the slots of its side, and leaves to the prover
/// only slots whose nature says the prover provides them, then on the
/// evaluations the prover sends the verifier's answers are consistent, its
/// assembled evaluations are the true ones, so it accepts, and each oracle
/// learns what the prover told it.
pub proof fn lemma_composite_prove_verify<SF: SumcheckFunction>(
    data: SF::Data,
    natures: Seq<SlotNature>,
    evals: Seq<Fm>,
    query1: Seq<OracleEval>,
    query2: Seq<OracleEval>,
    instance_eval: Fm,
    sent: Seq<Fm>,
)
    requires
        natures.len() == SF::slots(),
        evals.len() == natures.len(),
        query1.len() == natures.len(),
        query2.len() == natures.len(),
        SF::function_spec(data, values(evals)) == instance_eval@,
        prover_answers_consistent(natures, sides_of(natures), evals, query1, query2),
        forall|s: int|
            0 <= s < natures.len() ==> ((#[trigger] query1[s]) is ProverProvided
                || query2[s] is ProverProvided) ==> provided(natures[s]),
        sent.len() == provided_before(natures, natures.len() as int),
        forall|s: int|
            0 <= s < natures.len() ==> provided(#[trigger] natures[s]) ==> sent[provided_before(
                natures,
                s,
            ) as int] == evals[s],
    ensures
        answers_consistent(natures, sides_of(natures), sent, query1, query2),
        slot_evals(natures, sent, query1, query2) == values(evals),
        SF::function_spec(data, slot_evals(natures, sent, query1, query2)) == instance_eval@,
        forall|s: int|
            0 <= s < natures.len() ==> {
                &&& #[trigger] learnt1(natures, sides_of(natures), sent, query1, s)
                    == prover_answered(query1[s], evals[s])
                &&& learnt2(natures, sides_of(natures), sent, query2, s) == prover_answered(
                    query2[s],
                    evals[s],
                )
            },
{
    let sides = sides_of(natures);
    lemma_composite_query_complete(natures, sides, evals, query1, query2, sent);
    assert forall|s: int| 0 <= s < natures.len() implies #[trigger] slot_evals(
        natures,
        sent,
        query1,
        query2,
    )[s] == values(evals)[s] by {
        assert(combined_eval(
            learnt1(natures, sides, sent, query1, s),
            learnt2(natures, sides, sent, query2, s),
            natures[s],
        ) == Some(evals[s]));
    }
    assert(slot_evals(natures, sent, query1, query2) =~= values(evals));
}

/// The oracle answers of the prover are consistent with the evaluations and
/// with the sides: an oracle computing an evaluation computes the true one,
/// and each slot is answered by the oracle of its side alone.
pub open spec fn prover_answers_consistent(
    natures: Seq<SlotNature>,
    sides: Seq<Either<(), ()>>,
    evals: Seq<Fm>,
    query1: Seq<OracleEval>,
    query2: Seq<OracleEval>,
) -> bool {
    forall|s: int|
        0 <= s < natures.len() ==> {
            &&& (#[trigger] query1[s] matches OracleEval::Computed(e) ==> e == evals[s])
            &&& (query2[s] matches OracleEval::Computed(e) ==> e == evals[s])
            &&& (sides[s] is Left ==> !(query1[s] is Absent) && query2[s] is Absent)
            &&& (sides[s] is Right ==> query1[s] is Absent && !(query2[s] is Absent))
        }
}

/// What an oracle is told of a polynomial by the prover: its evaluation,
/// unless the oracle does not answer for it.
pub open spec fn prover_answered(query: OracleEval, eval: Fm) -> Option<Fm> {
    match query {
        OracleEval::Computed(e) => Some(e),
        OracleEval::ProverProvided => Some(eval),
        OracleEval::Absent => None,
    }
}

/// The prover's side of a composite query.
pub struct ProverQuery {
    pub evals1: Vec<Option<Fm>>,
    pub evals2: Vec<Option<Fm>>,
    pub prover_evals: Vec<Fm>,
}

/// The prover's side of a composite query: each oracle is told the
/// evaluations it answers for, and the prover sends, in slot order, the
/// evaluations of the slots whose nature says it provides them.
pub fn prover_evals(
    natures: &[SlotNature],
    sides: &[Either<(), ()>],
    evals: &[Fm],
    query1: &[OracleEval],
    query2: &[OracleEval],
) -> (r: ProverQuery)
    requires
        sides@.len() == natures@.len(),
        evals@.len() == natures@.len(),
        query1@.len() == natures@.len(),
        query2@.len() == natures@.len(),
        prover_answers_consistent(natures@, sides@, evals@, query1@, query2@),
    ensures
        r.evals1@.len() == natures@.len(),
        r.evals2@.len() == natures@.len(),
        r.prover_evals@.len() == provided_before(natures@, natures@.len() as int),
        forall|s: int|
            0 <= s < natures@.len() ==> {
                &&& #[trigger] r.evals1@[s] == prover_answered(query1@[s], evals@[s])
                &&& r.evals2@[s] == prover_answered(query2@[s], evals@[s])
                &&& provided(natures@[s]) ==> r.prover_evals@[provided_before(natures@, s) as int]
                    == evals@[s]
            },
{
    let mut evals1: Vec<Option<Fm>> = Vec::new();
    let mut evals2: Vec<Option<Fm>> = Vec::new();
    let mut sent: Vec<Fm> = Vec::new();
    let mut s: usize = 0;
    while s < natures.len()
        invariant
            s <= natures@.len(),
            sides@.len() == natures@.len(),
            evals@.len() == natures@.len(),
            query1@.len() == natures@.len(),
            query2@.len() == natures@.len(),
            prover_answers_consistent(natures@, sides@, evals@, query1@, query2@),
            sent@.len() == provided_before(natures@, s as int),
            evals1@.len() == s,
            evals2@.len() == s,
            forall|t: int|
                0 <= t < s ==> {
                    &&& #[trigger] evals1@[t] == prover_answered(query1@[t], evals@[t])
                    &&& evals2@[t] == prover_answered(query2@[t], evals@[t])
                    &&& provided(natures@[t]) ==> sent@[provided_before(natures@, t) as int]
                        == evals@[t]
                },
        decreases natures@.len() - s,
    {
        let eval = evals[s];
        let e1 = match query1[s] {
            OracleEval::Computed(e) => Some(e),
            OracleEval::ProverProvided => Some(eval),
            OracleEval::Absent => None,
        };
        let e2 = match query2[s] {
            OracleEval::Computed(e) => Some(e),
            OracleEval::ProverProvided => Some(eval),
            OracleEval::Absent => None,
        };
        let is_provided = match natures[s] {
            Either::Left(p) => p,
            Either::Right(p) => p,
        };
        let ghost before = sent@;
        if is_provided {
            let value = match sides[s] {
                Either::Left(_) => e1,
                Either::Right(_) => e2,
            };
            match value {
                Some(v) => sent.push(v),
                None => {
                    proof {
                        assert(false);
                    }
                },
            }
        }
        proof {
            assert forall|t: int| 0 <= t < s && provided(natures@[t]) implies sent@[provided_before(
                natures@,
                t,
            ) as int] == evals@[t] by {
                lemma_provided_before_monotone(natures@, t + 1, s as int);
                assert(evals1@[t] == prover_answered(query1@[t], evals@[t]));
                assert(sent@[provided_before(natures@, t) as int] == before[provided_before(
                    natures@,
                    t,
                ) as int]);
            }
        }
        evals1.push(e1);
        evals2.push(e2);
        s = s + 1;
    }
    ProverQuery { evals1, evals2, prover_evals: sent }
}

/// A composite query is complete: when both sides get the same answers from
/// the two oracles, the sides follow the natures, and an oracle leaves to the
/// prover only evaluations that the prover provides, then the evaluations the
/// prover sends make the verifier learn, for every slot, what the prover told
/// each oracle, and recover the evaluation of every slot.
pub proof fn lemma_composite_query_complete(
    natures: Seq<SlotNature>,
    sides: Seq<Either<(), ()>>,
    evals: Seq<Fm>,
    query1: Seq<OracleEval>,
    query2: Seq<OracleEval>,
    sent: Seq<Fm>,
)
    requires
        sides.len() == natures.len(),
        evals.len() == natures.len(),
        query1.len() == natures.len(),
        query2.len() == natures.len(),
        prover_answers_consistent(natures, sides, evals, query1, query2),
        forall|s: int| 0 <= s < natures.len() ==> ((#[trigger] sides[s]) is Left <==> natures[s] is Left),
        forall|s: int|
            0 <= s < natures.len() ==> ((#[trigger] query1[s]) is ProverProvided
                || query2[s] is ProverProvided) ==> provided(natures[s]),
        sent.len() == provided_before(natures, natures.len() as int),
        forall|s: int|
            0 <= s < natures.len() ==> provided(#[trigger] natures[s]) ==> sent[provided_before(
                natures,
                s,
            ) as int] == evals[s],
    ensures
        answers_consistent(natures, sides, sent, query1, query2),
        forall|s: int|
            0 <= s < natures.len() ==> {
                &&& #[trigger] learnt1(natures, sides, sent, query1, s) == prover_answered(
                    query1[s],
                    evals[s],
                )
                &&& learnt2(natures, sides, sent, query2, s) == prover_answered(query2[s], evals[s])
                &&& combined_eval(
                    learnt1(natures, sides, sent, query1, s),
                    learnt2(natures, sides, sent, query2, s),
                    natures[s],
                ) == Some(evals[s])
            },
{
    assert forall|s: int| 0 <= s < natures.len() implies {
        &&& #[trigger] learnt1(natures, sides, sent, query1, s) == prover_answered(
            query1[s],
            evals[s],
        )
        &&& learnt2(natures, sides, sent, query2, s) == prover_answered(query2[s], evals[s])
        &&& combined_eval(
            learnt1(natures, sides, sent, query1, s),
            learnt2(natures, sides, sent, query2, s),
            natures[s],
        ) == Some(evals[s])
    } by {
        assert(sides[s] is Left <==> natures[s] is Left);
        assert(query1[s] matches OracleEval::Computed(e) ==> e == evals[s]);
        if query1[s] is ProverProvided || query2[s] is ProverProvided {
            assert(provided(natures[s]));
        }
    }
    assert forall|s: int| 0 <= s < natures.len() implies #[trigger] slot_answered(
        natures,
        sides,
        sent,
        query1,
        query2,
        s,
    ) by {
        assert(learnt1(natures, sides, sent, query1, s) == prover_answered(query1[s], evals[s]));
    }
}

/// The instance evaluations of a composite oracle: each slot takes the
/// instance evaluation of the oracle of its nature.
pub fn instance_evals(natures: &[SlotNature], evals1: &[Fm], evals2: &[Fm]) -> (r: Vec<Fm>)
    requires
        evals1@.len() == natures@.len(),
        evals2@.len() == natures@.len(),
    ensures
        r@.len() == natures@.len(),
        forall|s: int|
            0 <= s < natures@.len() ==> #[trigger] r@[s] == if natures@[s] is Left {
                evals1@[s]
            } else {
                evals2@[s]
            },
{
    let mut evals: Vec<Fm> = Vec::new();
    let mut s: usize = 0;
    while s < natures.len()
        invariant
            s <= natures@.len(),
            evals1@.len() == natures@.len(),
            evals2@.len() == natures@.len(),
            evals@.len() == s,
            forall|t: int|
                0 <= t < s ==> #[trigger] evals@[t] == if natures@[t] is Left {
                    evals1@[t]
                } else {
                    evals2@[t]
                },
        decreases natures@.len() - s,
    {
        match natures[s] {
            Either::Left(_) => evals.push(evals1[s]),
            Either::Right(_) => evals.push(evals2[s]),
        }
        s = s + 1;
    }
    evals
}

/// The evaluation of every polynomial at a point, from where it lives: the
/// instance, the witness or the structure.
pub fn located_evals(
    locations: &[EvalLocation],
    instance: &[Fm],
    witness: &[Fm],
    structure: &[Fm],
) -> (r: Vec<Fm>)
    requires
        instance@.len() == locations@.len(),
        witness@.len() == locations@.len(),
        structure@.len() == locations@.len(),
    ensures
        r@.len() == locations@.len(),
        forall|s: int|
            0 <= s < locations@.len() ==> #[trigger] r@[s] == match locations@[s] {
                EvalLocation::Instance => instance@[s],
                EvalLocation::Witness => witness@[s],
                EvalLocation::Structure => structure@[s],
            },
{
    let mut evals: Vec<Fm> = Vec::new();
    let mut s: usize = 0;
    while s < locations.len()
        invariant
            s <= locations@.len(),
            instance@.len() == locations@.len(),
            witness@.len() == locations@.len(),
            structure@.len() == locations@.len(),
            evals@.len() == s,
            forall|t: int|
                0 <= t < s ==> #[trigger] evals@[t] == match locations@[t] {
                    EvalLocation::Instance => instance@[t],
                    EvalLocation::Witness => witness@[t],
                    EvalLocation::Structure => structure@[t],
                },
        decreases locations@.len() - s,
    {
        match locations[s] {
            EvalLocation::Instance => evals.push(instance[s]),
            EvalLocation::Witness => evals.push(witness[s]),
            EvalLocation::Structure => evals.push(structure[s]),
        }
        s = s + 1;
    }
    evals
}

/// The answer of a composite oracle used as a partial oracle: whichever of
/// its two oracles answers for the slot.
pub open spec fn merged_answer(a: OracleEval, b: OracleEval) -> OracleEval {
    match (a, b) {
        (OracleEval::Computed(e), OracleEval::Absent) => OracleEval::Computed(e),
        (OracleEval::Absent, OracleEval::Computed(e)) => OracleEval::Computed(e),
        (OracleEval::ProverProvided, OracleEval::Absent) => OracleEval::ProverProvided,
        (OracleEval::Absent, OracleEval::ProverProvided) => OracleEval::ProverProvided,
        _ => OracleEval::Absent,
    }
}

/// At most one of two oracles answers for a slot.
pub open spec fn answers_disjoint(a: OracleEval, b: OracleEval) -> bool {
    a is Absent || b is Absent
}

/// The answers of a composite oracle used as a partial oracle.
pub fn merged_answers(answers1: &[OracleEval], answers2: &[OracleEval]) -> (r: Vec<OracleEval>)
    requires
        answers2@.len() == answers1@.len(),
        forall|s: int|
            0 <= s < answers1@.len() ==> answers_disjoint(#[trigger] answers1@[s], answers2@[s]),
    ensures
        r@.len() == answers1@.len(),
        forall|s: int|
            0 <= s < answers1@.len() ==> #[trigger] r@[s] == merged_answer(answers1@[s], answers2@[s]),
{
    let mut merged: Vec<OracleEval> = Vec::new();
    let mut s: usize = 0;
    while s < answers1.len()
        invariant
            s <= answers1@.len(),
            answers2@.len() == answers1@.len(),
            merged@.len() == s,
            forall|t: int|
                0 <= t < s ==> #[trigger] merged@[t] == merged_answer(answers1@[t], answers2@[t]),
        decreases answers1@.len() - s,
    {
        let m = match (answers1[s], answers2[s]) {
            (OracleEval::Computed(e), OracleEval::Absent) => OracleEval::Computed(e),
            (OracleEval::Absent, OracleEval::Computed(e)) => OracleEval::Computed(e),
            (OracleEval::ProverProvided, OracleEval::Absent) => OracleEval::ProverProvided,
            (OracleEval::Absent, OracleEval::ProverProvided) => OracleEval::ProverProvided,
            _ => OracleEval::Absent,
        };
        merged.push(m);
        s = s + 1;
    }
    merged
}

} // verus!
