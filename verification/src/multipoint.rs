//! Batching openings of `N` committed polynomials at `N` different points
//! into one sumcheck.
//!
//! With a random challenge `c`, the claims `w_i(r_i) = v_i` are combined into
//! `sum_x sum_i c^(N-1-i) eq(r_i, x) w_i(x) = sum_i c^(N-1-i) v_i`, the
//! left-hand side being the sum over the hypercube of the polynomial that
//! [`MultipointEvals::function`] evaluates.
use crate::field::{fadd, fmul, Fm};
use crate::sums::{
    column_sums, fsum, horner, horner_row, horner_row_fn, lemma_fsum_ext, lemma_sum_of_horner,
};
use crate::sumcheck::composite::{composite_verify, learnt1, learnt2, provided_before, sides_of, slot_evals, SlotNature, answers_consistent, combined_eval};
use crate::sumcheck::function::SumcheckFunction;
use crate::sumcheck::oracles::{Either, OracleEval};
use crate::sumcheck::point::{eq_eval, eq_table, eq_table_entry, values, MultiPoint};
use crate::sumcheck::protocol::{
    message_values, prover_run, rows_ok, sumcheck_prove, sumcheck_verify, table_values,
    verifier_run, Duplex, SumcheckError,
};
use std::marker::PhantomData;
use vstd::arithmetic::power2::pow2;
use vstd::prelude::*;

verus! {

/// `eq_0 w_0`, then `acc * c + eq_i w_i`: the batched polynomial at one
/// point of the hypercube.
pub open spec fn multipoint_function(eqs: Seq<nat>, commitments: Seq<nat>, c: nat) -> nat
    decreases eqs.len(),
{
    if eqs.len() <= 1 {
        if eqs.len() == 1 {
            fmul(eqs[0], commitments[0])
        } else {
            0
        }
    } else {
        let k = eqs.len() - 1;
        fadd(
            fmul(multipoint_function(eqs.drop_last(), commitments, c), c),
            fmul(eqs[k], commitments[k]),
        )
    }
}

/// The polynomials of the batched sumcheck: the committed polynomials, the
/// equality polynomials of their points, and the challenge.
#[derive(Clone, Debug)]
pub struct MultipointEvals<V, const N: usize> {
    /// One per opening.
    pub commitments: Vec<V>,
    /// One per opening.
    pub eqs: Vec<V>,
    pub challenge: V,
}

impl<V, const N: usize> MultipointEvals<V, N> {
    /// One polynomial of each kind per opening.
    pub open spec fn wf(&self) -> bool {
        &&& self.commitments@.len() == N
        &&& self.eqs@.len() == N
    }
}

/// `n` zeros.
fn zeros(n: usize) -> (r: Vec<Fm>)
    ensures
        r@.len() == n,
        forall|k: int| 0 <= k < n ==> (#[trigger] r@[k])@ == 0,
{
    let mut res: Vec<Fm> = Vec::new();
    let mut k: usize = 0;
    while k < n
        invariant
            k <= n,
            res@.len() == k,
            forall|j: int| 0 <= j < k ==> (#[trigger] res@[j])@ == 0,
        decreases n - k,
    {
        res.push(Fm::zero());
        k = k + 1;
    }
    res
}

impl<const N: usize> MultipointEvals<Fm, N> {
    /// All evaluations zero.
    pub fn zero() -> (r: Self)
        ensures
            r.wf(),
            forall|i: int| 0 <= i < N ==> (#[trigger] r.commitments@[i])@ == 0,
            forall|i: int| 0 <= i < N ==> (#[trigger] r.eqs@[i])@ == 0,
            r.challenge@ == 0,
    {
        MultipointEvals { commitments: zeros(N), eqs: zeros(N), challenge: Fm::zero() }
    }

    /// The batched polynomial at one point: `eq_0 w_0`, then
    /// `acc * challenge + eq_i w_i` for each further opening.
    pub fn function(&self) -> (r: Fm)
        requires
            self.wf(),
            N >= 1,
        ensures
            r@ == multipoint_function(values(self.eqs@), values(self.commitments@), self.challenge@),
    {
        let ghost eqs = values(self.eqs@);
        let ghost cs = values(self.commitments@);
        let mut acc = self.eqs[0].mul(self.commitments[0]);
        let mut k: usize = 1;
        proof {
            assert(eqs.take(1).len() == 1);
        }
        while k < N
            invariant
                1 <= k <= N,
                self.wf(),
                eqs == values(self.eqs@),
                cs == values(self.commitments@),
                acc@ == multipoint_function(eqs.take(k as int), cs, self.challenge@),
            decreases N - k,
        {
            let term = self.eqs[k].mul(self.commitments[k]);
            proof {
                let t = eqs.take(k + 1);
                assert(t.drop_last() =~= eqs.take(k as int));
                assert(t[k as int] == self.eqs@[k as int]@);
            }
            acc = acc.mul(self.challenge).add(term);
            k = k + 1;
        }
        proof {
            assert(eqs.take(N as int) =~= eqs);
        }
        acc
    }
}

/// The claimed evaluations combined by powers of the challenge: the sum the
/// batched sumcheck starts from.
pub fn batched_sum(evals: &[Fm], challenge: Fm) -> (r: Fm)
    ensures
        r@ == horner(values(evals@), challenge@),
{
    let ghost vals = values(evals@);
    let mut acc = Fm::zero();
    let mut k: usize = 0;
    proof {
        assert(vals.take(0) =~= Seq::<nat>::empty());
    }
    while k < evals.len()
        invariant
            k <= evals@.len(),
            vals == values(evals@),
            acc@ == horner(vals.take(k as int), challenge@),
        decreases evals@.len() - k,
    {
        proof {
            let t = vals.take(k + 1);
            assert(t.drop_last() =~= vals.take(k as int));
        }
        acc = acc.mul(challenge).add(evals[k]);
        k = k + 1;
    }
    proof {
        assert(vals.take(evals@.len() as int) =~= vals);
    }
    acc
}

/// The witness of the batched sumcheck: at row `x`, the entries `w_i[x]` and
/// the equality tables `eq(r_i, x)`, zero where a table is shorter.
pub fn sumcheck_witness<const N: usize>(witness: &[Vec<Fm>], points: &[MultiPoint]) -> (r: Vec<
    MultipointEvals<Fm, N>,
>)
    requires
        N >= 1,
        witness@.len() == N,
        points@.len() == N,
        forall|i: int| 0 <= i < N ==> (#[trigger] witness@[i])@.len() == witness@[0]@.len(),
        forall|i: int| 0 <= i < N ==> pow2((#[trigger] points@[i])@.len()) <= usize::MAX,
    ensures
        r@.len() == witness@[0]@.len(),
        forall|x: int|
            0 <= x < r@.len() ==> {
                &&& (#[trigger] r@[x]).wf()
                &&& r@[x].challenge@ == 0
                &&& forall|i: int|
                    0 <= i < N ==> (#[trigger] r@[x].commitments@[i]) == witness@[i]@[x]
                &&& forall|i: int|
                    0 <= i < N ==> (#[trigger] r@[x].eqs@[i])@ == if x < pow2(points@[i]@.len()) {
                        eq_table_entry(values(points@[i]@), x as nat)
                    } else {
                        0
                    }
            },
{
    let len = witness[0].len();
    let mut tables: Vec<Vec<Fm>> = Vec::new();
    let mut i: usize = 0;
    while i < N
        invariant
            i <= N,
            points@.len() == N,
            forall|j: int| 0 <= j < N ==> pow2((#[trigger] points@[j])@.len()) <= usize::MAX,
            tables@.len() == i,
            forall|j: int|
                0 <= j < i ==> {
                    &&& (#[trigger] tables@[j])@.len() == pow2(points@[j]@.len())
                    &&& forall|x: int|
                        0 <= x < tables@[j]@.len() ==> (#[trigger] tables@[j]@[x])@
                            == eq_table_entry(values(points@[j]@), x as nat)
                },
        decreases N - i,
    {
        let table = eq_table(points[i].inner_ref());
        tables.push(table);
        i = i + 1;
    }
    let mut res: Vec<MultipointEvals<Fm, N>> = Vec::new();
    let mut x: usize = 0;
    while x < len
        invariant
            x <= len,
            len == witness@[0]@.len(),
            witness@.len() == N,
            points@.len() == N,
            forall|j: int| 0 <= j < N ==> (#[trigger] witness@[j])@.len() == len,
            tables@.len() == N,
            forall|j: int|
                0 <= j < N ==> {
                    &&& (#[trigger] tables@[j])@.len() == pow2(points@[j]@.len())
                    &&& forall|y: int|
                        0 <= y < tables@[j]@.len() ==> (#[trigger] tables@[j]@[y])@
                            == eq_table_entry(values(points@[j]@), y as nat)
                },
            res@.len() == x,
            forall|y: int|
                0 <= y < x ==> {
                    &&& (#[trigger] res@[y]).wf()
                    &&& res@[y].challenge@ == 0
                    &&& forall|i: int|
                        0 <= i < N ==> (#[trigger] res@[y].commitments@[i]) == witness@[i]@[y]
                    &&& forall|i: int|
                        0 <= i < N ==> (#[trigger] res@[y].eqs@[i])@ == if y < pow2(
                            points@[i]@.len(),
                        ) {
                            eq_table_entry(values(points@[i]@), y as nat)
                        } else {
                            0
                        }
                },
        decreases len - x,
    {
        let mut commitments: Vec<Fm> = Vec::new();
        let mut eqs: Vec<Fm> = Vec::new();
        let mut i: usize = 0;
        while i < N
            invariant
                i <= N,
                x < len,
                witness@.len() == N,
                forall|j: int| 0 <= j < N ==> (#[trigger] witness@[j])@.len() == len,
                tables@.len() == N,
                forall|j: int|
                    0 <= j < N ==> {
                        &&& (#[trigger] tables@[j])@.len() == pow2(points@[j]@.len())
                        &&& forall|y: int|
                            0 <= y < tables@[j]@.len() ==> (#[trigger] tables@[j]@[y])@
                                == eq_table_entry(values(points@[j]@), y as nat)
                    },
                commitments@.len() == i,
                eqs@.len() == i,
                forall|j: int| 0 <= j < i ==> (#[trigger] commitments@[j]) == witness@[j]@[x as int],
                forall|j: int|
                    0 <= j < i ==> (#[trigger] eqs@[j])@ == if x < pow2(points@[j]@.len()) {
                        eq_table_entry(values(points@[j]@), x as nat)
                    } else {
                        0
                    },
            decreases N - i,
        {
            commitments.push(witness[i][x]);
            if x < tables[i].len() {
                eqs.push(tables[i][x]);
            } else {
                eqs.push(Fm::zero());
            }
            i = i + 1;
        }
        res.push(MultipointEvals { commitments, eqs, challenge: Fm::zero() });
        x = x + 1;
    }
    res
}

/// The coefficients of the equality polynomials, known to the verifier: the
/// points, and the challenge.
pub fn core_coefficients<const N: usize>(points: Vec<MultiPoint>, challenge: Fm) -> (r:
    MultipointEvals<Vec<Fm>, N>)
    requires
        points@.len() == N,
    ensures
        r.wf(),
        forall|i: int| 0 <= i < N ==> (#[trigger] r.commitments@[i])@.len() == 0,
        forall|i: int| 0 <= i < N ==> (#[trigger] r.eqs@[i])@ == points@[i]@,
        r.challenge@ == seq![challenge],
{
    let mut commitments: Vec<Vec<Fm>> = Vec::new();
    let mut eqs: Vec<Vec<Fm>> = Vec::new();
    let mut points = points;
    let ghost initial = points@;
    let mut i: usize = 0;
    while i < N
        invariant
            i <= N,
            initial.len() == N,
            points@ == initial.subrange(i as int, N as int),
            commitments@.len() == i,
            eqs@.len() == i,
            forall|j: int| 0 <= j < i ==> (#[trigger] commitments@[j])@.len() == 0,
            forall|j: int| 0 <= j < i ==> (#[trigger] eqs@[j])@ == initial[j]@,
        decreases N - i,
    {
        let point = points.remove(0);
        proof {
            assert(points@ =~= initial.subrange(i + 1, N as int));
        }
        commitments.push(Vec::new());
        eqs.push(point.inner());
        i = i + 1;
    }
    let mut c: Vec<Fm> = Vec::new();
    c.push(challenge);
    proof {
        assert(c@ =~= seq![challenge]);
    }
    MultipointEvals { commitments, eqs, challenge: c }
}

/// The commitments of the committed oracle: the commitment of each opening
/// for its polynomial, none for the equality polynomials and the challenge.
pub fn committed_commitments<D: Copy, const N: usize>(commits: &[D]) -> (r: MultipointEvals<
    Option<D>,
    N,
>)
    requires
        commits@.len() == N,
    ensures
        r.wf(),
        forall|i: int| 0 <= i < N ==> #[trigger] r.commitments@[i] == Some(commits@[i]),
        forall|i: int| 0 <= i < N ==> #[trigger] r.eqs@[i] is None,
        r.challenge is None,
{
    let mut commitments: Vec<Option<D>> = Vec::new();
    let mut eqs: Vec<Option<D>> = Vec::new();
    let mut i: usize = 0;
    while i < N
        invariant
            i <= N,
            commits@.len() == N,
            commitments@.len() == i,
            eqs@.len() == i,
            forall|j: int| 0 <= j < i ==> #[trigger] commitments@[j] == Some(commits@[j]),
            forall|j: int| 0 <= j < i ==> #[trigger] eqs@[j] is None,
        decreases N - i,
    {
        commitments.push(Some(commits[i]));
        eqs.push(None);
        i = i + 1;
    }
    MultipointEvals { commitments, eqs, challenge: None }
}

/// The slots of a row in order: the committed polynomials, the equality
/// polynomials, the challenge.
pub open spec fn multipoint_slots<const N: usize>(row: MultipointEvals<Fm, N>) -> Seq<nat> {
    values(row.commitments@) + values(row.eqs@) + seq![row.challenge@]
}

impl<const N: usize> SumcheckFunction for MultipointEvals<Fm, N> {
    type Data = ();

    /// `N` committed polynomials, `N` equality polynomials, the challenge.
    open spec fn slots() -> nat {
        (2 * N + 1) as nat
    }

    open spec fn function_spec(data: (), evals: Seq<nat>) -> nat {
        multipoint_function(evals.subrange(N as int, 2 * N), evals.take(N as int), evals[2 * N])
    }

    proof fn lemma_function_canonical(data: (), evals: Seq<nat>) {
    }

    fn function(data: &(), evals: &[Fm]) -> (r: Fm) {
        let mut commitments: Vec<Fm> = Vec::new();
        let mut eqs: Vec<Fm> = Vec::new();
        let mut i: usize = 0;
        while i < N
            invariant
                i <= N,
                evals@.len() == 2 * N + 1,
                commitments@ == evals@.take(i as int),
                eqs@ == evals@.subrange(N as int, N + i),
            decreases N - i,
        {
            commitments.push(evals[i]);
            eqs.push(evals[N + i]);
            i = i + 1;
            proof {
                assert(commitments@ =~= evals@.take(i as int));
                assert(eqs@ =~= evals@.subrange(N as int, N + i));
            }
        }
        let row = MultipointEvals::<Fm, N> { commitments, eqs, challenge: evals[2 * N] };
        proof {
            assert(values(row.commitments@) =~= values(evals@).take(N as int));
            assert(values(row.eqs@) =~= values(evals@).subrange(N as int, 2 * N));
        }
        if N == 0 {
            Fm::zero()
        } else {
            row.function()
        }
    }
}

/// The rows of the batched sumcheck as slot values, with the challenge in
/// the challenge slot.
fn slot_rows<const N: usize>(rows: &Vec<MultipointEvals<Fm, N>>, challenge: Fm) -> (r: Vec<Vec<Fm>>)
    requires
        forall|x: int| 0 <= x < rows@.len() ==> (#[trigger] rows@[x]).wf(),
    ensures
        r@.len() == rows@.len(),
        forall|x: int|
            0 <= x < rows@.len() ==> values((#[trigger] r@[x])@) == multipoint_slots(
                MultipointEvals::<Fm, N> {
                    commitments: rows@[x].commitments,
                    eqs: rows@[x].eqs,
                    challenge,
                },
            ) && r@[x]@.len() == 2 * N + 1,
{
    let mut res: Vec<Vec<Fm>> = Vec::new();
    let mut x: usize = 0;
    while x < rows.len()
        invariant
            x <= rows@.len(),
            forall|y: int| 0 <= y < rows@.len() ==> (#[trigger] rows@[y]).wf(),
            res@.len() == x,
            forall|y: int|
                0 <= y < x ==> values((#[trigger] res@[y])@) == multipoint_slots(
                    MultipointEvals::<Fm, N> {
                        commitments: rows@[y].commitments,
                        eqs: rows@[y].eqs,
                        challenge,
                    },
                ) && res@[y]@.len() == 2 * N + 1,
        decreases rows@.len() - x,
    {
        let row = &rows[x];
        assert(row.wf());
        let mut slots: Vec<Fm> = Vec::new();
        let mut i: usize = 0;
        while i < N
            invariant
                i <= N,
                row.wf(),
                slots@ == row.commitments@.take(i as int),
            decreases N - i,
        {
            slots.push(row.commitments[i]);
            i = i + 1;
            proof {
                assert(slots@ =~= row.commitments@.take(i as int));
            }
        }
        let mut i: usize = 0;
        while i < N
            invariant
                i <= N,
                row.wf(),
                slots@ == row.commitments@ + row.eqs@.take(i as int),
            decreases N - i,
        {
            slots.push(row.eqs[i]);
            i = i + 1;
            proof {
                assert(slots@ =~= row.commitments@ + row.eqs@.take(i as int));
            }
        }
        proof {
            assert(row.commitments@.take(N as int) =~= row.commitments@);
            assert(row.eqs@.take(N as int) =~= row.eqs@);
        }
        slots.push(challenge);
        proof {
            assert(slots@ =~= row.commitments@ + row.eqs@ + seq![challenge]);
            let target = values(row.commitments@) + values(row.eqs@) + seq![challenge@];
            assert forall|j: int| 0 <= j < slots@.len() implies #[trigger] values(slots@)[j]
                == target[j] by {
                if j < N {
                    assert(slots@[j] == row.commitments@[j]);
                } else if j < 2 * N {
                    assert(slots@[j] == row.eqs@[j - N]);
                }
            }
            assert(values(slots@) =~= target);
        }
        res.push(slots);
        x = x + 1;
    }
    res
}

/// The natures of the batched sumcheck's slots: the committed polynomials
/// belong to the committed oracle, which leaves their evaluations to the
/// prover; the equality polynomials and the challenge to the oracle of the
/// verifier, which computes them.
pub open spec fn multipoint_natures(n: nat) -> Seq<SlotNature> {
    Seq::new(2 * n + 1, |s: int| if s < n { Either::Right(true) } else { Either::Left(false) })
}

/// The natures of the batched sumcheck's slots.
fn natures_of<const N: usize>() -> (r: Vec<SlotNature>)
    requires
        2 * N + 1 <= usize::MAX,
    ensures
        r@ == multipoint_natures(N as nat),
{
    let mut natures: Vec<SlotNature> = Vec::new();
    let mut s: usize = 0;
    while s < 2 * N + 1
        invariant
            2 * N + 1 <= usize::MAX,
            s <= 2 * N + 1,
            natures@ == multipoint_natures(N as nat).take(s as int),
        decreases 2 * N + 1 - s,
    {
        if s < N {
            natures.push(Either::Right(true));
        } else {
            natures.push(Either::Left(false));
        }
        s = s + 1;
        proof {
            assert(natures@ =~= multipoint_natures(N as nat).take(s as int));
        }
    }
    natures
}

/// The batched claim: the claimed evaluations combined by powers of the
/// challenge, the first with the highest.
pub open spec fn batched_claim(evals: Seq<Fm>, c: nat) -> nat {
    horner(values(evals), c)
}

/// The value at the final point the verifier expects: the batched
/// polynomial of the provided evaluations of the committed polynomials, the
/// equality polynomials of the opening points at it, and the challenge.
pub open spec fn expected_final(points: Seq<MultiPoint>, point: Seq<nat>, provided: Seq<Fm>, c: nat) -> nat {
    multipoint_function(
        Seq::new(points.len(), |i: int| eq_eval(values(points[i]@), point)),
        values(provided),
        c,
    )
}

/// A proof of a batched opening: the sumcheck messages and the evaluations
/// of the committed polynomials at the final point.
pub struct MultipointProof {
    pub messages: Vec<Vec<Fm>>,
    pub prover_evals: Vec<Fm>,
}

/// What a batched opening reduces to: the openings of the committed
/// polynomials at the sumcheck's final point.
pub struct MultipointReduced<D> {
    pub point: Vec<Fm>,
    pub commits: Vec<D>,
    pub evals: Vec<Fm>,
}

/// Why a batched opening was refused.
#[derive(Clone, Copy, Debug, PartialEq, Eq, Structural)]
pub enum MultipointError {
    /// The sumcheck failed.
    Sumcheck(SumcheckError),
    /// Not one evaluation per committed polynomial.
    WrongProofLength,
    /// The final claim is not the batched polynomial at the final point.
    WrongEvaluation,
}

/// The degree of the batched polynomial in each variable.
pub const MULTIPOINT_DEGREE: usize = 2;
/// The table of the batched sumcheck over `n` rows: at row `x`, the
/// entries `w_i[x]`, the equality tables of the opening points at `x`, and
/// the challenge.
pub open spec fn multipoint_table<const N: usize>(
    witness: Seq<Vec<Fm>>,
    points: Seq<MultiPoint>,
    c: nat,
    n: nat,
) -> Seq<Seq<nat>> {
    Seq::new(
        n,
        |x: int|
            Seq::new(
                (2 * N + 1) as nat,
                |s: int|
                    if s < N {
                        witness[s]@[x]@
                    } else if s < 2 * N {
                        eq_table_entry(values(points[s - N]@), x as nat)
                    } else {
                        c
                    },
            ),
    )
}

/// The first `n` slots are provided by the prover, the others not.
proof fn lemma_multipoint_provided(n: nat, s: int)
    requires
        0 <= s <= 2 * n + 1,
    ensures
        provided_before(multipoint_natures(n), s) == if s < n { s as nat } else { n },
    decreases s,
{
    if s > 0 {
        lemma_multipoint_provided(n, s - 1);
    }
}

/// The oracle answers of the verifier's side of a batched opening: the
/// equality polynomials of the opening points at `point`, and the
/// challenge; the committed oracle leaves its slots to the prover.
fn multipoint_queries<const N: usize>(points: &[MultiPoint], point: &MultiPoint, challenge: Fm) -> (r: (Vec<OracleEval>, Vec<OracleEval>))
    requires
        points@.len() == N,
        2 * N + 1 <= usize::MAX,
        forall|i: int| 0 <= i < N ==> (#[trigger] points@[i])@.len() == point@.len(),
    ensures
        r.0@.len() == 2 * N + 1,
        r.1@.len() == 2 * N + 1,
        forall|s: int|
            0 <= s < 2 * N + 1 ==> {
                &&& (#[trigger] r.0@[s]) == if s < N {
                    OracleEval::Absent
                } else {
                    OracleEval::Computed(r.0@[s]->Computed_0)
                }
                &&& (N <= s < 2 * N ==> r.0@[s]->Computed_0@ == eq_eval(
                    values(points@[s - N]@),
                    values(point@),
                ))
                &&& (s == 2 * N ==> r.0@[s]->Computed_0 == challenge)
                &&& r.1@[s] == if s < N {
                    OracleEval::ProverProvided
                } else {
                    OracleEval::Absent
                }
            },
{
    let mut q1: Vec<OracleEval> = Vec::new();
    let mut q2: Vec<OracleEval> = Vec::new();
    let mut s: usize = 0;
    while s < 2 * N + 1
        invariant
            points@.len() == N,
            2 * N + 1 <= usize::MAX,
            forall|i: int| 0 <= i < N ==> (#[trigger] points@[i])@.len() == point@.len(),
            s <= 2 * N + 1,
            q1@.len() == s,
            q2@.len() == s,
            forall|t: int|
                0 <= t < s ==> {
                    &&& (#[trigger] q1@[t]) == if t < N {
                        OracleEval::Absent
                    } else {
                        OracleEval::Computed(q1@[t]->Computed_0)
                    }
                    &&& (N <= t < 2 * N ==> q1@[t]->Computed_0@ == eq_eval(
                        values(points@[t - N]@),
                        values(point@),
                    ))
                    &&& (t == 2 * N ==> q1@[t]->Computed_0 == challenge)
                    &&& q2@[t] == if t < N {
                        OracleEval::ProverProvided
                    } else {
                        OracleEval::Absent
                    }
                },
        decreases 2 * N + 1 - s,
    {
        if s < N {
            q1.push(OracleEval::Absent);
            q2.push(OracleEval::ProverProvided);
        } else if s < 2 * N {
            let e = points[s - N].eval_as_eq(point);
            q1.push(OracleEval::Computed(e));
            q2.push(OracleEval::Absent);
        } else {
            q1.push(OracleEval::Computed(challenge));
            q2.push(OracleEval::Absent);
        }
        s = s + 1;
    }
    (q1, q2)
}

/// The relation of `N` openings of polynomials of `vars` variables.
#[derive(Debug)]
pub struct MultipointBatching<C, const N: usize>(PhantomData<C>);

impl<C, const N: usize> MultipointBatching<C, N> {
    /// Whether every witness has `vars` variables (`2^vars` entries after
    /// padding to a power of two) and every opening holds (`openings_hold`,
    /// the verdicts of the opening relation of the commitment scheme).
    pub fn check(vars: usize, witnesses: &[Vec<Fm>], openings_hold: &[bool]) -> (r: bool)
        requires
            openings_hold@.len() == witnesses@.len(),
            forall|i: int|
                0 <= i < witnesses@.len() ==> (#[trigger] witnesses@[i])@.len()
                    <= crate::math::max_usize_pow2(),
        ensures
            r == forall|i: int|
                0 <= i < witnesses@.len() ==> {
                    &&& crate::math::is_next_power_of_two(
                        (#[trigger] witnesses@[i])@.len(),
                        pow2(vars as nat),
                    )
                    &&& openings_hold@[i]
                },
    {
        let mut i: usize = 0;
        while i < witnesses.len()
            invariant
                i <= witnesses@.len(),
                openings_hold@.len() == witnesses@.len(),
                forall|j: int|
                    0 <= j < witnesses@.len() ==> (#[trigger] witnesses@[j])@.len()
                        <= crate::math::max_usize_pow2(),
                forall|j: int|
                    0 <= j < i ==> {
                        &&& crate::math::is_next_power_of_two(
                            (#[trigger] witnesses@[j])@.len(),
                            pow2(vars as nat),
                        )
                        &&& openings_hold@[j]
                    },
            decreases witnesses@.len() - i,
        {
            let padded = crate::math::next_power_of_two(witnesses[i].len());
            proof {
                let k = choose|k: nat| pow2(k) == padded;
                crate::math::lemma_pow2_positive(k);
            }
            let expected_vars = crate::math::ilog2(padded);
            proof {
                let len = witnesses@[i as int]@.len();
                let k = choose|k: nat| pow2(k) == padded;
                let e = expected_vars as nat;
                if k < e {
                    crate::math::lemma_pow2_monotone(k + 1, e);
                    crate::math::lemma_pow2_double(k);
                    crate::math::lemma_pow2_positive(k);
                } else if k > e {
                    crate::math::lemma_pow2_monotone(e + 1, k);
                }
                assert(k == e);
                if pow2(vars as nat) == padded as nat && vars as nat != k {
                    if (vars as nat) < k {
                        vstd::arithmetic::power2::lemma_pow2_strictly_increases(vars as nat, k);
                    } else {
                        vstd::arithmetic::power2::lemma_pow2_strictly_increases(k, vars as nat);
                    }
                }
                if crate::math::is_next_power_of_two(len, pow2(vars as nat)) {
                    crate::math::lemma_next_power_of_two_unique(len, pow2(vars as nat), padded as nat);
                }
            }
            if expected_vars as usize != vars || !openings_hold[i] {
                return false;
            }
            proof {
                let k = choose|k: nat| pow2(k) == padded;
                assert(k == expected_vars as nat);
                assert(pow2(vars as nat) == padded as nat);
                assert(crate::math::is_next_power_of_two(
                    witnesses@[i as int]@.len(),
                    pow2(vars as nat),
                ));
                assert(openings_hold@[i as int]);
                assert forall|j: int| 0 <= j <= i implies {
                    &&& crate::math::is_next_power_of_two(
                        (#[trigger] witnesses@[j])@.len(),
                        pow2(vars as nat),
                    )
                    &&& openings_hold@[j]
                } by {}
            }
            i = i + 1;
        }
        true
    }

    /// The prover of a batched opening: squeezes the challenge, runs the
    /// sumcheck on the table of the committed polynomials, the equality
    /// tables of the opening points and the challenge, and sends the
    /// committed polynomials' evaluations at the final point, to which the
    /// opening is reduced.
    pub fn prove<S: Duplex, D: Copy>(
        sponge: &mut S,
        vars: usize,
        points: &[MultiPoint],
        commits: &[D],
        witness: &[Vec<Fm>],
    ) -> (r: (MultipointReduced<D>, MultipointProof))
        requires
            N >= 1,
            2 * N + 1 <= usize::MAX,
            points@.len() == N,
            commits@.len() == N,
            witness@.len() == N,
            pow2(vars as nat) <= usize::MAX,
            forall|i: int| 0 <= i < N ==> (#[trigger] points@[i])@.len() == vars,
            forall|i: int| 0 <= i < N ==> (#[trigger] witness@[i])@.len() == pow2(vars as nat),
        ensures
            ({
                let c = S::squeeze_spec(old(sponge).history());
                let run = prover_run::<S, MultipointEvals<Fm, N>>(
                    (),
                    old(sponge).history().push(c),
                    multipoint_table::<N>(witness@, points@, c, pow2(vars as nat)),
                    MULTIPOINT_DEGREE as nat,
                    vars as nat,
                );
                &&& message_values(r.1.messages@) == run.messages
                &&& values(r.0.point@) == run.point
                &&& values(r.1.prover_evals@) == run.table[0].take(N as int)
                &&& r.0.evals@ == r.1.prover_evals@
                &&& r.0.commits@ == commits@
                &&& final(sponge).history() == run.history
            }),
    {
        let challenge = sponge.squeeze();
        let ghost h1 = old(sponge).history().push(challenge@);
        let rows = sumcheck_witness::<N>(witness, points);
        let slots = slot_rows::<N>(&rows, challenge);
        proof {
            let tab = multipoint_table::<N>(witness@, points@, challenge@, pow2(vars as nat));
            assert forall|x: int| 0 <= x < slots@.len() implies #[trigger] table_values(slots@)[x]
                == tab[x] by {
                let row = rows@[x];
                assert forall|s: int| 0 <= s < 2 * N + 1 implies #[trigger] values(slots@[x]@)[s]
                    == tab[x][s] by {
                    if s < N {
                        assert(row.commitments@[s] == witness@[s]@[x]);
                    } else if s < 2 * N {
                        assert((row.eqs@[s - N])@ == eq_table_entry(values(points@[s - N]@), x as nat));
                    }
                }
                assert(table_values(slots@)[x] =~= tab[x]);
            }
            assert(table_values(slots@) =~= tab);
            assert(rows_ok::<MultipointEvals<Fm, N>>(slots@));
        }
        let out = sumcheck_prove::<S, MultipointEvals<Fm, N>>(sponge, &(), slots, vars, MULTIPOINT_DEGREE);
        let last = &out.final_rows[0];
        let mut sent: Vec<Fm> = Vec::new();
        let mut i: usize = 0;
        while i < N
            invariant
                i <= N,
                last@.len() == 2 * N + 1,
                sent@ == last@.take(i as int),
            decreases N - i,
        {
            sent.push(last[i]);
            i = i + 1;
            proof {
                assert(sent@ =~= last@.take(i as int));
            }
        }
        let mut evals: Vec<Fm> = Vec::new();
        let mut out_commits: Vec<D> = Vec::new();
        let mut i: usize = 0;
        while i < N
            invariant
                i <= N,
                sent@.len() == N,
                commits@.len() == N,
                evals@ == sent@.take(i as int),
                out_commits@ == commits@.take(i as int),
            decreases N - i,
        {
            evals.push(sent[i]);
            out_commits.push(commits[i]);
            i = i + 1;
            proof {
                assert(evals@ =~= sent@.take(i as int));
                assert(out_commits@ =~= commits@.take(i as int));
            }
        }
        proof {
            assert(evals@ =~= sent@);
            assert(out_commits@ =~= commits@);
            assert(values(sent@) =~= table_values(out.final_rows@)[0].take(N as int));
        }
        let reduced = MultipointReduced { point: out.point, commits: out_commits, evals };
        (reduced, MultipointProof { messages: out.messages, prover_evals: sent })
    }

    /// The verifier of a batched opening: squeezes the challenge, runs the
    /// sumcheck from the batched claim, and accepts the final claim when it
    /// is the batched polynomial of the prover's evaluations of the
    /// committed polynomials and of the equality polynomials of the opening
    /// points at the final point; it then reduces to the openings of the
    /// committed polynomials at that point.
    pub fn verify<S: Duplex, D: Copy>(
        sponge: &mut S,
        vars: usize,
        points: &[MultiPoint],
        evals: &[Fm],
        commits: &[D],
        proof: &MultipointProof,
    ) -> (r: Result<MultipointReduced<D>, MultipointError>)
        requires
            points@.len() == N,
            evals@.len() == N,
            commits@.len() == N,
            2 * N + 1 <= usize::MAX,
            forall|i: int| 0 <= i < N ==> (#[trigger] points@[i])@.len() == vars,
        ensures
            ({
                let c = S::squeeze_spec(old(sponge).history());
                let run = verifier_run::<S>(
                    old(sponge).history().push(c),
                    batched_claim(evals@, c),
                    message_values(proof.messages@),
                    MULTIPOINT_DEGREE as nat,
                    vars as nat,
                );
                &&& r is Ok <==> {
                    &&& proof.messages@.len() == vars
                    &&& run.ok
                    &&& proof.prover_evals@.len() == N
                    &&& expected_final(points@, run.point, proof.prover_evals@, c) == run.claim
                }
                &&& r matches Ok(red) ==> {
                    &&& values(red.point@) == run.point
                    &&& red.evals@ == proof.prover_evals@
                    &&& red.commits@ == commits@
                }
            }),
    {
        let challenge = sponge.squeeze();
        let sum = batched_sum(evals, challenge);
        let (point, claim) = match sumcheck_verify(sponge, sum, proof.messages.as_slice(), vars, MULTIPOINT_DEGREE) {
            Ok(out) => out,
            Err(e) => {
                return Err(MultipointError::Sumcheck(e));
            },
        };
        if proof.prover_evals.len() != N {
            return Err(MultipointError::WrongProofLength);
        }
        let ghost h1 = old(sponge).history().push(challenge@);
        proof {
            crate::sumcheck::protocol::lemma_run_point_len::<S>(
                h1,
                sum@,
                message_values(proof.messages@),
                MULTIPOINT_DEGREE as nat,
                vars as nat,
            );
            assert(point@.len() == values(point@).len());
        }
        let mp = MultiPoint::new(point);
        let natures = natures_of::<N>();
        let (q1, q2) = multipoint_queries::<N>(points, &mp, challenge);
        let ghost pe = proof.prover_evals@;
        let ghost nat_seq = natures@;
        proof {
            lemma_multipoint_provided(N as nat, (2 * N + 1) as int);
            assert forall|t: int| 0 <= t < nat_seq.len() implies #[trigger] crate::sumcheck::composite::slot_answered(
                nat_seq,
                sides_of(nat_seq),
                pe,
                q1@,
                q2@,
                t,
            ) by {
                lemma_multipoint_provided(N as nat, t);
                assert(q1@[t] == if t < N {
                    OracleEval::Absent
                } else {
                    OracleEval::Computed(q1@[t]->Computed_0)
                });
            }
            let se = slot_evals(nat_seq, pe, q1@, q2@);
            let eqs = Seq::new(N as nat, |i: int| eq_eval(values(points@[i]@), values(mp@)));
            assert forall|t: int| 0 <= t < se.len() implies #[trigger] se[t] == if t < N {
                pe[t]@
            } else if t < 2 * N {
                eqs[t - N]
            } else {
                challenge@
            } by {
                lemma_multipoint_provided(N as nat, t);
                assert(q1@[t] == if t < N {
                    OracleEval::Absent
                } else {
                    OracleEval::Computed(q1@[t]->Computed_0)
                });
            }
            assert(se.subrange(N as int, 2 * N) =~= eqs);
            assert(se.take(N as int) =~= values(pe));
        }
        match composite_verify::<MultipointEvals<Fm, N>>(&(), natures.as_slice(), proof.prover_evals.as_slice(), q1.as_slice(), q2.as_slice(), claim) {
            Ok(_) => {
                let mut out_evals: Vec<Fm> = Vec::new();
                let mut i: usize = 0;
                while i < N
                    invariant
                        i <= N,
                        proof.prover_evals@.len() == N,
                        out_evals@ == proof.prover_evals@.take(i as int),
                    decreases N - i,
                {
                    out_evals.push(proof.prover_evals[i]);
                    i = i + 1;
                    proof {
                        assert(out_evals@ =~= proof.prover_evals@.take(i as int));
                    }
                }
                let mut out_commits: Vec<D> = Vec::new();
                let mut i: usize = 0;
                while i < N
                    invariant
                        i <= N,
                        commits@.len() == N,
                        out_commits@ == commits@.take(i as int),
                    decreases N - i,
                {
                    out_commits.push(commits[i]);
                    i = i + 1;
                    proof {
                        assert(out_commits@ =~= commits@.take(i as int));
                    }
                }
                proof {
                    assert(out_evals@ =~= proof.prover_evals@);
                    assert(out_commits@ =~= commits@);
                }
                Ok(MultipointReduced { point: mp.inner(), commits: out_commits, evals: out_evals })
            },
            Err(_) => Err(MultipointError::WrongEvaluation),
        }
    }
}

/// The term of opening `i` at row `x`: `eq_i(x) w_i(x)`.
pub open spec fn opening_terms<const N: usize>(rows: Seq<MultipointEvals<Fm, N>>) -> spec_fn(int, int) -> nat {
    |i: int, x: int| fmul(rows[x].eqs@[i]@, rows[x].commitments@[i]@)
}

/// `x ->` the batched polynomial at row `x`.
pub open spec fn batched_fn<const N: usize>(rows: Seq<MultipointEvals<Fm, N>>, c: nat) -> spec_fn(int) -> nat {
    |x: int| multipoint_function(values(rows[x].eqs@), values(rows[x].commitments@), c)
}

/// The batched polynomial over the first `k` openings of a row is the
/// combination of its terms.
proof fn lemma_multipoint_function_row<const N: usize>(
    rows: Seq<MultipointEvals<Fm, N>>,
    c: nat,
    k: int,
    x: int,
)
    requires
        1 <= k <= N,
        0 <= x < rows.len(),
        rows[x].wf(),
    ensures
        multipoint_function(values(rows[x].eqs@).take(k), values(rows[x].commitments@), c)
            == horner_row(opening_terms(rows), c, k, x),
    decreases k,
{
    let e = values(rows[x].eqs@);
    if k > 1 {
        lemma_multipoint_function_row(rows, c, k - 1, x);
        assert(e.take(k).drop_last() =~= e.take(k - 1));
    }
}

/// The sum over the hypercube of the batched polynomial is the batched sum of
/// the sums of the single terms: with `S_i = sum_x eq_i(x) w_i(x)`, the sum of
/// `eq_0 w_0`, then `acc * c + eq_i w_i`, over all rows is
/// `horner(S_0, ..., S_{N-1})`. With `eq_i(x) = eq(r_i, x)` and `S_i` the
/// claimed evaluation `w_i(r_i)`, this is the sum the batched sumcheck starts
/// from.
pub proof fn lemma_batched_sum<const N: usize>(rows: Seq<MultipointEvals<Fm, N>>, c: nat)
    requires
        N >= 1,
        forall|x: int| 0 <= x < rows.len() ==> (#[trigger] rows[x]).wf(),
    ensures
        fsum(batched_fn(rows, c), rows.len()) == horner(
            column_sums(opening_terms(rows), N as nat, rows.len()),
            c,
        ),
{
    let m = rows.len();
    let t = opening_terms(rows);
    lemma_sum_of_horner(t, c, N as int, N as nat, m);
    assert(column_sums(t, N as nat, m).take(N as int) =~= column_sums(t, N as nat, m));
    assert forall|x: int| 0 <= x < m implies #[trigger] batched_fn(rows, c)(x) == horner_row_fn(
        t,
        c,
        N as int,
    )(x) by {
        lemma_multipoint_function_row(rows, c, N as int, x);
        assert(values(rows[x].eqs@).take(N as int) =~= values(rows[x].eqs@));
    }
    lemma_fsum_ext(batched_fn(rows, c), horner_row_fn(t, c, N as int), m);
}

} // verus!
