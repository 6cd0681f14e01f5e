//! The reduction of a matrix-product query to a sumcheck: the claims
//! `(M_i z)(rx)` are batched by powers of a challenge into the sum over `y`
//! of `M_i(rx, y) z(y)`, a sumcheck reduces it to one point `ry`, and the
//! prover's evaluations there become an opening of `z` at `ry` and one
//! Spark claim `M_i(rx, ry)` per matrix.
use crate::field::{fadd, finv, fmul, Fm, P};
use crate::matrix_oracle::{matrix_claims, sumcheck_sum};
use crate::matrix_product::{
    column_sum, eq_tab, matrix_sum, Matrix, MatrixSumEvals, MatrixSumInstance, MatrixSumOracle, MissingEvals,
};
use crate::spark::SparkInstance;
use crate::sums::horner;
use crate::sumcheck::composite::{composite_verify, provided_before, sides_of, slot_evals, SlotNature};
use crate::sumcheck::oracles::{Either, OracleEval, PartialQueryInstance};
use crate::sumcheck::point::{values, MultiPoint};
use crate::sumcheck::protocol::{
    basis_den, basis_num, canonical_row, exact_on_lines, interp, interp_upto, lemma_interp_add, lemma_interp_scale,
    lemma_lerp_constant, lemma_line_product_exact, lerp, lerp_closed, lerp_row, line_product,
    line_values, seq_add, seq_scale, lemma_sumcheck_complete, rows_satisfy, table_ok, table_sum,
    lemma_run_point_len, message_values, prover_run, rows_ok, sumcheck_prove, sumcheck_verify,
    table_values, verifier_run, Duplex, SumcheckError,
};
use vstd::arithmetic::power2::pow2;
use vstd::prelude::*;

verus! {

/// The degree of the matrix-sum polynomial in each variable.
pub const MATRIX_SUM_DEGREE: usize = 2;

/// The natures of the matrix-sum slots: the matrices belong to the
/// matrix-sum oracle and the vector and the challenge to the other side;
/// the prover provides the matrices and the vector.
pub open spec fn matrix_sum_natures(n: nat) -> Seq<SlotNature> {
    Seq::new(
        n + 2,
        |s: int|
            if s < n {
                Either::Left(true)
            } else if s == n {
                Either::Right(true)
            } else {
                Either::Right(false)
            },
    )
}

fn matrix_sum_natures_exec<const N: usize>() -> (r: Vec<SlotNature>)
    requires
        N + 2 <= usize::MAX,
    ensures
        r@ == matrix_sum_natures(N as nat),
{
    let mut natures: Vec<SlotNature> = Vec::new();
    let mut s: usize = 0;
    while s < N + 2
        invariant
            N + 2 <= usize::MAX,
            s <= N + 2,
            natures@ == matrix_sum_natures(N as nat).take(s as int),
        decreases N + 2 - s,
    {
        if s < N {
            natures.push(Either::Left(true));
        } else if s == N {
            natures.push(Either::Right(true));
        } else {
            natures.push(Either::Right(false));
        }
        s = s + 1;
        proof {
            assert(natures@ =~= matrix_sum_natures(N as nat).take(s as int));
        }
    }
    natures
}

/// The first `n + 1` slots are provided by the prover.
proof fn lemma_matrix_sum_provided(n: nat, s: int)
    requires
        0 <= s <= n + 2,
    ensures
        provided_before(matrix_sum_natures(n), s) == if s <= n + 1 { s as nat } else { n + 1 },
    decreases s,
{
    if s > 0 {
        lemma_matrix_sum_provided(n, s - 1);
    }
}

/// The answers of the two sides: the matrix-sum oracle leaves the matrices
/// to the prover; the other side leaves the vector to the prover and
/// computes the challenge.
fn matrix_sum_queries<const N: usize>(challenge: Fm) -> (r: (Vec<OracleEval>, Vec<OracleEval>))
    requires
        N + 2 <= usize::MAX,
    ensures
        r.0@.len() == N + 2,
        r.1@.len() == N + 2,
        forall|s: int|
            0 <= s < N + 2 ==> {
                &&& (#[trigger] r.0@[s]) == if s < N {
                    OracleEval::ProverProvided
                } else {
                    OracleEval::Absent
                }
                &&& r.1@[s] == if s < N {
                    OracleEval::Absent
                } else if s == N {
                    OracleEval::ProverProvided
                } else {
                    OracleEval::Computed(challenge)
                }
            },
{
    let mut q1: Vec<OracleEval> = Vec::new();
    let mut q2: Vec<OracleEval> = Vec::new();
    let mut s: usize = 0;
    while s < N + 2
        invariant
            N + 2 <= usize::MAX,
            s <= N + 2,
            q1@.len() == s,
            q2@.len() == s,
            forall|t: int|
                0 <= t < s ==> {
                    &&& (#[trigger] q1@[t]) == if t < N {
                        OracleEval::ProverProvided
                    } else {
                        OracleEval::Absent
                    }
                    &&& q2@[t] == if t < N {
                        OracleEval::Absent
                    } else if t == N {
                        OracleEval::ProverProvided
                    } else {
                        OracleEval::Computed(challenge)
                    }
                },
        decreases N + 2 - s,
    {
        if s < N {
            q1.push(OracleEval::ProverProvided);
            q2.push(OracleEval::Absent);
        } else if s == N {
            q1.push(OracleEval::Absent);
            q2.push(OracleEval::ProverProvided);
        } else {
            q1.push(OracleEval::Absent);
            q2.push(OracleEval::Computed(challenge));
        }
        s = s + 1;
    }
    (q1, q2)
}

/// The reduction of a matrix-product query of `N` matrices.
pub struct MatrixProductReduction<const N: usize>;

/// A proof of a matrix-product query: the sumcheck messages and the
/// evaluations at the final point of the matrices and of the vector.
pub struct MatrixProductProof {
    pub messages: Vec<Vec<Fm>>,
    pub prover_evals: Vec<Fm>,
}

/// What a matrix-product query reduces to: the final point `ry`, the
/// opening of the vector there, and one Spark claim per matrix at
/// `(rx, ry)`.
pub struct MatrixProductReduced {
    pub point: Vec<Fm>,
    pub z_eval: Fm,
    pub spark: Vec<SparkInstance>,
}

/// Why a matrix-product query was refused.
#[derive(Clone, Copy, Debug)]
pub enum MatrixProductError {
    /// The sumcheck failed.
    Sumcheck(SumcheckError),
    /// Not one evaluation per matrix and one for the vector.
    WrongProofLength,
    /// The final claim is not the matrix-sum polynomial of the evaluations.
    WrongEvaluation,
    /// A matrix evaluation is missing.
    MatrixSum(MissingEvals),
}

impl<const N: usize> MatrixProductReduction<N> {
    /// The verifier of a matrix-product query at `rx` with the claimed
    /// evaluations `evals` of the outer slots: squeezes the challenge, runs the
    /// sumcheck from the matrix claims combined by its powers, accepts the final
    /// claim when it is the matrix-sum polynomial of the prover's evaluations
    /// and the challenge, and reduces to an opening of the vector at the final
    /// point and the Spark claims of the matrices.
    pub fn verify<S: Duplex>(
        sponge: &mut S,
        vars: usize,
        matrix_slots: &[bool],
        evals: &[Option<Fm>],
        rx: &MultiPoint,
        proof: &MatrixProductProof,
    ) -> (r: Result<MatrixProductReduced, MatrixProductError>)
        requires
            N + 2 <= usize::MAX,
            evals@.len() == matrix_slots@.len(),
        ensures
            ({
                let c = S::squeeze_spec(old(sponge).history());
                let run = verifier_run::<S>(
                    old(sponge).history().push(c),
                    horner(matrix_claims(matrix_slots@, evals@, matrix_slots@.len() as int), c),
                    message_values(proof.messages@),
                    MATRIX_SUM_DEGREE as nat,
                    vars as nat,
                );
                let pe = values(proof.prover_evals@);
                &&& r is Ok <==> {
                    &&& proof.messages@.len() == vars
                    &&& run.ok
                    &&& proof.prover_evals@.len() == N + 1
                    &&& matrix_sum(pe.take(N as int), pe[N as int], c) == run.claim
                }
                &&& r matches Ok(red) ==> {
                    &&& values(red.point@) == run.point
                    &&& red.z_eval == proof.prover_evals@[N as int]
                    &&& red.spark@.len() == N
                    &&& forall|i: int|
                        0 <= i < N ==> {
                            &&& values((#[trigger] red.spark@[i]).point()) == values(rx@) + run.point
                            &&& red.spark@[i].claimed() == proof.prover_evals@[i]
                        }
                }
            }),
    {
        let challenge = sponge.squeeze();
        let sum = sumcheck_sum(matrix_slots, evals, challenge);
        let ghost h1 = old(sponge).history().push(challenge@);
        let (point, claim) = match sumcheck_verify(sponge, sum, proof.messages.as_slice(), vars, MATRIX_SUM_DEGREE) {
            Ok(out) => out,
            Err(e) => {
                return Err(MatrixProductError::Sumcheck(e));
            },
        };
        if proof.prover_evals.len() != N + 1 {
            return Err(MatrixProductError::WrongProofLength);
        }
        let natures = matrix_sum_natures_exec::<N>();
        let (q1, q2) = matrix_sum_queries::<N>(challenge);
        let ghost pe = proof.prover_evals@;
        let ghost nat_seq = natures@;
        proof {
            lemma_matrix_sum_provided(N as nat, (N + 2) as int);
            assert forall|t: int| 0 <= t < nat_seq.len() implies #[trigger] crate::sumcheck::composite::slot_answered(
                nat_seq,
                sides_of(nat_seq),
                pe,
                q1@,
                q2@,
                t,
            ) by {
                lemma_matrix_sum_provided(N as nat, t);
            }
            let se = slot_evals(nat_seq, pe, q1@, q2@);
            assert forall|t: int| 0 <= t < se.len() implies #[trigger] se[t] == if t <= N {
                pe[t]@
            } else {
                challenge@
            } by {
                lemma_matrix_sum_provided(N as nat, t);
            }
            assert(se.take(N as int) =~= values(pe).take(N as int));
        }
        match composite_verify::<MatrixSumEvals<Fm, N>>(&(), natures.as_slice(), proof.prover_evals.as_slice(), q1.as_slice(), q2.as_slice(), claim) {
            Ok(_) => {},
            Err(_) => {
                return Err(MatrixProductError::WrongEvaluation);
            },
        }
        let mut matrices: Vec<Option<Fm>> = Vec::new();
        let mut i: usize = 0;
        while i < N
            invariant
                i <= N,
                proof.prover_evals@.len() == N + 1,
                matrices@.len() == i,
                forall|k: int| 0 <= k < i ==> #[trigger] matrices@[k] == Some(proof.prover_evals@[k]),
            decreases N - i,
        {
            matrices.push(Some(proof.prover_evals[i]));
            i = i + 1;
        }
        let z_eval = proof.prover_evals[N];
        proof {
            lemma_run_point_len::<S>(
                h1,
                sum@,
                message_values(proof.messages@),
                MATRIX_SUM_DEGREE as nat,
                vars as nat,
            );
        }
        let ry = MultiPoint::new(point);
        let query = PartialQueryInstance {
            evals: MatrixSumEvals::<Option<Fm>, N> { matrices, z: None, challenge: None },
            oracle_instance: MatrixSumInstance { point: rx.duplicate() },
            point: ry.duplicate(),
        };
        match MatrixSumOracle::<(), N>::verify(&query) {
            Ok(spark) => {
                proof {
                    assert forall|i: int| 0 <= i < N implies values((#[trigger] spark@[i]).point())
                        == values(rx@) + values(ry@) by {
                        assert(values(rx@ + ry@) =~= values(rx@) + values(ry@));
                    }
                }
                Ok(MatrixProductReduced { point: ry.inner(), z_eval, spark })
            },
            Err(e) => Err(MatrixProductError::MatrixSum(e)),
        }
    }
}

/// The table of the matrix-sum sumcheck: at row `k`, the partial
/// evaluations `M_i(rx, k)` (the structure's entries past the matrices'
/// reach), the vector (the structure's entry past its end), and the
/// challenge.
pub open spec fn matrix_sum_table<const N: usize>(
    structure: Seq<MatrixSumEvals<Fm, N>>,
    matrices: Seq<&Matrix>,
    z: Seq<Fm>,
    rx: Seq<Fm>,
    c: nat,
) -> Seq<Seq<nat>> {
    Seq::new(
        structure.len(),
        |k: int|
            Seq::new(
                (N + 2) as nat,
                |s: int|
                    if s < N {
                        if k < pow2(rx.len()) {
                            column_sum(matrices[s].ones(), eq_tab(values(rx)), k)
                        } else {
                            structure[k].matrices@[s]@
                        }
                    } else if s == N {
                        if k < z.len() {
                            z[k]@
                        } else {
                            structure[k].z@
                        }
                    } else {
                        c
                    },
            ),
    )
}

/// The rows of the matrix-sum sumcheck as slot values, with the challenge
/// in the challenge slot.
fn matrix_slot_rows<const N: usize>(rows: &Vec<MatrixSumEvals<Fm, N>>, challenge: Fm) -> (r: Vec<Vec<Fm>>)
    requires
        forall|x: int| 0 <= x < rows@.len() ==> (#[trigger] rows@[x]).wf(),
    ensures
        r@.len() == rows@.len(),
        forall|x: int|
            0 <= x < rows@.len() ==> values((#[trigger] r@[x])@) == values(rows@[x].matrices@)
                + seq![rows@[x].z@, challenge@] && r@[x]@.len() == N + 2,
{
    let mut res: Vec<Vec<Fm>> = Vec::new();
    let mut x: usize = 0;
    while x < rows.len()
        invariant
            x <= rows@.len(),
            forall|y: int| 0 <= y < rows@.len() ==> (#[trigger] rows@[y]).wf(),
            res@.len() == x,
            forall|y: int|
                0 <= y < x ==> values((#[trigger] res@[y])@) == values(rows@[y].matrices@)
                    + seq![rows@[y].z@, challenge@] && res@[y]@.len() == N + 2,
        decreases rows@.len() - x,
    {
        let row = &rows[x];
        assert(row.wf());
        let mut slots: Vec<Fm> = Vec::new();
        let mut i: usize = 0;
        while i < N
            invariant
                i <= N,
                row.wf(),
                slots@ == row.matrices@.take(i as int),
            decreases N - i,
        {
            slots.push(row.matrices[i]);
            i = i + 1;
            proof {
                assert(slots@ =~= row.matrices@.take(i as int));
            }
        }
        proof {
            assert(row.matrices@.take(N as int) =~= row.matrices@);
        }
        slots.push(row.z);
        slots.push(challenge);
        proof {
            assert(slots@ =~= row.matrices@ + seq![row.z, challenge]);
            let target = values(row.matrices@) + seq![row.z@, challenge@];
            assert forall|j: int| 0 <= j < slots@.len() implies #[trigger] values(slots@)[j]
                == target[j] by {
                if j < N {
                    assert(slots@[j] == row.matrices@[j]);
                }
            }
            assert(values(slots@) =~= target);
        }
        res.push(slots);
        x = x + 1;
    }
    res
}

impl<const N: usize> MatrixProductReduction<N> {
    /// The prover of a matrix-product query at `rx` with vector `z`: squeezes
    /// the challenge, runs the sumcheck on the table of the partial evaluations
    /// `M_i(rx, y)`, the vector and the challenge, sends the evaluations of the
    /// matrices and of the vector at the final point, and reduces to the
    /// opening of the vector there and the Spark claims of the matrices.
    pub fn prove<S: Duplex>(
        sponge: &mut S,
        vars: usize,
        structure: &[MatrixSumEvals<Fm, N>],
        matrices: &[&Matrix],
        z: &[Fm],
        rx: &MultiPoint,
    ) -> (r: (MatrixProductReduced, MatrixProductProof))
        requires
            N + 2 <= usize::MAX,
            structure@.len() == pow2(vars as nat),
            forall|k: int| 0 <= k < structure@.len() ==> (#[trigger] structure@[k]).wf(),
            matrices@.len() == N,
            pow2(rx@.len()) <= usize::MAX,
            forall|i: int| 0 <= i < N ==> (#[trigger] matrices@[i]).fits(pow2(rx@.len())),
        ensures
            ({
                let c = S::squeeze_spec(old(sponge).history());
                let run = prover_run::<S, MatrixSumEvals<Fm, N>>(
                    (),
                    old(sponge).history().push(c),
                    matrix_sum_table::<N>(structure@, matrices@, z@, rx@, c),
                    MATRIX_SUM_DEGREE as nat,
                    vars as nat,
                );
                &&& message_values(r.1.messages@) == run.messages
                &&& values(r.0.point@) == run.point
                &&& values(r.1.prover_evals@) == run.table[0].take(N + 1)
                &&& r.0.z_eval == r.1.prover_evals@[N as int]
                &&& r.0.spark@.len() == N
                &&& forall|i: int|
                    0 <= i < N ==> {
                        &&& values((#[trigger] r.0.spark@[i]).point()) == values(rx@) + run.point
                        &&& r.0.spark@[i].claimed() == r.1.prover_evals@[i]
                    }
                &&& final(sponge).history() == run.history
            }),
    {
        let challenge = sponge.squeeze();
        let witness = MatrixSumEvals::<Fm, N>::witness(structure, matrices, z, rx);
        let rows = matrix_slot_rows::<N>(&witness, challenge);
        proof {
            let tab = matrix_sum_table::<N>(structure@, matrices@, z@, rx@, challenge@);
            assert forall|x: int| 0 <= x < rows@.len() implies #[trigger] table_values(rows@)[x]
                == tab[x] by {
                let w = witness@[x];
                assert forall|s: int| 0 <= s < N + 2 implies #[trigger] values(rows@[x]@)[s]
                    == tab[x][s] by {
                    if s < N {
                        assert(values(rows@[x]@)[s] == w.matrices@[s]@);
                    }
                }
                assert(table_values(rows@)[x] =~= tab[x]);
            }
            assert(table_values(rows@) =~= tab);
        }
        let out = sumcheck_prove::<S, MatrixSumEvals<Fm, N>>(sponge, &(), rows, vars, MATRIX_SUM_DEGREE);
        let last = &out.final_rows[0];
        let mut sent: Vec<Fm> = Vec::new();
        let mut matrix_evals: Vec<Option<Fm>> = Vec::new();
        let mut i: usize = 0;
        while i < N + 1
            invariant
                N + 2 <= usize::MAX,
                i <= N + 1,
                last@.len() == N + 2,
                sent@ == last@.take(i as int),
                matrix_evals@.len() == if i <= N { i as int } else { N as int },
                forall|k: int| 0 <= k < matrix_evals@.len() ==> #[trigger] matrix_evals@[k] == Some(last@[k]),
            decreases N + 1 - i,
        {
            sent.push(last[i]);
            if i < N {
                matrix_evals.push(Some(last[i]));
            }
            i = i + 1;
            proof {
                assert(sent@ =~= last@.take(i as int));
            }
        }
        proof {
            assert(values(sent@) =~= table_values(out.final_rows@)[0].take(N + 1));
        }
        let z_eval = sent[N];
        let query = PartialQueryInstance {
            evals: MatrixSumEvals::<Option<Fm>, N> { matrices: matrix_evals, z: None, challenge: None },
            oracle_instance: MatrixSumInstance { point: rx.duplicate() },
            point: MultiPoint::new(out.point),
        };
        let spark = MatrixSumOracle::<(), N>::prove(&query);
        proof {
            assert forall|i: int| 0 <= i < N implies values((#[trigger] spark@[i]).point()) == values(rx@)
                + values(query.point@) by {
                assert(values(rx@ + query.point@) =~= values(rx@) + values(query.point@));
            }
        }
        let reduced = MatrixProductReduced { point: query.point.inner(), z_eval, spark };
        (reduced, MatrixProductProof { messages: out.messages, prover_evals: sent })
    }
}


/// The rows whose challenge slot (the last of `n + 2`) is `c`.
pub open spec fn challenge_fixed(n: nat, c: nat) -> spec_fn(Seq<nat>) -> bool {
    |row: Seq<nat>| row.len() == n + 2 && row[n + 1int] == c
}

/// Lines keep the challenge slot.
pub proof fn lemma_challenge_fixed_closed(n: nat, c: nat)
    requires
        c < P,
    ensures
        lerp_closed(challenge_fixed(n, c)),
{
    reveal(lerp_closed);
    assert forall|lo: Seq<nat>, hi: Seq<nat>, r: nat|
        lo.len() == hi.len() && canonical_row(lo) && canonical_row(hi) && challenge_fixed(n, c)(lo)
            && challenge_fixed(n, c)(hi) && r < P implies #[trigger] challenge_fixed(n, c)(
        lerp_row(lo, hi, r),
    ) by {
        lemma_lerp_constant(c, r);
    }
}

/// The matrix-sum polynomial of the first `k` matrices on the line through
/// `lo` and `hi`, at `t`, with the challenge `c`.
pub open spec fn matrix_line(lo: Seq<nat>, hi: Seq<nat>, n: nat, c: nat, k: nat, t: nat) -> nat {
    matrix_sum(Seq::new(k, |i: int| lerp(lo[i], hi[i], t)), lerp(lo[n as int], hi[n as int], t), c)
}

/// Its values at `0, 1, 2`.
pub open spec fn matrix_line_values(lo: Seq<nat>, hi: Seq<nat>, n: nat, c: nat, k: nat) -> Seq<nat> {
    Seq::new(3, |t: int| matrix_line(lo, hi, n, c, k, t as nat))
}

proof fn lemma_matrix_line_zero(lo: Seq<nat>, hi: Seq<nat>, n: nat, c: nat, r: nat)
    ensures
        interp(matrix_line_values(lo, hi, n, c, 0), r) == matrix_line(lo, hi, n, c, 0, r),
{
    let v = matrix_line_values(lo, hi, n, c, 0);
    assert(v =~= seq![0nat, 0nat, 0nat]);
    assert forall|w: nat| fmul(0, w) == 0 by {
        assert(0 * w == 0);
    }
    assert(interp_upto(v, r, 0) == 0);
    assert(v[0] == 0 && v[1] == 0 && v[2] == 0);
    assert(fmul(0, fmul(basis_num(0, r, 3), finv(basis_den(0, 3)))) == 0);
    assert(fmul(0, fmul(basis_num(1, r, 3), finv(basis_den(1, 3)))) == 0);
    assert(fmul(0, fmul(basis_num(2, r, 3), finv(basis_den(2, 3)))) == 0);
    assert(fadd(0, 0) == 0);
    assert(interp_upto(v, r, 1) == 0);
    assert(interp_upto(v, r, 2) == 0);
    assert(interp_upto(v, r, 3) == 0);
}

proof fn lemma_matrix_line_one(lo: Seq<nat>, hi: Seq<nat>, n: nat, c: nat, r: nat)
    requires
        r < P,
    ensures
        interp(matrix_line_values(lo, hi, n, c, 1), r) == matrix_line(lo, hi, n, c, 1, r),
{
    let v = matrix_line_values(lo, hi, n, c, 1);
    let nn = n as int;
    assert forall|t: nat| #[trigger] matrix_line(lo, hi, n, c, 1, t) == line_product(
        lo[0],
        hi[0],
        lo[nn],
        hi[nn],
        t,
    ) by {
        assert(Seq::new(1, |i: int| lerp(lo[i], hi[i], t)).len() == 1);
    }
    assert(v =~= seq![
        line_product(lo[0], hi[0], lo[nn], hi[nn], 0),
        line_product(lo[0], hi[0], lo[nn], hi[nn], 1),
        line_product(lo[0], hi[0], lo[nn], hi[nn], 2),
    ]);
    lemma_line_product_exact(lo[0], hi[0], lo[nn], hi[nn], r);
}

proof fn lemma_matrix_line_step(lo: Seq<nat>, hi: Seq<nat>, n: nat, c: nat, k: nat, t: nat)
    requires
        k >= 2,
    ensures
        matrix_line(lo, hi, n, c, k, t) == fadd(
            fmul(matrix_line(lo, hi, n, c, (k - 1) as nat, t), c),
            line_product(lo[k - 1], hi[k - 1], lo[n as int], hi[n as int], t),
        ),
{
    let ms = Seq::new(k, |i: int| lerp(lo[i], hi[i], t));
    assert(ms.drop_last() =~= Seq::new((k - 1) as nat, |i: int| lerp(lo[i], hi[i], t)));
}

/// The matrix-sum polynomial is of degree two along a line with a fixed
/// challenge: its values at `0, 1, 2` interpolate it.
proof fn lemma_matrix_line_exact(lo: Seq<nat>, hi: Seq<nat>, n: nat, c: nat, k: nat, r: nat)
    requires
        r < P,
    ensures
        interp(matrix_line_values(lo, hi, n, c, k), r) == matrix_line(lo, hi, n, c, k, r),
    decreases k,
{
    if k == 0 {
        lemma_matrix_line_zero(lo, hi, n, c, r);
    } else if k == 1 {
        lemma_matrix_line_one(lo, hi, n, c, r);
    } else {
        let j = (k - 1) as nat;
        let nn = n as int;
        lemma_matrix_line_exact(lo, hi, n, c, j, r);
        let v = matrix_line_values(lo, hi, n, c, k);
        let prev = matrix_line_values(lo, hi, n, c, j);
        let lp = seq![
            line_product(lo[j as int], hi[j as int], lo[nn], hi[nn], 0),
            line_product(lo[j as int], hi[j as int], lo[nn], hi[nn], 1),
            line_product(lo[j as int], hi[j as int], lo[nn], hi[nn], 2),
        ];
        lemma_matrix_line_step(lo, hi, n, c, k, 0);
        lemma_matrix_line_step(lo, hi, n, c, k, 1);
        lemma_matrix_line_step(lo, hi, n, c, k, 2);
        lemma_matrix_line_step(lo, hi, n, c, k, r);
        assert(v =~= seq_add(seq_scale(prev, c), lp));
        lemma_interp_add(seq_scale(prev, c), lp, r, 3);
        lemma_interp_scale(prev, c, r, 3);
        lemma_line_product_exact(lo[j as int], hi[j as int], lo[nn], hi[nn], r);
    }
}

/// Law: along every line between rows with the challenge `c` in their
/// challenge slot, the matrix-sum polynomial is of degree two.
pub proof fn lemma_matrix_sum_exact<const N: usize>(c: nat)
    requires
        c < P,
    ensures
        exact_on_lines::<MatrixSumEvals<Fm, N>>((), 2, challenge_fixed(N as nat, c)),
{
    reveal(exact_on_lines);
    assert forall|lo: Seq<nat>, hi: Seq<nat>, r: nat|
        lo.len() == N + 2 && hi.len() == N + 2 && canonical_row(lo) && canonical_row(hi)
            && challenge_fixed(N as nat, c)(lo) && challenge_fixed(N as nat, c)(hi) && r < P implies #[trigger] interp(
        line_values::<MatrixSumEvals<Fm, N>>((), lo, hi, 2),
        r,
    ) == <MatrixSumEvals<Fm, N> as crate::sumcheck::function::SumcheckFunction>::function_spec(
        (),
        lerp_row(lo, hi, r),
    ) by {
        assert forall|t: nat| #[trigger] <MatrixSumEvals<Fm, N> as crate::sumcheck::function::SumcheckFunction>::function_spec(
            (),
            lerp_row(lo, hi, t),
        ) == matrix_line(lo, hi, N as nat, c, N as nat, t) by {
            let row = lerp_row(lo, hi, t);
            assert(row.take(N as int) =~= Seq::new(N as nat, |i: int| lerp(lo[i], hi[i], t)));
            lemma_lerp_constant(c, t);
        }
        let lv = line_values::<MatrixSumEvals<Fm, N>>((), lo, hi, 2);
        assert(lv[0] == matrix_line(lo, hi, N as nat, c, N as nat, 0));
        assert(lv[1] == matrix_line(lo, hi, N as nat, c, N as nat, 1));
        assert(lv[2] == matrix_line(lo, hi, N as nat, c, N as nat, 2));
        assert(lv =~= matrix_line_values(lo, hi, N as nat, c, N as nat));
        lemma_matrix_line_exact(lo, hi, N as nat, c, N as nat, r);
    }
}

/// Partial evaluations are field elements.
proof fn lemma_column_sum_canonical(ones: Seq<(usize, usize)>, rx: Seq<nat>, col: int)
    ensures
        column_sum(ones, rx, col) < P,
    decreases ones.len(),
{
    if ones.len() > 0 {
        lemma_column_sum_canonical(ones.drop_last(), rx, col);
    }
}

/// The matrix-sum table has the function's slots, field elements, and the
/// challenge in the challenge slot.
proof fn lemma_matrix_sum_table_ok<const N: usize>(
    structure: Seq<MatrixSumEvals<Fm, N>>,
    matrices: Seq<&Matrix>,
    z: Seq<Fm>,
    rx: Seq<Fm>,
    c: nat,
)
    requires
        c < P,
        forall|k: int| 0 <= k < structure.len() ==> (#[trigger] structure[k]).wf(),
    ensures
        table_ok::<MatrixSumEvals<Fm, N>>(matrix_sum_table::<N>(structure, matrices, z, rx, c)),
        rows_satisfy(matrix_sum_table::<N>(structure, matrices, z, rx, c), challenge_fixed(N as nat, c)),
{
    let tab = matrix_sum_table::<N>(structure, matrices, z, rx, c);
    assert forall|x: int| 0 <= x < tab.len() implies (#[trigger] tab[x]).len()
        == <MatrixSumEvals<Fm, N> as crate::sumcheck::function::SumcheckFunction>::slots()
        && canonical_row(tab[x]) && challenge_fixed(N as nat, c)(tab[x]) by {
        assert forall|s: int| 0 <= s < tab[x].len() implies #[trigger] tab[x][s] < P by {
            if s < N {
                if x < pow2(rx.len()) {
                    lemma_column_sum_canonical(matrices[s].ones(), eq_tab(values(rx)), x);
                } else {
                    assert(structure[x].wf());
                    structure[x].matrices@[s].lemma_view_bound();
                }
            } else if s == N {
                if x < z.len() {
                    z[x].lemma_view_bound();
                } else {
                    structure[x].z.lemma_view_bound();
                }
            }
        }
    }
}

/// Law: the matrix-product verifier accepts what the prover sends. When the
/// claims are right, that is, for every challenge the claims combined by its
/// powers are the sum of the matrix-sum polynomial over the prover's table,
/// then on the prover's messages and evaluations (the table's final row
/// without the challenge) the verifier's sumcheck passes every round, ends
/// at the prover's point, and the final claim is the matrix-sum polynomial
/// of the prover's evaluations and the challenge: the verifier returns `Ok`
/// with the prover's point, vector evaluation and Spark claims.
pub proof fn lemma_matrix_product_complete<S: Duplex, const N: usize>(
    h0: Seq<nat>,
    vars: nat,
    structure: Seq<MatrixSumEvals<Fm, N>>,
    matrices: Seq<&Matrix>,
    z: Seq<Fm>,
    rx: Seq<Fm>,
    matrix_slots: Seq<bool>,
    evals: Seq<Option<Fm>>,
)
    requires
        structure.len() == pow2(vars),
        forall|k: int| 0 <= k < structure.len() ==> (#[trigger] structure[k]).wf(),
        forall|c: nat|
            c < P ==> #[trigger] horner(matrix_claims(matrix_slots, evals, matrix_slots.len() as int), c)
                == table_sum::<MatrixSumEvals<Fm, N>>((), matrix_sum_table::<N>(structure, matrices, z, rx, c)),
    ensures
        ({
            let c = S::squeeze_spec(h0);
            let p = prover_run::<S, MatrixSumEvals<Fm, N>>(
                (),
                h0.push(c),
                matrix_sum_table::<N>(structure, matrices, z, rx, c),
                MATRIX_SUM_DEGREE as nat,
                vars,
            );
            let v = verifier_run::<S>(
                h0.push(c),
                horner(matrix_claims(matrix_slots, evals, matrix_slots.len() as int), c),
                p.messages,
                MATRIX_SUM_DEGREE as nat,
                vars,
            );
            &&& p.messages.len() == vars
            &&& p.table.len() == 1
            &&& p.table[0].len() == N + 2
            &&& v.ok
            &&& v.point == p.point
            &&& v.history == p.history
            &&& matrix_sum(p.table[0].take(N as int), p.table[0][N as int], c) == v.claim
        }),
{
    let c = S::squeeze_spec(h0);
    S::lemma_squeeze_canonical(h0);
    let tab = matrix_sum_table::<N>(structure, matrices, z, rx, c);
    lemma_matrix_sum_table_ok::<N>(structure, matrices, z, rx, c);
    lemma_challenge_fixed_closed(N as nat, c);
    lemma_matrix_sum_exact::<N>(c);
    assert(horner(matrix_claims(matrix_slots, evals, matrix_slots.len() as int), c)
        == table_sum::<MatrixSumEvals<Fm, N>>((), tab));
    lemma_sumcheck_complete::<S, MatrixSumEvals<Fm, N>>((), h0.push(c), tab, 2, vars, challenge_fixed(N as nat, c));
    crate::sumcheck::protocol::lemma_prover_tables_pub::<S, MatrixSumEvals<Fm, N>>(
        (),
        h0.push(c),
        tab,
        2,
        vars,
        challenge_fixed(N as nat, c),
    );
}

} // verus!
