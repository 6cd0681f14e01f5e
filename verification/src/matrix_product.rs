//! Products of sparse 0/1 matrices with a vector, reduced by sumcheck to
//! evaluations of the matrices' multilinear extensions at a point.
//!
//! For a matrix `M(x, y)` and a point `rx`, the sumcheck polynomial runs
//! over `M(rx, y) z(y)`; its final claims are evaluations of `M` at the
//! point `(rx, ry)`, which are then checked as sparse polynomials.
use crate::field::{fadd, fmul, Fm};
use crate::relation::Relation;
use crate::sums::{column_sums, fsum, horner, horner_row, horner_row_fn, lemma_fsum_ext, lemma_sum_of_horner};
use crate::spark::SparkInstance;
use crate::sumcheck::function::SumcheckFunction;
use crate::sumcheck::oracles::{EvalLocation, OracleEval, PartialQueryInstance};
use crate::sumcheck::point::{eq_table, eq_table_entry, values, MultiPoint};
use std::marker::PhantomData;
use std::rc::Rc;
use vstd::arithmetic::power2::pow2;
use vstd::prelude::*;

verus! {

/// A matrix with entries in `{0, 1}`, given by the `(row, column)`
/// positions of its ones.
#[derive(Clone, Debug)]
pub struct Matrix {
    entries: Vec<(usize, usize)>,
}

impl Matrix {
    /// The positions of the ones.
    pub closed spec fn ones(&self) -> Seq<(usize, usize)> {
        self.entries@
    }

    /// Every row and column index is below `n`.
    pub open spec fn fits(&self, n: nat) -> bool {
        forall|k: int|
            0 <= k < self.ones().len() ==> (#[trigger] self.ones()[k]).0 < n && self.ones()[k].1 < n
    }

    /// The matrix with ones at `entries`.
    pub fn new(entries: Vec<(usize, usize)>) -> (r: Self)
        ensures
            r.ones() == entries@,
    {
        Matrix { entries }
    }

    /// The positions of the ones.
    pub fn iter(&self) -> (r: &[(usize, usize)])
        ensures
            r@ == self.ones(),
    {
        self.entries.as_slice()
    }
}

/// `sum rx[row]` over the ones of a matrix in column `col`: the partial
/// evaluation `M(rx, col)` when `rx` is an equality table.
pub open spec fn column_sum(ones: Seq<(usize, usize)>, rx: Seq<nat>, col: int) -> nat
    decreases ones.len(),
{
    if ones.len() == 0 {
        0
    } else {
        let prev = column_sum(ones.drop_last(), rx, col);
        if ones.last().1 as int == col {
            fadd(prev, rx[ones.last().0 as int])
        } else {
            prev
        }
    }
}

/// `sum_{k < n} a[k] * b[k]`.
pub open spec fn dot(a: Seq<nat>, b: Seq<nat>, n: nat) -> nat
    decreases n,
{
    if n == 0 {
        0
    } else {
        let k = (n - 1) as int;
        fadd(dot(a, b, (n - 1) as nat), fmul(a[k], b[k]))
    }
}

/// The equality table of a point, entry `x` being `eq(bits(x), point)`.
pub open spec fn eq_tab(point: Seq<nat>) -> Seq<nat> {
    Seq::new(pow2(point.len()), |x: int| eq_table_entry(point, x as nat))
}

/// The partial evaluations `M(rx, y)` of a matrix, one per column `y` below
/// the length of the table `rx`.
pub open spec fn partial_evals(ones: Seq<(usize, usize)>, rx: Seq<nat>) -> Seq<nat> {
    Seq::new(rx.len(), |y: int| column_sum(ones, rx, y))
}

/// `acc = m_0 z`, then `acc = acc * challenge + m_k z` for each further
/// matrix: the random linear combination of the matrix-vector products.
pub open spec fn matrix_sum(ms: Seq<nat>, z: nat, challenge: nat) -> nat
    decreases ms.len(),
{
    if ms.len() <= 1 {
        if ms.len() == 1 {
            fmul(ms[0], z)
        } else {
            0
        }
    } else {
        fadd(fmul(matrix_sum(ms.drop_last(), z, challenge), challenge), fmul(ms.last(), z))
    }
}

/// The polynomials of the matrix-sum sumcheck: the partially evaluated
/// matrices, the vector `z` and the combination challenge.
#[derive(Clone, Debug)]
pub struct MatrixSumEvals<V, const N: usize> {
    /// One entry per matrix.
    pub matrices: Vec<V>,
    pub z: V,
    pub challenge: V,
}

impl<V, const N: usize> MatrixSumEvals<V, N> {
    /// One entry per matrix.
    pub open spec fn wf(&self) -> bool {
        self.matrices@.len() == N
    }
}

impl<const N: usize> MatrixSumEvals<Fm, N> {
    /// The partial evaluation `M(rx, y)` of `matrix` for every column `y` below
    /// the length of `rx`.
    pub fn matrix_partial_eval(matrix: &Matrix, rx: &[Fm]) -> (r: Vec<Fm>)
        requires
            matrix.fits(rx@.len() as nat),
        ensures
            values(r@) == partial_evals(matrix.ones(), values(rx@)),
    {
        let mut res: Vec<Fm> = Vec::new();
        let mut y: usize = 0;
        while y < rx.len()
            invariant
                y <= rx@.len(),
                res@.len() == y,
                forall|c: int| 0 <= c < y ==> (#[trigger] res@[c])@ == 0,
            decreases rx@.len() - y,
        {
            res.push(Fm::zero());
            y = y + 1;
        }
        let ones = matrix.iter();
        let ghost t = values(rx@);
        let mut k: usize = 0;
        proof {
            assert forall|c: int| 0 <= c < res@.len() implies (#[trigger] res@[c])@ == column_sum(
                ones@.take(0),
                t,
                c,
            ) by {}
        }
        while k < ones.len()
            invariant
                k <= ones@.len(),
                ones@ == matrix.ones(),
                matrix.fits(rx@.len() as nat),
                t == values(rx@),
                res@.len() == rx@.len(),
                forall|c: int|
                    0 <= c < res@.len() ==> (#[trigger] res@[c])@ == column_sum(
                        ones@.take(k as int),
                        t,
                        c,
                    ),
            decreases ones@.len() - k,
        {
            let (j, i) = ones[k];
            proof {
                assert(matrix.ones()[k as int].0 < rx@.len());
            }
            let updated = res[i].add(rx[j]);
            res.set(i, updated);
            proof {
                let s = ones@.take(k + 1);
                assert(s.drop_last() =~= ones@.take(k as int));
                assert(s.last() == (j, i));
            }
            k = k + 1;
        }
        proof {
            assert(ones@.take(ones@.len() as int) =~= ones@);
            assert(values(res@) =~= partial_evals(matrix.ones(), t));
        }
        res
    }

    /// All evaluations zero.
    pub fn zero() -> (r: Self)
        ensures
            r.wf(),
            forall|i: int| 0 <= i < N ==> (#[trigger] r.matrices@[i])@ == 0,
            r.z@ == 0,
            r.challenge@ == 0,
    {
        let mut matrices: Vec<Fm> = Vec::new();
        let mut i: usize = 0;
        while i < N
            invariant
                i <= N,
                matrices@.len() == i,
                forall|k: int| 0 <= k < i ==> (#[trigger] matrices@[k])@ == 0,
            decreases N - i,
        {
            matrices.push(Fm::zero());
            i = i + 1;
        }
        MatrixSumEvals { matrices, z: Fm::zero(), challenge: Fm::zero() }
    }

    /// The sumcheck polynomial at one point: the matrix-vector products
    /// combined by powers of the challenge.
    pub fn function(&self) -> (r: Fm)
        requires
            self.wf(),
            N >= 1,
        ensures
            r@ == matrix_sum(values(self.matrices@), self.z@, self.challenge@),
    {
        let ghost ms = values(self.matrices@);
        let mut acc = self.matrices[0].mul(self.z);
        let mut k: usize = 1;
        proof {
            assert(ms.take(1).len() == 1);
        }
        while k < self.matrices.len()
            invariant
                1 <= k <= self.matrices@.len(),
                ms == values(self.matrices@),
                acc@ == matrix_sum(ms.take(k as int), self.z@, self.challenge@),
            decreases self.matrices@.len() - k,
        {
            let m_eq = self.matrices[k].mul(self.z);
            proof {
                let s = ms.take(k + 1);
                assert(s.drop_last() =~= ms.take(k as int));
                assert(s.last() == self.matrices@[k as int]@);
            }
            acc = acc.mul(self.challenge).add(m_eq);
            k = k + 1;
        }
        proof {
            assert(ms.take(self.matrices@.len() as int) =~= ms);
        }
        acc
    }

    /// The sumcheck witness: `structure` with the partial evaluations
    /// `M_i(rx, y)` in the matrix columns and `z` in the vector column, each
    /// as far as it reaches.
    pub fn witness(structure: &[Self], matrices: &[&Matrix], z: &[Fm], rx: &MultiPoint) -> (r: Vec<
        Self,
    >)
        requires
            matrices@.len() == N,
            forall|k: int| 0 <= k < structure@.len() ==> (#[trigger] structure@[k]).wf(),
            pow2(rx@.len()) <= usize::MAX,
            forall|i: int| 0 <= i < N ==> (#[trigger] matrices@[i]).fits(pow2(rx@.len())),
        ensures
            r@.len() == structure@.len(),
            forall|k: int|
                0 <= k < r@.len() ==> {
                    &&& (#[trigger] r@[k]).wf()
                    &&& r@[k].challenge == structure@[k].challenge
                    &&& r@[k].z == if k < z@.len() {
                        z@[k]
                    } else {
                        structure@[k].z
                    }
                    &&& forall|i: int|
                        0 <= i < N ==> (#[trigger] r@[k].matrices@[i])@ == if k < pow2(rx@.len()) {
                            column_sum(matrices@[i].ones(), eq_tab(values(rx@)), k)
                        } else {
                            structure@[k].matrices@[i]@
                        }
                },
    {
        let table = eq_table(rx.inner_ref());
        let ghost tab = eq_tab(values(rx@));
        proof {
            assert(values(table@) =~= tab);
        }
        let mut cols: Vec<Vec<Fm>> = Vec::new();
        let mut i: usize = 0;
        while i < matrices.len()
            invariant
                i <= matrices@.len(),
                matrices@.len() == N,
                values(table@) == tab,
                tab.len() == pow2(rx@.len()),
                forall|m: int| 0 <= m < N ==> (#[trigger] matrices@[m]).fits(pow2(rx@.len())),
                cols@.len() == i,
                forall|m: int|
                    0 <= m < i ==> values((#[trigger] cols@[m])@) == partial_evals(
                        matrices@[m].ones(),
                        tab,
                    ),
            decreases matrices@.len() - i,
        {
            let col = Self::matrix_partial_eval(matrices[i], table.as_slice());
            cols.push(col);
            i = i + 1;
        }
        let mut witness: Vec<Self> = Vec::new();
        let mut k: usize = 0;
        while k < structure.len()
            invariant
                k <= structure@.len(),
                matrices@.len() == N,
                cols@.len() == N,
                tab.len() == pow2(rx@.len()),
                table@.len() == tab.len(),
                forall|m: int|
                    0 <= m < N ==> values((#[trigger] cols@[m])@) == partial_evals(
                        matrices@[m].ones(),
                        tab,
                    ),
                forall|j: int| 0 <= j < structure@.len() ==> (#[trigger] structure@[j]).wf(),
                witness@.len() == k,
                forall|j: int|
                    0 <= j < k ==> {
                        &&& (#[trigger] witness@[j]).wf()
                        &&& witness@[j].challenge == structure@[j].challenge
                        &&& witness@[j].z == if j < z@.len() {
                            z@[j]
                        } else {
                            structure@[j].z
                        }
                        &&& forall|m: int|
                            0 <= m < N ==> (#[trigger] witness@[j].matrices@[m])@ == if j < pow2(
                                rx@.len(),
                            ) {
                                column_sum(matrices@[m].ones(), tab, j)
                            } else {
                                structure@[j].matrices@[m]@
                            }
                    },
            decreases structure@.len() - k,
        {
            let row = &structure[k];
            let mut entries: Vec<Fm> = Vec::new();
            let mut m: usize = 0;
            while m < N
                invariant
                    m <= N,
                    k < structure@.len(),
                    *row == structure@[k as int],
                    row.wf(),
                    cols@.len() == N,
                    tab.len() == pow2(rx@.len()),
                    table@.len() == tab.len(),
                    forall|c: int|
                        0 <= c < N ==> values((#[trigger] cols@[c])@) == partial_evals(
                            matrices@[c].ones(),
                            tab,
                        ),
                    entries@.len() == m,
                    forall|c: int|
                        0 <= c < m ==> (#[trigger] entries@[c])@ == if k < pow2(rx@.len()) {
                            column_sum(matrices@[c].ones(), tab, k as int)
                        } else {
                            row.matrices@[c]@
                        },
                decreases N - m,
            {
                if k < table.len() {
                    proof {
                        assert(values(cols@[m as int]@)[k as int] == cols@[m as int]@[k as int]@);
                    }
                    entries.push(cols[m][k]);
                } else {
                    entries.push(row.matrices[m]);
                }
                m = m + 1;
            }
            let zk = if k < z.len() {
                z[k]
            } else {
                row.z
            };
            witness.push(MatrixSumEvals { matrices: entries, z: zk, challenge: row.challenge });
            k = k + 1;
        }
        witness
    }
}

impl<const N: usize> SumcheckFunction for MatrixSumEvals<Fm, N> {
    type Data = ();

    /// One slot per matrix, then the vector and the challenge.
    open spec fn slots() -> nat {
        N as nat + 2
    }

    open spec fn function_spec(data: (), evals: Seq<nat>) -> nat {
        matrix_sum(evals.take(N as int), evals[N as int], evals[N + 1])
    }

    proof fn lemma_function_canonical(data: (), evals: Seq<nat>) {
    }

    fn function(data: &(), evals: &[Fm]) -> (r: Fm) {
        let mut matrices: Vec<Fm> = Vec::new();
        let mut i: usize = 0;
        while i < N
            invariant
                i <= N,
                evals@.len() == N + 2,
                matrices@ == evals@.take(i as int),
            decreases N - i,
        {
            matrices.push(evals[i]);
            i = i + 1;
            proof {
                assert(matrices@ =~= evals@.take(i as int));
            }
        }
        let row = MatrixSumEvals::<Fm, N> { matrices, z: evals[N], challenge: evals[N + 1] };
        proof {
            assert(values(row.matrices@) =~= values(evals@).take(N as int));
        }
        if N == 0 {
            Fm::zero()
        } else {
            row.function()
        }
    }
}

impl<const N: usize> MatrixSumEvals<OracleEval, N> {
    /// What the matrix-sum oracle answers: the matrix evaluations are
    /// provided by the prover, the vector and the challenge are not its own.
    pub fn evals() -> (r: Self)
        ensures
            r.wf(),
            forall|i: int| 0 <= i < N ==> #[trigger] r.matrices@[i] is ProverProvided,
            r.z is Absent,
            r.challenge is Absent,
    {
        let mut matrices: Vec<OracleEval> = Vec::new();
        let mut i: usize = 0;
        while i < N
            invariant
                i <= N,
                matrices@.len() == i,
                forall|k: int| 0 <= k < i ==> #[trigger] matrices@[k] is ProverProvided,
            decreases N - i,
        {
            matrices.push(OracleEval::ProverProvided);
            i = i + 1;
        }
        MatrixSumEvals { matrices, z: OracleEval::Absent, challenge: OracleEval::Absent }
    }
}

impl<const N: usize> MatrixSumEvals<Vec<Fm>, N> {
    /// The coefficients known to the verifier: the challenge alone.
    pub fn coefficients(challenge: Fm) -> (r: Self)
        ensures
            r.wf(),
            forall|i: int| 0 <= i < N ==> (#[trigger] r.matrices@[i])@.len() == 0,
            r.z@.len() == 0,
            r.challenge@ == seq![challenge],
    {
        let mut matrices: Vec<Vec<Fm>> = Vec::new();
        let mut i: usize = 0;
        while i < N
            invariant
                i <= N,
                matrices@.len() == i,
                forall|k: int| 0 <= k < i ==> (#[trigger] matrices@[k])@.len() == 0,
            decreases N - i,
        {
            matrices.push(Vec::new());
            i = i + 1;
        }
        let mut c: Vec<Fm> = Vec::new();
        c.push(challenge);
        proof {
            assert(c@ =~= seq![challenge]);
        }
        MatrixSumEvals { matrices, z: Vec::new(), challenge: c }
    }
}

/// The nature of the partially evaluated matrices: witness polynomials whose
/// evaluations the prover provides.
#[derive(Clone, Copy, Debug)]
pub struct MatrixSumNature;

impl MatrixSumNature {
    /// The evaluations are provided by the prover.
    pub fn prover_provided(self) -> (r: bool)
        ensures
            r,
    {
        true
    }

    /// The polynomials belong to the witness.
    pub fn location(self) -> (r: EvalLocation)
        ensures
            r == EvalLocation::Witness,
    {
        EvalLocation::Witness
    }
}

/// The nature of the matrix-vector products of the matrix-product oracle:
/// witness polynomials whose evaluations the prover provides.
#[derive(Clone, Copy, Debug)]
pub struct MatrixNature;

impl MatrixNature {
    /// The evaluations are provided by the prover.
    pub fn prover_provided(self) -> (r: bool)
        ensures
            r,
    {
        true
    }

    /// The polynomials belong to the witness.
    pub fn location(self) -> (r: EvalLocation)
        ensures
            r == EvalLocation::Witness,
    {
        EvalLocation::Witness
    }
}

/// The point `rx` the matrices are partially evaluated at.
#[derive(Clone, Debug)]
pub struct MatrixSumInstance {
    pub point: MultiPoint,
}

impl MatrixSumInstance {
    /// The instance of the matrices partially evaluated at `point`.
    pub fn new(point: MultiPoint) -> (r: Self)
        ensures
            r.point@ == point@,
    {
        MatrixSumInstance { point }
    }
}

/// Some evaluation of a matrix was not provided.
#[derive(Clone, Copy, Debug, PartialEq, Eq)]
pub struct MissingEvals;

/// The point `(rx, ry)`: the coordinates of `rx` followed by those of `ry`.
pub fn merge_point(rx: &MultiPoint, ry: &MultiPoint) -> (r: MultiPoint)
    ensures
        r@ == rx@ + ry@,
{
    let a = rx.inner_ref();
    let b = ry.inner_ref();
    let mut coords: Vec<Fm> = Vec::new();
    let mut i: usize = 0;
    while i < a.len()
        invariant
            i <= a@.len(),
            coords@ == a@.take(i as int),
        decreases a@.len() - i,
    {
        coords.push(a[i]);
        i = i + 1;
        proof {
            assert(coords@ =~= a@.take(i as int));
        }
    }
    let mut j: usize = 0;
    proof {
        assert(coords@ =~= a@ + b@.take(0));
    }
    while j < b.len()
        invariant
            j <= b@.len(),
            coords@ == a@ + b@.take(j as int),
        decreases b@.len() - j,
    {
        coords.push(b[j]);
        j = j + 1;
        proof {
            assert(coords@ =~= a@ + b@.take(j as int));
        }
    }
    proof {
        assert(b@.take(b@.len() as int) =~= b@);
    }
    MultiPoint::new(coords)
}

/// Every matrix evaluation of a query is present.
pub open spec fn all_provided<const N: usize>(evals: MatrixSumEvals<Option<Fm>, N>) -> bool {
    forall|i: int| 0 <= i < N ==> (#[trigger] evals.matrices@[i]) is Some
}

/// An oracle to matrices partially evaluated at a point: for `M(x, y)` and
/// `rx`, it answers queries to `M(rx, y)`.
#[derive(Debug)]
pub struct MatrixSumOracle<C, const N: usize> {
    matrices: Vec<Rc<Matrix>>,
    _phantom: PhantomData<C>,
}

/// A query to the matrix-sum oracle.
pub type MatrixSumQueryInstance<const N: usize> = PartialQueryInstance<
    MatrixSumEvals<Option<Fm>, N>,
    MatrixSumInstance,
>;

impl<C, const N: usize> MatrixSumOracle<C, N> {
    /// The matrices.
    pub closed spec fn matrices(&self) -> Seq<Matrix> {
        self.matrices@.map_values(|m: Rc<Matrix>| *m)
    }

    /// The oracle to `matrices`.
    pub fn new(matrices: Vec<Rc<Matrix>>) -> (r: Self)
        requires
            matrices@.len() == N,
        ensures
            r.matrices().len() == N,
            forall|i: int| 0 <= i < N ==> #[trigger] r.matrices()[i] == *matrices@[i],
    {
        MatrixSumOracle { matrices, _phantom: PhantomData }
    }

    /// The claims the query reduces to: each matrix evaluates at `(rx, ry)`
    /// to the evaluation provided for it.
    pub fn prove(instance: &MatrixSumQueryInstance<N>) -> (r: Vec<SparkInstance>)
        requires
            instance.evals.wf(),
            all_provided(instance.evals),
        ensures
            r@.len() == N,
            forall|i: int|
                0 <= i < N ==> {
                    &&& (#[trigger] r@[i]).point() == instance.oracle_instance.point@
                        + instance.point@
                    &&& r@[i].claimed() == instance.evals.matrices@[i]->0
                },
    {
        match Self::spark_instances(instance) {
            Ok(v) => v,
            Err(_) => {
                proof {
                    assert(false);
                }
                Vec::new()
            },
        }
    }

    /// The claims the query reduces to, or `MissingEvals` if an evaluation of
    /// a matrix is missing.
    pub fn verify(instance: &MatrixSumQueryInstance<N>) -> (r: Result<Vec<SparkInstance>, MissingEvals>)
        requires
            instance.evals.wf(),
        ensures
            r is Err <==> !all_provided(instance.evals),
            r matches Ok(v) ==> v@.len() == N && forall|i: int|
                0 <= i < N ==> {
                    &&& (#[trigger] v@[i]).point() == instance.oracle_instance.point@
                        + instance.point@
                    &&& v@[i].claimed() == instance.evals.matrices@[i]->0
                },
    {
        Self::spark_instances(instance)
    }

    fn spark_instances(instance: &MatrixSumQueryInstance<N>) -> (r: Result<Vec<SparkInstance>, MissingEvals>)
        requires
            instance.evals.wf(),
        ensures
            r is Err <==> !all_provided(instance.evals),
            r matches Ok(v) ==> v@.len() == N && forall|i: int|
                0 <= i < N ==> {
                    &&& (#[trigger] v@[i]).point() == instance.oracle_instance.point@
                        + instance.point@
                    &&& v@[i].claimed() == instance.evals.matrices@[i]->0
                },
    {
        let mut evals: Vec<Fm> = Vec::new();
        let mut i: usize = 0;
        while i < N
            invariant
                i <= N,
                instance.evals.wf(),
                evals@.len() == i,
                forall|k: int|
                    0 <= k < i ==> #[trigger] instance.evals.matrices@[k] == Some(evals@[k]),
            decreases N - i,
        {
            match instance.evals.matrices[i] {
                Some(e) => {
                    evals.push(e);
                },
                None => {
                    return Err(MissingEvals);
                },
            }
            i = i + 1;
        }
        let point = merge_point(&instance.oracle_instance.point, &instance.point);
        let mut res: Vec<SparkInstance> = Vec::new();
        let mut k: usize = 0;
        while k < N
            invariant
                k <= N,
                evals@.len() == N,
                point@ == instance.oracle_instance.point@ + instance.point@,
                res@.len() == k,
                forall|j: int|
                    0 <= j < k ==> {
                        &&& (#[trigger] res@[j]).point() == point@
                        &&& res@[j].claimed() == evals@[j]
                    },
            decreases N - k,
        {
            res.push(SparkInstance::new(point.duplicate(), evals[k]));
            k = k + 1;
        }
        Ok(res)
    }
}

/// The relation of a query to the matrix-sum oracle.
#[derive(Debug)]
pub struct MatrixSumQuery<C, const N: usize>(PhantomData<C>);

/// The query is well formed: the matrix evaluations alone are given, the
/// matrices fit the equality table of `rx`, and both tables fit in memory.
pub open spec fn query_admissible<C, const N: usize>(
    structure: MatrixSumOracle<C, N>,
    instance: MatrixSumQueryInstance<N>,
) -> bool {
    &&& instance.evals.wf()
    &&& instance.evals.z is None
    &&& instance.evals.challenge is None
    &&& structure.matrices().len() == N
    &&& pow2(instance.oracle_instance.point@.len()) <= usize::MAX
    &&& pow2(instance.point@.len()) <= usize::MAX
    &&& forall|i: int|
        0 <= i < N ==> (#[trigger] structure.matrices()[i]).fits(
            pow2(instance.oracle_instance.point@.len()),
        )
}

/// Every matrix evaluation is provided and is the evaluation of its matrix at
/// `(rx, ry)`.
pub open spec fn query_holds<C, const N: usize>(
    structure: MatrixSumOracle<C, N>,
    instance: MatrixSumQueryInstance<N>,
) -> bool {
    all_provided(instance.evals) && forall|i: int|
        0 <= i < N ==> #[trigger] matrix_eval(
            structure.matrices()[i].ones(),
            values(instance.oracle_instance.point@),
            values(instance.point@),
        ) == instance.evals.matrices@[i]->0@
}

impl<C, const N: usize> Relation for MatrixSumQuery<C, N> {
    type Structure = MatrixSumOracle<C, N>;

    type Instance = MatrixSumQueryInstance<N>;

    type Witness = Vec<MatrixSumEvals<Fm, N>>;

    open spec fn admits(
        structure: MatrixSumOracle<C, N>,
        instance: MatrixSumQueryInstance<N>,
        witness: Vec<MatrixSumEvals<Fm, N>>,
    ) -> bool {
        query_admissible(structure, instance)
    }

    open spec fn holds(
        structure: MatrixSumOracle<C, N>,
        instance: MatrixSumQueryInstance<N>,
        witness: Vec<MatrixSumEvals<Fm, N>>,
    ) -> bool {
        query_holds(structure, instance)
    }

    /// Whether every matrix evaluation is provided and equals
    /// `sum_y M(rx, y) eq(ry, y)`, the evaluation of the matrix at `(rx, ry)`.
    fn check(
        structure: &MatrixSumOracle<C, N>,
        instance: &MatrixSumQueryInstance<N>,
        witness: &Vec<MatrixSumEvals<Fm, N>>,
    ) -> (r: bool)
    {
        let mut evals: Vec<Fm> = Vec::new();
        let mut i: usize = 0;
        while i < N
            invariant
                i <= N,
                instance.evals.wf(),
                evals@.len() == i,
                forall|k: int|
                    0 <= k < i ==> #[trigger] instance.evals.matrices@[k] == Some(evals@[k]),
            decreases N - i,
        {
            match instance.evals.matrices[i] {
                Some(e) => {
                    evals.push(e);
                },
                None => {
                    return false;
                },
            }
            i = i + 1;
        }
        let rx = eq_table(instance.oracle_instance.point.inner_ref());
        let ry = eq_table(instance.point.inner_ref());
        let ghost tx = eq_tab(values(instance.oracle_instance.point@));
        let ghost ty = eq_tab(values(instance.point@));
        proof {
            assert(values(rx@) =~= tx);
            assert(values(ry@) =~= ty);
        }
        let mut m: usize = 0;
        while m < N
            invariant
                m <= N,
                evals@.len() == N,
                structure.matrices().len() == N,
                structure.matrices@.len() == N,
                forall|k: int| 0 <= k < N ==> #[trigger] instance.evals.matrices@[k] == Some(evals@[k]),
                values(rx@) == tx,
                values(ry@) == ty,
                tx == eq_tab(values(instance.oracle_instance.point@)),
                ty == eq_tab(values(instance.point@)),
                tx.len() == pow2(instance.oracle_instance.point@.len()),
                forall|c: int|
                    0 <= c < N ==> (#[trigger] structure.matrices()[c]).fits(
                        pow2(instance.oracle_instance.point@.len()),
                    ),
                forall|k: int|
                    0 <= k < m ==> #[trigger] matrix_eval(
                        structure.matrices()[k].ones(),
                        values(instance.oracle_instance.point@),
                        values(instance.point@),
                    ) == evals@[k]@,
            decreases N - m,
        {
            let matrix: &Matrix = &structure.matrices[m];
            proof {
                assert(*matrix == structure.matrices()[m as int]);
            }
            let partial = MatrixSumEvals::<Fm, N>::matrix_partial_eval(matrix, rx.as_slice());
            let n = if ry.len() < partial.len() {
                ry.len()
            } else {
                partial.len()
            };
            let mut eval = Fm::zero();
            let mut y: usize = 0;
            while y < n
                invariant
                    y <= n,
                    n <= ry@.len(),
                    n <= partial@.len(),
                    eval@ == dot(values(partial@), values(ry@), y as nat),
                decreases n - y,
            {
                eval = eval.add(partial[y].mul(ry[y]));
                y = y + 1;
            }
            proof {
                assert(values(partial@) == partial_evals(matrix.ones(), tx));
                assert(values(partial@).len() == partial@.len());
                assert(partial_evals(matrix.ones(), tx).len() == tx.len());
                assert(partial@.len() == tx.len());
                assert(ry@.len() == ty.len());
                assert(structure.matrices()[m as int].ones() == matrix.ones());
                assert(n as nat == (if ty.len() < tx.len() {
                    ty.len()
                } else {
                    tx.len()
                }));
                assert(eval@ == dot(partial_evals(matrix.ones(), tx), ty, n as nat));
                assert(eval@ == matrix_eval(
                    structure.matrices()[m as int].ones(),
                    values(instance.oracle_instance.point@),
                    values(instance.point@),
                ));
            }
            if !eval.equals(&evals[m]) {
                return false;
            }
            m = m + 1;
        }
        true
    }
}

/// `M(rx, ry) = sum_y M(rx, y) eq(ry, y)` over the columns reached by both
/// equality tables.
pub open spec fn matrix_eval(ones: Seq<(usize, usize)>, rx: Seq<nat>, ry: Seq<nat>) -> nat {
    let tx = eq_tab(rx);
    let ty = eq_tab(ry);
    let n = if ty.len() < tx.len() {
        ty.len()
    } else {
        tx.len()
    };
    dot(partial_evals(ones, tx), ty, n)
}

/// The term of matrix `i` at row `y`: `M_i(rx, y) z(y)`.
pub open spec fn matrix_terms<const N: usize>(rows: Seq<MatrixSumEvals<Fm, N>>) -> spec_fn(int, int) -> nat {
    |i: int, y: int| fmul(rows[y].matrices@[i]@, rows[y].z@)
}

/// `y ->` the matrix-sum polynomial at row `y`.
pub open spec fn matrix_sum_fn<const N: usize>(rows: Seq<MatrixSumEvals<Fm, N>>, c: nat) -> spec_fn(int) -> nat {
    |y: int| matrix_sum(values(rows[y].matrices@), rows[y].z@, c)
}

/// The matrix-sum polynomial over the first `k` matrices of a row is the
/// combination of its terms.
proof fn lemma_matrix_sum_row<const N: usize>(rows: Seq<MatrixSumEvals<Fm, N>>, c: nat, k: int, y: int)
    requires
        1 <= k <= N,
        0 <= y < rows.len(),
        rows[y].wf(),
    ensures
        matrix_sum(values(rows[y].matrices@).take(k), rows[y].z@, c) == horner_row(
            matrix_terms(rows),
            c,
            k,
            y,
        ),
    decreases k,
{
    let ms = values(rows[y].matrices@);
    if k > 1 {
        lemma_matrix_sum_row(rows, c, k - 1, y);
        assert(ms.take(k).drop_last() =~= ms.take(k - 1));
    }
}

/// The sum over the hypercube of the matrix-sum polynomial is the claimed
/// sum: with `S_i = sum_y M_i(rx, y) z(y)`, the evaluation of `M_i z` at
/// `rx`, the sum over all rows of `M_0 z`, then `acc * c + M_i z`, is
/// `horner(S_0, ..., S_{N-1})`, which is what the verifier starts the
/// sumcheck from.
pub proof fn lemma_matrix_sum_total<const N: usize>(rows: Seq<MatrixSumEvals<Fm, N>>, c: nat)
    requires
        N >= 1,
        forall|y: int| 0 <= y < rows.len() ==> (#[trigger] rows[y]).wf(),
    ensures
        fsum(matrix_sum_fn(rows, c), rows.len()) == horner(
            column_sums(matrix_terms(rows), N as nat, rows.len()),
            c,
        ),
{
    let m = rows.len();
    let t = matrix_terms(rows);
    lemma_sum_of_horner(t, c, N as int, N as nat, m);
    assert(column_sums(t, N as nat, m).take(N as int) =~= column_sums(t, N as nat, m));
    assert forall|y: int| 0 <= y < m implies #[trigger] matrix_sum_fn(rows, c)(y) == horner_row_fn(
        t,
        c,
        N as int,
    )(y) by {
        lemma_matrix_sum_row(rows, c, N as int, y);
        assert(values(rows[y].matrices@).take(N as int) =~= values(rows[y].matrices@));
    }
    lemma_fsum_ext(matrix_sum_fn(rows, c), horner_row_fn(t, c, N as int), m);
}

} // verus!
