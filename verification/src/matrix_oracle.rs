//! The matrix-product oracle: a committed vector `z` and the products
//! `M_i z` of `N` matrices with it, which the prover provides.
//!
//! The polynomials of the sumcheck function are taken as a sequence of slots;
//! one slot holds the vector, and `N` slots, in order, hold the products.
use crate::field::{fadd, Fm};
use crate::matrix_product::Matrix;
use crate::sumcheck::oracles::OracleEval;
use crate::sumcheck::point::values;
use crate::sums::horner;
use std::marker::PhantomData;
use std::rc::Rc;
use vstd::prelude::*;

verus! {

/// The number of set flags among the first `n`.
pub open spec fn count_set(flags: Seq<bool>, n: int) -> nat
    decreases n,
{
    if n <= 0 {
        0
    } else {
        count_set(flags, n - 1) + if flags[n - 1] {
            1nat
        } else {
            0nat
        }
    }
}

/// The positions of the set flags, in order.
pub open spec fn set_positions(flags: Seq<bool>, n: int) -> Seq<int>
    decreases n,
{
    if n <= 0 {
        Seq::empty()
    } else if flags[n - 1] {
        set_positions(flags, n - 1).push(n - 1)
    } else {
        set_positions(flags, n - 1)
    }
}

/// There are as many positions as set flags, each below `n` and set.
proof fn lemma_set_positions(flags: Seq<bool>, n: int)
    requires
        0 <= n <= flags.len(),
    ensures
        set_positions(flags, n).len() == count_set(flags, n),
        forall|k: int|
            0 <= k < set_positions(flags, n).len() ==> 0 <= #[trigger] set_positions(flags, n)[k] < n
                && flags[set_positions(flags, n)[k]],
    decreases n,
{
    if n > 0 {
        lemma_set_positions(flags, n - 1);
    }
}

/// `sum_s flags[s] ? row[s] : 0`: the entry of the flagged polynomial.
pub open spec fn filtered_sum(flags: Seq<bool>, row: Seq<Fm>, n: int) -> nat
    decreases n,
{
    if n <= 0 {
        0
    } else {
        fadd(
            filtered_sum(flags, row, n - 1),
            if flags[n - 1] {
                row[n - 1]@
            } else {
                0
            },
        )
    }
}

/// `sum v[col]` over the ones of a matrix in row `r`: entry `r` of `M v`.
pub open spec fn row_sum(ones: Seq<(usize, usize)>, v: Seq<nat>, r: int) -> nat
    decreases ones.len(),
{
    if ones.len() == 0 {
        0
    } else {
        let prev = row_sum(ones.drop_last(), v, r);
        if ones.last().0 as int == r {
            fadd(prev, v[ones.last().1 as int])
        } else {
            prev
        }
    }
}

/// The product `M v`, one entry per entry of `v`.
pub open spec fn mat_vec(ones: Seq<(usize, usize)>, v: Seq<nat>) -> Seq<nat> {
    Seq::new(v.len(), |r: int| row_sum(ones, v, r))
}

/// The product of a matrix with a vector, for a matrix whose rows and columns
/// index the vector.
pub fn mat_vec_product(matrix: &Matrix, v: &[Fm]) -> (r: Vec<Fm>)
    requires
        matrix.fits(v@.len() as nat),
    ensures
        r@.len() == v@.len(),
        forall|k: int|
            0 <= k < v@.len() ==> (#[trigger] r@[k])@ == mat_vec(
                matrix.ones(),
                values(v@),
            )[k],
{
    let ghost vals = values(v@);
    let mut res: Vec<Fm> = Vec::new();
    let mut k: usize = 0;
    while k < v.len()
        invariant
            k <= v@.len(),
            res@.len() == k,
            forall|c: int| 0 <= c < k ==> (#[trigger] res@[c])@ == 0,
        decreases v@.len() - k,
    {
        res.push(Fm::zero());
        k = k + 1;
    }
    let ones = matrix.iter();
    let mut e: usize = 0;
    while e < ones.len()
        invariant
            e <= ones@.len(),
            ones@ == matrix.ones(),
            matrix.fits(v@.len() as nat),
            vals == values(v@),
            res@.len() == v@.len(),
            forall|c: int|
                0 <= c < res@.len() ==> (#[trigger] res@[c])@ == row_sum(
                    ones@.take(e as int),
                    vals,
                    c,
                ),
        decreases ones@.len() - e,
    {
        let (row, col) = ones[e];
        proof {
            assert(matrix.ones()[e as int].0 < v@.len());
        }
        let updated = res[row].add(v[col]);
        res.set(row, updated);
        proof {
            let s = ones@.take(e + 1);
            assert(s.drop_last() =~= ones@.take(e as int));
            assert(s.last() == (row, col));
        }
        e = e + 1;
    }
    proof {
        assert(ones@.take(ones@.len() as int) =~= ones@);
    }
    res
}

/// The vector of a witness: row by row, the entry of the flagged slot.
pub open spec fn witness_vector(flags: Seq<bool>, witness: Seq<Vec<Fm>>) -> Seq<nat> {
    Seq::new(witness.len(), |j: int| filtered_sum(flags, witness[j]@, flags.len() as int))
}

/// Whether column `slot` of the witness is `product`.
fn column_matches(product: &Vec<Fm>, witness: &Vec<Vec<Fm>>, slot: usize) -> (r: bool)
    requires
        product@.len() == witness@.len(),
        forall|k: int| 0 <= k < witness@.len() ==> slot < (#[trigger] witness@[k])@.len(),
    ensures
        r == forall|b: int|
            0 <= b < witness@.len() ==> (#[trigger] product@[b])@ == witness@[b]@[slot as int]@,
{
    let mut j: usize = 0;
    while j < witness.len()
        invariant
            j <= witness@.len(),
            product@.len() == witness@.len(),
            forall|k: int| 0 <= k < witness@.len() ==> slot < (#[trigger] witness@[k])@.len(),
            forall|b: int| 0 <= b < j ==> (#[trigger] product@[b])@ == witness@[b]@[slot as int]@,
        decreases witness@.len() - j,
    {
        if !product[j].equals(&witness[j][slot]) {
            return false;
        }
        j = j + 1;
    }
    true
}

/// The oracle to `N` matrices and the vector they multiply.
#[derive(Debug)]
pub struct MatrixProductOracle<C, const N: usize> {
    matrices: Vec<Rc<Matrix>>,
    vector: Vec<bool>,
    pcs: C,
    vars: usize,
}

impl<C, const N: usize> MatrixProductOracle<C, N> {
    /// The matrices.
    pub closed spec fn matrices(&self) -> Seq<Matrix> {
        self.matrices@.map_values(|m: Rc<Matrix>| *m)
    }

    /// The flags of the slot of the vector.
    pub closed spec fn vector(&self) -> Seq<bool> {
        self.vector@
    }

    /// The number of variables.
    pub closed spec fn num_vars(&self) -> usize {
        self.vars
    }

    /// The commitment scheme.
    pub closed spec fn scheme(&self) -> C {
        self.pcs
    }

    /// The oracle to `matrices`, the vector being in the slots flagged by
    /// `vector`.
    pub fn new(matrices: Vec<Rc<Matrix>>, vector: Vec<bool>, pcs: C, vars: usize) -> (r: Self)
        requires
            matrices@.len() == N,
        ensures
            r.matrices().len() == N,
            forall|i: int| 0 <= i < N ==> #[trigger] r.matrices()[i] == *matrices@[i],
            r.vector() == vector@,
            r.num_vars() == vars,
            r.scheme() == pcs,
    {
        MatrixProductOracle { matrices, vector, pcs, vars }
    }

    /// The flags of the slot of the vector.
    pub fn vector_flags(&self) -> (r: &[bool])
        ensures
            r@ == self.vector(),
    {
        self.vector.as_slice()
    }

    /// The commitment scheme.
    pub fn pcs(&self) -> (r: &C)
        ensures
            *r == self.scheme(),
    {
        &self.pcs
    }

    /// The number of variables.
    pub fn vars(&self) -> (r: usize)
        ensures
            r == self.num_vars(),
    {
        self.vars
    }

    /// The commitments of the committed oracle: the commitment of the
    /// instance in the vector slot, none elsewhere.
    pub fn convert_instance<D: Copy>(&self, commit: D) -> (r: Vec<Option<D>>)
        ensures
            r@.len() == self.vector().len(),
            forall|s: int|
                0 <= s < r@.len() ==> #[trigger] r@[s] == if self.vector()[s] {
                    Some(commit)
                } else {
                    None
                },
    {
        let mut commits: Vec<Option<D>> = Vec::new();
        let mut s: usize = 0;
        while s < self.vector.len()
            invariant
                s <= self.vector@.len(),
                commits@.len() == s,
                forall|t: int|
                    0 <= t < s ==> #[trigger] commits@[t] == if self.vector@[t] {
                        Some(commit)
                    } else {
                        None
                    },
            decreases self.vector@.len() - s,
        {
            if self.vector[s] {
                commits.push(Some(commit));
            } else {
                commits.push(None);
            }
            s = s + 1;
        }
        commits
    }
}

/// The answers of the matrix-product oracle: the products are provided by
/// the prover, the other slots are answered by the committed oracle.
pub fn matrix_oracle_evals(matrix_slots: &[bool], committed: &[OracleEval]) -> (r: Vec<OracleEval>)
    requires
        committed@.len() == matrix_slots@.len(),
    ensures
        r@.len() == matrix_slots@.len(),
        forall|s: int|
            0 <= s < r@.len() ==> #[trigger] r@[s] == if matrix_slots@[s] {
                OracleEval::ProverProvided
            } else {
                committed@[s]
            },
{
    let mut evals: Vec<OracleEval> = Vec::new();
    let mut s: usize = 0;
    while s < matrix_slots.len()
        invariant
            s <= matrix_slots@.len(),
            committed@.len() == matrix_slots@.len(),
            evals@.len() == s,
            forall|t: int|
                0 <= t < s ==> #[trigger] evals@[t] == if matrix_slots@[t] {
                    OracleEval::ProverProvided
                } else {
                    committed@[t]
                },
        decreases matrix_slots@.len() - s,
    {
        if matrix_slots[s] {
            evals.push(OracleEval::ProverProvided);
        } else {
            evals.push(committed[s]);
        }
        s = s + 1;
    }
    evals
}

/// The relation of a query to the matrix-product oracle.
#[derive(Debug)]
pub struct MatrixOracleQuery<C, const N: usize>(PhantomData<C>);

impl<C, const N: usize> MatrixOracleQuery<C, N> {
    /// Whether the witness is consistent with the matrices: exactly one slot
    /// holds the vector, exactly `N` slots hold products, and for every
    /// matrix `i` and row `j` the `i`-th product slot of row `j` holds entry
    /// `j` of `M_i z`, `z` being the vector column of the witness.
    pub fn check(structure: &MatrixProductOracle<C, N>, matrix_slots: &[bool], witness: &Vec<Vec<Fm>>) -> (r: bool)
        requires
            structure.matrices().len() == N,
            matrix_slots@.len() == structure.vector().len(),
            forall|j: int|
                0 <= j < witness@.len() ==> (#[trigger] witness@[j])@.len() == structure.vector().len(),
            forall|i: int| 0 <= i < N ==> (#[trigger] structure.matrices()[i]).fits(witness@.len() as nat),
        ensures
            r == {
                let slots = structure.vector().len() as int;
                let z = witness_vector(structure.vector(), witness@);
                let positions = set_positions(matrix_slots@, slots);
                &&& count_set(structure.vector(), slots) == 1
                &&& positions.len() == N
                &&& forall|i: int, j: int|
                    0 <= i < N && 0 <= j < witness@.len() ==> #[trigger] mat_vec(
                        structure.matrices()[i].ones(),
                        z,
                    )[j] == (#[trigger] witness@[j])@[positions[i]]@
            },
    {
        let ghost slots = structure.vector@.len() as int;
        let flags = structure.vector_flags();
        let mut count: usize = 0;
        let mut s: usize = 0;
        while s < flags.len()
            invariant
                s <= flags@.len(),
                flags@ == structure.vector(),
                count == count_set(flags@, s as int),
                count <= s,
            decreases flags@.len() - s,
        {
            if flags[s] {
                count = count + 1;
            }
            s = s + 1;
        }
        if count != 1 {
            return false;
        }
        let mut vector: Vec<Fm> = Vec::new();
        let mut j: usize = 0;
        while j < witness.len()
            invariant
                j <= witness@.len(),
                flags@ == structure.vector(),
                forall|k: int| 0 <= k < witness@.len() ==> (#[trigger] witness@[k])@.len() == flags@.len(),
                vector@.len() == j,
                forall|k: int|
                    0 <= k < j ==> (#[trigger] vector@[k])@ == witness_vector(flags@, witness@)[k],
            decreases witness@.len() - j,
        {
            let row = &witness[j];
            let mut acc = Fm::zero();
            let mut t: usize = 0;
            while t < flags.len()
                invariant
                    t <= flags@.len(),
                    row@.len() == flags@.len(),
                    acc@ == filtered_sum(flags@, row@, t as int),
                decreases flags@.len() - t,
            {
                if flags[t] {
                    acc = acc.add(row[t]);
                } else {
                    proof {
                        acc.lemma_view_bound();
                        assert(fadd(acc@, 0) == acc@);
                    }
                }
                t = t + 1;
            }
            vector.push(acc);
            j = j + 1;
        }
        proof {
            assert(values(vector@) =~= witness_vector(flags@, witness@));
        }
        let mut positions: Vec<usize> = Vec::new();
        let mut t: usize = 0;
        while t < matrix_slots.len()
            invariant
                t <= matrix_slots@.len(),
                positions@.len() == set_positions(matrix_slots@, t as int).len(),
                forall|k: int|
                    0 <= k < positions@.len() ==> (#[trigger] positions@[k]) as int == set_positions(
                        matrix_slots@,
                        t as int,
                    )[k],
            decreases matrix_slots@.len() - t,
        {
            if matrix_slots[t] {
                positions.push(t);
            }
            t = t + 1;
        }
        proof {
            lemma_set_positions(matrix_slots@, matrix_slots@.len() as int);
        }
        if positions.len() != N {
            return false;
        }
        let mut i: usize = 0;
        while i < N
            invariant
                i <= N,
                structure.matrices().len() == N,
                structure.matrices@.len() == N,
                flags@ == structure.vector(),
                positions@.len() == N,
                count_set(flags@, flags@.len() as int) == 1,
                set_positions(matrix_slots@, matrix_slots@.len() as int).len() == N,
                matrix_slots@.len() == flags@.len(),
                forall|k: int|
                    0 <= k < N ==> (#[trigger] positions@[k]) as int == set_positions(
                        matrix_slots@,
                        matrix_slots@.len() as int,
                    )[k],
                forall|k: int|
                    0 <= k < set_positions(matrix_slots@, matrix_slots@.len() as int).len() ==> 0
                        <= #[trigger] set_positions(matrix_slots@, matrix_slots@.len() as int)[k]
                        < matrix_slots@.len(),
                forall|k: int| 0 <= k < witness@.len() ==> (#[trigger] witness@[k])@.len() == flags@.len(),
                forall|c: int| 0 <= c < N ==> (#[trigger] structure.matrices()[c]).fits(witness@.len() as nat),
                vector@.len() == witness@.len(),
                values(vector@) == witness_vector(flags@, witness@),
                forall|a: int, b: int|
                    0 <= a < i && 0 <= b < witness@.len() ==> #[trigger] mat_vec(
                        structure.matrices()[a].ones(),
                        witness_vector(flags@, witness@),
                    )[b] == (#[trigger] witness@[b])@[positions@[a] as int]@,
            decreases N - i,
        {
            let matrix: &Matrix = &structure.matrices[i];
            proof {
                assert(*matrix == structure.matrices()[i as int]);
            }
            let product = mat_vec_product(matrix, vector.as_slice());
            let slot = positions[i];
            proof {
                assert(set_positions(matrix_slots@, matrix_slots@.len() as int)[i as int]
                    < matrix_slots@.len());
            }
            if !column_matches(&product, witness, slot) {
                proof {
                    let j = choose|b: int|
                        0 <= b < witness@.len() && (#[trigger] product@[b])@ != witness@[b]@[slot as int]@;
                    assert(product@[j]@ == mat_vec(
                        structure.matrices()[i as int].ones(),
                        witness_vector(flags@, witness@),
                    )[j]);
                    assert(witness@[j]@[positions@[i as int] as int]@ != mat_vec(
                        structure.matrices()[i as int].ones(),
                        witness_vector(flags@, witness@),
                    )[j]);
                }
                return false;
            }
            proof {
                assert forall|a: int, b: int|
                    0 <= a <= i && 0 <= b < witness@.len() implies #[trigger] mat_vec(
                    structure.matrices()[a].ones(),
                    witness_vector(flags@, witness@),
                )[b] == (#[trigger] witness@[b])@[positions@[a] as int]@ by {
                    if a == i {
                        assert(product@[b]@ == mat_vec(
                            structure.matrices()[i as int].ones(),
                            witness_vector(flags@, witness@),
                        )[b]);
                    }
                }
            }
            i = i + 1;
        }
        true
    }
}

/// The claimed products, in slot order: the provided evaluations of the
/// slots of products among the first `n`.
pub open spec fn matrix_claims(matrix_slots: Seq<bool>, evals: Seq<Option<Fm>>, n: int) -> Seq<nat>
    decreases n,
{
    if n <= 0 {
        Seq::empty()
    } else if matrix_slots[n - 1] && evals[n - 1] is Some {
        matrix_claims(matrix_slots, evals, n - 1).push(evals[n - 1]->0@)
    } else {
        matrix_claims(matrix_slots, evals, n - 1)
    }
}

/// The sum the matrix-sum sumcheck starts from: the claimed products
/// combined by powers of the challenge.
pub fn sumcheck_sum(matrix_slots: &[bool], evals: &[Option<Fm>], challenge: Fm) -> (r: Fm)
    requires
        evals@.len() == matrix_slots@.len(),
    ensures
        r@ == horner(matrix_claims(matrix_slots@, evals@, matrix_slots@.len() as int), challenge@),
{
    let mut acc = Fm::zero();
    let mut s: usize = 0;
    while s < matrix_slots.len()
        invariant
            s <= matrix_slots@.len(),
            evals@.len() == matrix_slots@.len(),
            acc@ == horner(matrix_claims(matrix_slots@, evals@, s as int), challenge@),
        decreases matrix_slots@.len() - s,
    {
        if matrix_slots[s] {
            match evals[s] {
                Some(e) => {
                    proof {
                        let c = matrix_claims(matrix_slots@, evals@, s + 1);
                        assert(c.drop_last() =~= matrix_claims(matrix_slots@, evals@, s as int));
                    }
                    acc = acc.mul(challenge).add(e);
                },
                None => {},
            }
        }
        s = s + 1;
    }
    acc
}

/// The first set flag among the first `n`, if any.
pub open spec fn first_set(flags: Seq<bool>, n: int) -> Option<int>
    decreases n,
{
    if n <= 0 {
        None
    } else {
        match first_set(flags, n - 1) {
            Some(s) => Some(s),
            None => if flags[n - 1] {
                Some(n - 1)
            } else {
                None
            },
        }
    }
}

/// The first set flag is set and below `n`.
proof fn lemma_first_set(flags: Seq<bool>, n: int)
    requires
        0 <= n <= flags.len(),
    ensures
        first_set(flags, n) matches Some(s) ==> 0 <= s < n && flags[s],
        first_set(flags, n) is None ==> forall|s: int| 0 <= s < n ==> !#[trigger] flags[s],
    decreases n,
{
    if n > 0 {
        lemma_first_set(flags, n - 1);
    }
}

/// The vector column of a witness: in every row, the entry of the first slot
/// flagged as the vector.
pub fn vector_column(vector: &[bool], witness: &Vec<Vec<Fm>>) -> (r: Vec<Fm>)
    requires
        first_set(vector@, vector@.len() as int) is Some,
        forall|j: int| 0 <= j < witness@.len() ==> (#[trigger] witness@[j])@.len() == vector@.len(),
    ensures
        r@.len() == witness@.len(),
        forall|j: int|
            0 <= j < witness@.len() ==> #[trigger] r@[j] == witness@[j]@[first_set(
                vector@,
                vector@.len() as int,
            )->0],
{
    let mut slot: usize = 0;
    let ghost target = first_set(vector@, vector@.len() as int)->0;
    proof {
        lemma_first_set(vector@, vector@.len() as int);
    }
    while !vector[slot]
        invariant
            slot <= target,
            0 <= target < vector@.len(),
            vector@[target],
            first_set(vector@, vector@.len() as int) == Some(target),
            forall|s: int| 0 <= s < slot ==> !#[trigger] vector@[s],
        decreases target - slot,
    {
        proof {
            if slot == target {
                assert(vector@[slot as int]);
            }
        }
        slot = slot + 1;
    }
    proof {
        if (slot as int) < target {
            lemma_first_set_is_first(vector@, vector@.len() as int, slot as int);
        }
    }
    let mut column: Vec<Fm> = Vec::new();
    let mut j: usize = 0;
    while j < witness.len()
        invariant
            j <= witness@.len(),
            slot == target,
            0 <= target < vector@.len(),
            forall|k: int| 0 <= k < witness@.len() ==> (#[trigger] witness@[k])@.len() == vector@.len(),
            column@.len() == j,
            forall|k: int| 0 <= k < j ==> #[trigger] column@[k] == witness@[k]@[target],
        decreases witness@.len() - j,
    {
        column.push(witness[j][slot]);
        j = j + 1;
    }
    column
}

/// No flag before the first set one is set.
proof fn lemma_first_set_is_first(flags: Seq<bool>, n: int, s: int)
    requires
        0 <= s,
        n <= flags.len(),
        first_set(flags, n) matches Some(t) && s < t,
    ensures
        !flags[s],
    decreases n,
{
    if n > 0 {
        match first_set(flags, n - 1) {
            Some(t) => lemma_first_set_is_first(flags, n - 1, s),
            None => {
                lemma_first_set(flags, n - 1);
            },
        }
    }
}

/// The evaluations of a query that go to the committed oracle: those of the
/// committed slots.
pub fn committed_evals(committed_slots: &[bool], evals: &[Option<Fm>]) -> (r: Vec<Option<Fm>>)
    requires
        evals@.len() == committed_slots@.len(),
    ensures
        r@.len() == committed_slots@.len(),
        forall|s: int|
            0 <= s < r@.len() ==> #[trigger] r@[s] == if committed_slots@[s] {
                evals@[s]
            } else {
                None
            },
{
    let mut res: Vec<Option<Fm>> = Vec::new();
    let mut s: usize = 0;
    while s < committed_slots.len()
        invariant
            s <= committed_slots@.len(),
            evals@.len() == committed_slots@.len(),
            res@.len() == s,
            forall|t: int|
                0 <= t < s ==> #[trigger] res@[t] == if committed_slots@[t] {
                    evals@[t]
                } else {
                    None
                },
        decreases committed_slots@.len() - s,
    {
        if committed_slots[s] {
            res.push(evals[s]);
        } else {
            res.push(None);
        }
        s = s + 1;
    }
    res
}

} // verus!
