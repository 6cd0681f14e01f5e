//! Points of the boolean hypercube and beyond, and the multilinear equality
//! polynomial `eq(x, y) = prod_i (x_i y_i + (1 - x_i)(1 - y_i))`.
use crate::field::{fadd, fmul, fsub, Fm};
use vstd::arithmetic::power2::pow2;
use vstd::prelude::*;

verus! {

/// One factor of the equality polynomial.
pub open spec fn eq_term(x: nat, y: nat) -> nat {
    fadd(fmul(x, y), fmul(fsub(1, x), fsub(1, y)))
}

/// The equality polynomial of two points with the same number of variables.
pub open spec fn eq_eval(a: Seq<nat>, b: Seq<nat>) -> nat
    decreases a.len(),
{
    if a.len() == 0 {
        1
    } else {
        fmul(eq_eval(a.drop_last(), b.drop_last()), eq_term(a.last(), b.last()))
    }
}

/// The values of a sequence of field elements.
pub open spec fn values(s: Seq<Fm>) -> Seq<nat> {
    s.map_values(|x: Fm| x@)
}

/// Bit `i` of `index`.
pub open spec fn bit(index: nat, i: nat) -> nat {
    (index / pow2(i)) % 2
}

/// The boolean point whose coordinate `i` is bit `i` of `index`, least
/// significant bit first.
pub open spec fn index_point(index: nat, vars: nat) -> Seq<nat> {
    Seq::new(vars, |i: int| bit(index, i as nat))
}

/// The bit of position `m` of a number below `2^m` is zero.
pub proof fn lemma_bit_below(y: nat, m: nat)
    requires
        y < pow2(m),
    ensures
        bit(y, m) == 0,
{
    crate::math::lemma_pow2_positive(m);
    vstd::arithmetic::div_mod::lemma_fundamental_div_mod_converse(y as int, pow2(m) as int, 0, y as int);
}

/// Adding `2^m` to a number below `2^m` sets its bit `m` and keeps the bits
/// below it.
pub proof fn lemma_bit_add_pow2(y: nat, m: nat, i: nat)
    requires
        y < pow2(m),
        i <= m,
    ensures
        bit(y + pow2(m), i) == if i == m { 1nat } else { bit(y, i) },
{
    crate::math::lemma_pow2_positive(m);
    crate::math::lemma_pow2_positive(i);
    if i == m {
        vstd::arithmetic::div_mod::lemma_fundamental_div_mod_converse(
            (y + pow2(m)) as int,
            pow2(m) as int,
            1,
            y as int,
        );
    } else {
        let d = pow2(i) as int;
        let k = pow2((m - i) as nat) as int;
        vstd::arithmetic::power2::lemma_pow2_adds(i, (m - i) as nat);
        assert(pow2(m) as int == d * k);
        let q = (y as int) / d;
        let r = (y as int) % d;
        vstd::arithmetic::div_mod::lemma_fundamental_div_mod(y as int, d);
        assert((y + pow2(m)) as int == (q + k) * d + r) by (nonlinear_arith)
            requires
                y as int == d * q + r,
                pow2(m) as int == d * k,
        ;
        vstd::arithmetic::div_mod::lemma_fundamental_div_mod_converse(
            (y + pow2(m)) as int,
            d,
            q + k,
            r,
        );
        crate::math::lemma_pow2_double((m - i - 1) as nat);
        let j = pow2((m - i - 1) as nat) as int;
        assert(q + k == 2 * j + q);
        vstd::arithmetic::div_mod::lemma_mod_multiples_vanish(j, q, 2);
    }
}

/// The factor of the equality polynomial at a boolean coordinate: `1 - r`
/// at `0` and `r` at `1`.
pub proof fn lemma_eq_term_boolean(r: nat)
    requires
        r < crate::field::P,
    ensures
        eq_term(0, r) == fsub(1, r),
        eq_term(1, r) == r,
{
    let p = crate::field::P as int;
    let low = fsub(1, r);
    assert(0 <= low < p);
    assert(fmul(0, r) == 0) by {
        assert(0 * r == 0);
    }
    assert(fsub(1, 0) == 1);
    assert(fmul(1, low) == low) by {
        assert(1 * low == low);
    }
    assert(fmul(1, r) == r) by {
        assert(1 * r == r);
    }
    assert(fsub(1, 1) == 0);
    assert(fmul(0, fsub(1, r)) == 0) by {
        assert(0 * fsub(1, r) == 0);
    }
}

/// The factor of the equality polynomial is symmetric.
proof fn lemma_eq_term_symmetric(x: nat, y: nat)
    ensures
        eq_term(x, y) == eq_term(y, x),
{
    vstd::arithmetic::mul::lemma_mul_is_commutative(x as int, y as int);
    vstd::arithmetic::mul::lemma_mul_is_commutative(fsub(1, x) as int, fsub(1, y) as int);
}

/// Law: the equality polynomial is symmetric in its two points.
pub proof fn lemma_eq_eval_symmetric(a: Seq<nat>, b: Seq<nat>)
    requires
        a.len() == b.len(),
    ensures
        eq_eval(a, b) == eq_eval(b, a),
    decreases a.len(),
{
    if a.len() > 0 {
        lemma_eq_eval_symmetric(a.drop_last(), b.drop_last());
        lemma_eq_term_symmetric(a.last(), b.last());
    }
}

/// The point of the bits of `i < 2^(m+1)` is that of its low `m` bits
/// followed by its bit `m`.
proof fn lemma_index_point_split(i: nat, m: nat)
    requires
        i < pow2(m + 1),
    ensures
        ({
            let h = pow2(m);
            let low: nat = if i < h { i } else { (i - h) as nat };
            let high: nat = if i < h { 0 } else { 1 };
            &&& low < h
            &&& i == low + high * h
            &&& index_point(i, m + 1).drop_last() == index_point(low, m)
            &&& index_point(i, m + 1).last() == high
        }),
{
    let h = pow2(m);
    crate::math::lemma_pow2_double(m);
    let low: nat = if i < h { i } else { (i - h) as nat };
    if i < h {
        lemma_bit_below(i, m);
    } else {
        lemma_bit_add_pow2(low, m, m);
        assert forall|k: nat| k < m implies bit(i, k) == bit(low, k) by {
            lemma_bit_add_pow2(low, m, k);
        }
    }
    assert(index_point(i, m + 1).drop_last() =~= index_point(low, m));
}

/// Law: on boolean points the equality polynomial tells indices apart: for
/// `i, j < 2^n`, `eq(bits(i), bits(j))` is `1` when `i == j` and `0`
/// otherwise.
pub proof fn lemma_eq_eval_index_points(i: nat, j: nat, n: nat)
    requires
        i < pow2(n),
        j < pow2(n),
    ensures
        eq_eval(index_point(i, n), index_point(j, n)) == if i == j { 1nat } else { 0nat },
    decreases n,
{
    if n == 0 {
        crate::math::lemma_pow2_zero();
    } else {
        let m = (n - 1) as nat;
        let h = pow2(m);
        lemma_index_point_split(i, m);
        lemma_index_point_split(j, m);
        let li: nat = if i < h { i } else { (i - h) as nat };
        let lj: nat = if j < h { j } else { (j - h) as nat };
        let bi: nat = if i < h { 0 } else { 1 };
        let bj: nat = if j < h { 0 } else { 1 };
        lemma_eq_eval_index_points(li, lj, m);
        lemma_eq_term_boolean(0);
        lemma_eq_term_boolean(1);
        let e = eq_eval(index_point(li, m), index_point(lj, m));
        assert(eq_eval(index_point(i, n), index_point(j, n)) == fmul(e, eq_term(bi, bj)));
        assert(fmul(1, 1) == 1);
        assert(fmul(0, 1) == 0 && fmul(1, 0) == 0 && fmul(0, 0) == 0);
        assert(i == j <==> (li == lj && bi == bj));
    }
}

/// The table of the equality polynomial at `point` over the boolean
/// hypercube: entry `x` is `eq(bits(x), point)`, bits least significant first.
pub open spec fn eq_table_entry(point: Seq<nat>, x: nat) -> nat {
    eq_eval(index_point(x, point.len()), point)
}

/// The equality table of a point: entry `x` is `eq(bits(x), point)`, with the
/// bits of `x` taken least significant first.
pub fn eq_table(point: &[Fm]) -> (t: Vec<Fm>)
    requires
        pow2(point@.len() as nat) <= usize::MAX,
    ensures
        t@.len() == pow2(point@.len() as nat),
        forall|x: int|
            0 <= x < t@.len() ==> #[trigger] t@[x]@ == eq_table_entry(values(point@), x as nat),
{
    let mut table: Vec<Fm> = Vec::new();
    table.push(Fm::one());
    let mut j: usize = 0;
    proof {
        crate::math::lemma_pow2_zero();
        assert forall|x: int| 0 <= x < table@.len() implies #[trigger] table@[x]@ == eq_eval(
            index_point(x as nat, 0),
            values(point@).take(0),
        ) by {}
    }
    while j < point.len()
        invariant
            j <= point@.len(),
            pow2(point@.len() as nat) <= usize::MAX,
            table@.len() == pow2(j as nat),
            forall|x: int|
                0 <= x < table@.len() ==> #[trigger] table@[x]@ == eq_eval(
                    index_point(x as nat, j as nat),
                    values(point@).take(j as int),
                ),
        decreases point@.len() - j,
    {
        let r = point[j];
        let one = Fm::one();
        let low = one.sub(r);
        let half = table.len();
        proof {
            crate::math::lemma_pow2_double(j as nat);
            crate::math::lemma_pow2_monotone((j + 1) as nat, point@.len() as nat);
        }
        let mut next: Vec<Fm> = Vec::new();
        let mut y: usize = 0;
        while y < half
            invariant
                y <= half,
                half == table@.len(),
                next@.len() == y,
                forall|x: int| 0 <= x < y ==> #[trigger] next@[x]@ == fmul(table@[x]@, low@),
            decreases half - y,
        {
            next.push(table[y].mul(low));
            y = y + 1;
        }
        let mut y: usize = 0;
        while y < half
            invariant
                y <= half,
                half == table@.len(),
                2 * half <= usize::MAX,
                next@.len() == half + y,
                forall|x: int| 0 <= x < half ==> #[trigger] next@[x]@ == fmul(table@[x]@, low@),
                forall|x: int|
                    0 <= x < y ==> #[trigger] next@[half + x]@ == fmul(table@[x]@, r@),
            decreases half - y,
        {
            next.push(table[y].mul(r));
            y = y + 1;
        }
        proof {
            let p = values(point@);
            let pj = p.take(j as int);
            let pj1 = p.take(j + 1);
            assert(pj1.drop_last() =~= pj);
            assert(pj1.last() == r@);
            r.lemma_view_bound();
            assert forall|x: int| 0 <= x < next@.len() implies #[trigger] next@[x]@ == eq_eval(
                index_point(x as nat, (j + 1) as nat),
                pj1,
            ) by {
                if x < half {
                    lemma_bit_below(x as nat, j as nat);
                    assert(index_point(x as nat, (j + 1) as nat).drop_last() =~= index_point(
                        x as nat,
                        j as nat,
                    ));
                    assert(index_point(x as nat, (j + 1) as nat).last() == 0);
                    lemma_eq_term_boolean(r@);
                } else {
                    let y0 = (x - half) as nat;
                    assert forall|i: int| 0 <= i < j implies #[trigger] bit(x as nat, i as nat) == bit(
                        y0,
                        i as nat,
                    ) by {
                        lemma_bit_add_pow2(y0, j as nat, i as nat);
                    }
                    lemma_bit_add_pow2(y0, j as nat, j as nat);
                    assert(index_point(x as nat, (j + 1) as nat).drop_last() =~= index_point(
                        y0,
                        j as nat,
                    ));
                    assert(index_point(x as nat, (j + 1) as nat).last() == 1);
                    lemma_eq_term_boolean(r@);
                    assert(next@[half + y0]@ == fmul(table@[y0 as int]@, r@));
                }
            }
        }
        table = next;
        j = j + 1;
    }
    proof {
        assert(values(point@).take(point@.len() as int) =~= values(point@));
    }
    table
}

/// A point with `n` variables.
#[derive(Clone, Debug)]
pub struct MultiPoint(Vec<Fm>);

impl View for MultiPoint {
    type V = Seq<Fm>;

    closed spec fn view(&self) -> Seq<Fm> {
        self.0@
    }
}

impl MultiPoint {
    /// The point with coordinates `vars`.
    pub fn new(vars: Vec<Fm>) -> (r: Self)
        ensures
            r@ == vars@,
    {
        MultiPoint(vars)
    }

    /// The boolean point of the bits of `index`, least significant first.
    pub fn new_from_index(index: usize, vars: usize) -> (r: Self)
        ensures
            values(r@) == index_point(index as nat, vars as nat),
    {
        let mut coords: Vec<Fm> = Vec::new();
        let mut rest: usize = index;
        let mut i: usize = 0;
        proof {
            crate::math::lemma_pow2_zero();
        }
        while i < vars
            invariant
                i <= vars,
                coords@.len() == i,
                rest == index as nat / pow2(i as nat),
                forall|j: int| 0 <= j < i ==> #[trigger] coords@[j]@ == bit(index as nat, j as nat),
            decreases vars - i,
        {
            let var = if rest % 2 == 1 {
                Fm::one()
            } else {
                Fm::zero()
            };
            proof {
                crate::math::lemma_pow2_positive(i as nat);
                crate::math::lemma_pow2_double(i as nat);
                vstd::arithmetic::div_mod::lemma_div_denominator(
                    index as int,
                    pow2(i as nat) as int,
                    2,
                );
            }
            coords.push(var);
            rest = rest / 2;
            i = i + 1;
        }
        proof {
            assert(values(coords@) =~= index_point(index as nat, vars as nat));
        }
        MultiPoint::new(coords)
    }

    /// A copy of the point.
    pub(crate) fn duplicate(&self) -> (r: Self)
        ensures
            r@ == self@,
    {
        let mut coords: Vec<Fm> = Vec::new();
        let mut i: usize = 0;
        while i < self.0.len()
            invariant
                i <= self@.len(),
                coords@ == self@.take(i as int),
            decreases self@.len() - i,
        {
            coords.push(self.0[i]);
            i = i + 1;
            proof {
                assert(coords@ =~= self@.take(i as int));
            }
        }
        proof {
            assert(coords@ =~= self@);
        }
        MultiPoint(coords)
    }

    /// The number of variables.
    pub fn vars(&self) -> (r: usize)
        ensures
            r == self@.len(),
    {
        self.0.len()
    }

    /// The coordinates.
    pub fn inner(self) -> (r: Vec<Fm>)
        ensures
            r@ == self@,
    {
        self.0
    }

    /// The coordinates.
    pub fn inner_ref(&self) -> (r: &[Fm])
        ensures
            r@ == self@,
    {
        self.0.as_slice()
    }

    /// Evaluates the equality polynomial of `self` and `point`.
    pub fn eval_as_eq(&self, point: &Self) -> (r: Fm)
        requires
            self@.len() == point@.len(),
        ensures
            r@ == eq_eval(values(self@), values(point@)),
    {
        let mut acc = Fm::one();
        let mut i: usize = 0;
        proof {
            assert(values(self@).take(0) =~= Seq::<nat>::empty());
        }
        while i < self.0.len()
            invariant
                self@.len() == point@.len(),
                i <= self@.len(),
                acc@ == eq_eval(values(self@).take(i as int), values(point@).take(i as int)),
            decreases self@.len() - i,
        {
            let a = self.0[i];
            let b = point.0[i];
            let one = Fm::one();
            let var = a.mul(b).add(one.sub(a).mul(one.sub(b)));
            proof {
                let sa = values(self@);
                let sb = values(point@);
                assert(sa.take(i + 1).drop_last() =~= sa.take(i as int));
                assert(sb.take(i + 1).drop_last() =~= sb.take(i as int));
                assert(sa.take(i + 1).last() == a@);
                assert(sb.take(i + 1).last() == b@);
            }
            acc = acc.mul(var);
            i = i + 1;
        }
        proof {
            assert(values(self@).take(self@.len() as int) =~= values(self@));
            assert(values(point@).take(self@.len() as int) =~= values(point@));
        }
        acc
    }
}

} // verus!
