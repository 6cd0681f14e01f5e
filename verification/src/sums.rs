//! Sums over the rows of a table and combinations by powers of a challenge,
//! in the field, and how the two commute.
use crate::field::{fadd, fmul, P};
use vstd::prelude::*;

verus! {

/// `acc = 0`, then `acc = acc * c + v` for each value: the values combined by
/// powers of `c`, the first with the highest.
pub open spec fn horner(vals: Seq<nat>, c: nat) -> nat
    decreases vals.len(),
{
    if vals.len() == 0 {
        0
    } else {
        fadd(fmul(horner(vals.drop_last(), c), c), vals.last())
    }
}

/// `sum_{x < m} f(x)` in the field.
pub open spec fn fsum(f: spec_fn(int) -> nat, m: nat) -> nat
    decreases m,
{
    if m == 0 {
        0
    } else {
        fadd(fsum(f, (m - 1) as nat), f(m - 1))
    }
}

/// Field sums are canonical.
pub proof fn lemma_fsum_bound(f: spec_fn(int) -> nat, m: nat)
    ensures
        fsum(f, m) < P,
{
}

/// `((x c mod P) + y) + ((a c mod P) + b) = (((x + a) mod P) c mod P) + (y + b)`
/// modulo `P`.
pub proof fn lemma_combine_rearrange(x: nat, y: nat, a: nat, b: nat, c: nat)
    ensures
        fadd(fadd(fmul(x, c), y), fadd(fmul(a, c), b)) == fadd(fmul(fadd(x, a), c), fadd(y, b)),
{
    let p = P as int;
    let (x, y, a, b, c) = (x as int, y as int, a as int, b as int, c as int);
    let t = x * c + y + a * c + b;
    vstd::arithmetic::div_mod::lemma_add_mod_noop(x * c, y, p);
    vstd::arithmetic::div_mod::lemma_add_mod_noop(a * c, b, p);
    vstd::arithmetic::div_mod::lemma_add_mod_noop(x * c + y, a * c + b, p);
    vstd::arithmetic::div_mod::lemma_mul_mod_noop_left(x + a, c, p);
    assert((x + a) * c == x * c + a * c) by (nonlinear_arith);
    vstd::arithmetic::div_mod::lemma_add_mod_noop((x + a) * c, y + b, p);
    vstd::arithmetic::div_mod::lemma_mod_twice(x * c, p);
    vstd::arithmetic::div_mod::lemma_mod_twice(y, p);
    vstd::arithmetic::div_mod::lemma_mod_twice(a * c, p);
    vstd::arithmetic::div_mod::lemma_mod_twice(b, p);
    vstd::arithmetic::div_mod::lemma_add_mod_noop((x * c) % p, y, p);
    vstd::arithmetic::div_mod::lemma_add_mod_noop((a * c) % p, b, p);
    vstd::arithmetic::div_mod::lemma_add_mod_noop(((x + a) % p) * c, y + b, p);
    vstd::arithmetic::div_mod::lemma_mul_mod_noop_left((x + a) % p, c, p);
    vstd::arithmetic::div_mod::lemma_mod_twice(x + a, p);
    vstd::arithmetic::div_mod::lemma_add_mod_noop(y, b, p);
    vstd::arithmetic::div_mod::lemma_mod_twice(y + b, p);
    vstd::arithmetic::div_mod::lemma_add_mod_noop(((x + a) % p * c) % p, (y + b) % p, p);
    vstd::arithmetic::div_mod::lemma_add_mod_noop((x * c % p + y) % p, (a * c % p + b) % p, p);
    vstd::arithmetic::div_mod::lemma_add_mod_noop(x * c % p + y, a * c % p + b, p);
}

/// `x -> a(x) c + b(x)`.
pub open spec fn step_fn(a: spec_fn(int) -> nat, b: spec_fn(int) -> nat, c: nat) -> spec_fn(int) -> nat {
    |x: int| fadd(fmul(a(x), c), b(x))
}

/// Sums commute with the step of a Horner combination:
/// `sum (a c + b) = (sum a) c + sum b`.
pub proof fn lemma_fsum_horner_step(a: spec_fn(int) -> nat, b: spec_fn(int) -> nat, c: nat, m: nat)
    ensures
        fsum(step_fn(a, b, c), m) == fadd(fmul(fsum(a, m), c), fsum(b, m)),
    decreases m,
{
    if m == 0 {
        assert(fmul(0, c) == 0) by {
            assert(0 * c == 0);
        }
    } else {
        let k = (m - 1) as nat;
        lemma_fsum_horner_step(a, b, c, k);
        lemma_combine_rearrange(fsum(a, k), fsum(b, k), a(k as int), b(k as int), c);
    }
}

/// Sums of functions that agree below `m` agree.
pub proof fn lemma_fsum_ext(f: spec_fn(int) -> nat, g: spec_fn(int) -> nat, m: nat)
    requires
        forall|x: int| 0 <= x < m ==> #[trigger] f(x) == g(x),
    ensures
        fsum(f, m) == fsum(g, m),
    decreases m,
{
    if m > 0 {
        lemma_fsum_ext(f, g, (m - 1) as nat);
    }
}

/// `t(0, x)`, then `acc * c + t(i, x)` for `i < k`: the terms of row `x`
/// combined by powers of `c`, the first with the highest.
pub open spec fn horner_row(t: spec_fn(int, int) -> nat, c: nat, k: int, x: int) -> nat
    decreases k,
{
    if k <= 1 {
        if k == 1 {
            t(0, x)
        } else {
            0
        }
    } else {
        fadd(fmul(horner_row(t, c, k - 1, x), c), t(k - 1, x))
    }
}

/// `x -> horner_row(t, c, k, x)`.
pub open spec fn horner_row_fn(t: spec_fn(int, int) -> nat, c: nat, k: int) -> spec_fn(int) -> nat {
    |x: int| horner_row(t, c, k, x)
}

/// `x -> t(i, x)`.
pub open spec fn column_fn(t: spec_fn(int, int) -> nat, i: int) -> spec_fn(int) -> nat {
    |x: int| t(i, x)
}

/// The sums over the rows of each of the first `n` columns.
pub open spec fn column_sums(t: spec_fn(int, int) -> nat, n: nat, m: nat) -> Seq<nat> {
    Seq::new(n, |i: int| fsum(column_fn(t, i), m))
}

/// Summing the rows commutes with combining the columns by powers of `c`:
/// `sum_x horner_i t(i, x) = horner_i sum_x t(i, x)`.
pub proof fn lemma_sum_of_horner(t: spec_fn(int, int) -> nat, c: nat, k: int, n: nat, m: nat)
    requires
        1 <= k <= n,
    ensures
        fsum(horner_row_fn(t, c, k), m) == horner(column_sums(t, n, m).take(k), c),
    decreases k,
{
    let cols = column_sums(t, n, m);
    if k == 1 {
        assert forall|x: int| 0 <= x < m implies #[trigger] horner_row_fn(t, c, 1)(x) == column_fn(
            t,
            0,
        )(x) by {}
        lemma_fsum_ext(horner_row_fn(t, c, 1), column_fn(t, 0), m);
        let ct = cols.take(1);
        assert(ct.drop_last() =~= Seq::<nat>::empty());
        assert(fmul(0, c) == 0) by {
            assert(0 * c == 0);
        }
        lemma_fsum_bound(column_fn(t, 0), m);
        assert(ct.last() == fsum(column_fn(t, 0), m));
        assert(horner(ct.drop_last(), c) == 0);
        assert(horner(ct, c) == fadd(fmul(0, c), ct.last()));
    } else {
        lemma_sum_of_horner(t, c, k - 1, n, m);
        let prev = horner_row_fn(t, c, k - 1);
        let term = column_fn(t, k - 1);
        assert forall|x: int| 0 <= x < m implies #[trigger] horner_row_fn(t, c, k)(x) == step_fn(
            prev,
            term,
            c,
        )(x) by {}
        lemma_fsum_ext(horner_row_fn(t, c, k), step_fn(prev, term, c), m);
        lemma_fsum_horner_step(prev, term, c, m);
        let ct = cols.take(k);
        assert(ct.drop_last() =~= cols.take(k - 1));
        assert(ct.last() == fsum(term, m));
        assert(horner(ct, c) == fadd(fmul(horner(cols.take(k - 1), c), c), fsum(term, m)));
    }
}

} // verus!
