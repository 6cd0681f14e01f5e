//! The prime field of order `P = 2^32 - 5`, the one concrete field the
//! library computes over; the protocols themselves only need field
//! arithmetic, which is stated here against the integers modulo `P`.
use vstd::prelude::*;

verus! {

/// The field modulus, the prime `4294967291 = 2^32 - 5`.
pub const P: u64 = 4294967291u64;

/// Configuration marker of the field: its modulus is [`P`] and `3` generates
/// its multiplicative group.
pub struct M32Config;

impl M32Config {
    /// The modulus of the field.
    pub fn modulus() -> (r: u64)
        ensures
            r == P,
    {
        P
    }

    /// The generator of the multiplicative group.
    pub fn generator() -> (r: u64)
        ensures
            r == 3,
    {
        3
    }
}

/// Field addition on canonical values.
pub open spec fn fadd(a: nat, b: nat) -> nat {
    (a + b) % (P as nat)
}

/// Field multiplication on canonical values.
pub open spec fn fmul(a: nat, b: nat) -> nat {
    (a * b) % (P as nat)
}

/// Field subtraction on canonical values.
pub open spec fn fsub(a: nat, b: nat) -> nat {
    ((a - b) % (P as int)) as nat
}

/// Field negation.
pub open spec fn fneg(a: nat) -> nat {
    fsub(0, a)
}

/// Subtraction vanishes exactly on equal canonical values.
pub proof fn lemma_fsub_zero_iff(a: nat, b: nat)
    requires
        a < P,
        b < P,
    ensures
        (fsub(a, b) == 0) <==> (a == b),
{
}

/// `a - (a + b) + b` style cancellation: `(a + b) - c` vanishes exactly when
/// `c` is the sum, for canonical `c`.
pub proof fn lemma_sum_constraint(a: nat, b: nat, c: nat)
    requires
        c < P,
    ensures
        (fsub(fadd(a, b), c) == 0) <==> (c == fadd(a, b)),
{
}

/// `a` has a multiplicative inverse.
pub open spec fn invertible(a: nat) -> bool {
    exists|s: nat| s < P && #[trigger] fmul(a, s) == 1
}

/// The multiplicative inverse of `a`, and `0` where there is none.
pub open spec fn finv(a: nat) -> nat {
    if invertible(a) {
        choose|s: nat| s < P && #[trigger] fmul(a, s) == 1
    } else {
        0
    }
}

/// Inverses are unique.
pub proof fn lemma_inverse_unique(a: nat, s1: nat, s2: nat)
    requires
        a < P,
        s1 < P,
        s2 < P,
        fmul(a, s1) == 1,
        fmul(a, s2) == 1,
    ensures
        s1 == s2,
{
    let p = P as int;
    vstd::arithmetic::div_mod::lemma_mul_mod_noop_right(s1 as int, (a * s2) as int, p);
    vstd::arithmetic::div_mod::lemma_mul_mod_noop_left((s1 * a) as int, s2 as int, p);
    vstd::arithmetic::mul::lemma_mul_is_associative(s1 as int, a as int, s2 as int);
    vstd::arithmetic::mul::lemma_mul_is_commutative(s1 as int, a as int);
    assert((s1 as int * 1) % p == s1 as int);
    assert((1 * s2 as int) % p == s2 as int);
}

/// The inverse of an invertible element is its inverse.
pub proof fn lemma_finv(a: nat, s: nat)
    requires
        a < P,
        s < P,
        fmul(a, s) == 1,
    ensures
        finv(a) == s,
{
    assert(invertible(a));
    let c = choose|t: nat| t < P && #[trigger] fmul(a, t) == 1;
    lemma_inverse_unique(a, s, c);
}

/// One step of the extended Euclidean algorithm keeps the coefficient of `a`
/// in step with the remainder: from `s0 a = r0` and `s1 a = r1` follows
/// `(s0 - q s1) a = r0 - q r1`, modulo `P`.
proof fn lemma_bezout_step(s0: nat, s1: nat, a: nat, r0: nat, r1: nat, q: nat)
    requires
        fmul(s0, a) == r0 % (P as nat),
        fmul(s1, a) == r1 % (P as nat),
        q * r1 <= r0,
    ensures
        fmul(fsub(s0, fmul(q % (P as nat), s1)), a) == (r0 - q * r1) as nat % (P as nat),
{
    let p = P as int;
    let (s0, s1, a, r0, r1, q) = (s0 as int, s1 as int, a as int, r0 as int, r1 as int, q as int);
    vstd::arithmetic::div_mod::lemma_mul_mod_noop_left(q, s1, p);
    vstd::arithmetic::div_mod::lemma_sub_mod_noop_right(s0, q * s1, p);
    vstd::arithmetic::div_mod::lemma_mul_mod_noop_left(s0 - q * s1, a, p);
    assert((s0 - q * s1) * a == s0 * a - q * (s1 * a)) by (nonlinear_arith);
    vstd::arithmetic::div_mod::lemma_sub_mod_noop(s0 * a, q * (s1 * a), p);
    vstd::arithmetic::div_mod::lemma_mul_mod_noop_right(q, s1 * a, p);
    vstd::arithmetic::div_mod::lemma_mul_mod_noop_right(q, r1, p);
    vstd::arithmetic::div_mod::lemma_sub_mod_noop(r0, q * r1, p);
}

/// Zero and one as operands of the field operations.
pub proof fn lemma_field_identities(v: nat)
    ensures
        fmul(0, v) == 0,
        fmul(v, 0) == 0,
        fmul(1, v) == v % (P as nat),
        fmul(v, 1) == v % (P as nat),
        fadd(0, v) == v % (P as nat),
        fadd(v, 0) == v % (P as nat),
{
    vstd::arithmetic::mul::lemma_mul_basics(v as int);
}

/// `d` divides `x`.
pub open spec fn divides(d: int, x: int) -> bool {
    exists|k: int| #[trigger] (k * d) == x
}

/// A common divisor of `x` and `y` divides `q x + y`.
proof fn lemma_divides_combination(d: int, x: int, y: int, q: int)
    requires
        divides(d, x),
        divides(d, y),
    ensures
        divides(d, q * x + y),
{
    let kx = choose|k: int| #[trigger] (k * d) == x;
    let ky = choose|k: int| #[trigger] (k * d) == y;
    assert((q * kx + ky) * d == q * x + y) by (nonlinear_arith)
        requires
            kx * d == x,
            ky * d == y,
    ;
}

/// Remainders: `x % d == 0` exactly when `d` divides `x`, for positive `d`.
proof fn lemma_divides_mod(d: int, x: int)
    requires
        d > 0,
    ensures
        divides(d, x) <==> x % d == 0,
{
    vstd::arithmetic::div_mod::lemma_fundamental_div_mod(x, d);
    if x % d == 0 {
        assert((x / d) * d == x) by (nonlinear_arith)
            requires
                x == d * (x / d) + x % d,
                x % d == 0,
        ;
    }
    if divides(d, x) {
        let k = choose|k: int| #[trigger] (k * d) == x;
        vstd::arithmetic::div_mod::lemma_mod_multiples_basic(k, d);
    }
}

/// A positive divisor of `1` is `1`.
proof fn lemma_divides_one(d: int)
    requires
        d > 0,
        divides(d, 1),
    ensures
        d == 1,
{
    let k = choose|k: int| #[trigger] (k * d) == 1;
    assert(d == 1) by (nonlinear_arith)
        requires
            k * d == 1,
            d > 0,
    ;
}

#[verifier::rlimit(100)]
proof fn lemma_no_small_factor(d: u32)
    by (bit_vector)
    requires
        2 <= d,
        d <= 65535,
    ensures
        4294967291u32 % d != 0,
{
}

/// `P` is prime: no `d` with `1 < d < P` divides it.
pub proof fn lemma_p_prime(d: int)
    requires
        1 < d < P,
    ensures
        !divides(d, P as int),
{
    if divides(d, P as int) {
        let k = choose|k: int| #[trigger] (k * d) == P as int;
        lemma_divides_mod(d, P as int);
        if d <= 65535 {
            lemma_no_small_factor(d as u32);
        } else {
            assert(2 <= k <= 65535) by (nonlinear_arith)
                requires
                    k * d == 4294967291,
                    65536 <= d < 4294967291,
            ;
            assert(divides(k, P as int)) by {
                assert(d * k == P as int) by (nonlinear_arith)
                    requires
                        k * d == P as int,
                ;
            }
            lemma_divides_mod(k, P as int);
            lemma_no_small_factor(k as u32);
        }
    }
}

/// An element of the field, kept in canonical form `0 <= v < P`.
#[derive(Clone, Copy, Debug, PartialEq, Eq, Structural)]
pub struct Fm {
    v: u64,
}

impl View for Fm {
    type V = nat;

    closed spec fn view(&self) -> nat {
        (self.v as nat) % (P as nat)
    }
}

impl Fm {
    #[verifier::type_invariant]
    spec fn canonical(self) -> bool {
        self.v < P
    }

    /// The value of an element is canonical.
    pub proof fn lemma_view_bound(self)
        ensures
            self@ < P,
    {
    }

    /// The additive identity.
    pub fn zero() -> (r: Fm)
        ensures
            r@ == 0,
    {
        Fm { v: 0 }
    }

    /// The multiplicative identity.
    pub fn one() -> (r: Fm)
        ensures
            r@ == 1,
    {
        Fm { v: 1 }
    }

    /// The element `x mod P`.
    pub fn from_u64(x: u64) -> (r: Fm)
        ensures
            r@ == x % P,
    {
        Fm { v: x % P }
    }

    /// The canonical representative in `0..P`.
    pub fn value(&self) -> (r: u64)
        ensures
            r == self@,
            r < P,
    {
        proof {
            use_type_invariant(self);
        }
        self.v
    }

    /// Whether this is the zero element.
    pub fn is_zero(&self) -> (r: bool)
        ensures
            r == (self@ == 0),
    {
        proof {
            use_type_invariant(self);
        }
        self.v == 0
    }

    /// Equality of field elements.
    pub fn equals(&self, other: &Fm) -> (r: bool)
        ensures
            r == (self@ == other@),
            r == (*self == *other),
    {
        proof {
            use_type_invariant(self);
            use_type_invariant(other);
        }
        self.v == other.v
    }

    /// `self + other`.
    pub fn add(self, other: Fm) -> (r: Fm)
        ensures
            r@ == fadd(self@, other@),
    {
        proof {
            use_type_invariant(&self);
            use_type_invariant(&other);
        }
        let s: u64 = self.v + other.v;
        if s >= P {
            Fm { v: s - P }
        } else {
            Fm { v: s }
        }
    }

    /// `self - other`.
    pub fn sub(self, other: Fm) -> (r: Fm)
        ensures
            r@ == fsub(self@, other@),
    {
        proof {
            use_type_invariant(&self);
            use_type_invariant(&other);
        }
        if self.v >= other.v {
            Fm { v: self.v - other.v }
        } else {
            Fm { v: P - other.v + self.v }
        }
    }

    /// `-self`.
    pub fn neg(self) -> (r: Fm)
        ensures
            r@ == fneg(self@),
    {
        Fm::zero().sub(self)
    }

    /// `self * other`.
    pub fn mul(self, other: Fm) -> (r: Fm)
        ensures
            r@ == fmul(self@, other@),
    {
        proof {
            use_type_invariant(&self);
            use_type_invariant(&other);
        }
        let a = self.v;
        let b = other.v;
        assert(a * b < 0x1_0000_0000_0000_0000) by (nonlinear_arith)
            requires
                a < P,
                b < P,
        ;
        let m: u64 = a * b;
        Fm { v: m % P }
    }

    /// The multiplicative inverse, by the extended Euclidean algorithm, if
    /// there is one: there is none for zero, and the result is checked.
    pub fn inverse(&self) -> (r: Option<Fm>)
        ensures
            r matches Some(s) ==> fmul(self@, s@) == 1 && s@ == finv(self@),
            r is None ==> finv(self@) == 0,
            self@ == 0 ==> r is None,
            self@ != 0 ==> r is Some,
            r is None <==> !invertible(self@),
    {
        proof {
            use_type_invariant(self);
        }
        let a = self.v;
        proof {
            if a == 0 && invertible(0) {
                let s = choose|s: nat| s < P && #[trigger] fmul(0, s) == 1;
                assert(0 * s == 0);
            }
        }
        let mut r0: u64 = P;
        let mut r1: u64 = a;
        let mut s0 = Fm::zero();
        let mut s1 = Fm::one();
        proof {
            assert(fmul(0, a as nat) == 0) by {
                assert(0 * a == 0);
            }
            assert(fmul(1, a as nat) == a as nat % (P as nat)) by {
                assert(1 * a == a);
            }
            assert forall|d: int| d > 0 && divides(d, r0 as int) && divides(d, r1 as int) implies divides(
                d,
                a as int,
            ) && divides(d, P as int) by {}
        }
        while r1 != 0
            invariant
                a == self@,
                a < P,
                r0 > 0,
                fmul(s0@, a as nat) == r0 as nat % (P as nat),
                fmul(s1@, a as nat) == r1 as nat % (P as nat),
                forall|d: int|
                    d > 0 && #[trigger] divides(d, r0 as int) && divides(d, r1 as int) ==> divides(
                        d,
                        a as int,
                    ) && divides(d, P as int),
            decreases r1,
        {
            let q = r0 / r1;
            let r2 = r0 % r1;
            proof {
                vstd::arithmetic::div_mod::lemma_fundamental_div_mod(r0 as int, r1 as int);
                assert(q * r1 <= r0) by (nonlinear_arith)
                    requires
                        r0 == r1 * q + r2,
                        r2 >= 0,
                ;
                assert(r2 == r0 - q * r1) by (nonlinear_arith)
                    requires
                        r0 == r1 * q + r2,
                ;
                lemma_bezout_step(s0@, s1@, a as nat, r0 as nat, r1 as nat, q as nat);
                assert forall|d: int| d > 0 && #[trigger] divides(d, r1 as int) && divides(
                    d,
                    r2 as int,
                ) implies divides(d, a as int) && divides(d, P as int) by {
                    lemma_divides_combination(d, r1 as int, r2 as int, q as int);
                    assert(q * r1 + r2 == r0);
                }
            }
            let qf = Fm::from_u64(q);
            let s2 = s0.sub(qf.mul(s1));
            r0 = r1;
            r1 = r2;
            s0 = s1;
            s1 = s2;
        }
        proof {
            lemma_divides_mod(r0 as int, r0 as int);
            lemma_divides_mod(r0 as int, 0);
            assert(divides(r0 as int, a as int) && divides(r0 as int, P as int));
        }
        if r0 == 1 {
            proof {
                s0.lemma_view_bound();
                vstd::arithmetic::mul::lemma_mul_is_commutative(a as int, s0@ as int);
                lemma_finv(a as nat, s0@);
            }
            Some(s0)
        } else {
            proof {
                if invertible(a as nat) {
                    let s = choose|s: nat| s < P && #[trigger] fmul(a as nat, s) == 1;
                    let t = (a * s) / (P as int);
                    vstd::arithmetic::div_mod::lemma_fundamental_div_mod((a * s) as int, P as int);
                    let ka = choose|k: int| #[trigger] (k * (r0 as int)) == a as int;
                    let kp = choose|k: int| #[trigger] (k * (r0 as int)) == P as int;
                    assert((ka * s - kp * t) * (r0 as int) == 1) by (nonlinear_arith)
                        requires
                            ka * (r0 as int) == a as int,
                            kp * (r0 as int) == P as int,
                            (a * s) as int == (P as int) * t + 1,
                    ;
                    lemma_divides_one(r0 as int);
                }
            }
            proof {
                if a != 0 {
                    let ka = choose|k: int| #[trigger] (k * (r0 as int)) == a as int;
                    assert(r0 <= a) by (nonlinear_arith)
                        requires
                            ka * (r0 as int) == a as int,
                            r0 > 0,
                            a > 0,
                    ;
                    lemma_p_prime(r0 as int);
                }
            }
            None
        }
    }
}

} // verus!
