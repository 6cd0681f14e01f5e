//! Sparse multilinear polynomials whose nonzero entries are addressed by
//! bytes, and the relations of their claimed evaluations.
//!
//! Every byte of an address selects an entry of the equality table of eight
//! variables of the point, so an evaluation costs `256` entries per byte plus
//! one product per byte and entry.
use crate::field::{fadd, finv, fmul, fsub, Fm};
use crate::math::is_power_of_two;
use crate::relation::Relation;
use crate::sumcheck::point::{
    bit, eq_eval, eq_table, eq_table_entry, eq_term, index_point, values, MultiPoint,
};
use std::marker::PhantomData;
use std::rc::Rc;
use vstd::arithmetic::power2::pow2;
use vstd::prelude::*;

verus! {

/// Coordinates `8 i .. 8 i + 8` of a point: the variables of byte `i` of an
/// address.
pub open spec fn segment(point: Seq<nat>, i: int) -> Seq<nat> {
    point.subrange(8 * i, 8 * i + 8)
}

/// The equality polynomial between the boolean point of `address` and
/// `point`, as the product over the bytes of the address of the equality
/// table of their segment of the point.
pub open spec fn address_eq(address: Seq<u8>, point: Seq<nat>) -> nat
    decreases address.len(),
{
    if address.len() == 0 {
        1
    } else {
        fmul(
            address_eq(address.drop_last(), point),
            eq_table_entry(segment(point, address.len() - 1), address.last() as nat),
        )
    }
}

/// `sum_k eq(address_k, point) * value_k` over the entries of a sparse
/// polynomial.
pub open spec fn sparse_eval(addresses: Seq<Seq<u8>>, vals: Seq<nat>, point: Seq<nat>) -> nat
    decreases addresses.len(),
{
    if addresses.len() == 0 {
        0
    } else {
        let k = addresses.len() - 1;
        fadd(
            sparse_eval(addresses.drop_last(), vals, point),
            fmul(address_eq(addresses[k], point), vals[k]),
        )
    }
}

/// The addresses as sequences of bytes.
pub open spec fn address_bytes<const N: usize>(addresses: Seq<[u8; N]>) -> Seq<Seq<u8>> {
    addresses.map_values(|a: [u8; N]| a@)
}

/// The little-endian bytes of a 64-bit address.
pub open spec fn le_bytes(address: u64) -> Seq<u8> {
    Seq::new(8, |i: int| ((address as nat / pow2((8 * i) as nat)) % 256) as u8)
}

/// A point cut or padded with zeros to `n` coordinates.
pub open spec fn resized(point: Seq<nat>, n: nat) -> Seq<nat> {
    Seq::new(n, |i: int| if i < point.len() { point[i] } else { 0 })
}

/// The evaluation of a sparse polynomial with 64-bit addresses at a point,
/// cut or padded to 64 variables.
pub open spec fn flexible_eval(evals: Seq<(u64, Fm)>, point: Seq<nat>) -> nat {
    sparse_eval(
        evals.map_values(|e: (u64, Fm)| le_bytes(e.0)),
        evals.map_values(|e: (u64, Fm)| e.1@),
        resized(point, 64),
    )
}

/// The equality polynomial of two all-zero points is `1`.
proof fn lemma_eq_eval_zeros(n: nat)
    ensures
        eq_eval(index_point(0, n), Seq::new(n, |i: int| 0nat)) == 1,
    decreases n,
{
    if n > 0 {
        lemma_eq_eval_zeros((n - 1) as nat);
        assert(index_point(0, n).drop_last() =~= index_point(0, (n - 1) as nat));
        assert(Seq::new(n, |i: int| 0nat).drop_last() =~= Seq::new((n - 1) as nat, |i: int| 0nat));
        assert(bit(0, (n - 1) as nat) == 0) by {
            crate::math::lemma_pow2_positive((n - 1) as nat);
        }
        assert(fmul(0, 0) == 0 && fsub(1, 0) == 1 && fmul(1, 1) == 1);
    }
}

/// The value of the equality polynomial is a field element.
proof fn lemma_eq_eval_bound(a: Seq<nat>, b: Seq<nat>)
    ensures
        eq_eval(a, b) < crate::field::P,
{
}

/// A byte as a 64-bit address has the byte first and zeros after it.
proof fn lemma_le_bytes_of_byte(b: u8, i: int)
    requires
        0 <= i < 8,
    ensures
        le_bytes(b as u64)[i] == if i == 0 { b } else { 0u8 },
{
    if i == 0 {
        vstd::arithmetic::power2::lemma2_to64();
    } else {
        lemma_pow2_byte();
        crate::math::lemma_pow2_monotone(8, (8 * i) as nat);
        assert((b as nat) / pow2((8 * i) as nat) == 0) by {
            vstd::arithmetic::div_mod::lemma_basic_div(b as int, pow2((8 * i) as nat) as int);
        }
    }
}

/// The first `j` bytes of a byte's 64-bit address, against the point padded
/// to 64 variables, give the equality table of the point at the byte.
proof fn lemma_address_eq_of_byte(b: u8, point: Seq<nat>, j: int)
    requires
        point.len() == 8,
        1 <= j <= 8,
    ensures
        address_eq(le_bytes(b as u64).take(j), resized(point, 64)) == eq_table_entry(point, b as nat),
    decreases j,
{
    let a = le_bytes(b as u64).take(j);
    let p64 = resized(point, 64);
    lemma_le_bytes_of_byte(b, j - 1);
    assert(a.drop_last() =~= le_bytes(b as u64).take(j - 1));
    lemma_eq_eval_bound(index_point(b as nat, 8), point);
    if j == 1 {
        assert(segment(p64, 0) =~= point);
        assert(address_eq(a.drop_last(), p64) == 1);
        assert(fmul(1, eq_table_entry(point, b as nat)) == eq_table_entry(point, b as nat));
    } else {
        lemma_address_eq_of_byte(b, point, j - 1);
        assert(segment(p64, j - 1) =~= Seq::new(8, |i: int| 0nat));
        lemma_eq_eval_zeros(8);
        assert(fmul(eq_table_entry(point, b as nat), 1) == eq_table_entry(point, b as nat));
    }
}

/// Two sparse polynomials whose entries have the same equality factors at
/// their points and the same values evaluate alike.
proof fn lemma_sparse_eval_congruent(
    a1: Seq<Seq<u8>>,
    v1: Seq<nat>,
    p1: Seq<nat>,
    a2: Seq<Seq<u8>>,
    v2: Seq<nat>,
    p2: Seq<nat>,
)
    requires
        a1.len() == a2.len(),
        forall|k: int|
            0 <= k < a1.len() ==> address_eq(#[trigger] a1[k], p1) == address_eq(a2[k], p2) && v1[k]
                == v2[k],
    ensures
        sparse_eval(a1, v1, p1) == sparse_eval(a2, v2, p2),
    decreases a1.len(),
{
    if a1.len() > 0 {
        lemma_sparse_eval_congruent(a1.drop_last(), v1, p1, a2.drop_last(), v2, p2);
    }
}

/// Law: a sparse polynomial over one-byte addresses and the same entries
/// with the bytes as 64-bit addresses evaluate alike at a point of eight
/// variables, the point being padded with zeros to 64 variables for the
/// latter.
pub proof fn lemma_flexible_eval_one_byte(
    evals: Seq<(u64, Fm)>,
    addresses: Seq<[u8; 1]>,
    vals: Seq<Fm>,
    point: Seq<nat>,
)
    requires
        evals.len() == addresses.len(),
        vals.len() == addresses.len(),
        point.len() == 8,
        forall|k: int|
            0 <= k < evals.len() ==> #[trigger] evals[k] == (addresses[k][0] as u64, vals[k]),
    ensures
        flexible_eval(evals, point) == sparse_eval(address_bytes(addresses), values(vals), point),
{
    let a2 = evals.map_values(|e: (u64, Fm)| le_bytes(e.0));
    let v2 = evals.map_values(|e: (u64, Fm)| e.1@);
    let a1 = address_bytes(addresses);
    let p64 = resized(point, 64);
    assert forall|k: int| 0 <= k < a1.len() implies address_eq(#[trigger] a1[k], point)
        == address_eq(a2[k], p64) && values(vals)[k] == v2[k] by {
        let b = addresses[k][0];
        assert(evals[k] == (b as u64, vals[k]));
        lemma_address_eq_of_byte(b, point, 8);
        assert(le_bytes(b as u64).take(8) =~= le_bytes(b as u64));
        assert(a1[k] =~= seq![b]);
        assert(seq![b].drop_last() =~= Seq::<u8>::empty());
        assert(segment(point, 0) =~= point);
        lemma_eq_eval_bound(index_point(b as nat, 8), point);
        assert(fmul(1, eq_table_entry(point, b as nat)) == eq_table_entry(point, b as nat));
        assert(a2[k] == le_bytes(b as u64));
        assert(address_eq(a1[k], point) == fmul(
            address_eq(a1[k].drop_last(), point),
            eq_table_entry(segment(point, 0), b as nat),
        ));
        assert(address_eq(a1[k].drop_last(), point) == 1);
        assert(values(vals)[k] == vals[k]@);
        assert(v2[k] == evals[k].1@);
    }
    lemma_sparse_eval_congruent(a1, values(vals), point, a2, v2, p64);
}

/// `2^8 == 256` and `2^64 == 2^64`.
proof fn lemma_pow2_byte()
    ensures
        pow2(8) == 256,
{
    vstd::arithmetic::power2::lemma2_to64();
}

/// The equality tables of the bytes of a point of `8 * bytes` variables.
fn byte_tables(point: &[Fm], bytes: usize) -> (t: Vec<Vec<Fm>>)
    requires
        point@.len() == 8 * bytes,
    ensures
        t@.len() == bytes,
        forall|i: int|
            0 <= i < bytes ==> {
                &&& (#[trigger] t@[i])@.len() == 256
                &&& forall|x: int|
                    0 <= x < 256 ==> #[trigger] t@[i]@[x]@ == eq_table_entry(
                        segment(values(point@), i),
                        x as nat,
                    )
            },
{
    let mut tables: Vec<Vec<Fm>> = Vec::new();
    let mut i: usize = 0;
    let n = point.len();
    proof {
        lemma_pow2_byte();
    }
    while i < bytes
        invariant
            n == point@.len(),
            i <= bytes,
            point@.len() == 8 * bytes,
            pow2(8) == 256,
            tables@.len() == i,
            forall|k: int|
                0 <= k < i ==> {
                    &&& (#[trigger] tables@[k])@.len() == 256
                    &&& forall|x: int|
                        0 <= x < 256 ==> #[trigger] tables@[k]@[x]@ == eq_table_entry(
                            segment(values(point@), k),
                            x as nat,
                        )
                },
        decreases bytes - i,
    {
        let mut seg: Vec<Fm> = Vec::new();
        let mut j: usize = 0;
        while j < 8
            invariant
                n == point@.len(),
                j <= 8,
                i < bytes,
                point@.len() == 8 * bytes,
                seg@ == point@.subrange(8 * i, 8 * i + j),
            decreases 8 - j,
        {
            assert(8 * i + j < 8 * bytes) by (nonlinear_arith)
                requires
                    i < bytes,
                    j < 8,
            ;
            seg.push(point[8 * i + j]);
            j = j + 1;
            proof {
                assert(seg@ =~= point@.subrange(8 * i, 8 * i + j));
            }
        }
        proof {
            assert(values(seg@) =~= segment(values(point@), i as int));
        }
        let table = eq_table(seg.as_slice());
        tables.push(table);
        i = i + 1;
    }
    tables
}

/// The product over the bytes of `address` of their entries in the byte
/// tables of `point`.
fn address_weight(tables: &Vec<Vec<Fm>>, address: &[u8], Ghost(point): Ghost<Seq<nat>>) -> (r: Fm)
    requires
        address@.len() <= tables@.len(),
        forall|i: int|
            0 <= i < tables@.len() ==> {
                &&& (#[trigger] tables@[i])@.len() == 256
                &&& forall|x: int|
                    0 <= x < 256 ==> #[trigger] tables@[i]@[x]@ == eq_table_entry(
                        segment(point, i),
                        x as nat,
                    )
            },
    ensures
        r@ == address_eq(address@, point),
{
    let mut acc = Fm::one();
    let mut i: usize = 0;
    proof {
        assert(address@.take(0) =~= Seq::<u8>::empty());
    }
    while i < address.len()
        invariant
            i <= address@.len(),
            address@.len() <= tables@.len(),
            forall|k: int|
                0 <= k < tables@.len() ==> {
                    &&& (#[trigger] tables@[k])@.len() == 256
                    &&& forall|x: int|
                        0 <= x < 256 ==> #[trigger] tables@[k]@[x]@ == eq_table_entry(
                            segment(point, k),
                            x as nat,
                        )
                },
            acc@ == address_eq(address@.take(i as int), point),
        decreases address@.len() - i,
    {
        let byte = address[i];
        let entry = tables[i][byte as usize];
        proof {
            let t = address@.take(i + 1);
            assert(t.drop_last() =~= address@.take(i as int));
            assert(t.last() == byte);
            assert(tables@[i as int]@[byte as int]@ == eq_table_entry(
                segment(point, i as int),
                byte as nat,
            ));
        }
        acc = acc.mul(entry);
        i = i + 1;
    }
    proof {
        assert(address@.take(address@.len() as int) =~= address@);
    }
    acc
}

/// The boolean point of an address: coordinate `8 i + j` is bit `j` of byte
/// `i`.
pub open spec fn address_point(address: Seq<u8>) -> Seq<nat> {
    Seq::new(8 * address.len(), |c: int| bit(address[c / 8] as nat, (c % 8) as nat))
}

/// A sequence of booleans, as field elements.
pub open spec fn is_boolean(s: Seq<nat>) -> bool {
    forall|i: int| 0 <= i < s.len() ==> #[trigger] s[i] <= 1
}

/// The equality polynomial is the indicator of equality on the boolean
/// hypercube.
proof fn lemma_eq_eval_boolean(a: Seq<nat>, b: Seq<nat>)
    requires
        a.len() == b.len(),
        is_boolean(a),
        is_boolean(b),
    ensures
        eq_eval(a, b) == if a == b { 1nat } else { 0nat },
    decreases a.len(),
{
    if a.len() > 0 {
        let (x, y) = (a.last(), b.last());
        assert(is_boolean(a.drop_last()));
        assert(is_boolean(b.drop_last()));
        lemma_eq_eval_boolean(a.drop_last(), b.drop_last());
        assert(x <= 1 && y <= 1);
        assert(eq_term(x, y) == if x == y { 1nat } else { 0nat }) by {
            assert(fmul(0, 0) == 0 && fmul(1, 1) == 1 && fmul(0, 1) == 0 && fmul(1, 0) == 0);
        }
        if a == b {
            assert(a.drop_last() == b.drop_last());
        } else if a.drop_last() == b.drop_last() {
            assert(x != y) by {
                if x == y {
                    assert forall|i: int| 0 <= i < a.len() implies a[i] == b[i] by {
                        if i < a.len() - 1 {
                            assert(a.drop_last()[i] == b.drop_last()[i]);
                        }
                    }
                    assert(a =~= b);
                }
            }
        }
        assert(fmul(1, 1) == 1 && fmul(0, 1) == 0 && fmul(1, 0) == 0 && fmul(0, 0) == 0);
    } else {
        assert(a =~= b);
    }
}

/// Bits are booleans.
proof fn lemma_index_point_boolean(x: nat, n: nat)
    ensures
        is_boolean(index_point(x, n)),
{
}

/// The first `n` bits of a number below `2^n` determine it.
proof fn lemma_bits_determine(a: nat, b: nat, n: nat)
    requires
        a < pow2(n),
        b < pow2(n),
        index_point(a, n) == index_point(b, n),
    ensures
        a == b,
    decreases n,
{
    crate::math::lemma_pow2_zero();
    if n > 0 {
        let m = (n - 1) as nat;
        crate::math::lemma_pow2_double(m);
        assert(a / 2 < pow2(m));
        assert(b / 2 < pow2(m));
        assert(a % 2 == b % 2) by {
            assert(index_point(a, n)[0] == bit(a, 0));
            assert(index_point(b, n)[0] == bit(b, 0));
            assert(index_point(a, n)[0] == index_point(b, n)[0]);
        }
        assert forall|i: int| 0 <= i < m implies #[trigger] index_point(a / 2, m)[i] == index_point(
            b / 2,
            m,
        )[i] by {
            assert(index_point(a, n)[i + 1] == bit(a, (i + 1) as nat));
            assert(index_point(b, n)[i + 1] == bit(b, (i + 1) as nat));
            assert(index_point(a / 2, m)[i] == bit(a / 2, i as nat));
            assert(index_point(b / 2, m)[i] == bit(b / 2, i as nat));
            assert(index_point(a, n)[i + 1] == index_point(b, n)[i + 1]);
            crate::math::lemma_pow2_positive(i as nat);
            crate::math::lemma_pow2_double(i as nat);
            vstd::arithmetic::div_mod::lemma_div_denominator(a as int, 2, pow2(i as nat) as int);
            vstd::arithmetic::div_mod::lemma_div_denominator(b as int, 2, pow2(i as nat) as int);
        }
        assert(index_point(a / 2, m) =~= index_point(b / 2, m));
        lemma_bits_determine(a / 2, b / 2, m);
        vstd::arithmetic::div_mod::lemma_fundamental_div_mod(a as int, 2);
        vstd::arithmetic::div_mod::lemma_fundamental_div_mod(b as int, 2);
    }
}

/// Segment `i` of the boolean point of an address is the boolean point of its
/// byte `i`.
proof fn lemma_segment_of_address_point(address: Seq<u8>, i: int)
    requires
        0 <= i < address.len(),
    ensures
        segment(address_point(address), i) == index_point(address[i] as nat, 8),
{
    assert forall|j: int| 0 <= j < 8 implies #[trigger] segment(address_point(address), i)[j]
        == index_point(address[i] as nat, 8)[j] by {
        vstd::arithmetic::div_mod::lemma_fundamental_div_mod_converse(8 * i + j, 8, i, j);
    }
    assert(segment(address_point(address), i) =~= index_point(address[i] as nat, 8));
}

/// The equality polynomial of an address at the boolean point of an address
/// of the same length is the indicator of their equality.
proof fn lemma_address_eq_boolean(address: Seq<u8>, other: Seq<u8>, m: int)
    requires
        address.len() == other.len(),
        0 <= m <= address.len(),
    ensures
        address_eq(address.take(m), address_point(other)) == if address.take(m) == other.take(m) {
            1nat
        } else {
            0nat
        },
    decreases m,
{
    let p = address_point(other);
    if m == 0 {
        assert(address.take(0) =~= other.take(0));
    } else {
        let t = address.take(m);
        assert(t.drop_last() =~= address.take(m - 1));
        lemma_address_eq_boolean(address, other, m - 1);
        lemma_segment_of_address_point(other, m - 1);
        let x = address[m - 1] as nat;
        let y = other[m - 1] as nat;
        lemma_index_point_boolean(x, 8);
        lemma_index_point_boolean(y, 8);
        lemma_eq_eval_boolean(index_point(x, 8), index_point(y, 8));
        lemma_pow2_byte();
        if index_point(x, 8) == index_point(y, 8) {
            lemma_bits_determine(x, y, 8);
        }
        let e = eq_table_entry(segment(p, m - 1), x);
        assert(e == if x == y { 1nat } else { 0nat });
        if t == other.take(m) {
            assert(address.take(m - 1) =~= other.take(m - 1));
            assert(x == y) by {
                assert(t[m - 1] == other.take(m)[m - 1]);
            }
        } else if address.take(m - 1) == other.take(m - 1) {
            assert(x != y) by {
                if x == y {
                    assert(t =~= other.take(m));
                }
            }
        } else {
            assert(address_eq(t.drop_last(), p) == 0);
        }
        assert(fmul(1, 1) == 1 && fmul(0, 1) == 0 && fmul(1, 0) == 0 && fmul(0, 0) == 0);
    }
}

/// Addresses of one length, pairwise distinct.
pub open spec fn distinct_addresses(addresses: Seq<Seq<u8>>, n: nat) -> bool {
    &&& forall|i: int| 0 <= i < addresses.len() ==> (#[trigger] addresses[i]).len() == n
    &&& forall|i: int, j: int|
        0 <= i < j < addresses.len() ==> #[trigger] addresses[i] != #[trigger] addresses[j]
}

/// The partial sums of a sparse polynomial with distinct addresses at the
/// boolean point of address `k` pick the value of entry `k` alone.
proof fn lemma_sparse_prefix_at_address(addresses: Seq<Seq<u8>>, vals: Seq<nat>, k: int, m: int)
    requires
        0 <= k < addresses.len(),
        0 <= m <= addresses.len(),
        vals.len() == addresses.len(),
        distinct_addresses(addresses, addresses[k].len()),
        forall|i: int| 0 <= i < vals.len() ==> #[trigger] vals[i] < crate::field::P,
    ensures
        sparse_eval(addresses.take(m), vals, address_point(addresses[k])) == if k < m {
            vals[k]
        } else {
            0nat
        },
    decreases m,
{
    let p = address_point(addresses[k]);
    let n = addresses[k].len();
    if m > 0 {
        let j = m - 1;
        lemma_sparse_prefix_at_address(addresses, vals, k, j);
        let t = addresses.take(m);
        assert(t.drop_last() =~= addresses.take(j));
        assert(t[j] == addresses[j]);
        lemma_address_eq_boolean(addresses[j], addresses[k], n as int);
        assert(addresses[j].take(n as int) =~= addresses[j]);
        assert(addresses[k].take(n as int) =~= addresses[k]);
        if j != k {
            if j < k {
                assert(addresses[j] != addresses[k]);
            } else {
                assert(addresses[k] != addresses[j]);
            }
        }
        let v = vals[j];
        crate::field::lemma_field_identities(v);
        let prev = sparse_eval(addresses.take(j), vals, p);
        crate::field::lemma_field_identities(prev);
        assert(prev < crate::field::P);
    }
}

/// A sparse polynomial with distinct addresses takes, at the boolean point of
/// one of its addresses, the value stored at that address.
pub proof fn lemma_sparse_eval_at_address(addresses: Seq<Seq<u8>>, vals: Seq<nat>, k: int)
    requires
        0 <= k < addresses.len(),
        vals.len() == addresses.len(),
        distinct_addresses(addresses, addresses[k].len()),
        forall|i: int| 0 <= i < vals.len() ==> #[trigger] vals[i] < crate::field::P,
    ensures
        sparse_eval(addresses, vals, address_point(addresses[k])) == vals[k],
{
    lemma_sparse_prefix_at_address(addresses, vals, k, addresses.len() as int);
    assert(addresses.take(addresses.len() as int) =~= addresses);
}

/// A multilinear polynomial given by its nonzero entries: each address is
/// `N` bytes, the variables of byte `i` being `8 i .. 8 i + 8`.
#[derive(Clone, Debug)]
pub struct SparseMle<const N: usize> {
    addresses: Vec<[u8; N]>,
    values: Vec<Fm>,
}

impl<const N: usize> SparseMle<N> {
    /// The addresses of the entries.
    pub closed spec fn addresses(&self) -> Seq<[u8; N]> {
        self.addresses@
    }

    /// The values of the entries.
    pub closed spec fn entry_values(&self) -> Seq<Fm> {
        self.values@
    }

    /// The polynomial can be evaluated: one value per address, and a power of
    /// two of them.
    pub open spec fn wf(&self) -> bool {
        &&& self.entry_values().len() == self.addresses().len()
        &&& is_power_of_two(self.entry_values().len())
    }

    /// The polynomial with the entries `values[k]` at `addresses[k]`.
    pub fn new(addresses: Vec<[u8; N]>, values: Vec<Fm>) -> (r: Self)
        ensures
            r.addresses() == addresses@,
            r.entry_values() == values@,
    {
        SparseMle { addresses, values }
    }

    /// The evaluation at `point`: `sum_k eq(address_k, point) * value_k`.
    pub fn eval(&self, point: &MultiPoint) -> (r: Fm)
        requires
            point@.len() == N * 8,
            self.wf(),
        ensures
            r@ == sparse_eval(
                address_bytes(self.addresses()),
                values(self.entry_values()),
                values(point@),
            ),
    {
        let p = point.inner_ref();
        let tables = byte_tables(p, N);
        let ghost pv = values(point@);
        let ghost addrs = address_bytes(self.addresses@);
        let ghost vals = values(self.values@);
        let mut acc = Fm::zero();
        let mut k: usize = 0;
        proof {
            assert(addrs.take(0) =~= Seq::<Seq<u8>>::empty());
        }
        while k < self.addresses.len()
            invariant
                k <= self.addresses@.len(),
                self.values@.len() == self.addresses@.len(),
                tables@.len() == N,
                pv == values(point@),
                addrs == address_bytes(self.addresses@),
                vals == values(self.values@),
                forall|i: int|
                    0 <= i < tables@.len() ==> {
                        &&& (#[trigger] tables@[i])@.len() == 256
                        &&& forall|x: int|
                            0 <= x < 256 ==> #[trigger] tables@[i]@[x]@ == eq_table_entry(
                                segment(pv, i),
                                x as nat,
                            )
                    },
                acc@ == sparse_eval(addrs.take(k as int), vals, pv),
            decreases self.addresses@.len() - k,
        {
            let address: &[u8; N] = &self.addresses[k];
            let w = address_weight(&tables, address.as_slice(), Ghost(pv));
            let term = w.mul(self.values[k]);
            proof {
                let t = addrs.take(k + 1);
                assert(t.drop_last() =~= addrs.take(k as int));
                assert(t[k as int] == address@);
            }
            acc = acc.add(term);
            k = k + 1;
        }
        proof {
            assert(addrs.take(self.addresses@.len() as int) =~= addrs);
        }
        acc
    }
}

/// A sparse polynomial with distinct addresses evaluates, at the boolean
/// point of one of its addresses, to the value stored at that address.
pub proof fn lemma_eval_at_address<const N: usize>(mle: SparseMle<N>, k: int)
    requires
        mle.wf(),
        0 <= k < mle.addresses().len(),
        distinct_addresses(address_bytes(mle.addresses()), N as nat),
    ensures
        address_point(mle.addresses()[k]@).len() == N * 8,
        sparse_eval(
            address_bytes(mle.addresses()),
            values(mle.entry_values()),
            address_point(mle.addresses()[k]@),
        ) == mle.entry_values()[k]@,
{
    let addrs = address_bytes(mle.addresses());
    let vals = values(mle.entry_values());
    assert(addrs[k] == mle.addresses()[k]@);
    assert forall|i: int| 0 <= i < vals.len() implies #[trigger] vals[i] < crate::field::P by {
        mle.entry_values()[i].lemma_view_bound();
    }
    lemma_sparse_eval_at_address(addrs, vals, k);
}

/// The little-endian bytes of `address`.
fn address_le_bytes(address: u64) -> (b: Vec<u8>)
    ensures
        b@ == le_bytes(address),
{
    let mut bytes: Vec<u8> = Vec::new();
    let mut rest: u64 = address;
    let mut i: usize = 0;
    proof {
        crate::math::lemma_pow2_zero();
        lemma_pow2_byte();
        assert(address as nat / pow2((8 * 0) as nat) == address as nat);
    }
    while i < 8
        invariant
            i <= 8,
            pow2(8) == 256,
            rest as nat == address as nat / pow2((8 * i) as nat),
            bytes@ == le_bytes(address).take(i as int),
        decreases 8 - i,
    {
        let byte = (rest % 256) as u8;
        proof {
            crate::math::lemma_pow2_positive((8 * i) as nat);
            vstd::arithmetic::power2::lemma_pow2_adds((8 * i) as nat, 8);
            vstd::arithmetic::div_mod::lemma_div_denominator(
                address as int,
                pow2((8 * i) as nat) as int,
                256,
            );
        }
        bytes.push(byte);
        rest = rest / 256;
        i = i + 1;
        proof {
            assert(bytes@ =~= le_bytes(address).take(i as int));
        }
    }
    proof {
        assert(le_bytes(address).take(8) =~= le_bytes(address));
    }
    bytes
}

/// A point as its claimed evaluation of a sparse polynomial.
#[derive(Clone, Debug)]
pub struct SparkInstance {
    point: MultiPoint,
    eval: Fm,
}

/// The number of variables of a point is not the one expected.
#[derive(Clone, Copy, Debug, PartialEq, Eq)]
pub struct UnexpectedVars;

impl SparkInstance {
    /// The evaluation point.
    pub closed spec fn point(&self) -> Seq<Fm> {
        self.point@
    }

    /// The claimed evaluation.
    pub closed spec fn claimed(&self) -> Fm {
        self.eval
    }

    /// The claim that the polynomial evaluates to `eval` at `point`.
    pub fn new(point: MultiPoint, eval: Fm) -> (r: Self)
        ensures
            r.point() == point@,
            r.claimed() == eval,
    {
        SparkInstance { point, eval }
    }

    /// Pads the point with zeros to a whole number of bytes of variables.
    pub fn align_to_byte(self) -> (r: Self)
        requires
            self.point().len() + 8 <= usize::MAX,
        ensures
            r.claimed() == self.claimed(),
            r.point().len() == if self.point().len() % 8 == 0 {
                self.point().len() as int
            } else {
                (self.point().len() / 8) * 8 + 8 as int
            },
            r.point().take(self.point().len() as int) == self.point(),
            forall|i: int|
                self.point().len() <= i < r.point().len() ==> (#[trigger] r.point()[i])@ == 0,
    {
        let SparkInstance { point, eval } = self;
        let mut coords = point.inner();
        let ghost initial = coords@;
        let len = coords.len();
        if len % 8 != 0 {
            let target = (len / 8) * 8 + 8;
            while coords.len() < target
                invariant
                    len == initial.len(),
                    target == (len / 8) * 8 + 8,
                    len <= coords@.len() <= target,
                    coords@.take(len as int) == initial,
                    forall|i: int| len <= i < coords@.len() ==> (#[trigger] coords@[i])@ == 0,
                decreases target - coords@.len(),
            {
                coords.push(Fm::zero());
                proof {
                    assert(coords@.take(len as int) =~= initial);
                }
            }
        } else {
            proof {
                assert(coords@.take(len as int) =~= initial);
            }
        }
        SparkInstance { point: MultiPoint::new(coords), eval }
    }

    /// The number of field elements of an instance with `params` variables.
    pub fn len(params: &usize) -> (r: usize)
        requires
            *params < usize::MAX,
        ensures
            r == *params + 1,
    {
        *params + 1
    }

    /// The coordinates of the point followed by the claimed evaluation, if
    /// the point has `params` variables.
    pub fn to_field_elements(&self, params: &usize) -> (r: Result<Vec<Fm>, UnexpectedVars>)
        ensures
            self.point().len() == *params ==> (r matches Ok(v) && v@ == self.point().push(
                self.claimed(),
            )),
            self.point().len() != *params ==> r is Err,
    {
        if self.point.vars() != *params {
            return Err(UnexpectedVars);
        }
        let coords = self.point.inner_ref();
        let mut elems: Vec<Fm> = Vec::new();
        let mut i: usize = 0;
        while i < coords.len()
            invariant
                i <= coords@.len(),
                coords@ == self.point(),
                elems@ == coords@.take(i as int),
            decreases coords@.len() - i,
        {
            elems.push(coords[i]);
            i = i + 1;
            proof {
                assert(elems@ =~= coords@.take(i as int));
            }
        }
        elems.push(self.eval);
        proof {
            assert(elems@ =~= self.point().push(self.claimed()));
        }
        Ok(elems)
    }
}

/// A sparse polynomial with byte addresses and the commitment scheme.
#[derive(Clone, Debug)]
pub struct StaticSparkStructure<C, const N: usize> {
    mle: Rc<SparseMle<N>>,
    pcs: C,
}

impl<C, const N: usize> StaticSparkStructure<C, N> {
    /// The polynomial.
    pub closed spec fn mle(&self) -> SparseMle<N> {
        *self.mle
    }

    /// The structure of `mle` under `pcs`.
    pub fn new(mle: Rc<SparseMle<N>>, pcs: C) -> (r: Self)
        ensures
            r.mle() == *mle,
    {
        StaticSparkStructure { mle, pcs }
    }
}

/// The relation of a claimed evaluation of a sparse polynomial with `N`-byte
/// addresses.
#[derive(Debug)]
pub struct StaticSparkRelation<C, const N: usize>(PhantomData<C>);

/// Whether `point` has `8 N` variables and `mle` evaluates to `claimed` there.
fn check_evaluation<const N: usize>(mle: &SparseMle<N>, instance: &SparkInstance) -> (r: bool)
    requires
        mle.wf(),
    ensures
        r == (instance.point().len() == N * 8 && sparse_eval(
            address_bytes(mle.addresses()),
            values(mle.entry_values()),
            values(instance.point()),
        ) == instance.claimed()@),
{
    let vars = instance.point.vars();
    if vars % 8 != 0 || vars / 8 != N {
        return false;
    }
    let eval = mle.eval(&instance.point);
    eval.equals(&instance.eval)
}

/// `mle` evaluates to `claimed` at `point`, which has `8 N` variables.
pub open spec fn evaluation_holds<const N: usize>(mle: SparseMle<N>, instance: SparkInstance) -> bool {
    instance.point().len() == N * 8 && sparse_eval(
        address_bytes(mle.addresses()),
        values(mle.entry_values()),
        values(instance.point()),
    ) == instance.claimed()@
}

impl<C, const N: usize> Relation for StaticSparkRelation<C, N> {
    type Structure = StaticSparkStructure<C, N>;

    type Instance = SparkInstance;

    type Witness = ();

    open spec fn admits(structure: StaticSparkStructure<C, N>, instance: SparkInstance, witness: ()) -> bool {
        structure.mle().wf()
    }

    open spec fn holds(structure: StaticSparkStructure<C, N>, instance: SparkInstance, witness: ()) -> bool {
        evaluation_holds(structure.mle(), instance)
    }

    /// Whether the point has `8 N` variables and the polynomial evaluates to
    /// the claimed value there.
    fn check(structure: &StaticSparkStructure<C, N>, instance: &SparkInstance, witness: &()) -> (r: bool) {
        let mle: &SparseMle<N> = &structure.mle;
        check_evaluation(mle, instance)
    }
}

/// A sparse polynomial with 64-bit addresses and the commitment scheme.
#[derive(Clone, Debug)]
pub struct FlexibleSparkStructure<C> {
    evals: Rc<Vec<(u64, Fm)>>,
    pcs: C,
}

impl<C> FlexibleSparkStructure<C> {
    /// The entries: addresses and values.
    pub closed spec fn entries(&self) -> Seq<(u64, Fm)> {
        self.evals@
    }

    /// The polynomial with entries `evals`, under `pcs`.
    pub fn new(evals: Rc<Vec<(u64, Fm)>>, pcs: C) -> (r: Self)
        ensures
            r.entries() == evals@,
    {
        FlexibleSparkStructure { evals, pcs }
    }

    /// The evaluation at `point`, cut or padded with zeros to 64 variables.
    pub fn eval(&self, point: MultiPoint) -> (r: Fm)
        ensures
            r@ == flexible_eval(self.entries(), values(point@)),
    {
        let ghost initial = values(point@);
        let coords = point.inner();
        let mut padded: Vec<Fm> = Vec::new();
        let mut i: usize = 0;
        while i < 64
            invariant
                i <= 64,
                initial == values(coords@),
                padded@.len() == i,
                forall|j: int|
                    0 <= j < i ==> (#[trigger] padded@[j])@ == resized(initial, 64)[j],
            decreases 64 - i,
        {
            if i < coords.len() {
                padded.push(coords[i]);
            } else {
                padded.push(Fm::zero());
            }
            i = i + 1;
        }
        proof {
            assert(values(padded@) =~= resized(initial, 64));
        }
        let tables = byte_tables(padded.as_slice(), 8);
        let ghost pv = resized(initial, 64);
        let evals: &Vec<(u64, Fm)> = &self.evals;
        let ghost addrs = evals@.map_values(|e: (u64, Fm)| le_bytes(e.0));
        let ghost vals = evals@.map_values(|e: (u64, Fm)| e.1@);
        let mut acc = Fm::zero();
        let mut k: usize = 0;
        proof {
            assert(addrs.take(0) =~= Seq::<Seq<u8>>::empty());
        }
        while k < evals.len()
            invariant
                k <= evals@.len(),
                tables@.len() == 8,
                pv == values(padded@),
                addrs == evals@.map_values(|e: (u64, Fm)| le_bytes(e.0)),
                vals == evals@.map_values(|e: (u64, Fm)| e.1@),
                forall|i: int|
                    0 <= i < tables@.len() ==> {
                        &&& (#[trigger] tables@[i])@.len() == 256
                        &&& forall|x: int|
                            0 <= x < 256 ==> #[trigger] tables@[i]@[x]@ == eq_table_entry(
                                segment(pv, i),
                                x as nat,
                            )
                    },
                acc@ == sparse_eval(addrs.take(k as int), vals, pv),
            decreases evals@.len() - k,
        {
            let (address, value) = evals[k];
            let bytes = address_le_bytes(address);
            let w = address_weight(&tables, bytes.as_slice(), Ghost(pv));
            let term = w.mul(value);
            proof {
                let t = addrs.take(k + 1);
                assert(t.drop_last() =~= addrs.take(k as int));
                assert(t[k as int] == bytes@);
            }
            acc = acc.add(term);
            k = k + 1;
        }
        proof {
            assert(addrs.take(evals@.len() as int) =~= addrs);
        }
        acc
    }
}

/// The relation of a claimed evaluation of a sparse polynomial with 64-bit
/// addresses.
#[derive(Debug)]
pub struct FlexibleSparkRelation<C>(PhantomData<C>);

impl<C> Relation for FlexibleSparkRelation<C> {
    type Structure = FlexibleSparkStructure<C>;

    type Instance = SparkInstance;

    type Witness = ();

    open spec fn admits(structure: FlexibleSparkStructure<C>, instance: SparkInstance, witness: ()) -> bool {
        true
    }

    open spec fn holds(structure: FlexibleSparkStructure<C>, instance: SparkInstance, witness: ()) -> bool {
        flexible_eval(structure.entries(), values(instance.point())) == instance.claimed()@
    }

    /// Whether the polynomial evaluates to the claimed value at the point.
    fn check(structure: &FlexibleSparkStructure<C>, instance: &SparkInstance, witness: &()) -> (r: bool) {
        let expected = structure.eval(instance.point.duplicate());
        instance.eval.equals(&expected)
    }
}

/// How many of `addresses` have byte `i` equal to `b`.
pub open spec fn byte_count(addresses: Seq<Seq<u8>>, i: int, b: nat) -> nat
    decreases addresses.len(),
{
    if addresses.len() == 0 {
        0
    } else {
        byte_count(addresses.drop_last(), i, b) + if addresses.last()[i] as nat == b {
            1nat
        } else {
            0nat
        }
    }
}

/// A count is at most the number of addresses.
proof fn lemma_byte_count_bound(addresses: Seq<Seq<u8>>, i: int, b: nat)
    ensures
        byte_count(addresses, i, b) <= addresses.len(),
    decreases addresses.len(),
{
    if addresses.len() > 0 {
        lemma_byte_count_bound(addresses.drop_last(), i, b);
    }
}

/// The denominator of byte value `b` in the logarithmic-derivative lookup of
/// a byte: `b * compression + eq(b, point) + lookup`.
pub open spec fn lookup_denominator(point: Seq<nat>, b: nat, lookup: nat, compression: nat) -> nat {
    fadd(fadd(fmul(b, compression), eq_table_entry(point, b)), lookup)
}

/// `sum_{b < m} counts[b] / (b * compression + eq(b, point) + lookup)`, where
/// a denominator without inverse contributes nothing.
pub open spec fn expected_sum(
    counts: Seq<usize>,
    point: Seq<nat>,
    lookup: nat,
    compression: nat,
    m: nat,
) -> nat
    decreases m,
{
    if m == 0 {
        0
    } else {
        let b = (m - 1) as nat;
        fadd(
            expected_sum(counts, point, lookup, compression, b),
            fmul(
                finv(lookup_denominator(point, b, lookup, compression)),
                counts[b as int] as nat % (crate::field::P as nat),
            ),
        )
    }
}

/// `sum_k 1 / (a_k[i] * compression + eq(a_k[i], point) + lookup)` over the
/// addresses `a_k`: the lookups of byte `i`, one inverse per address.
pub open spec fn inverse_sum(
    addresses: Seq<Seq<u8>>,
    i: int,
    point: Seq<nat>,
    lookup: nat,
    compression: nat,
) -> nat
    decreases addresses.len(),
{
    if addresses.len() == 0 {
        0
    } else {
        fadd(
            inverse_sum(addresses.drop_last(), i, point, lookup, compression),
            finv(lookup_denominator(point, addresses.last()[i] as nat, lookup, compression)),
        )
    }
}

/// The counts of the values of byte `i` among `addresses`.
pub open spec fn count_row(addresses: Seq<Seq<u8>>, i: int) -> Seq<usize> {
    Seq::new(256, |b: int| byte_count(addresses, i, b as nat) as usize)
}

/// `(e + x) + t = (e + t) + x` in the field.
proof fn lemma_fadd_swap(e: nat, x: nat, t: nat)
    ensures
        fadd(fadd(e, x), t) == fadd(fadd(e, t), x),
{
    let p = crate::field::P as int;
    let (e, x, t) = (e as int, x as int, t as int);
    vstd::arithmetic::div_mod::lemma_add_mod_noop(e + x, t, p);
    vstd::arithmetic::div_mod::lemma_add_mod_noop(e + t, x, p);
    vstd::arithmetic::div_mod::lemma_mod_twice(e + x, p);
    vstd::arithmetic::div_mod::lemma_mod_twice(e + t, p);
    vstd::arithmetic::div_mod::lemma_mod_twice(t, p);
    vstd::arithmetic::div_mod::lemma_mod_twice(x, p);
    vstd::arithmetic::div_mod::lemma_add_mod_noop((e + x) % p, t, p);
    vstd::arithmetic::div_mod::lemma_add_mod_noop((e + t) % p, x, p);
}

/// `g (c + 1) = g c + g` in the field.
proof fn lemma_fmul_succ(g: nat, c: nat)
    ensures
        fmul(g, (c + 1) % (crate::field::P as nat)) == fadd(fmul(g, c % (crate::field::P as nat)), g),
{
    let p = crate::field::P as int;
    let (g, c) = (g as int, c as int);
    vstd::arithmetic::div_mod::lemma_mul_mod_noop_right(g, c + 1, p);
    vstd::arithmetic::div_mod::lemma_mul_mod_noop_right(g, c, p);
    assert(g * (c + 1) == g * c + g) by (nonlinear_arith);
    vstd::arithmetic::div_mod::lemma_add_mod_noop(g * c, g, p);
    vstd::arithmetic::div_mod::lemma_mod_twice(g * c, p);
    vstd::arithmetic::div_mod::lemma_add_mod_noop((g * c) % p, g, p);
    vstd::arithmetic::div_mod::lemma_mod_twice(g, p);
}

/// One more address with byte value `a` adds the inverse of the denominator
/// of `a` to the expected sum.
proof fn lemma_expected_sum_step(
    counts: Seq<usize>,
    more: Seq<usize>,
    a: nat,
    point: Seq<nat>,
    lookup: nat,
    compression: nat,
    m: nat,
)
    requires
        counts.len() == 256,
        more.len() == 256,
        a < 256,
        m <= 256,
        forall|b: int|
            0 <= b < 256 ==> #[trigger] more[b] as nat == counts[b] as nat + if b == a {
                1nat
            } else {
                0nat
            },
    ensures
        expected_sum(more, point, lookup, compression, m) == fadd(
            expected_sum(counts, point, lookup, compression, m),
            if a < m {
                finv(lookup_denominator(point, a, lookup, compression))
            } else {
                0
            },
        ),
    decreases m,
{
    let p = crate::field::P as nat;
    if m == 0 {
        crate::field::lemma_field_identities(0);
    } else {
        let b = (m - 1) as nat;
        lemma_expected_sum_step(counts, more, a, point, lookup, compression, b);
        let e = expected_sum(counts, point, lookup, compression, b);
        let g = finv(lookup_denominator(point, b, lookup, compression));
        let t = fmul(g, counts[b as int] as nat % p);
        if b == a {
            assert(g < p) by {
                if crate::field::invertible(lookup_denominator(point, b, lookup, compression)) {
                }
            }
            lemma_fmul_succ(g, counts[b as int] as nat);
            crate::field::lemma_field_identities(e);
            assert(e < p);
            lemma_fadd_swap(e, t, g);
            lemma_fadd_swap(e, 0, t);
            crate::field::lemma_field_identities(fadd(e, t));
            crate::field::lemma_field_identities(t);
            vstd::arithmetic::div_mod::lemma_mod_twice(e + t as int, p as int);
            let s = fadd(fadd(e, t), g);
            assert(fadd(fadd(e, 0), fadd(t, g)) == s) by {
                let pi = p as int;
                let (ei, ti, gi) = (e as int, t as int, g as int);
                vstd::arithmetic::div_mod::lemma_add_mod_noop(ei, ti + gi, pi);
                vstd::arithmetic::div_mod::lemma_add_mod_noop(ei + ti, gi, pi);
                vstd::arithmetic::div_mod::lemma_mod_twice(ei, pi);
                vstd::arithmetic::div_mod::lemma_mod_twice(ti + gi, pi);
                vstd::arithmetic::div_mod::lemma_mod_twice(gi, pi);
                vstd::arithmetic::div_mod::lemma_add_mod_noop((ei + ti) % pi, gi, pi);
                vstd::arithmetic::div_mod::lemma_add_mod_noop(ei % pi, (ti + gi) % pi, pi);
            }
        } else {
            let x = if a < b {
                finv(lookup_denominator(point, a, lookup, compression))
            } else {
                0
            };
            lemma_fadd_swap(e, x, t);
        }
    }
}

/// The left-hand side of the logarithmic-derivative lookup: the expected
/// sum of byte `i`, `sum_b count_b / (b * compression + eq(b) + lookup)`, is
/// `sum_k 1 / (a_k[i] * compression + eq(a_k[i]) + lookup)` over the
/// addresses, each address contributing the inverse of its own denominator.
pub proof fn lemma_expected_sum_per_address(
    addresses: Seq<Seq<u8>>,
    i: int,
    point: Seq<nat>,
    lookup: nat,
    compression: nat,
)
    requires
        addresses.len() <= usize::MAX,
    ensures
        expected_sum(count_row(addresses, i), point, lookup, compression, 256) == inverse_sum(
            addresses,
            i,
            point,
            lookup,
            compression,
        ),
    decreases addresses.len(),
{
    if addresses.len() == 0 {
        lemma_expected_sum_zero(count_row(addresses, i), point, lookup, compression, 256);
    } else {
        let prev = addresses.drop_last();
        lemma_expected_sum_per_address(prev, i, point, lookup, compression);
        let a = addresses.last()[i] as nat;
        assert forall|b: int| 0 <= b < 256 implies #[trigger] count_row(addresses, i)[b] as nat
            == count_row(prev, i)[b] as nat + if b == a {
            1nat
        } else {
            0nat
        } by {
            lemma_byte_count_bound(addresses, i, b as nat);
            lemma_byte_count_bound(prev, i, b as nat);
        }
        lemma_expected_sum_step(
            count_row(prev, i),
            count_row(addresses, i),
            a,
            point,
            lookup,
            compression,
            256,
        );
    }
}

/// Zero counts give a zero sum.
proof fn lemma_expected_sum_zero(
    counts: Seq<usize>,
    point: Seq<nat>,
    lookup: nat,
    compression: nat,
    m: nat,
)
    requires
        m <= counts.len(),
        forall|b: int| 0 <= b < m ==> #[trigger] counts[b] == 0,
    ensures
        expected_sum(counts, point, lookup, compression, m) == 0,
    decreases m,
{
    if m > 0 {
        lemma_expected_sum_zero(counts, point, lookup, compression, (m - 1) as nat);
        let g = finv(lookup_denominator(point, (m - 1) as nat, lookup, compression));
        crate::field::lemma_field_identities(g);
        crate::field::lemma_field_identities(0);
    }
}

/// The number of addresses with each value of each byte: the multiplicities
/// of the byte lookups of a sparse polynomial.
#[derive(Clone, Debug)]
pub struct MinorStructure<const N: usize> {
    pub counts: Vec<Vec<usize>>,
}

impl<const N: usize> MinorStructure<N> {
    /// One row of 256 counts per byte.
    pub open spec fn wf(&self) -> bool {
        &&& self.counts@.len() == N
        &&& forall|i: int| 0 <= i < N ==> (#[trigger] self.counts@[i])@.len() == 256
    }

    /// The counts of the bytes of the addresses of `mle`.
    pub fn new(mle: &SparseMle<N>) -> (r: Self)
        ensures
            r.wf(),
            forall|i: int, b: int|
                0 <= i < N && 0 <= b < 256 ==> #[trigger] r.counts@[i]@[b] == byte_count(
                    address_bytes(mle.addresses()),
                    i,
                    b as nat,
                ),
    {
        let ghost addrs = address_bytes(mle.addresses@);
        let mut counts: Vec<Vec<usize>> = Vec::new();
        let mut i: usize = 0;
        while i < N
            invariant
                i <= N,
                addrs == address_bytes(mle.addresses@),
                counts@.len() == i,
                forall|j: int| 0 <= j < i ==> (#[trigger] counts@[j])@.len() == 256,
                forall|j: int, b: int|
                    0 <= j < i && 0 <= b < 256 ==> #[trigger] counts@[j]@[b] == byte_count(
                        addrs,
                        j,
                        b as nat,
                    ),
            decreases N - i,
        {
            let mut row: Vec<usize> = Vec::new();
            let mut b: usize = 0;
            while b < 256
                invariant
                    b <= 256,
                    row@.len() == b,
                    forall|c: int| 0 <= c < b ==> #[trigger] row@[c] == 0,
                decreases 256 - b,
            {
                row.push(0);
                b = b + 1;
            }
            let mut k: usize = 0;
            proof {
                assert(addrs.take(0) =~= Seq::<Seq<u8>>::empty());
            }
            while k < mle.addresses.len()
                invariant
                    i < N,
                    k <= mle.addresses@.len(),
                    addrs == address_bytes(mle.addresses@),
                    row@.len() == 256,
                    forall|c: int|
                        0 <= c < 256 ==> #[trigger] row@[c] == byte_count(
                            addrs.take(k as int),
                            i as int,
                            c as nat,
                        ),
                decreases mle.addresses@.len() - k,
            {
                let segment: u8 = mle.addresses[k][i];
                let idx = segment as usize;
                proof {
                    let t = addrs.take(k + 1);
                    assert(t.drop_last() =~= addrs.take(k as int));
                    assert(t.last() == mle.addresses@[k as int]@);
                    lemma_byte_count_bound(addrs.take(k as int), i as int, idx as nat);
                }
                let current = row[idx];
                row.set(idx, current + 1);
                k = k + 1;
            }
            proof {
                assert(addrs.take(mle.addresses@.len() as int) =~= addrs);
            }
            counts.push(row);
            i = i + 1;
        }
        MinorStructure { counts }
    }

    /// Whether two count tables are equal.
    pub fn same_counts(&self, other: &Self) -> (r: bool)
        requires
            self.wf(),
            other.wf(),
        ensures
            r == forall|i: int, b: int|
                #![trigger self.counts@[i]@[b]]
                #![trigger other.counts@[i]@[b]]
                0 <= i < N && 0 <= b < 256 ==> self.counts@[i]@[b] == other.counts@[i]@[b],
    {
        let mut i: usize = 0;
        while i < N
            invariant
                i <= N,
                self.wf(),
                other.wf(),
                forall|j: int, b: int|
                    0 <= j < i && 0 <= b < 256 ==> #[trigger] self.counts@[j]@[b]
                        == other.counts@[j]@[b],
            decreases N - i,
        {
            let mut b: usize = 0;
            while b < 256
                invariant
                    i < N,
                    b <= 256,
                    self.wf(),
                    other.wf(),
                    forall|c: int| 0 <= c < b ==> #[trigger] self.counts@[i as int]@[c]
                        == other.counts@[i as int]@[c],
                decreases 256 - b,
            {
                if self.counts[i][b] != other.counts[i][b] {
                    return false;
                }
                b = b + 1;
            }
            i = i + 1;
        }
        true
    }

    /// For each byte `i`, `sum_b counts[i][b] / (b * compression +
    /// eq(b, points[i]) + lookup)` over the 256 byte values, the denominators
    /// without inverse contributing nothing.
    pub fn expected_sums(&self, points: &[MultiPoint], lookup_challenge: Fm, compression_challenge: Fm) -> (r: Vec<Fm>)
        requires
            self.wf(),
            points@.len() == N,
            forall|i: int| 0 <= i < N ==> (#[trigger] points@[i])@.len() == 8,
        ensures
            r@.len() == N,
            forall|i: int|
                0 <= i < N ==> (#[trigger] r@[i])@ == expected_sum(
                    self.counts@[i]@,
                    values(points@[i]@),
                    lookup_challenge@,
                    compression_challenge@,
                    256,
                ),
    {
        let mut res: Vec<Fm> = Vec::new();
        let mut i: usize = 0;
        proof {
            lemma_pow2_byte();
        }
        while i < N
            invariant
                i <= N,
                self.wf(),
                pow2(8) == 256,
                points@.len() == N,
                forall|j: int| 0 <= j < N ==> (#[trigger] points@[j])@.len() == 8,
                res@.len() == i,
                forall|j: int|
                    0 <= j < i ==> (#[trigger] res@[j])@ == expected_sum(
                        self.counts@[j]@,
                        values(points@[j]@),
                        lookup_challenge@,
                        compression_challenge@,
                        256,
                    ),
            decreases N - i,
        {
            let point = &points[i];
            let table = eq_table(point.inner_ref());
            let counts = &self.counts[i];
            let mut acc = Fm::zero();
            let mut b: usize = 0;
            while b < 256
                invariant
                    i < N,
                    b <= 256,
                    table@.len() == 256,
                    counts@.len() == 256,
                    counts@ == self.counts@[i as int]@,
                    point@ == points@[i as int]@,
                    forall|x: int|
                        0 <= x < table@.len() ==> #[trigger] table@[x]@ == eq_table_entry(
                            values(point@),
                            x as nat,
                        ),
                    acc@ == expected_sum(
                        counts@,
                        values(point@),
                        lookup_challenge@,
                        compression_challenge@,
                        b as nat,
                    ),
                decreases 256 - b,
            {
                let address = Fm::from_u64(b as u64);
                let denominator = address.mul(compression_challenge).add(table[b]).add(
                    lookup_challenge,
                );
                let count = Fm::from_u64(counts[b] as u64);
                match denominator.inverse() {
                    Some(inverse) => {
                        acc = acc.add(inverse.mul(count));
                    },
                    None => {
                        proof {
                            assert(fmul(0, count@) == 0) by {
                                assert(0 * count@ == 0);
                            }
                            acc.lemma_view_bound();
                            assert(fadd(acc@, 0) == acc@);
                        }
                    },
                }
                b = b + 1;
            }
            res.push(acc);
            i = i + 1;
        }
        res
    }
}

/// A sparse polynomial with byte addresses, the counts of its bytes and the
/// commitment scheme.
#[derive(Clone, Debug)]
pub struct CommittedSparkStructure<C, const N: usize> {
    minor_structure: MinorStructure<N>,
    mle: Rc<SparseMle<N>>,
    pcs: C,
}

impl<C, const N: usize> CommittedSparkStructure<C, N> {
    /// The polynomial.
    pub closed spec fn mle(&self) -> SparseMle<N> {
        *self.mle
    }

    /// The stored counts.
    pub closed spec fn minor_structure(&self) -> MinorStructure<N> {
        self.minor_structure
    }

    /// The structure of `mle` under `pcs`, with the counts of its bytes.
    pub fn new(mle: Rc<SparseMle<N>>, pcs: C) -> (r: Self)
        ensures
            r.mle() == *mle,
            r.minor_structure().wf(),
            forall|i: int, b: int|
                0 <= i < N && 0 <= b < 256 ==> #[trigger] r.minor_structure().counts@[i]@[b]
                    == byte_count(address_bytes(mle.addresses()), i, b as nat),
    {
        let m: &SparseMle<N> = &mle;
        let minor_structure = MinorStructure::new(m);
        CommittedSparkStructure { minor_structure, mle, pcs }
    }
}

/// The relation of a claimed evaluation of a committed sparse polynomial with
/// `N`-byte addresses.
#[derive(Debug)]
pub struct CommittedSparkRelation<C, const N: usize>(PhantomData<C>);

impl<C, const N: usize> CommittedSparkRelation<C, N> {
    /// Whether the evaluation claim holds, the stored counts are those of the
    /// polynomial, and the oracle built from the polynomial is the stored one
    /// (`oracle_matches`).
    pub fn check(
        structure: &CommittedSparkStructure<C, N>,
        instance: &SparkInstance,
        witness: &(),
        oracle_matches: bool,
    ) -> (r: bool)
        requires
            structure.mle().wf(),
            structure.minor_structure().wf(),
        ensures
            r == {
                &&& instance.point().len() == N * 8
                &&& sparse_eval(
                    address_bytes(structure.mle().addresses()),
                    values(structure.mle().entry_values()),
                    values(instance.point()),
                ) == instance.claimed()@
                &&& forall|i: int, b: int|
                    0 <= i < N && 0 <= b < 256 ==> #[trigger] structure.minor_structure().counts@[i]@[b]
                        == byte_count(address_bytes(structure.mle().addresses()), i, b as nat)
                &&& oracle_matches
            },
    {
        let m: &SparseMle<N> = &structure.mle;
        if !check_evaluation(m, instance) {
            return false;
        }
        let minor_structure = MinorStructure::new(m);
        if !minor_structure.same_counts(&structure.minor_structure) {
            return false;
        }
        oracle_matches
    }
}

} // verus!
