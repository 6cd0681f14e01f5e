use lilium::field::{Fm, M32Config};
use lilium::sumcheck::point::{eq_table, MultiPoint};

const P: u64 = 4294967291;

fn f(x: u64) -> Fm {
    Fm::from_u64(x)
}

#[test]
fn field_arithmetic_wraps_at_modulus() {
    assert_eq!(M32Config::modulus(), P);
    assert_eq!(M32Config::generator(), 3);
    assert_eq!(f(P).value(), 0);
    assert_eq!(f(P - 1).add(f(2)).value(), 1);
    assert_eq!(f(1).sub(f(2)).value(), P - 1);
    assert_eq!(f(5).neg().value(), P - 5);
    assert_eq!(f(P - 1).mul(f(P - 1)).value(), 1);
    assert_eq!(f(65536).mul(f(65536)).value(), 5);
    assert!(Fm::zero().is_zero());
    assert!(f(7).equals(&f(P + 7)));
}

#[test]
fn field_inverse() {
    let two = f(2);
    let inv = two.inverse().unwrap();
    assert_eq!(inv.value(), (P + 1) / 2);
    assert_eq!(two.mul(inv), Fm::one());
    for x in [3u64, 12345, P - 1, 1 << 31] {
        let y = f(x).inverse().unwrap();
        assert_eq!(f(x).mul(y), Fm::one());
    }
    assert!(Fm::zero().inverse().is_none());
}

#[test]
fn eq_table_matches_pointwise_eq() {
    let r = MultiPoint::new(vec![f(3), f(5), f(7)]);
    let table = eq_table(r.inner_ref());
    assert_eq!(table.len(), 8);
    for x in 0..8 {
        assert_eq!(table[x], MultiPoint::new_from_index(x, 3).eval_as_eq(&r));
    }
    let sum = table.iter().fold(Fm::zero(), |acc, e| acc.add(*e));
    assert_eq!(sum, Fm::one());
}

#[test]
fn every_nonzero_element_has_an_inverse() {
    for x in [1u64, 2, 3, 65535, 65536, 123456789, 4294967290] {
        let a = Fm::from_u64(x);
        let inv = a.inverse().expect("nonzero elements are invertible");
        assert_eq!(a.mul(inv), Fm::one());
    }
    assert!(Fm::zero().inverse().is_none());
}

#[test]
fn eq_is_symmetric_and_separates_boolean_points() {
    let p = MultiPoint::new(vec![Fm::from_u64(5), Fm::from_u64(77), Fm::from_u64(4294967000)]);
    let q = MultiPoint::new(vec![Fm::from_u64(12), Fm::from_u64(0), Fm::from_u64(9)]);
    assert_eq!(p.eval_as_eq(&q), q.eval_as_eq(&p));
    for i in 0..8usize {
        for j in 0..8usize {
            let e = MultiPoint::new_from_index(i, 3).eval_as_eq(&MultiPoint::new_from_index(j, 3));
            assert_eq!(e, if i == j { Fm::one() } else { Fm::zero() });
        }
    }
}
