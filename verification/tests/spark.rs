use lilium::field::Fm;
use lilium::relation::Relation;
use lilium::spark::{
    CommittedSparkRelation, CommittedSparkStructure, FlexibleSparkRelation,
    FlexibleSparkStructure, MinorStructure, SparkInstance, SparseMle, StaticSparkRelation,
    StaticSparkStructure,
};
use lilium::sumcheck::point::MultiPoint;
use std::rc::Rc;

fn f(x: u64) -> Fm {
    Fm::from_u64(x)
}

fn pseudo_random(n: usize, seed: u64) -> Vec<Fm> {
    let mut state = seed;
    (0..n)
        .map(|_| {
            state = state.wrapping_mul(6364136223846793005).wrapping_add(1442695040888963407);
            Fm::from_u64(state >> 16)
        })
        .collect()
}

fn point(coords: Vec<Fm>) -> MultiPoint {
    MultiPoint::new(coords)
}

/// `sum_k value_k * eq(bits(index_k), r)`, computed coordinate by coordinate.
fn brute_eval(indices: &[usize], values: &[Fm], vars: usize, r: &MultiPoint) -> Fm {
    let mut acc = Fm::zero();
    for (index, value) in indices.iter().zip(values) {
        let eq = MultiPoint::new_from_index(*index, vars).eval_as_eq(r);
        acc = acc.add(eq.mul(*value));
    }
    acc
}

#[test]
fn sparse_mle_single_byte_interpolates() {
    let addresses: Vec<[u8; 1]> = (0..256).map(|i| [i as u8]).collect();
    let values = pseudo_random(256, 1);
    let mle = SparseMle::new(addresses, values.clone());
    for k in [0usize, 1, 77, 255] {
        let p = MultiPoint::new_from_index(k, 8);
        assert_eq!(mle.eval(&p), values[k]);
    }
}

#[test]
fn sparse_mle_two_bytes_at_random_point() {
    let addresses: Vec<[u8; 2]> = vec![[1, 2], [3, 4], [250, 7], [0, 255]];
    let indices: Vec<usize> = addresses
        .iter()
        .map(|a| a[0] as usize + 256 * a[1] as usize)
        .collect();
    let values = pseudo_random(4, 2);
    let mle = SparseMle::new(addresses, values.clone());
    let r = point(pseudo_random(16, 3));
    assert_eq!(mle.eval(&r), brute_eval(&indices, &values, 16, &r));
    let at_second = MultiPoint::new_from_index(indices[1], 16);
    assert_eq!(mle.eval(&at_second), values[1]);
}

#[test]
fn static_spark_relation_checks_claim() {
    let addresses: Vec<[u8; 1]> = vec![[5], [9]];
    let values = vec![f(11), f(13)];
    let mle = SparseMle::new(addresses, values);
    let r = point(pseudo_random(8, 4));
    let eval = mle.eval(&r);
    let structure = StaticSparkStructure::new(Rc::new(mle), ());
    let good = SparkInstance::new(point(r.inner_ref().to_vec()), eval);
    assert!(StaticSparkRelation::<(), 1>::check(&structure, &good, &()));
    let bad = SparkInstance::new(point(r.inner_ref().to_vec()), eval.add(Fm::one()));
    assert!(!StaticSparkRelation::<(), 1>::check(&structure, &bad, &()));
    let short = SparkInstance::new(point(pseudo_random(7, 5)), eval);
    assert!(!StaticSparkRelation::<(), 1>::check(&structure, &short, &()));
}

#[test]
fn flexible_spark_eval_pads_point() {
    let entries: Vec<(u64, Fm)> = vec![(3, f(7)), (1000, f(19)), (65_537, f(23))];
    let structure = FlexibleSparkStructure::new(Rc::new(entries.clone()), ());
    let coords = pseudo_random(20, 6);
    let mut padded = coords.clone();
    padded.resize(64, Fm::zero());
    let indices: Vec<usize> = entries.iter().map(|e| e.0 as usize).collect();
    let values: Vec<Fm> = entries.iter().map(|e| e.1).collect();
    let expected = brute_eval(&indices, &values, 64, &point(padded));
    assert_eq!(structure.eval(point(coords.clone())), expected);

    let instance = SparkInstance::new(point(coords.clone()), expected);
    assert!(FlexibleSparkRelation::<()>::check(&structure, &instance, &()));
    let wrong = SparkInstance::new(point(coords), expected.add(Fm::one()));
    assert!(!FlexibleSparkRelation::<()>::check(&structure, &wrong, &()));
}

#[test]
fn flexible_spark_eval_at_boolean_point() {
    let entries: Vec<(u64, Fm)> = vec![(6, f(100)), (9, f(200))];
    let structure = FlexibleSparkStructure::new(Rc::new(entries), ());
    assert_eq!(structure.eval(MultiPoint::new_from_index(9, 4)), f(200));
    assert_eq!(structure.eval(MultiPoint::new_from_index(6, 70)), f(100));
    assert_eq!(structure.eval(MultiPoint::new_from_index(5, 4)), f(0));
}

#[test]
fn spark_instance_align_to_byte() {
    let instance = SparkInstance::new(point(vec![f(1), f(2), f(3)]), f(9));
    let aligned = instance.align_to_byte();
    let elems = aligned.to_field_elements(&8).unwrap();
    assert_eq!(
        elems,
        vec![f(1), f(2), f(3), f(0), f(0), f(0), f(0), f(0), f(9)]
    );
    let exact = SparkInstance::new(point(pseudo_random(8, 7)), f(1));
    assert_eq!(exact.align_to_byte().to_field_elements(&8).unwrap().len(), 9);
    assert!(SparkInstance::new(point(vec![f(1)]), f(2))
        .to_field_elements(&2)
        .is_err());
    assert_eq!(SparkInstance::len(&16), 17);
}

#[test]
fn minor_structure_counts_bytes() {
    let addresses: Vec<[u8; 2]> = vec![[1, 2], [1, 3], [4, 2], [1, 2]];
    let mle = SparseMle::new(addresses, vec![f(1), f(2), f(3), f(4)]);
    let minor = MinorStructure::<2>::new(&mle);
    assert_eq!(minor.counts.len(), 2);
    assert_eq!(minor.counts[0][1], 3);
    assert_eq!(minor.counts[0][4], 1);
    assert_eq!(minor.counts[0][2], 0);
    assert_eq!(minor.counts[1][2], 3);
    assert_eq!(minor.counts[1][3], 1);
    assert!(minor.same_counts(&MinorStructure::<2>::new(&mle)));
}

#[test]
fn minor_structure_expected_sums() {
    let addresses: Vec<[u8; 1]> = vec![[0], [3], [3], [200]];
    let mle = SparseMle::new(addresses, pseudo_random(4, 8));
    let minor = MinorStructure::<1>::new(&mle);
    let p = point(pseudo_random(8, 9));
    let lookup = f(12345);
    let compression = f(777);
    let sums = minor.expected_sums(&[p.clone()], lookup, compression);
    let mut expected = Fm::zero();
    for b in 0..256usize {
        let count = minor.counts[0][b];
        if count == 0 {
            continue;
        }
        let eq = MultiPoint::new_from_index(b, 8).eval_as_eq(&p);
        let denominator = f(b as u64).mul(compression).add(eq).add(lookup);
        let inverse = denominator.inverse().unwrap();
        expected = expected.add(inverse.mul(f(count as u64)));
    }
    assert_eq!(sums, vec![expected]);
}

#[test]
fn committed_spark_relation_checks_counts() {
    let addresses: Vec<[u8; 1]> = vec![[1], [2]];
    let mle = SparseMle::new(addresses, vec![f(5), f(6)]);
    let r = point(pseudo_random(8, 10));
    let eval = mle.eval(&r);
    let structure = CommittedSparkStructure::new(Rc::new(mle), ());
    let instance = SparkInstance::new(r, eval);
    assert!(CommittedSparkRelation::<(), 1>::check(&structure, &instance, &(), true));
    assert!(!CommittedSparkRelation::<(), 1>::check(&structure, &instance, &(), false));
}

#[test]
fn expected_sums_are_per_address_inverses() {
    let addresses: Vec<[u8; 2]> = vec![[7, 1], [7, 200], [3, 1], [255, 0], [7, 9]];
    let mle = SparseMle::new(addresses.clone(), pseudo_random(5, 11));
    let minor = MinorStructure::<2>::new(&mle);
    let points = [point(pseudo_random(8, 12)), point(pseudo_random(8, 13))];
    let lookup = f(99991);
    let compression = f(31337);
    let sums = minor.expected_sums(&points, lookup, compression);
    for i in 0..2 {
        let mut expected = Fm::zero();
        for address in &addresses {
            let b = address[i] as usize;
            let eq = MultiPoint::new_from_index(b, 8).eval_as_eq(&points[i]);
            let denominator = f(b as u64).mul(compression).add(eq).add(lookup);
            expected = expected.add(denominator.inverse().unwrap());
        }
        assert_eq!(sums[i], expected);
    }
}

#[test]
fn flexible_eval_agrees_with_one_byte_sparse_eval() {
    let values = pseudo_random(256, 11);
    let addresses: Vec<[u8; 1]> = (0..256).map(|j| [j as u8]).collect();
    let entries: Vec<(u64, Fm)> = (0..256).map(|j| (j as u64, values[j])).collect();
    let flex = FlexibleSparkStructure::new(Rc::new(entries), ());
    let mle = SparseMle::new(addresses, values);
    let p = point(pseudo_random(8, 23));
    let sparse = mle.eval(&p);
    assert_eq!(flex.eval(p), sparse);
    let q = MultiPoint::new_from_index(77, 8);
    assert_eq!(mle.eval(&q), flex.eval(q));
}
