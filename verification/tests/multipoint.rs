use lilium::field::Fm;
use lilium::multipoint::{
    batched_sum, committed_commitments, core_coefficients, sumcheck_witness, MultipointBatching,
    MultipointEvals,
};
use lilium::sumcheck::point::MultiPoint;

fn f(x: u64) -> Fm {
    Fm::from_u64(x)
}

/// The multilinear extension of `w` at `r`: `sum_x eq(bits(x), r) w[x]`.
fn mle_eval(w: &[Fm], r: &MultiPoint) -> Fm {
    w.iter().enumerate().fold(Fm::zero(), |acc, (x, v)| {
        acc.add(MultiPoint::new_from_index(x, r.vars()).eval_as_eq(r).mul(*v))
    })
}

#[test]
fn batched_sum_is_horner() {
    // ((0*c + 2)*c + 3)*c + 4 with c = 10
    assert_eq!(batched_sum(&[f(2), f(3), f(4)], f(10)), f(234));
    assert_eq!(batched_sum(&[], f(10)), f(0));
}

#[test]
fn multipoint_function_value() {
    let e = MultipointEvals::<Fm, 2> {
        commitments: vec![f(3), f(5)],
        eqs: vec![f(2), f(7)],
        challenge: f(10),
    };
    // 2*3*10 + 7*5 = 95
    assert_eq!(e.function(), f(95));
    assert_eq!(MultipointEvals::<Fm, 2>::zero().function(), f(0));
}

#[test]
fn batched_sumcheck_sum_matches_claims() {
    let w0 = vec![f(1), f(2), f(3), f(4)];
    let w1 = vec![f(9), f(8), f(7), f(6)];
    let r0 = MultiPoint::new(vec![f(11), f(13)]);
    let r1 = MultiPoint::new(vec![f(17), f(19)]);
    let claims = [mle_eval(&w0, &r0), mle_eval(&w1, &r1)];
    let challenge = f(23);
    let rows = sumcheck_witness::<2>(&[w0, w1], &[r0.clone(), r1.clone()]);
    assert_eq!(rows.len(), 4);
    let total = rows.iter().fold(Fm::zero(), |acc, row| {
        let mut row = row.clone();
        row.challenge = challenge;
        acc.add(row.function())
    });
    assert_eq!(total, batched_sum(&claims, challenge));
}

#[test]
fn multipoint_instances() {
    let r0 = MultiPoint::new(vec![f(1)]);
    let r1 = MultiPoint::new(vec![f(2), f(3)]);
    let c = core_coefficients::<2>(vec![r0, r1], f(4));
    assert_eq!(c.eqs, vec![vec![f(1)], vec![f(2), f(3)]]);
    assert_eq!(c.challenge, vec![f(4)]);
    assert!(c.commitments.iter().all(|v| v.is_empty()));
    let k = committed_commitments::<u8, 2>(&[5, 6]);
    assert_eq!(k.commitments, vec![Some(5), Some(6)]);
    assert_eq!(k.eqs, vec![None, None]);
    assert!(k.challenge.is_none());
}

#[test]
fn multipoint_batching_check() {
    let w = vec![vec![f(1); 3], vec![f(2); 4]];
    assert!(MultipointBatching::<(), 2>::check(2, &w, &[true, true]));
    assert!(!MultipointBatching::<(), 2>::check(2, &w, &[true, false]));
    assert!(!MultipointBatching::<(), 2>::check(3, &w, &[true, true]));
    assert!(MultipointBatching::<(), 1>::check(0, &[vec![f(1)]], &[true]));
}
