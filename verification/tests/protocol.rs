use lilium::field::Fm;
use lilium::matrix_oracle::mat_vec_product;
use lilium::matrix_product::{Matrix, MatrixSumEvals};
use lilium::matrix_reduction::{MatrixProductError, MatrixProductReduction};
use lilium::multipoint::{MultipointBatching, MultipointError};
use lilium::spreadsheet::argument::Mles;
use lilium::sumcheck::composite::{composite_prove, composite_verify};
use lilium::sumcheck::function::SumcheckFunction;
use lilium::sumcheck::oracles::{Either, OracleEval};
use lilium::sumcheck::point::MultiPoint;
use lilium::sumcheck::protocol::{
    interpolate, sumcheck_prove, sumcheck_verify, Duplex, HornerSponge, SumcheckError,
};

fn f(x: u64) -> Fm {
    Fm::from_u64(x)
}

fn mle_eval(w: &[Fm], r: &MultiPoint) -> Fm {
    w.iter().enumerate().fold(Fm::zero(), |acc, (x, v)| {
        acc.add(MultiPoint::new_from_index(x, r.vars()).eval_as_eq(r).mul(*v))
    })
}

#[test]
fn sponge_is_deterministic() {
    let mut a = HornerSponge::new();
    let mut b = HornerSponge::new();
    a.absorb(f(5));
    b.absorb(f(5));
    let x = a.squeeze();
    assert_eq!(x, b.squeeze());
    // state 5, squeezed 5 * 1000003 + 1
    assert_eq!(x, f(5000016));
    let mut c = HornerSponge::new();
    c.absorb(f(6));
    assert_ne!(c.squeeze(), x);
}

#[test]
fn interpolation_recovers_polynomials() {
    // p(t) = 3 + 2t + t^2 at 0, 1, 2
    let vals = [f(3), f(6), f(11)];
    assert_eq!(interpolate(&vals, f(5)), f(38));
    assert_eq!(interpolate(&vals, f(1)), f(6));
    assert_eq!(interpolate(&[f(7)], f(123)), f(7));
}

fn spreadsheet_rows() -> Vec<Vec<Fm>> {
    // table, trace, selectors (add, eq), lookups (a, b, c)
    vec![
        vec![f(1), f(3), f(1), f(0), f(1), f(2), f(3)],
        vec![f(2), f(6), f(1), f(0), f(3), f(3), f(6)],
        vec![f(3), f(0), f(0), f(1), f(6), f(6), f(0)],
        vec![f(4), f(0), f(0), f(0), f(0), f(0), f(0)],
    ]
}

#[test]
fn sumcheck_round_trip() {
    let rows = spreadsheet_rows();
    let mut prover = HornerSponge::new();
    let out = sumcheck_prove::<HornerSponge, Mles<Fm>>(&mut prover, &(), rows.clone(), 2, 2);
    assert_eq!(out.messages.len(), 2);
    assert_eq!(out.final_rows.len(), 1);
    // a satisfied circuit: every row vanishes, so the claim is zero
    let mut verifier = HornerSponge::new();
    let (point, claim) = sumcheck_verify(&mut verifier, Fm::zero(), &out.messages, 2, 2).unwrap();
    assert_eq!(point, out.point);
    assert_eq!(claim, <Mles<Fm> as SumcheckFunction>::function(&(), &out.final_rows[0]));
    assert_eq!(verifier.squeeze(), prover.squeeze());

    let mut verifier = HornerSponge::new();
    assert!(matches!(
        sumcheck_verify(&mut verifier, f(1), &out.messages, 2, 2),
        Err(SumcheckError::WrongSum)
    ));
    let mut verifier = HornerSponge::new();
    assert!(matches!(
        sumcheck_verify(&mut verifier, Fm::zero(), &out.messages[..1], 2, 2),
        Err(SumcheckError::WrongRounds)
    ));
}

#[test]
fn sumcheck_of_an_unsatisfied_table() {
    let mut rows = spreadsheet_rows();
    rows[1][6] = f(7);
    let mut prover = HornerSponge::new();
    let out = sumcheck_prove::<HornerSponge, Mles<Fm>>(&mut prover, &(), rows.clone(), 2, 2);
    // the claim is the sum of the rows' constraint values: (3 + 3 - 7) = -1
    let sum = rows
        .iter()
        .fold(Fm::zero(), |acc, r| acc.add(<Mles<Fm> as SumcheckFunction>::function(&(), r)));
    assert_eq!(sum, f(4294967290));
    let mut verifier = HornerSponge::new();
    let (_, claim) = sumcheck_verify(&mut verifier, sum, &out.messages, 2, 2).unwrap();
    assert_eq!(claim, <Mles<Fm> as SumcheckFunction>::function(&(), &out.final_rows[0]));
    let mut verifier = HornerSponge::new();
    assert!(sumcheck_verify(&mut verifier, Fm::zero(), &out.messages, 2, 2).is_err());
}

#[test]
fn composite_verify_checks_the_function() {
    // spreadsheet slots: the first two computed on the left, the rest
    // provided on the right
    let natures = vec![
        Either::Left(false),
        Either::Left(false),
        Either::Right(true),
        Either::Right(true),
        Either::Right(true),
        Either::Right(true),
        Either::Right(true),
    ];
    let evals = vec![f(9), f(9), f(1), f(0), f(2), f(3), f(5)];
    let q1: Vec<OracleEval> = (0..7)
        .map(|s| if s < 2 { OracleEval::Computed(evals[s]) } else { OracleEval::Absent })
        .collect();
    let q2: Vec<OracleEval> = (0..7)
        .map(|s| if s < 2 { OracleEval::Absent } else { OracleEval::ProverProvided })
        .collect();
    let sent = composite_prove::<Mles<Fm>>(&(), &natures, &evals, &q1, &q2, Fm::zero());
    assert_eq!(sent.prover_evals, evals[2..].to_vec());
    let ok = composite_verify::<Mles<Fm>>(&(), &natures, &sent.prover_evals, &q1, &q2, Fm::zero());
    assert!(ok.is_ok());
    let mut wrong = sent.prover_evals.clone();
    wrong[4] = f(6);
    assert!(composite_verify::<Mles<Fm>>(&(), &natures, &wrong, &q1, &q2, Fm::zero()).is_err());
    // 2 + 3 - 6 is -1, which a claim of -1 accepts
    assert!(composite_verify::<Mles<Fm>>(&(), &natures, &wrong, &q1, &q2, f(4294967290)).is_ok());
}

#[test]
fn multipoint_batching_round_trip() {
    let w0 = vec![f(1), f(2), f(3), f(4)];
    let w1 = vec![f(10), f(0), f(7), f(5)];
    let p0 = MultiPoint::new(vec![f(11), f(13)]);
    let p1 = MultiPoint::new(vec![f(17), f(19)]);
    let evals = vec![mle_eval(&w0, &p0), mle_eval(&w1, &p1)];
    let points = vec![p0, p1];
    let commits = [100u64, 200u64];
    let witness = vec![w0.clone(), w1.clone()];

    let mut prover = HornerSponge::new();
    let (reduced, proof) =
        MultipointBatching::<(), 2>::prove(&mut prover, 2, &points, &commits, &witness);
    assert_eq!(proof.prover_evals.len(), 2);
    let point = MultiPoint::new(reduced.point.clone());
    assert_eq!(reduced.evals[0], mle_eval(&w0, &point));
    assert_eq!(reduced.evals[1], mle_eval(&w1, &point));

    let mut verifier = HornerSponge::new();
    let checked =
        MultipointBatching::<(), 2>::verify(&mut verifier, 2, &points, &evals, &commits, &proof)
            .unwrap();
    assert_eq!(checked.point, reduced.point);
    assert_eq!(checked.evals, reduced.evals);
    assert_eq!(checked.commits, vec![100u64, 200u64]);

    let mut verifier = HornerSponge::new();
    let wrong = vec![evals[0], evals[1].add(Fm::one())];
    assert!(
        MultipointBatching::<(), 2>::verify(&mut verifier, 2, &points, &wrong, &commits, &proof)
            .is_err()
    );
    let mut forged = MultipointProof2::from(&proof);
    forged.prover_evals[0] = forged.prover_evals[0].add(Fm::one());
    let mut verifier = HornerSponge::new();
    let forged = lilium::multipoint::MultipointProof {
        messages: forged.messages,
        prover_evals: forged.prover_evals,
    };
    assert!(matches!(
        MultipointBatching::<(), 2>::verify(&mut verifier, 2, &points, &evals, &commits, &forged),
        Err(MultipointError::WrongEvaluation)
    ));
}

struct MultipointProof2 {
    messages: Vec<Vec<Fm>>,
    prover_evals: Vec<Fm>,
}

impl From<&lilium::multipoint::MultipointProof> for MultipointProof2 {
    fn from(p: &lilium::multipoint::MultipointProof) -> Self {
        MultipointProof2 { messages: p.messages.clone(), prover_evals: p.prover_evals.clone() }
    }
}

#[test]
fn matrix_product_round_trip() {
    let m0 = Matrix::new(vec![(0, 1), (1, 1), (2, 0), (3, 3)]);
    let m1 = Matrix::new(vec![(1, 2), (3, 0)]);
    let z = vec![f(2), f(3), f(5), f(7)];
    let rx = MultiPoint::new(vec![f(23), f(29)]);
    let claim0 = mle_eval(&mat_vec_product(&m0, &z), &rx);
    let claim1 = mle_eval(&mat_vec_product(&m1, &z), &rx);
    let structure: Vec<MatrixSumEvals<Fm, 2>> = (0..4).map(|_| MatrixSumEvals::zero()).collect();

    let mut prover = HornerSponge::new();
    let (reduced, proof) =
        MatrixProductReduction::<2>::prove(&mut prover, 2, &structure, &[&m0, &m1], &z, &rx);
    let ry = MultiPoint::new(reduced.point.clone());
    assert_eq!(reduced.z_eval, mle_eval(&z, &ry));
    assert_eq!(reduced.spark.len(), 2);

    let slots = [true, true];
    let evals = [Some(claim0), Some(claim1)];
    let mut verifier = HornerSponge::new();
    let checked =
        MatrixProductReduction::<2>::verify(&mut verifier, 2, &slots, &evals, &rx, &proof).unwrap();
    assert_eq!(checked.point, reduced.point);
    assert_eq!(checked.z_eval, reduced.z_eval);
    assert_eq!(checked.spark.len(), 2);

    let wrong = [Some(claim0), Some(claim1.add(Fm::one()))];
    let mut verifier = HornerSponge::new();
    assert!(matches!(
        MatrixProductReduction::<2>::verify(&mut verifier, 2, &slots, &wrong, &rx, &proof),
        Err(MatrixProductError::Sumcheck(_))
    ));
}
