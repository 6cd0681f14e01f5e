use lilium::field::Fm;
use lilium::sumcheck::composite::{
    evals_per_oracle, instance_evals, located_evals, merged_answers, prover_evals,
    prover_evals_count, verifier_evals, verify_query,
};
use lilium::sumcheck::oracles::{EvalLocation, Either, OracleEval};

fn f(x: u64) -> Fm {
    Fm::from_u64(x)
}

#[test]
fn composite_query_round_trip() {
    // slot 0: left, computed; slot 1: left, provided; slot 2: right, provided;
    // slot 3: right, computed.
    let natures = vec![
        Either::Left(false),
        Either::Left(true),
        Either::Right(true),
        Either::Right(false),
    ];
    let sides = evals_per_oracle(&natures);
    assert_eq!(prover_evals_count(&natures), 2);
    let evals = vec![f(10), f(20), f(30), f(40)];
    let query1 = vec![
        OracleEval::Computed(f(10)),
        OracleEval::ProverProvided,
        OracleEval::Absent,
        OracleEval::Absent,
    ];
    let query2 = vec![
        OracleEval::Absent,
        OracleEval::Absent,
        OracleEval::ProverProvided,
        OracleEval::Computed(f(40)),
    ];
    let prover = prover_evals(&natures, &sides, &evals, &query1, &query2);
    assert_eq!(prover.prover_evals, vec![f(20), f(30)]);
    assert_eq!(prover.evals1, vec![Some(f(10)), Some(f(20)), None, None]);
    assert_eq!(prover.evals2, vec![None, None, Some(f(30)), Some(f(40))]);

    let verifier = verifier_evals(&natures, &sides, &prover.prover_evals, &query1, &query2);
    assert_eq!(verifier.evals, evals);
    assert_eq!(verifier.evals1, prover.evals1);
    assert_eq!(verifier.evals2, prover.evals2);
    let ok = verify_query(verifier, f(5), f(5)).unwrap();
    assert_eq!(ok.0, prover.evals1);
    let verifier = verifier_evals(&natures, &sides, &[f(21), f(30)], &query1, &query2);
    assert_eq!(verifier.evals[1], f(21));
    assert!(verify_query(verifier, f(5), f(6)).is_err());
}

#[test]
fn composite_instance_and_located_evals() {
    let natures = vec![Either::Left(false), Either::Right(false)];
    assert_eq!(
        instance_evals(&natures, &[f(1), f(2)], &[f(3), f(4)]),
        vec![f(1), f(4)]
    );
    let locations = [EvalLocation::Instance, EvalLocation::Witness, EvalLocation::Structure];
    assert_eq!(
        located_evals(&locations, &[f(1), f(2), f(3)], &[f(4), f(5), f(6)], &[f(7), f(8), f(9)]),
        vec![f(1), f(5), f(9)]
    );
    let merged = merged_answers(
        &[OracleEval::Computed(f(1)), OracleEval::Absent, OracleEval::Absent],
        &[OracleEval::Absent, OracleEval::ProverProvided, OracleEval::Absent],
    );
    assert!(matches!(merged[0], OracleEval::Computed(_)));
    assert!(matches!(merged[1], OracleEval::ProverProvided));
    assert!(matches!(merged[2], OracleEval::Absent));
}
