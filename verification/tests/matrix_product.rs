use lilium::field::Fm;
use lilium::matrix_oracle::{
    committed_evals, mat_vec_product, matrix_oracle_evals, sumcheck_sum, vector_column,
    MatrixOracleQuery, MatrixProductOracle,
};
use lilium::matrix_product::{
    merge_point, Matrix, MatrixSumEvals, MatrixSumInstance, MatrixSumNature,
    MatrixSumOracle, MatrixSumQuery, MissingEvals,
};
use lilium::relation::Relation;
use lilium::sumcheck::oracles::{EvalLocation, OracleEval, PartialQueryInstance};
use lilium::sumcheck::point::{eq_table, MultiPoint};
use std::rc::Rc;

fn f(x: u64) -> Fm {
    Fm::from_u64(x)
}

#[test]
fn partial_eval_sums_rows_per_column() {
    // ones at (0, 1), (2, 1), (1, 0), (3, 3)
    let m = Matrix::new(vec![(0, 1), (2, 1), (1, 0), (3, 3)]);
    let rx = vec![f(10), f(20), f(30), f(40)];
    assert_eq!(
        MatrixSumEvals::<Fm, 2>::matrix_partial_eval(&m, &rx),
        vec![f(20), f(40), f(0), f(40)]
    );
}

#[test]
fn matrix_sum_function_combines_by_challenge() {
    let evals = MatrixSumEvals::<Fm, 3> {
        matrices: vec![f(2), f(3), f(5)],
        z: f(7),
        challenge: f(10),
    };
    // ((2*7)*10 + 3*7)*10 + 5*7 = (140 + 21)*10 + 35 = 1645
    assert_eq!(evals.function(), f(1645));
    let zero = MatrixSumEvals::<Fm, 3>::zero();
    assert_eq!(zero.matrices, vec![f(0), f(0), f(0)]);
    assert_eq!(zero.function(), f(0));
}

#[test]
fn matrix_sum_coefficients_and_natures() {
    let c = MatrixSumEvals::<Vec<Fm>, 2>::coefficients(f(9));
    assert_eq!(c.challenge, vec![f(9)]);
    assert!(c.z.is_empty());
    assert_eq!(c.matrices.len(), 2);
    let answers = MatrixSumEvals::<OracleEval, 2>::evals();
    assert!(matches!(answers.matrices[1], OracleEval::ProverProvided));
    assert!(matches!(answers.z, OracleEval::Absent));
    assert!(MatrixSumNature.prover_provided());
    assert_eq!(MatrixSumNature.location(), EvalLocation::Witness);
}

#[test]
fn matrix_sum_witness_fills_columns() {
    let structure = vec![MatrixSumEvals::<Fm, 1>::zero(); 4];
    let m = Matrix::new(vec![(0, 0), (1, 0), (3, 2)]);
    let rx = MultiPoint::new(vec![f(3), f(5)]);
    let z = vec![f(1), f(2), f(3)];
    let witness = MatrixSumEvals::<Fm, 1>::witness(&structure, &[&m], &z, &rx);
    let table = eq_table(rx.inner_ref());
    assert_eq!(witness.len(), 4);
    assert_eq!(witness[0].matrices[0], table[0].add(table[1]));
    assert_eq!(witness[1].matrices[0], f(0));
    assert_eq!(witness[2].matrices[0], table[3]);
    assert_eq!(witness[2].z, f(3));
    assert_eq!(witness[3].z, f(0));
}

fn query(evals: Vec<Option<Fm>>, rx: Vec<Fm>, ry: Vec<Fm>) -> PartialQueryInstance<MatrixSumEvals<Option<Fm>, 2>, MatrixSumInstance> {
    PartialQueryInstance {
        evals: MatrixSumEvals { matrices: evals, z: None, challenge: None },
        oracle_instance: MatrixSumInstance::new(MultiPoint::new(rx)),
        point: MultiPoint::new(ry),
    }
}

#[test]
fn matrix_sum_query_checks_evaluations() {
    let m0 = Matrix::new(vec![(0, 1), (1, 1), (2, 0)]);
    let m1 = Matrix::new(vec![(3, 3)]);
    let oracle = MatrixSumOracle::<(), 2>::new(vec![Rc::new(m0.clone()), Rc::new(m1.clone())]);
    let rx = vec![f(4), f(6)];
    let ry = vec![f(8), f(11)];
    let tx = eq_table(&rx);
    let ty = eq_table(&ry);
    let eval = |m: &Matrix| {
        let partial = MatrixSumEvals::<Fm, 2>::matrix_partial_eval(m, &tx);
        partial
            .iter()
            .zip(&ty)
            .fold(Fm::zero(), |acc, (p, e)| acc.add(p.mul(*e)))
    };
    let e0 = eval(&m0);
    let e1 = eval(&m1);
    let good = query(vec![Some(e0), Some(e1)], rx.clone(), ry.clone());
    assert!(MatrixSumQuery::<(), 2>::check(&oracle, &good, &Vec::new()));
    let bad = query(vec![Some(e0), Some(e1.add(Fm::one()))], rx.clone(), ry.clone());
    assert!(!MatrixSumQuery::<(), 2>::check(&oracle, &bad, &Vec::new()));
    let missing = query(vec![Some(e0), None], rx.clone(), ry.clone());
    assert!(!MatrixSumQuery::<(), 2>::check(&oracle, &missing, &Vec::new()));

    let instances = MatrixSumOracle::<(), 2>::verify(&good).unwrap();
    assert_eq!(instances.len(), 2);
    let elems = instances[1].to_field_elements(&4).unwrap();
    assert_eq!(elems, vec![f(4), f(6), f(8), f(11), e1]);
    assert_eq!(MatrixSumOracle::<(), 2>::prove(&good).len(), 2);
    assert!(matches!(MatrixSumOracle::<(), 2>::verify(&missing), Err(MissingEvals)));
}

#[test]
fn merge_point_concatenates() {
    let rx = MultiPoint::new(vec![f(1), f(2)]);
    let ry = MultiPoint::new(vec![f(3)]);
    assert_eq!(merge_point(&rx, &ry).inner(), vec![f(1), f(2), f(3)]);
}

#[test]
fn mat_vec_product_sums_columns_per_row() {
    let m = Matrix::new(vec![(0, 1), (0, 2), (2, 0)]);
    let v = vec![f(5), f(7), f(11)];
    assert_eq!(mat_vec_product(&m, &v), vec![f(18), f(0), f(5)]);
}

#[test]
fn matrix_oracle_query_checks_products() {
    // slots: [vector, product 0, product 1, other]
    let m0 = Matrix::new(vec![(0, 1), (1, 0)]);
    let m1 = Matrix::new(vec![(0, 0), (0, 1), (1, 1)]);
    let oracle = MatrixProductOracle::<(), 2>::new(
        vec![Rc::new(m0), Rc::new(m1)],
        vec![true, false, false, false],
        (),
        1,
    );
    let slots = [false, true, true, false];
    let z = [f(3), f(4)];
    // M0 z = [4, 3], M1 z = [7, 4]
    let witness = vec![
        vec![z[0], f(4), f(7), f(99)],
        vec![z[1], f(3), f(4), f(98)],
    ];
    assert!(MatrixOracleQuery::<(), 2>::check(&oracle, &slots, &witness));
    let mut wrong = witness.clone();
    wrong[1][2] = f(5);
    assert!(!MatrixOracleQuery::<(), 2>::check(&oracle, &slots, &wrong));
    assert!(!MatrixOracleQuery::<(), 2>::check(&oracle, &[false, true, false, false], &witness));
    let answers = matrix_oracle_evals(&slots, &[OracleEval::Computed(f(1)), OracleEval::Absent, OracleEval::Absent, OracleEval::Absent]);
    assert!(matches!(answers[0], OracleEval::Computed(_)));
    assert!(matches!(answers[1], OracleEval::ProverProvided));
    assert_eq!(oracle.convert_instance(7u8), vec![Some(7u8), None, None, None]);
}

#[test]
fn matrix_sumcheck_sum_and_columns() {
    let slots = [false, true, true];
    let evals = [Some(f(9)), Some(f(2)), Some(f(3))];
    // horner(2, 3) with c = 10: 2*10 + 3
    assert_eq!(sumcheck_sum(&slots, &evals, f(10)), f(23));
    assert_eq!(sumcheck_sum(&slots, &[Some(f(9)), None, Some(f(3))], f(10)), f(3));
    let witness = vec![vec![f(1), f(2), f(3)], vec![f(4), f(5), f(6)]];
    assert_eq!(vector_column(&[false, true, true], &witness), vec![f(2), f(5)]);
    assert_eq!(
        committed_evals(&[true, false, true], &evals),
        vec![Some(f(9)), None, Some(f(3))]
    );
}

#[test]
fn matrix_sum_over_hypercube_is_claimed_sum() {
    // Two 4x4 matrices, rx with 2 variables, z of 4 entries.
    let m0 = Matrix::new(vec![(0, 1), (1, 3), (2, 2), (3, 0), (1, 1)]);
    let m1 = Matrix::new(vec![(0, 0), (3, 3), (2, 1)]);
    let rx = MultiPoint::new(vec![f(5), f(8)]);
    let z = vec![f(2), f(7), f(1), f(9)];
    let structure = vec![MatrixSumEvals::<Fm, 2>::zero(); 4];
    let rows = MatrixSumEvals::<Fm, 2>::witness(&structure, &[&m0, &m1], &z, &rx);
    let challenge = f(31);
    let total = rows.iter().fold(Fm::zero(), |acc, row| {
        let mut row = row.clone();
        row.challenge = challenge;
        acc.add(row.function())
    });
    // The claimed products (M_i z)(rx) = sum_x eq(rx, x) (M_i z)[x].
    let table = eq_table(rx.inner_ref());
    let claim = |m: &Matrix| {
        mat_vec_product(m, &z)
            .iter()
            .zip(&table)
            .fold(Fm::zero(), |acc, (p, e)| acc.add(p.mul(*e)))
    };
    let claims = [Some(claim(&m0)), Some(claim(&m1))];
    assert_eq!(total, sumcheck_sum(&[true, true], &claims, challenge));
}
