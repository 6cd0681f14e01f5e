use lilium::commitment::{CommitmentScheme, HornerCommitment};
use lilium::field::Fm;
use lilium::flcs::{
    check_gate, compute_sumcheck_witness, eval_exp, flcs_structure, spark_structure, CcsStructure,
    ClcsInstance, ClcsRelation, Constraints, Exp, FlcsData, FlcsEvals,
};
use lilium::sumcheck::point::MultiPoint;
use lilium::matrix_product::Matrix;
use std::collections::HashMap;
use std::rc::Rc;

fn f(x: u64) -> Fm {
    Fm::from_u64(x)
}

fn atom(i: usize) -> Box<Exp> {
    Box::new(Exp::Atom(i))
}

/// `a * b - c`
fn mul_gate() -> Exp {
    Exp::Sub(Box::new(Exp::Mul(atom(0), atom(1))), atom(2))
}

#[test]
fn eval_exp_with_constant() {
    let e = Exp::Add(Box::new(Exp::Mul(atom(0), atom(1))), Box::new(Exp::Constant));
    assert_eq!(eval_exp(&e, &[f(3), f(4)], Some(f(5))), f(17));
    let s = Exp::Sub(atom(0), atom(1));
    assert_eq!(eval_exp(&s, &[f(3), f(4)], None), Fm::zero().sub(f(1)));
}

#[test]
fn check_gate_all_constraints() {
    let gate = Constraints::Append(Box::new(Constraints::Constraint(mul_gate())), Exp::Sub(atom(0), atom(0)));
    assert!(check_gate(&gate, &[f(3), f(4), f(12)], None));
    assert!(!check_gate(&gate, &[f(3), f(4), f(13)], None));
    assert!(check_gate(&Constraints::Empty, &[], None));
}

#[test]
fn flcs_function_single_constraint() {
    let data = FlcsData::new(vec![vec![mul_gate()]], false);
    let evals = FlcsEvals::<Fm, 3, 1, 1> {
        products: vec![f(3), f(4), f(10)],
        w: f(6),
        inputs: f(9),
        input_selector: f(2),
        gate_selectors: vec![f(5)],
        constants: f(0),
        challenge: f(100),
    };
    // (9 - 6) * 2 + (3*4 - 10) * 5 = 6 + 10 = 16
    assert_eq!(FlcsEvals::function(&data, &evals), f(16));
}

#[test]
fn flcs_function_multi_constraint_and_constant() {
    let data = FlcsData::new(vec![vec![mul_gate(), Exp::Constant]], true);
    let evals = FlcsEvals::<Fm, 3, 1, 1> {
        products: vec![f(3), f(4), f(12)],
        w: f(1),
        inputs: f(1),
        input_selector: f(1),
        gate_selectors: vec![f(1)],
        constants: f(2),
        challenge: f(10),
    };
    // acc = 0; acc = 0*10 + 0*1 = 0; acc = 0*10 + (3 - 2)*1 = 1
    assert_eq!(FlcsEvals::function(&data, &evals), f(1));
}

#[test]
fn flcs_structure_and_vector() {
    let s = FlcsEvals::<Fm, 2, 3, 1>::structure(true, 1, f(8));
    assert_eq!(s.gate_selectors, vec![f(0), f(1), f(0)]);
    assert_eq!(s.input_selector, f(1));
    assert_eq!(s.constants, f(8));
    assert_eq!(s.w(), f(0));
    let v = FlcsEvals::<bool, 2, 3, 1>::vector();
    assert!(v.w && !v.inputs && v.products == vec![false, false]);
    let c = FlcsEvals::<Vec<Fm>, 2, 3, 2>::coefficients(&[f(4), f(5)], f(6));
    assert_eq!(c.inputs, vec![f(4), f(5)]);
    assert_eq!(c.challenge, vec![f(6)]);
}

#[test]
fn flcs_sumcheck_witness() {
    let structure = vec![FlcsEvals::<Fm, 1, 1, 1>::structure(false, 0, f(1)); 3];
    let m = Matrix::new(vec![(0, 1), (1, 2), (2, 0)]);
    let witness = vec![f(5), f(6), f(7)];
    let rows = compute_sumcheck_witness(&structure, &[Rc::new(m)], &witness, &[f(5)]);
    assert_eq!(rows.len(), 3);
    assert_eq!(rows[0].products, vec![f(6)]);
    assert_eq!(rows[1].products, vec![f(7)]);
    assert_eq!(rows[2].products, vec![f(5)]);
    assert_eq!(rows[2].w, f(7));
    assert_eq!(rows[0].inputs, f(5));
    assert_eq!(rows[1].inputs, f(0));
}

#[test]
fn clcs_relation_checks_gates() {
    // rows: io = (z[a], z[b], z[c]) through three matrices picking columns.
    let a = Matrix::new(vec![(0, 0), (1, 1)]);
    let b = Matrix::new(vec![(0, 1), (1, 2)]);
    let c = Matrix::new(vec![(0, 2), (1, 3)]);
    let mut constants = HashMap::new();
    constants.insert(1usize, f(0));
    let structure = CcsStructure {
        io_matrices: vec![a, b, c],
        gate_selectors: vec![0, 0],
        input_len: 1,
        gates: vec![Constraints::Constraint(mul_gate())],
        trace_len: 4,
        vars: 2,
        constants,
    };
    // z = [2, 3, 6, 18]: 2*3 = 6 and 3*6 = 18
    let witness = vec![f(2), f(3), f(6), f(18)];
    let pcs = HornerCommitment;
    let commit = pcs.commit_mle(&witness);
    let instance = ClcsInstance { witness_commit: commit, public_inputs: vec![f(2)] };
    assert!(ClcsRelation::<HornerCommitment, 1>::check(&pcs, &structure, &instance, &witness));
    let wrong_commit = ClcsInstance { witness_commit: commit + 1, public_inputs: vec![f(2)] };
    assert!(!ClcsRelation::<HornerCommitment, 1>::check(&pcs, &structure, &wrong_commit, &witness));
    let wrong_input = ClcsInstance { witness_commit: commit, public_inputs: vec![f(3)] };
    assert!(!ClcsRelation::<HornerCommitment, 1>::check(&pcs, &structure, &wrong_input, &witness));
    let too_many = ClcsInstance { witness_commit: commit, public_inputs: vec![f(2), f(3)] };
    assert!(!ClcsRelation::<HornerCommitment, 1>::check(&pcs, &structure, &too_many, &witness));
    let bad = vec![f(2), f(3), f(6), f(19)];
    let bad_instance = ClcsInstance { witness_commit: pcs.commit_mle(&bad), public_inputs: vec![f(2)] };
    assert!(!ClcsRelation::<HornerCommitment, 1>::check(&pcs, &structure, &bad_instance, &bad));
    assert!(!ClcsRelation::<HornerCommitment, 2>::check(&pcs, &structure, &instance, &witness));
}

#[test]
fn spark_structure_addresses() {
    // largest row 5: highest bit 2, so addresses are x + y * 8
    let m = Matrix::new(vec![(0, 0), (5, 1), (3, 2)]);
    let structures = spark_structure(&[m]);
    assert_eq!(structures.len(), 1);
    let s = &structures[0];
    // the polynomial is one at each address and zero elsewhere
    assert_eq!(s.eval(MultiPoint::new_from_index(0, 8)), Fm::one());
    assert_eq!(s.eval(MultiPoint::new_from_index(5 + 8, 8)), Fm::one());
    assert_eq!(s.eval(MultiPoint::new_from_index(3 + 16, 8)), Fm::one());
    assert_eq!(s.eval(MultiPoint::new_from_index(1, 8)), Fm::zero());
}

fn sample_ccs() -> CcsStructure {
    let a = Matrix::new(vec![(0, 0), (1, 1)]);
    let b = Matrix::new(vec![(0, 1), (1, 2)]);
    let c = Matrix::new(vec![(0, 2), (1, 3)]);
    CcsStructure {
        io_matrices: vec![a, b, c],
        gate_selectors: vec![0, 0],
        input_len: 1,
        gates: vec![Constraints::Constraint(mul_gate())],
        trace_len: 2,
        vars: 2,
        constants: HashMap::new(),
    }
}

fn flcs_rows(ccs: &CcsStructure, witness: &[Fm], inputs: &[Fm]) -> Vec<FlcsEvals<Fm, 3, 1, 1>> {
    let structure = flcs_structure::<3, 1, 1>(ccs);
    let matrices: Vec<Rc<Matrix>> = ccs.io_matrices.iter().map(|m| Rc::new(m.clone())).collect();
    compute_sumcheck_witness(&structure, &matrices, witness, inputs)
}

#[test]
fn flcs_structure_rows() {
    let ccs = sample_ccs();
    let rows = flcs_structure::<3, 1, 1>(&ccs);
    assert_eq!(rows.len(), 4);
    assert_eq!(rows[0].input_selector, f(1));
    assert_eq!(rows[1].input_selector, f(0));
    assert_eq!(rows[1].gate_selectors, vec![f(1)]);
    assert_eq!(rows[2].gate_selectors, vec![f(0)]);
}

#[test]
fn satisfied_system_vanishes_on_every_row() {
    let ccs = sample_ccs();
    let data = FlcsData::from_ccs(&ccs);
    let witness = vec![f(2), f(3), f(6), f(18)];
    let inputs = vec![f(2)];
    let pcs = HornerCommitment;
    let instance = ClcsInstance { witness_commit: pcs.commit_mle(&witness), public_inputs: inputs.clone() };
    assert!(ClcsRelation::<HornerCommitment, 1>::check(&pcs, &ccs, &instance, &witness));
    for mut row in flcs_rows(&ccs, &witness, &inputs) {
        row.challenge = f(12345);
        assert_eq!(FlcsEvals::function(&data, &row), Fm::zero());
    }
    let bad = vec![f(2), f(3), f(6), f(17)];
    let nonzero = flcs_rows(&ccs, &bad, &inputs)
        .into_iter()
        .any(|row| FlcsEvals::function(&data, &row) != Fm::zero());
    assert!(nonzero);
}
