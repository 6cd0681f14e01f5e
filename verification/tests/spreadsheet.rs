use lilium::commitment::{CommitmentScheme, HornerCommitment};
use lilium::field::Fm;
use lilium::pow2vec::Pow2Vec;
use lilium::spreadsheet::argument::{SpreadsheetRelation, SpreadsheetStructure};
use lilium::spreadsheet::circuit_builder::{DataOrTrace, Var, WiredGate};
use lilium::spreadsheet::gates::GateType;
use lilium::spreadsheet::parsing::{compose_column, compose_decimal, digit};

fn f(x: u64) -> Fm {
    Fm::from_u64(x)
}

// data = [x0, x1, x2]; t0 = x0 + x1; t1 = t0 + x2; t2: assert t1 == x2 + x2.
fn sum_circuit() -> Vec<WiredGate> {
    vec![
        WiredGate {
            io: [Var(0, DataOrTrace::Data), Var(1, DataOrTrace::Data), Var(0, DataOrTrace::Trace)],
            gate: GateType::Add,
        },
        WiredGate {
            io: [Var(0, DataOrTrace::Trace), Var(2, DataOrTrace::Data), Var(1, DataOrTrace::Trace)],
            gate: GateType::Add,
        },
        WiredGate {
            io: [Var(1, DataOrTrace::Trace), Var(3, DataOrTrace::Data), Var(2, DataOrTrace::Trace)],
            gate: GateType::Eq,
        },
        WiredGate::padding(),
    ]
}

#[test]
fn trace_sums_the_data() {
    let gates = sum_circuit();
    let data = vec![f(1), f(2), f(3), f(6)];
    let trace = WiredGate::compute_trace(&gates, &data);
    assert_eq!(trace.len(), 4);
    assert_eq!(trace[0], f(3));
    assert_eq!(trace[1], f(6));
    assert_eq!(trace[2], f(0));
    assert_eq!(trace[3], f(0));
}

#[test]
fn check_holds_iff_equality_gates_hold() {
    let gates = sum_circuit();
    assert!(WiredGate::check(&gates, &[f(1), f(2), f(3), f(6)]));
    assert!(!WiredGate::check(&gates, &[f(1), f(2), f(3), f(7)]));
    // wrap-around in the field
    let p_minus_one = f(4294967290);
    assert!(WiredGate::check(&gates, &[p_minus_one, f(1), f(5), f(5)]));
}

#[test]
fn witness_rows_vanish_exactly_on_satisfied_gates() {
    let gates = sum_circuit();
    let structure = SpreadsheetStructure::new(4, gates.clone(), ());
    assert_eq!(structure.vars(), 2);

    let good = vec![f(1), f(2), f(3), f(6)];
    let trace = WiredGate::compute_trace(&gates, &good);
    let rows = structure.witness(&good, &trace);
    assert_eq!(rows.len(), 4);
    for row in &rows {
        assert!(row.function().is_zero());
    }

    let bad = vec![f(1), f(2), f(3), f(7)];
    let trace = WiredGate::compute_trace(&gates, &bad);
    let rows = structure.witness(&bad, &trace);
    assert!(rows[0].function().is_zero());
    assert!(rows[1].function().is_zero());
    // equality row: (a - b) = 6 - 7
    assert_eq!(rows[2].function(), f(4294967290));
    assert!(rows[3].function().is_zero());
}

#[test]
fn spreadsheet_relation_check() {
    let gates = sum_circuit();
    let structure = SpreadsheetStructure::new(4, gates, HornerCommitment);
    let good = Pow2Vec::new(vec![f(1), f(2), f(3), f(6)]);
    let bad = Pow2Vec::new(vec![f(1), f(2), f(3), f(7)]);
    let good_commit = HornerCommitment.commit_mle(good.inner());
    let bad_commit = HornerCommitment.commit_mle(bad.inner());
    // 1 * 65537^3 + 2 * 65537^2 + 3 * 65537 + 6, reduced modulo P
    let expected = ((((1u128 * 65537 + 2) * 65537 + 3) * 65537 + 6) % 4294967291) as u64;
    assert_eq!(good_commit, expected);
    assert!(SpreadsheetRelation::<Fm, HornerCommitment>::check(&structure, &good_commit, &good));
    assert!(!SpreadsheetRelation::<Fm, HornerCommitment>::check(&structure, &bad_commit, &good));
    assert!(!SpreadsheetRelation::<Fm, HornerCommitment>::check(&structure, &bad_commit, &bad));
}

#[test]
fn structure_pads_to_a_power_of_two() {
    let gates = sum_circuit();
    let structure = SpreadsheetStructure::new(5, gates, ());
    assert_eq!(structure.vars(), 3);
    let rows = structure.sumcheck_structure();
    assert_eq!(rows.len(), 8);
    assert_eq!(rows[0].selectors, [f(1), f(0)]);
    assert_eq!(rows[2].selectors, [f(0), f(1)]);
    assert_eq!(rows[7].selectors, [f(0), f(0)]);
}

#[test]
fn gate_semantics() {
    assert_eq!(GateType::Add.compute(f(4294967290), f(3)), f(2));
    assert_eq!(GateType::Eq.compute(f(5), f(5)), f(0));
    assert!(GateType::Add.check(&[f(2), f(3), f(5)]));
    assert!(!GateType::Add.check(&[f(2), f(3), f(6)]));
    assert!(GateType::Eq.check(&[f(9), f(9), f(1)]));
    assert!(!GateType::Eq.check(&[f(9), f(8), f(0)]));
    assert!(GateType::Nop.check(&[f(9), f(8), f(7)]));
}

#[test]
fn column_and_decimal_parsing() {
    assert_eq!(compose_column(['A']), 0);
    assert_eq!(compose_column(['Z']), 25);
    assert_eq!(compose_column(['A', 'A']), 26);
    assert_eq!(compose_column(['A', 'B', 'C']), 730);
    assert_eq!(compose_decimal(&[3, 3]), 33);
    assert_eq!(compose_decimal(&[]), 0);
    assert_eq!(digit("7"), 7);
}
