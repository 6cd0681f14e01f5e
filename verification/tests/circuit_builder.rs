use lilium::spreadsheet::argument::SpreadsheetStructure;
use lilium::spreadsheet::circuit_builder::{
    Address, Area, DataOrTrace, Formula, FormulaType, SpreadsheetBuilder, Var,
};

#[test]
fn subset() {
    let set = Area(Address(0, 0), Address(0, 4));
    let subset = Area(Address(0, 2), Address(0, 2));

    assert!(subset.is_subset_of(&set));
}

#[test]
fn iter_area() {
    let area = Area(Address(0, 0), Address(2, 0));
    let mut iter = area.iter();
    let mut collected = Vec::new();
    while let Some(address) = iter.next() {
        collected.push(address);
    }
    assert_eq!(
        collected,
        vec![Address(0, 0), Address(1, 0), Address(2, 0)]
    );
    assert!(iter.next().is_none());
}

#[test]
fn builder() {
    let mut builder = SpreadsheetBuilder::new(Area(Address(0, 0), Address(4, 0)));
    // Something like:
    // | ....... | ....... | .......
    // | SUM(..) | SUM(..) | EQ(B1:B2)
    builder.add_formula(
        Formula {
            ty: FormulaType::Sum,
            input: Area::new(Address(0, 0), Address(2, 0)),
            input_location: DataOrTrace::Data,
        },
        Address(1, 0),
    );
    builder.add_formula(
        Formula {
            ty: FormulaType::Sum,
            input: Area::new(Address(2, 0), Address(4, 0)),
            input_location: DataOrTrace::Data,
        },
        Address(1, 1),
    );
    builder.add_formula(
        Formula {
            ty: FormulaType::Eq,
            input: Area::new(Address(1, 0), Address(1, 0)),
            input_location: DataOrTrace::Trace,
        },
        Address(1, 2),
    );
    assert!(builder.compilable());
    let (input_area, gates) = builder.circuit(Vec::new());
    let structure = SpreadsheetStructure::new(input_area.cells(), gates, ());
    assert!(structure.vars() >= 2);
}

#[test]
fn circuit_is_topological_for_any_input_area() {
    let mut builder = SpreadsheetBuilder::new(Area(Address(2, 0), Address(4, 0)));
    builder.add_formula(
        Formula {
            ty: FormulaType::Sum,
            input: Area::new(Address(2, 0), Address(3, 0)),
            input_location: DataOrTrace::Data,
        },
        Address(5, 0),
    );
    builder.add_formula(
        Formula {
            ty: FormulaType::Sum,
            input: Area::new(Address(3, 0), Address(4, 0)),
            input_location: DataOrTrace::Data,
        },
        Address(5, 1),
    );
    builder.add_formula(
        Formula {
            ty: FormulaType::Sum,
            input: Area::new(Address(5, 0), Address(5, 1)),
            input_location: DataOrTrace::Trace,
        },
        Address(6, 0),
    );
    assert!(builder.compilable());
    let (area, gates) = builder.circuit(Vec::new());
    assert_eq!(area, Area(Address(2, 0), Address(4, 0)));
    assert!(!gates.is_empty());
    for (j, gate) in gates.iter().enumerate() {
        assert_eq!(gate.io[2], Var(j, DataOrTrace::Trace));
        for t in 0..2 {
            if gate.io[t].1 == DataOrTrace::Trace {
                assert!(gate.io[t].0 < j);
            }
        }
    }
}
