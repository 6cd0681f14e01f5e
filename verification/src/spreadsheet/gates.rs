//! The gates a spreadsheet circuit is made of.
use crate::field::{fadd, fsub, Fm};
use vstd::prelude::*;

verus! {

/// The kind of a gate with inputs `a`, `b` and output `c`.
#[derive(Clone, Copy, Debug, PartialEq, Eq, Structural)]
pub enum GateType {
    /// `c = a + b`.
    Add,
    /// `a = b`; its output is zero.
    Eq,
    /// Constrains nothing, useful for padding.
    Nop,
}

/// The output a gate computes from its inputs.
pub open spec fn gate_compute(t: GateType, a: nat, b: nat) -> nat {
    match t {
        GateType::Add => fadd(a, b),
        GateType::Eq => 0,
        GateType::Nop => 0,
    }
}

/// The constraint of a gate, which vanishes when this gate is satisfied.
pub open spec fn gate_constraint(t: GateType, a: nat, b: nat, c: nat) -> nat {
    match t {
        GateType::Add => fsub(fadd(a, b), c),
        GateType::Eq => fsub(a, b),
        GateType::Nop => fsub(a, a),
    }
}

impl GateType {
    /// The output of this gate on inputs `a` and `b`.
    pub fn compute(&self, a: Fm, b: Fm) -> (r: Fm)
        ensures
            r@ == gate_compute(*self, a@, b@),
    {
        match self {
            GateType::Add => Add::compute(a, b),
            GateType::Eq => Eq::compute(a, b),
            GateType::Nop => Nop::compute(a, b),
        }
    }

    /// Whether the values `io = [a, b, c]` satisfy this gate.
    pub fn check(&self, io: &[Fm; 3]) -> (r: bool)
        ensures
            r == (gate_constraint(*self, io[0]@, io[1]@, io[2]@) == 0),
    {
        let a = &io[0];
        let b = &io[1];
        let c = &io[2];
        let v = match self {
            GateType::Add => Add::check(a, b, c),
            GateType::Eq => Eq::check(a, b, c),
            GateType::Nop => Nop::check(a, b, c),
        };
        v.is_zero()
    }
}

/// A gate with two inputs and one output, of a fixed [`GateType`].
pub trait BinaryGate {
    /// The type of this gate.
    spec fn kind() -> GateType;

    /// The type of this gate.
    fn gate_type() -> (r: GateType)
        ensures
            r == Self::kind(),
    ;

    /// The output of this gate.
    fn compute(a: Fm, b: Fm) -> (r: Fm)
        ensures
            r@ == gate_compute(Self::kind(), a@, b@),
    ;

    /// The constraint of this gate, zero when satisfied.
    fn check(a: &Fm, b: &Fm, c: &Fm) -> (r: Fm)
        ensures
            r@ == gate_constraint(Self::kind(), a@, b@, c@),
    ;
}

/// The addition gate.
pub struct Add;

/// The equality gate.
pub struct Eq;

/// This gate that constrains nothing.
pub struct Nop;

impl BinaryGate for Add {
    open spec fn kind() -> GateType {
        GateType::Add
    }

    fn gate_type() -> (r: GateType) {
        GateType::Add
    }

    fn compute(a: Fm, b: Fm) -> (r: Fm) {
        a.add(b)
    }

    fn check(a: &Fm, b: &Fm, c: &Fm) -> (r: Fm) {
        a.add(*b).sub(*c)
    }
}

impl BinaryGate for Eq {
    open spec fn kind() -> GateType {
        GateType::Eq
    }

    fn gate_type() -> (r: GateType) {
        GateType::Eq
    }

    fn compute(a: Fm, b: Fm) -> (r: Fm) {
        Fm::zero()
    }

    fn check(a: &Fm, b: &Fm, c: &Fm) -> (r: Fm) {
        a.sub(*b)
    }
}

impl BinaryGate for Nop {
    open spec fn kind() -> GateType {
        GateType::Nop
    }

    fn gate_type() -> (r: GateType) {
        GateType::Nop
    }

    fn compute(a: Fm, b: Fm) -> (r: Fm) {
        Fm::zero()
    }

    fn check(a: &Fm, b: &Fm, c: &Fm) -> (r: Fm) {
        a.sub(*a)
    }
}

} // verus!
