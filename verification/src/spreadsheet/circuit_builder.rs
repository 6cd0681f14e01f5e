//! Cells, areas and formulas of a spreadsheet, and their compilation into a
//! circuit of wired gates.
use crate::field::{fadd, fsub, Fm};
use crate::spreadsheet::gates::{self, gate_compute, gate_constraint, BinaryGate, GateType};
use vstd::prelude::*;

verus! {

/// A cell address: (row, column).
#[derive(Clone, Copy, Debug, Default, PartialEq, Eq, PartialOrd, Ord, Structural)]
pub struct Address(pub usize, pub usize);

/// A rectangular area of cells, from its upper-left to its lower-right cell.
#[derive(Clone, Copy, Debug, Default, PartialEq, Eq, PartialOrd, Ord, Structural)]
pub struct Area(pub Address, pub Address);

/// The number of rows of an area.
pub open spec fn area_rows(a: Area) -> int {
    a.1.0 - a.0.0 + 1
}

/// The number of columns of an area.
pub open spec fn area_cols(a: Area) -> int {
    a.1.1 - a.0.1 + 1
}

/// The number of cells of an area.
pub open spec fn area_cells(a: Area) -> int {
    area_rows(a) * area_cols(a)
}

/// The corners of the area are ordered and its cell count fits a `usize`.
pub open spec fn area_wf(a: Area) -> bool {
    &&& a.0.0 <= a.1.0
    &&& a.0.1 <= a.1.1
    &&& area_cells(a) <= usize::MAX
}

/// `a` lies within `b`.
pub open spec fn area_subset(a: Area, b: Area) -> bool {
    &&& a.0.0 >= b.0.0
    &&& a.0.1 >= b.0.1
    &&& a.1.0 <= b.1.0
    &&& a.1.1 <= b.1.1
}

/// The `k`-th cell of an area, in row-major order.
pub open spec fn area_cell(a: Area, k: int) -> Address {
    Address((a.0.0 + k / area_cols(a)) as usize, (a.0.1 + k % area_cols(a)) as usize)
}

/// All cells of an area, in row-major order.
pub open spec fn cells_of(a: Area) -> Seq<Address> {
    Seq::new(area_cells(a) as nat, |k: int| area_cell(a, k))
}

/// The columns of the area can be counted in a `usize`.
pub open spec fn cols_fit(a: Area) -> bool {
    a.0.1 <= a.1.1 && a.1.1 - a.0.1 < usize::MAX
}

/// The index of a cell in the flattened table of an area, computed from the
/// cell's absolute address (row times the number of columns, plus column).
/// For an area anchored at `(0, 0)` this is the cell's position in the data
/// table; for an area anchored elsewhere the index is not shifted, so it can
/// lie past the end of a table that holds only the area's cells (see
/// `lemma_compile_well_wired`, which asks for the origin anchor, and
/// `lemma_compile_topological`, which does not).
pub open spec fn flat_index_spec(a: Area, address: Address) -> int {
    address.0 * area_cols(a) + address.1
}

/// Facts about the `k`-th cell of a well-formed area.
pub proof fn lemma_area_cell(a: Area, k: int)
    requires
        area_wf(a),
        0 <= k < area_cells(a),
    ensures
        0 <= k / area_cols(a) < area_rows(a),
        0 <= k % area_cols(a) < area_cols(a),
        area_rows(a) <= usize::MAX,
        area_cols(a) <= usize::MAX,
        area_subset(Area(area_cell(a, k), area_cell(a, k)), a),
        area_cell(a, k).0 == a.0.0 + k / area_cols(a),
        area_cell(a, k).1 == a.0.1 + k % area_cols(a),
{
    let r = area_rows(a);
    let c = area_cols(a);
    assert(r >= 1 && c >= 1);
    assert(0 <= k / c < r) by (nonlinear_arith)
        requires
            0 <= k < r * c,
            c >= 1,
    ;
    assert(0 <= k % c < c) by (nonlinear_arith)
        requires
            c >= 1,
    ;
    assert(r <= r * c && c <= r * c) by (nonlinear_arith)
        requires
            r >= 1,
            c >= 1,
    ;
}

/// The dimensions of a well-formed area.
pub proof fn lemma_area_dims(a: Area)
    requires
        area_wf(a),
    ensures
        1 <= area_rows(a) <= usize::MAX,
        1 <= area_cols(a) <= usize::MAX,
        area_cells(a) >= 1,
{
    let r = area_rows(a);
    let c = area_cols(a);
    assert(r <= r * c && c <= r * c && r * c >= 1) by (nonlinear_arith)
        requires
            r >= 1,
            c >= 1,
    ;
}

/// Every cell yielded when walking an area lies within the area.
pub proof fn lemma_cells_in_area(a: Area)
    requires
        area_wf(a),
    ensures
        forall|k: int|
            0 <= k < area_cells(a) ==> #[trigger] area_subset(
                Area(cells_of(a)[k], cells_of(a)[k]),
                a,
            ),
{
    assert forall|k: int| 0 <= k < area_cells(a) implies #[trigger] area_subset(
        Area(cells_of(a)[k], cells_of(a)[k]),
        a,
    ) by {
        lemma_area_cell(a, k);
    }
}

/// Walking an area never yields the same cell twice.
pub proof fn lemma_cells_distinct(a: Area, k1: int, k2: int)
    requires
        area_wf(a),
        0 <= k1 < area_cells(a),
        0 <= k2 < area_cells(a),
        k1 != k2,
    ensures
        area_cell(a, k1) != area_cell(a, k2),
{
    lemma_area_cell(a, k1);
    lemma_area_cell(a, k2);
    let c = area_cols(a);
    vstd::arithmetic::div_mod::lemma_fundamental_div_mod(k1, c);
    vstd::arithmetic::div_mod::lemma_fundamental_div_mod(k2, c);
}

impl Address {
    /// The address of the cell at `row` and `col`.
    pub fn new(row: u32, col: u32) -> (r: Address)
        ensures
            r == Address(row as usize, col as usize),
    {
        Address(row as usize, col as usize)
    }

    /// The address translated by `rhs`.
    pub fn add(self, rhs: &Address) -> (r: Address)
        requires
            self.0 + rhs.0 <= usize::MAX,
            self.1 + rhs.1 <= usize::MAX,
        ensures
            r == Address((self.0 + rhs.0) as usize, (self.1 + rhs.1) as usize),
    {
        Address(self.0 + rhs.0, self.1 + rhs.1)
    }
}

impl Area {
    /// The area spanning from `from` to `to`.
    pub fn new(from: Address, to: Address) -> (r: Area)
        ensures
            r == Area(from, to),
    {
        Area(from, to)
    }

    /// The area made of a single cell.
    pub fn from_address(value: Address) -> (r: Area)
        ensures
            r == Area(value, value),
    {
        Area(value, value)
    }

    /// The single cell of the area, if it has only one.
    pub fn to_address(self) -> (r: Result<Address, ()>)
        ensures
            self.0 == self.1 ==> r == Ok::<Address, ()>(self.0),
            self.0 != self.1 ==> r is Err,
    {
        let Area(from, to) = self;
        if from == to {
            Ok(from)
        } else {
            Err(())
        }
    }

    /// Whether `self` lies within `other`.
    pub fn is_subset_of(&self, other: &Self) -> (r: bool)
        ensures
            r == area_subset(*self, *other),
    {
        self.0.0 >= other.0.0 && self.0.1 >= other.0.1 && self.1.0 <= other.1.0 && self.1.1
            <= other.1.1
    }

    /// The number of rows.
    pub fn rows(&self) -> (r: usize)
        requires
            self.0.0 <= self.1.0,
            self.1.0 - self.0.0 < usize::MAX,
        ensures
            r == area_rows(*self),
    {
        let Area(from, to) = self;
        to.0 - from.0 + 1
    }

    /// The number of columns.
    pub fn colums(&self) -> (r: usize)
        requires
            cols_fit(*self),
        ensures
            r == area_cols(*self),
    {
        let Area(from, to) = self;
        to.1 - from.1 + 1
    }

    /// The number of cells.
    pub fn cells(&self) -> (r: usize)
        requires
            area_wf(*self),
        ensures
            r == area_cells(*self),
    {
        proof {
            lemma_area_dims(*self);
        }
        self.rows() * self.colums()
    }

    /// Walks the cells of the area in row-major order.
    pub fn iter(&self) -> (r: AreaIter<'_>)
        ensures
            r.position() == 0,
            r.area() == *self,
    {
        AreaIter { current: 0, area: self }
    }

    /// The `k`-th cell in row-major order.
    fn cell_at(&self, k: usize) -> (r: Address)
        requires
            area_wf(*self),
            k < area_cells(*self),
        ensures
            r == area_cell(*self, k as int),
    {
        proof {
            lemma_area_cell(*self, k as int);
        }
        let cols = self.colums();
        let row = k / cols;
        let column = k % cols;
        // Address relative to the start of the area, made absolute.
        let relative_address = Address(row, column);
        relative_address.add(&self.0)
    }

    /// The index of `address` in the flattened table, from its absolute
    /// row and column (not shifted by the area's anchor), if the address
    /// lies within the area and the index fits a `usize`.
    fn flat_index(&self, address: &Address) -> (r: Option<usize>)
        ensures
            r is Some <==> (area_subset(Area(*address, *address), *self) && cols_fit(*self)
                && flat_index_spec(*self, *address) <= usize::MAX),
            r matches Some(i) ==> i == flat_index_spec(*self, *address),
    {
        if !Area::from_address(*address).is_subset_of(self) {
            return None;
        }
        if !(self.0.1 <= self.1.1 && self.1.1 - self.0.1 < usize::MAX) {
            return None;
        }
        let Address(row, colum) = *address;
        match row.checked_mul(self.colums()) {
            None => None,
            Some(m) => m.checked_add(colum),
        }
    }
}

/// A range of cells in a worksheet.
#[derive(Clone, Debug, Default, PartialEq, Eq, PartialOrd, Ord)]
pub struct Range {
    pub worksheet: String,
    pub area: Area,
}

impl Range {
    /// The range of `area` in `worksheet`.
    pub fn new(worksheet: String, area: Area) -> (r: Range)
        ensures
            r.worksheet@ == worksheet@,
            r.area == area,
    {
        Range { worksheet, area }
    }
}

/// Walks the cells of an area in row-major order.
pub struct AreaIter<'a> {
    current: usize,
    area: &'a Area,
}

impl<'a> AreaIter<'a> {
    /// The number of cells already yielded.
    pub closed spec fn position(&self) -> nat {
        self.current as nat
    }

    /// The area being walked.
    pub closed spec fn area(&self) -> Area {
        *self.area
    }

    /// The next cell, or `None` once every cell was yielded.
    pub fn next(&mut self) -> (r: Option<Address>)
        requires
            area_wf(old(self).area()),
        ensures
            final(self).area() == old(self).area(),
            old(self).position() < area_cells(old(self).area()) ==> {
                &&& r == Some(area_cell(old(self).area(), old(self).position() as int))
                &&& final(self).position() == old(self).position() + 1
            },
            old(self).position() >= area_cells(old(self).area()) ==> {
                &&& r is None
                &&& final(self).position() == old(self).position()
            },
    {
        if self.current >= self.area.cells() {
            None
        } else {
            let address = self.area.cell_at(self.current);
            self.current = self.current + 1;
            Some(address)
        }
    }
}

/// Where the input to some formula is located.
#[derive(Clone, Copy, Debug, PartialEq, Eq, Structural)]
pub enum DataOrTrace {
    /// The range is part of the committed data.
    Data,
    /// The range is part of the trace, it is the output of other gates.
    Trace,
}

/// What a formula computes over its input area.
#[derive(Clone, Copy, Debug, PartialEq, Eq, Structural)]
pub enum FormulaType {
    /// The sum of the cells.
    Sum,
    /// All cells are equal.
    Eq,
}

/// A formula placed in a cell.
#[derive(Clone, Copy, Debug, PartialEq, Eq, Structural)]
pub struct Formula {
    pub ty: FormulaType,
    pub input: Area,
    pub input_location: DataOrTrace,
}

impl Formula {
    /// The formula of type `ty` over the cells of `input`.
    pub fn new(ty: FormulaType, input: Area, input_location: DataOrTrace) -> (r: Formula)
        ensures
            r == (Formula { ty, input, input_location }),
    {
        Formula { ty, input, input_location }
    }
}

/// A variable of the circuit: an index into the data or into the trace.
#[derive(Clone, Copy, Debug, PartialEq, Eq, Structural)]
pub struct Var(pub usize, pub DataOrTrace);

/// A gate together with the variables of its inputs `a`, `b` and output `c`.
#[derive(Clone, Copy, Debug)]
pub struct WiredGate {
    pub io: [Var; 3],
    pub gate: GateType,
}

impl WiredGate {
    /// The variables of the inputs and the output.
    pub fn io(&self) -> (r: [Var; 3])
        ensures
            r == self.io,
    {
        self.io
    }

    /// The type of this gate.
    pub fn gate(&self) -> (r: GateType)
        ensures
            r == self.gate,
    {
        self.gate
    }

    /// This gate used to pad circuits: a `Nop` reading the first data cell.
    pub fn padding() -> (r: WiredGate)
        ensures
            r == padding_gate(),
    {
        WiredGate { io: [Var(0, DataOrTrace::Data), Var(0, DataOrTrace::Data), Var(0, DataOrTrace::Data)], gate: GateType::Nop }
    }
}

/// This gate used to pad circuits.
pub open spec fn padding_gate() -> WiredGate {
    WiredGate {
        io: [Var(0, DataOrTrace::Data), Var(0, DataOrTrace::Data), Var(0, DataOrTrace::Data)],
        gate: GateType::Nop,
    }
}

/// The variable a cell holds in the map from cells to trace variables; the
/// latest entry wins.
pub open spec fn map_lookup(m: Seq<(Address, Var)>, address: Address) -> Option<Var>
    decreases m.len(),
{
    if m.len() == 0 {
        None
    } else if m.last().0 == address {
        Some(m.last().1)
    } else {
        map_lookup(m.drop_last(), address)
    }
}

/// The variable that reading `address` at `location` yields, if the read is
/// valid.
pub open spec fn read_spec(
    input_area: Area,
    m: Seq<(Address, Var)>,
    address: Address,
    location: DataOrTrace,
) -> Option<Var> {
    match location {
        DataOrTrace::Data => if area_subset(Area(address, address), input_area) && cols_fit(
            input_area,
        ) && flat_index_spec(input_area, address) <= usize::MAX {
            Some(Var(flat_index_spec(input_area, address) as usize, DataOrTrace::Data))
        } else {
            None
        },
        DataOrTrace::Trace => map_lookup(m, address),
    }
}

/// The variable of the `k`-th cell of `area`.
pub open spec fn cell_read(
    input_area: Area,
    m: Seq<(Address, Var)>,
    area: Area,
    location: DataOrTrace,
    k: int,
) -> Option<Var> {
    read_spec(input_area, m, area_cell(area, k), location)
}

/// The area is well formed and every one of its cells can be read.
pub open spec fn reads_ok(
    input_area: Area,
    m: Seq<(Address, Var)>,
    area: Area,
    location: DataOrTrace,
) -> bool {
    &&& area_wf(area)
    &&& forall|k: int|
        0 <= k < area_cells(area) ==> #[trigger] cell_read(input_area, m, area, location, k) is Some
}

/// The `i`-th gate of the chain that folds the cells of `area` with a gate of
/// type `kind`, the first new variable being `next`.
pub open spec fn chain_gate(
    input_area: Area,
    m: Seq<(Address, Var)>,
    next: nat,
    area: Area,
    location: DataOrTrace,
    kind: GateType,
    i: int,
) -> WiredGate {
    let a = if i == 0 {
        cell_read(input_area, m, area, location, 0).unwrap()
    } else {
        Var((next + i - 1) as usize, DataOrTrace::Trace)
    };
    let b = cell_read(input_area, m, area, location, i + 1).unwrap();
    WiredGate { io: [a, b, Var((next + i) as usize, DataOrTrace::Trace)], gate: kind }
}

/// The `i`-th gate equating the first cell of `area` with the others.
pub open spec fn eq_gate(
    input_area: Area,
    m: Seq<(Address, Var)>,
    next: nat,
    area: Area,
    location: DataOrTrace,
    i: int,
) -> WiredGate {
    let a = cell_read(input_area, m, area, location, 0).unwrap();
    let b = cell_read(input_area, m, area, location, i + 1).unwrap();
    WiredGate { io: [a, b, Var((next + i) as usize, DataOrTrace::Trace)], gate: GateType::Eq }
}

/// A formula can be compiled when all its cells can be read, a sum has at
/// least two cells, and the new variables can be counted in a `usize`.
pub open spec fn formula_ok(
    input_area: Area,
    m: Seq<(Address, Var)>,
    next: nat,
    f: Formula,
) -> bool {
    &&& reads_ok(input_area, m, f.input, f.input_location)
    &&& (f.ty == FormulaType::Sum ==> area_cells(f.input) >= 2)
    &&& next + area_cells(f.input) < usize::MAX
}

/// The gates a formula compiles to.
pub open spec fn formula_gates(
    input_area: Area,
    m: Seq<(Address, Var)>,
    next: nat,
    f: Formula,
) -> Seq<WiredGate> {
    let n = (area_cells(f.input) - 1) as nat;
    match f.ty {
        FormulaType::Sum => Seq::new(
            n,
            |i: int|
                chain_gate(input_area, m, next, f.input, f.input_location, GateType::Add, i),
        ),
        FormulaType::Eq => Seq::new(
            n,
            |i: int| eq_gate(input_area, m, next, f.input, f.input_location, i),
        ),
    }
}

/// The variable holding the value of a formula, if it has one.
pub open spec fn formula_value(next: nat, f: Formula) -> Option<Var> {
    match f.ty {
        FormulaType::Sum => Some(Var((next + area_cells(f.input) - 2) as usize, DataOrTrace::Trace)),
        FormulaType::Eq => None,
    }
}

/// The gates and the map from cells to their value variables obtained by
/// compiling the formulas in order, or `None` if one of them cannot be
/// compiled.
pub open spec fn compile(input_area: Area, entries: Seq<(Address, Formula)>) -> Option<
    (Seq<WiredGate>, Seq<(Address, Var)>),
>
    decreases entries.len(),
{
    if entries.len() == 0 {
        Some((Seq::empty(), Seq::empty()))
    } else {
        match compile(input_area, entries.drop_last()) {
            None => None,
            Some(state) => {
                let gates = state.0;
                let m = state.1;
                let location = entries.last().0;
                let f = entries.last().1;
                if formula_ok(input_area, m, gates.len(), f) {
                    let new_gates = gates + formula_gates(input_area, m, gates.len(), f);
                    let new_m = match formula_value(gates.len(), f) {
                        Some(v) => m.push((location, v)),
                        None => m,
                    };
                    Some((new_gates, new_m))
                } else {
                    None
                }
            },
        }
    }
}

/// The order of cell addresses: by row, then by column.
pub open spec fn addr_lt(a: Address, b: Address) -> bool {
    a.0 < b.0 || (a.0 == b.0 && a.1 < b.1)
}

/// The entries are sorted by strictly increasing address.
pub open spec fn sorted_strict(s: Seq<(Address, Formula)>) -> bool {
    forall|i: int, j: int| 0 <= i < j < s.len() ==> addr_lt(#[trigger] s[i].0, #[trigger] s[j].0)
}

/// Some entry is at `location`.
pub open spec fn has_location(s: Seq<(Address, Formula)>, location: Address) -> bool {
    exists|i: int| 0 <= i < s.len() && #[trigger] s[i].0 == location
}

/// Collects formulas placed in cells and compiles them into a circuit.
pub struct SpreadsheetBuilder {
    input_area: Area,
    formulas: Vec<(Address, Formula)>,
}

impl SpreadsheetBuilder {
    /// The area of the input data.
    pub closed spec fn input_area(&self) -> Area {
        self.input_area
    }

    /// The formulas with their cells, by increasing address.
    pub closed spec fn entries(&self) -> Seq<(Address, Formula)> {
        self.formulas@
    }

    /// The entries are sorted by strictly increasing address.
    pub open spec fn wf(&self) -> bool {
        sorted_strict(self.entries())
    }

    /// A builder over `input_area` without formulas.
    pub fn new(input_area: Area) -> (r: Self)
        ensures
            r.wf(),
            r.input_area() == input_area,
            r.entries() == Seq::<(Address, Formula)>::empty(),
    {
        SpreadsheetBuilder { input_area, formulas: Vec::new() }
    }

    /// Whether a formula is already placed at `location`.
    pub fn contains_formula(&self, location: Address) -> (r: bool)
        ensures
            r == has_location(self.entries(), location),
    {
        let mut i: usize = 0;
        while i < self.formulas.len()
            invariant
                i <= self.formulas@.len(),
                forall|j: int| 0 <= j < i ==> #[trigger] self.formulas@[j].0 != location,
            decreases self.formulas@.len() - i,
        {
            if self.formulas[i].0 == location {
                return true;
            }
            i = i + 1;
        }
        false
    }

    /// Places `formula` at `location`, which must not hold a formula yet.
    pub fn add_formula(&mut self, formula: Formula, location: Address)
        requires
            old(self).wf(),
            !has_location(old(self).entries(), location),
        ensures
            final(self).wf(),
            final(self).input_area() == old(self).input_area(),
            final(self).entries().len() == old(self).entries().len() + 1,
            forall|e: (Address, Formula)|
                #[trigger] final(self).entries().contains(e) <==> (old(self).entries().contains(e)
                    || e == (location, formula)),
    {
        let ghost old_entries = self.formulas@;
        let mut i: usize = 0;
        while i < self.formulas.len() && addr_lt_exec(&self.formulas[i].0, &location)
            invariant
                self.formulas@ == old_entries,
                i <= old_entries.len(),
                forall|j: int| 0 <= j < i ==> addr_lt(#[trigger] old_entries[j].0, location),
            decreases old_entries.len() - i,
        {
            i = i + 1;
        }
        self.formulas.insert(i, (location, formula));
        proof {
            let s = self.formulas@;
            assert(s == old_entries.insert(i as int, (location, formula)));
            assert forall|a: int, b: int| 0 <= a < b < s.len() implies addr_lt(
                #[trigger] s[a].0,
                #[trigger] s[b].0,
            ) by {
                if i < old_entries.len() {
                    assert(old_entries[i as int].0 != location);
                    assert(!addr_lt(old_entries[i as int].0, location));
                }
                if a < i && b == i {
                } else if a == i && b > i {
                    assert(addr_lt(location, old_entries[i as int].0));
                    if b - 1 > i {
                        assert(addr_lt(old_entries[i as int].0, old_entries[b - 1].0));
                    }
                } else if a < i && b > i {
                    assert(s[b] == old_entries[b - 1]);
                } else if a > i {
                    assert(s[a] == old_entries[a - 1]);
                    assert(s[b] == old_entries[b - 1]);
                }
            }
            assert forall|e: (Address, Formula)| #[trigger] s.contains(e) <==> (
            old_entries.contains(e) || e == (location, formula)) by {
                if s.contains(e) {
                    let k = choose|k: int| 0 <= k < s.len() && s[k] == e;
                    if k < i {
                        assert(old_entries[k] == e);
                    } else if k > i {
                        assert(old_entries[k - 1] == e);
                    }
                }
                if old_entries.contains(e) {
                    let k = choose|k: int| 0 <= k < old_entries.len() && old_entries[k] == e;
                    if k < i {
                        assert(s[k] == e);
                    } else {
                        assert(s[k + 1] == e);
                    }
                }
                if e == (location, formula) {
                    assert(s[i as int] == e);
                }
            }
        }
    }

    /// The formulas with their cells, by increasing address.
    fn sort_formulas(&self) -> (r: Vec<(Address, Formula)>)
        ensures
            r@ == self.entries(),
    {
        let mut r: Vec<(Address, Formula)> = Vec::new();
        let mut i: usize = 0;
        while i < self.formulas.len()
            invariant
                i <= self.formulas@.len(),
                r@ == self.formulas@.take(i as int),
            decreases self.formulas@.len() - i,
        {
            r.push(self.formulas[i]);
            i = i + 1;
            proof {
                assert(r@ =~= self.formulas@.take(i as int));
            }
        }
        proof {
            assert(r@ =~= self.formulas@);
        }
        r
    }
}

/// The state of a compilation: the gates so far, the next free trace
/// variable, and the variables holding the values of formula cells.
struct CircuitBuilder {
    input_area: Area,
    gates: Vec<WiredGate>,
    next_var: usize,
    /// Maps cells to the variable corresponding to evaluation of the
    /// formula in that cell.
    address_map: Vec<(Address, Var)>,
}

impl CircuitBuilder {
    /// Every gate created one new variable.
    spec fn wf(&self) -> bool {
        self.next_var == self.gates@.len()
    }

    fn new(input_area: Area) -> (r: Self)
        ensures
            r.wf(),
            r.input_area == input_area,
            r.gates@ == Seq::<WiredGate>::empty(),
            r.address_map@ == Seq::<(Address, Var)>::empty(),
    {
        CircuitBuilder { input_area, gates: Vec::new(), next_var: 0, address_map: Vec::new() }
    }

    fn new_var(&mut self) -> (r: Var)
        requires
            old(self).next_var < usize::MAX,
        ensures
            r == Var(old(self).next_var, DataOrTrace::Trace),
            final(self).next_var == old(self).next_var + 1,
            final(self).gates == old(self).gates,
            final(self).input_area == old(self).input_area,
            final(self).address_map@ == old(self).address_map@,
    {
        let var = Var(self.next_var, DataOrTrace::Trace);
        self.next_var = self.next_var + 1;
        var
    }

    fn add_binary_gate<G: BinaryGate>(&mut self, a: Var, b: Var) -> (r: Var)
        requires
            old(self).wf(),
            old(self).next_var < usize::MAX,
        ensures
            final(self).wf(),
            r == Var(old(self).next_var, DataOrTrace::Trace),
            final(self).gates@ == old(self).gates@.push(
                WiredGate { io: [a, b, r], gate: G::kind() },
            ),
            final(self).input_area == old(self).input_area,
            final(self).address_map@ == old(self).address_map@,
    {
        let c = self.new_var();
        self.gates.push(WiredGate { io: [a, b, c], gate: G::gate_type() });
        c
    }

    /// The variable of the cell at `address`, if it can be read.
    fn read_cell(&self, address: &Address, location: DataOrTrace) -> (r: Option<Var>)
        ensures
            r == read_spec(self.input_area, self.address_map@, *address, location),
    {
        match location {
            DataOrTrace::Data => match self.input_area.flat_index(address) {
                Some(i) => Some(Var(i, location)),
                None => None,
            },
            DataOrTrace::Trace => lookup(&self.address_map, address),
        }
    }

    /// Whether `formula` can be compiled in the current state.
    fn formula_ok(&self, formula: &Formula) -> (r: bool)
        ensures
            r == formula_ok(self.input_area, self.address_map@, self.next_var as nat, *formula),
    {
        let area = formula.input;
        if !(area.0.0 <= area.1.0 && area.0.1 <= area.1.1) {
            return false;
        }
        if !(area.1.0 - area.0.0 < usize::MAX && area.1.1 - area.0.1 < usize::MAX) {
            proof {
                let r = area_rows(area);
                let c = area_cols(area);
                assert(r * c > usize::MAX) by (nonlinear_arith)
                    requires
                        r >= 1,
                        c >= 1,
                        r > usize::MAX || c > usize::MAX,
                ;
            }
            return false;
        }
        let n = match area.rows().checked_mul(area.colums()) {
            Some(n) => n,
            None => {
                return false;
            },
        };
        match formula.ty {
            FormulaType::Sum => {
                if n < 2 {
                    return false;
                }
            },
            FormulaType::Eq => {},
        }
        if self.next_var >= usize::MAX - n {
            return false;
        }
        let mut k: usize = 0;
        while k < n
            invariant
                area == formula.input,
                area_wf(area),
                n == area_cells(area),
                k <= n,
                forall|j: int|
                    0 <= j < k ==> #[trigger] cell_read(
                        self.input_area,
                        self.address_map@,
                        area,
                        formula.input_location,
                        j,
                    ) is Some,
            decreases n - k,
        {
            let address = area.cell_at(k);
            if self.read_cell(&address, formula.input_location).is_none() {
                assert(cell_read(self.input_area, self.address_map@, area, formula.input_location, k as int) is None);
                return false;
            }
            k = k + 1;
        }
        true
    }
}

/// The variable the latest entry for `address` holds.
fn lookup(m: &Vec<(Address, Var)>, address: &Address) -> (r: Option<Var>)
    ensures
        r == map_lookup(m@, *address),
{
    let mut i: usize = m.len();
    proof {
        assert(m@.take(i as int) =~= m@);
    }
    while i > 0
        invariant
            i <= m@.len(),
            map_lookup(m@, *address) == map_lookup(m@.take(i as int), *address),
        decreases i,
    {
        proof {
            assert(m@.take(i as int).drop_last() =~= m@.take(i - 1));
        }
        if m[i - 1].0 == *address {
            return Some(m[i - 1].1);
        }
        i = i - 1;
    }
    proof {
        assert(m@.take(0) =~= Seq::<(Address, Var)>::empty());
    }
    None
}

impl Formula {
    /// Appends the gates of the formula to the circuit, returning the
    /// variable that holds its value.
    fn implement(&self, builder: &mut CircuitBuilder) -> (r: Option<Var>)
        requires
            old(builder).wf(),
            formula_ok(
                old(builder).input_area,
                old(builder).address_map@,
                old(builder).next_var as nat,
                *self,
            ),
        ensures
            final(builder).wf(),
            final(builder).gates@ == old(builder).gates@ + formula_gates(
                old(builder).input_area,
                old(builder).address_map@,
                old(builder).next_var as nat,
                *self,
            ),
            final(builder).input_area == old(builder).input_area,
            final(builder).address_map@ == old(builder).address_map@,
            r == formula_value(old(builder).next_var as nat, *self),
    {
        let Formula { ty, input, input_location } = *self;
        match ty {
            FormulaType::Sum => {
                let v = Self::chain_gates::<gates::Add>(builder, &input, input_location);
                proof {
                    assert(formula_gates(
                        old(builder).input_area,
                        old(builder).address_map@,
                        old(builder).next_var as nat,
                        *self,
                    ) =~= Seq::new(
                        (area_cells(input) - 1) as nat,
                        |i: int|
                            chain_gate(
                                old(builder).input_area,
                                old(builder).address_map@,
                                old(builder).next_var as nat,
                                input,
                                input_location,
                                GateType::Add,
                                i,
                            ),
                    ));
                }
                Some(v)
            },
            FormulaType::Eq => {
                let ghost m = builder.address_map@;
                let ghost next = builder.next_var as nat;
                let ghost g0 = builder.gates@;
                let n = input.cells();
                proof {
                    lemma_area_dims(input);
                }
                let first = input.cell_at(0);
                assert(cell_read(builder.input_area, m, input, input_location, 0) is Some);
                let a = builder.read_cell(&first, input_location).unwrap();
                let mut k: usize = 1;
                while k < n
                    invariant
                        builder.wf(),
                        builder.input_area == old(builder).input_area,
                        builder.address_map@ == m,
                        m == old(builder).address_map@,
                        next == old(builder).next_var,
                        g0 == old(builder).gates@,
                        formula_ok(builder.input_area, m, next, *self),
                        input == self.input,
                        input_location == self.input_location,
                        n == area_cells(input),
                        a == cell_read(builder.input_area, m, input, input_location, 0).unwrap(),
                        1 <= k <= n,
                        builder.next_var == next + k - 1,
                        builder.gates@ == g0 + Seq::new(
                            (k - 1) as nat,
                            |i: int| eq_gate(builder.input_area, m, next, input, input_location, i),
                        ),
                    decreases n - k,
                {
                    let address = input.cell_at(k);
                    assert(cell_read(builder.input_area, m, input, input_location, k as int) is Some);
                    let b = builder.read_cell(&address, input_location).unwrap();
                    let _ = builder.add_binary_gate::<gates::Eq>(a, b);
                    proof {
                        assert(builder.gates@ =~= g0 + Seq::new(
                            k as nat,
                            |i: int| eq_gate(builder.input_area, m, next, input, input_location, i),
                        ));
                    }
                    k = k + 1;
                }
                proof {
                    assert(formula_gates(builder.input_area, m, next, *self) =~= Seq::new(
                        (n - 1) as nat,
                        |i: int| eq_gate(builder.input_area, m, next, input, input_location, i),
                    ));
                }
                None
            },
        }
    }

    /// Folds the cells of `area` with gates of type `G`, returning the
    /// variable holding the result.
    fn chain_gates<G: BinaryGate>(
        builder: &mut CircuitBuilder,
        area: &Area,
        location: DataOrTrace,
    ) -> (r: Var)
        requires
            old(builder).wf(),
            reads_ok(old(builder).input_area, old(builder).address_map@, *area, location),
            area_cells(*area) >= 2,
            old(builder).next_var + area_cells(*area) < usize::MAX,
        ensures
            final(builder).wf(),
            final(builder).gates@ == old(builder).gates@ + Seq::new(
                (area_cells(*area) - 1) as nat,
                |i: int|
                    chain_gate(
                        old(builder).input_area,
                        old(builder).address_map@,
                        old(builder).next_var as nat,
                        *area,
                        location,
                        G::kind(),
                        i,
                    ),
            ),
            final(builder).input_area == old(builder).input_area,
            final(builder).address_map@ == old(builder).address_map@,
            r == Var((old(builder).next_var + area_cells(*area) - 2) as usize, DataOrTrace::Trace),
    {
        let ghost m = builder.address_map@;
        let ghost next = builder.next_var as nat;
        let ghost g0 = builder.gates@;
        let ghost input_area = builder.input_area;
        let n = area.cells();
        let first = area.cell_at(0);
        let second = area.cell_at(1);
        assert(cell_read(input_area, m, *area, location, 0) is Some);
        assert(cell_read(input_area, m, *area, location, 1) is Some);
        let a = builder.read_cell(&first, location).unwrap();
        let b = builder.read_cell(&second, location).unwrap();
        let mut c = builder.add_binary_gate::<G>(a, b);
        proof {
            assert(builder.gates@ =~= g0 + Seq::new(
                1,
                |i: int| chain_gate(input_area, m, next, *area, location, G::kind(), i),
            ));
        }
        let mut k: usize = 2;
        while k < n
            invariant
                builder.wf(),
                builder.input_area == input_area,
                builder.address_map@ == m,
                reads_ok(input_area, m, *area, location),
                n == area_cells(*area),
                2 <= k <= n,
                next + n < usize::MAX,
                builder.next_var == next + k - 1,
                c == Var((next + k - 2) as usize, DataOrTrace::Trace),
                builder.gates@ == g0 + Seq::new(
                    (k - 1) as nat,
                    |i: int| chain_gate(input_area, m, next, *area, location, G::kind(), i),
                ),
            decreases n - k,
        {
            let address = area.cell_at(k);
            assert(cell_read(input_area, m, *area, location, k as int) is Some);
            let x = builder.read_cell(&address, location).unwrap();
            c = builder.add_binary_gate::<G>(c, x);
            proof {
                assert(builder.gates@ =~= g0 + Seq::new(
                    k as nat,
                    |i: int| chain_gate(input_area, m, next, *area, location, G::kind(), i),
                ));
            }
            k = k + 1;
        }
        c
    }
}

/// A prefix of a compilable list of formulas is compilable.
proof fn lemma_compile_prefix(input_area: Area, entries: Seq<(Address, Formula)>, i: int)
    requires
        0 <= i <= entries.len(),
        compile(input_area, entries) is Some,
    ensures
        compile(input_area, entries.take(i)) is Some,
    decreases entries.len() - i,
{
    if i < entries.len() {
        lemma_compile_prefix(input_area, entries.drop_last(), i);
        assert(entries.drop_last().take(i) =~= entries.take(i));
    } else {
        assert(entries.take(i) =~= entries);
    }
}

impl SpreadsheetBuilder {
    /// Compiles the formulas, in order of their addresses, into gates; `None`
    /// if one of them cannot be compiled.
    fn try_circuit(&self) -> (r: Option<Vec<WiredGate>>)
        ensures
            r is Some <==> compile(self.input_area(), self.entries()) is Some,
            r matches Some(g) ==> g@ == compile(self.input_area(), self.entries()).unwrap().0,
    {
        let formulas = self.sort_formulas();
        let mut builder = CircuitBuilder::new(self.input_area);
        let mut i: usize = 0;
        proof {
            assert(formulas@.take(0) =~= Seq::<(Address, Formula)>::empty());
        }
        while i < formulas.len()
            invariant
                formulas@ == self.entries(),
                i <= formulas@.len(),
                builder.wf(),
                builder.input_area == self.input_area(),
                compile(self.input_area(), formulas@.take(i as int)) == Some(
                    (builder.gates@, builder.address_map@),
                ),
            decreases formulas@.len() - i,
        {
            let (address, formula) = formulas[i];
            proof {
                assert(formulas@.take(i + 1).drop_last() =~= formulas@.take(i as int));
                assert(formulas@.take(i + 1).last() == (address, formula));
            }
            if !builder.formula_ok(&formula) {
                proof {
                    assert(compile(self.input_area(), formulas@.take(i + 1)) is None);
                    if compile(self.input_area(), self.entries()) is Some {
                        lemma_compile_prefix(self.input_area(), self.entries(), i + 1);
                    }
                }
                return None;
            }
            let val = formula.implement(&mut builder);
            if let Some(val) = val {
                builder.address_map.push((address, val));
            }
            i = i + 1;
        }
        proof {
            assert(formulas@.take(i as int) =~= formulas@);
        }
        Some(builder.gates)
    }

    /// Whether every formula can be compiled.
    pub fn compilable(&self) -> (r: bool)
        ensures
            r == (compile(self.input_area(), self.entries()) is Some),
    {
        self.try_circuit().is_some()
    }

    /// Compiles the formulas, in order of their addresses, into gates.
    pub fn circuit(&self, selected_assertions: Vec<Address>) -> (r: (Area, Vec<WiredGate>))
        requires
            compile(self.input_area(), self.entries()) is Some,
        ensures
            r.0 == self.input_area(),
            r.1@ == compile(self.input_area(), self.entries()).unwrap().0,
    {
        // Every formula is compiled, whichever assertions are selected.
        let _ = selected_assertions;
        let gates = self.try_circuit().unwrap();
        (self.input_area, gates)
    }
}

/// The variable can be read when computing gate `i`: data in bounds, or the
/// output of an earlier gate.
pub open spec fn var_ok(v: Var, data_len: nat, i: nat) -> bool {
    match v.1 {
        DataOrTrace::Data => v.0 < data_len,
        DataOrTrace::Trace => v.0 < i,
    }
}

/// Every gate reads data in bounds or outputs of earlier gates.
pub open spec fn trace_ok(gates: Seq<WiredGate>, data_len: nat) -> bool {
    forall|i: int|
        0 <= i < gates.len() ==> var_ok(#[trigger] gates[i].io[0], data_len, i as nat) && var_ok(
            gates[i].io[1],
            data_len,
            i as nat,
        )
}

/// Every variable of every gate, output included, is in bounds.
pub open spec fn wires_ok(gates: Seq<WiredGate>, data_len: nat) -> bool {
    &&& trace_ok(gates, data_len)
    &&& forall|i: int|
        0 <= i < gates.len() ==> var_ok(#[trigger] gates[i].io[2], data_len, gates.len())
}

/// Gate `i` outputs trace variable `i` and reads data in bounds or outputs
/// of earlier gates.
pub open spec fn well_wired(gates: Seq<WiredGate>, data_len: nat) -> bool {
    &&& gates.len() <= usize::MAX
    &&& trace_ok(gates, data_len)
    &&& forall|i: int|
        0 <= i < gates.len() ==> #[trigger] gates[i].io[2] == Var(i as usize, DataOrTrace::Trace)
}

/// The value of input `v` of gate `i`.
pub open spec fn input_value(gates: Seq<WiredGate>, data: Seq<Fm>, i: nat, v: Var) -> nat
    decreases i, 0nat,
{
    match v.1 {
        DataOrTrace::Data => if v.0 < data.len() {
            data[v.0 as int]@
        } else {
            0
        },
        DataOrTrace::Trace => if v.0 < i {
            trace_value(gates, data, v.0 as nat)
        } else {
            0
        },
    }
}

/// The value the `i`-th gate computes, the `i`-th entry of the trace.
pub open spec fn trace_value(gates: Seq<WiredGate>, data: Seq<Fm>, i: nat) -> nat
    decreases i, 1nat,
{
    if i < gates.len() {
        let g = gates[i as int];
        gate_compute(
            g.gate,
            input_value(gates, data, i, g.io[0]),
            input_value(gates, data, i, g.io[1]),
        )
    } else {
        0
    }
}

/// The value of a variable once the whole trace is known.
pub open spec fn wire_value(gates: Seq<WiredGate>, data: Seq<Fm>, v: Var) -> nat {
    match v.1 {
        DataOrTrace::Data => data[v.0 as int]@,
        DataOrTrace::Trace => trace_value(gates, data, v.0 as nat),
    }
}

/// The `i`-th gate is satisfied by the data and the computed trace.
pub open spec fn gate_holds(gates: Seq<WiredGate>, data: Seq<Fm>, i: int) -> bool {
    let g = gates[i];
    gate_constraint(
        g.gate,
        wire_value(gates, data, g.io[0]),
        wire_value(gates, data, g.io[1]),
        wire_value(gates, data, g.io[2]),
    ) == 0
}

impl WiredGate {
    /// The value of `var`, from the data or the trace computed so far.
    fn read(var: &Var, data: &[Fm], trace: &Vec<Fm>) -> (r: Fm)
        requires
            var.1 == DataOrTrace::Data ==> var.0 < data@.len(),
            var.1 == DataOrTrace::Trace ==> var.0 < trace@.len(),
        ensures
            var.1 == DataOrTrace::Data ==> r == data@[var.0 as int],
            var.1 == DataOrTrace::Trace ==> r == trace@[var.0 as int],
    {
        match var.1 {
            DataOrTrace::Data => data[var.0],
            DataOrTrace::Trace => trace[var.0],
        }
    }

    /// Evaluates the gates in order on `data`: entry `i` of the result is the
    /// output of gate `i`.
    pub fn compute_trace(gates: &[Self], data: &[Fm]) -> (r: Vec<Fm>)
        requires
            trace_ok(gates@, data@.len()),
        ensures
            r@.len() == gates@.len(),
            forall|i: int| 0 <= i < gates@.len() ==> #[trigger] r@[i]@ == trace_value(gates@, data@, i as nat),
    {
        let mut trace: Vec<Fm> = Vec::new();
        let mut i: usize = 0;
        while i < gates.len()
            invariant
                trace_ok(gates@, data@.len()),
                i <= gates@.len(),
                trace@.len() == i,
                forall|j: int| 0 <= j < i ==> #[trigger] trace@[j]@ == trace_value(gates@, data@, j as nat),
            decreases gates@.len() - i,
        {
            let gate = &gates[i];
            assert(var_ok(gates@[i as int].io[0], data@.len(), i as nat));
            let a = Self::read(&gate.io[0], data, &trace);
            let b = Self::read(&gate.io[1], data, &trace);
            let c = gate.gate.compute(a, b);
            proof {
                let g = gates@[i as int];
                assert(a@ == input_value(gates@, data@, i as nat, g.io[0]));
                assert(b@ == input_value(gates@, data@, i as nat, g.io[1]));
            }
            trace.push(c);
            i = i + 1;
        }
        trace
    }

    /// Whether the data and its computed trace satisfy every gate.
    pub fn check(gates: &[Self], data: &[Fm]) -> (r: bool)
        requires
            wires_ok(gates@, data@.len()),
        ensures
            r == (forall|i: int| 0 <= i < gates@.len() ==> #[trigger] gate_holds(gates@, data@, i)),
    {
        let trace = Self::compute_trace(gates, data);
        let mut i: usize = 0;
        while i < gates.len()
            invariant
                wires_ok(gates@, data@.len()),
                i <= gates@.len(),
                trace@.len() == gates@.len(),
                forall|j: int| 0 <= j < gates@.len() ==> #[trigger] trace@[j]@ == trace_value(gates@, data@, j as nat),
                forall|j: int| 0 <= j < i ==> #[trigger] gate_holds(gates@, data@, j),
            decreases gates@.len() - i,
        {
            let gate = &gates[i];
            assert(var_ok(gates@[i as int].io[0], data@.len(), i as nat));
            assert(var_ok(gates@[i as int].io[2], data@.len(), gates@.len()));
            let io = [
                Self::read(&gate.io[0], data, &trace),
                Self::read(&gate.io[1], data, &trace),
                Self::read(&gate.io[2], data, &trace),
            ];
            let holds = gate.gate.check(&io);
            proof {
                let g = gates@[i as int];
                assert(io[0]@ == wire_value(gates@, data@, g.io[0]));
                assert(io[1]@ == wire_value(gates@, data@, g.io[1]));
                assert(io[2]@ == wire_value(gates@, data@, g.io[2]));
                assert(holds == gate_holds(gates@, data@, i as int));
            }
            if !holds {
                return false;
            }
            i = i + 1;
        }
        true
    }
}

/// The variables of the map are outputs of the first `len` gates.
pub open spec fn map_vars_below(m: Seq<(Address, Var)>, len: nat) -> bool {
    forall|j: int|
        0 <= j < m.len() ==> (#[trigger] m[j]).1.1 == DataOrTrace::Trace && m[j].1.0 < len
}

/// A variable found in the map is one of its entries.
proof fn lemma_map_lookup_in(m: Seq<(Address, Var)>, address: Address)
    requires
        map_lookup(m, address) is Some,
    ensures
        exists|j: int| 0 <= j < m.len() && (#[trigger] m[j]).1 == map_lookup(m, address).unwrap(),
    decreases m.len(),
{
    if m.last().0 != address {
        lemma_map_lookup_in(m.drop_last(), address);
        let j = choose|j: int|
            0 <= j < m.drop_last().len() && (#[trigger] m.drop_last()[j]).1 == map_lookup(
                m.drop_last(),
                address,
            ).unwrap();
        assert(m[j] == m.drop_last()[j]);
    } else {
        assert(m[m.len() - 1].1 == map_lookup(m, address).unwrap());
    }
}

/// A cell read while compiling is data within the table of an input area
/// anchored at the origin, or an output of an earlier gate.
proof fn lemma_read_bounds(
    input_area: Area,
    m: Seq<(Address, Var)>,
    len: nat,
    address: Address,
    location: DataOrTrace,
)
    requires
        input_area.0 == Address(0, 0),
        map_vars_below(m, len),
        read_spec(input_area, m, address, location) is Some,
    ensures
        var_ok(read_spec(input_area, m, address, location).unwrap(), area_cells(input_area) as nat, len),
{
    match location {
        DataOrTrace::Data => {
            let c = area_cols(input_area);
            let r = area_rows(input_area);
            let row = address.0 as int;
            let col = address.1 as int;
            assert(row * c + col < r * c) by (nonlinear_arith)
                requires
                    0 <= row <= r - 1,
                    0 <= col <= c - 1,
            ;
        },
        DataOrTrace::Trace => {
            lemma_map_lookup_in(m, address);
        },
    }
}

/// Law: a compiled circuit over an input area anchored at the origin is well
/// wired: gate `i` outputs trace variable `i`, and its inputs are cells of
/// the data table or outputs of earlier gates.
pub proof fn lemma_compile_well_wired(input_area: Area, entries: Seq<(Address, Formula)>)
    requires
        input_area.0 == Address(0, 0),
        compile(input_area, entries) is Some,
    ensures
        well_wired(compile(input_area, entries).unwrap().0, area_cells(input_area) as nat),
        map_vars_below(
            compile(input_area, entries).unwrap().1,
            compile(input_area, entries).unwrap().0.len(),
        ),
    decreases entries.len(),
{
    if entries.len() > 0 {
        lemma_compile_well_wired(input_area, entries.drop_last());
        let state = compile(input_area, entries.drop_last()).unwrap();
        let g = state.0;
        let m = state.1;
        let next = g.len();
        let f = entries.last().1;
        let location = entries.last().0;
        let cells = area_cells(input_area) as nat;
        let fg = formula_gates(input_area, m, next, f);
        let ng = g + fg;
        assert(formula_ok(input_area, m, next, f));
        assert(compile(input_area, entries).unwrap().0 == ng);
        lemma_area_dims(f.input);
        assert forall|k: int| 0 <= k < area_cells(f.input) implies var_ok(
            #[trigger] cell_read(input_area, m, f.input, f.input_location, k).unwrap(),
            cells,
            next,
        ) by {
            lemma_read_bounds(input_area, m, next, area_cell(f.input, k), f.input_location);
        }
        assert forall|i: int| 0 <= i < ng.len() implies var_ok(
            #[trigger] ng[i].io[0],
            cells,
            i as nat,
        ) && var_ok(ng[i].io[1], cells, i as nat) && ng[i].io[2] == Var(
            i as usize,
            DataOrTrace::Trace,
        ) by {
            if i >= next {
                let t = i - next;
                assert(ng[i] == fg[t]);
                assert(cell_read(input_area, m, f.input, f.input_location, t + 1) is Some);
                assert(cell_read(input_area, m, f.input, f.input_location, 0) is Some);
                if t == 0 {
                    assert(var_ok(
                        cell_read(input_area, m, f.input, f.input_location, 0).unwrap(),
                        cells,
                        next,
                    ));
                }
                assert(var_ok(
                    cell_read(input_area, m, f.input, f.input_location, t + 1).unwrap(),
                    cells,
                    next,
                ));
            } else {
                assert(ng[i] == g[i]);
            }
        }
        let nm = match formula_value(next, f) {
            Some(v) => m.push((location, v)),
            None => m,
        };
        assert(map_vars_below(nm, ng.len()));
    }
}

/// Law: a compiled EQ formula pairs every further cell of its range with
/// its first cell: it has one Eq gate per further cell, each reading the
/// first cell, and every cell after the first is read by one of them.
pub proof fn lemma_eq_formula_pairs_every_cell(
    input_area: Area,
    m: Seq<(Address, Var)>,
    next: nat,
    f: Formula,
)
    requires
        f.ty == FormulaType::Eq,
        formula_ok(input_area, m, next, f),
    ensures
        ({
            let g = formula_gates(input_area, m, next, f);
            let first = cell_read(input_area, m, f.input, f.input_location, 0).unwrap();
            &&& g.len() + 1 == area_cells(f.input)
            &&& forall|i: int|
                0 <= i < g.len() ==> (#[trigger] g[i]).gate == GateType::Eq && g[i].io[0] == first
            &&& forall|k: int|
                #![trigger cell_read(input_area, m, f.input, f.input_location, k)]
                1 <= k < area_cells(f.input) ==> exists|i: int|
                    0 <= i < g.len() && (#[trigger] g[i]).io[1] == cell_read(
                        input_area,
                        m,
                        f.input,
                        f.input_location,
                        k,
                    ).unwrap()
        }),
{
    lemma_area_dims(f.input);
    let g = formula_gates(input_area, m, next, f);
    assert forall|k: int|
        #![trigger cell_read(input_area, m, f.input, f.input_location, k)]
        1 <= k < area_cells(f.input) implies exists|i: int|
        0 <= i < g.len() && (#[trigger] g[i]).io[1] == cell_read(
            input_area,
            m,
            f.input,
            f.input_location,
            k,
        ).unwrap() by {
        assert(g[k - 1].io[1] == cell_read(input_area, m, f.input, f.input_location, k).unwrap());
    }
}

/// Law: the data satisfies a compiled EQ formula only if every cell of its
/// range holds the value of the first cell: for any assignment of field
/// elements to the variables under which every gate of the formula holds,
/// all the cells read by the formula get the same value.
pub proof fn lemma_eq_formula_forces_equal_cells(
    input_area: Area,
    m: Seq<(Address, Var)>,
    next: nat,
    f: Formula,
    value: spec_fn(Var) -> nat,
)
    requires
        f.ty == FormulaType::Eq,
        formula_ok(input_area, m, next, f),
        forall|v: Var| #[trigger] value(v) < crate::field::P,
        forall|i: int|
            0 <= i < formula_gates(input_area, m, next, f).len() ==> gate_constraint(
                (#[trigger] formula_gates(input_area, m, next, f)[i]).gate,
                value(formula_gates(input_area, m, next, f)[i].io[0]),
                value(formula_gates(input_area, m, next, f)[i].io[1]),
                value(formula_gates(input_area, m, next, f)[i].io[2]),
            ) == 0,
    ensures
        forall|k: int|
            0 <= k < area_cells(f.input) ==> value(
                #[trigger] cell_read(input_area, m, f.input, f.input_location, k).unwrap(),
            ) == value(cell_read(input_area, m, f.input, f.input_location, 0).unwrap()),
{
    lemma_area_dims(f.input);
    let g = formula_gates(input_area, m, next, f);
    let first = cell_read(input_area, m, f.input, f.input_location, 0).unwrap();
    assert forall|k: int| 0 <= k < area_cells(f.input) implies value(
        #[trigger] cell_read(input_area, m, f.input, f.input_location, k).unwrap(),
    ) == value(first) by {
        if k > 0 {
            let gk = g[k - 1];
            assert(gk.gate == GateType::Eq);
            assert(gk.io[0] == first);
            let cell = cell_read(input_area, m, f.input, f.input_location, k).unwrap();
            assert(gk.io[1] == cell);
            assert(gate_constraint(gk.gate, value(gk.io[0]), value(gk.io[1]), value(gk.io[2])) == 0);
            crate::field::lemma_fsub_zero_iff(value(first), value(cell));
        }
    }
}

/// A trace variable read by gate `i` is the output of an earlier gate.
pub open spec fn trace_var_before(v: Var, i: nat) -> bool {
    v.1 == DataOrTrace::Trace ==> v.0 < i
}

/// Gate `i` outputs trace variable `i` and reads only data cells and the
/// outputs of earlier gates: the gates are in topological order.
pub open spec fn topologically_wired(gates: Seq<WiredGate>) -> bool {
    forall|i: int|
        0 <= i < gates.len() ==> {
            &&& trace_var_before(#[trigger] gates[i].io[0], i as nat)
            &&& trace_var_before(gates[i].io[1], i as nat)
            &&& gates[i].io[2] == Var(i as usize, DataOrTrace::Trace)
        }
}

/// A variable read from the trace is one the map holds.
proof fn lemma_read_trace_bounds(
    input_area: Area,
    m: Seq<(Address, Var)>,
    len: nat,
    address: Address,
    location: DataOrTrace,
)
    requires
        map_vars_below(m, len),
        read_spec(input_area, m, address, location) is Some,
    ensures
        trace_var_before(read_spec(input_area, m, address, location).unwrap(), len),
{
    if location == DataOrTrace::Trace {
        lemma_map_lookup_in(m, address);
    }
}

/// Law: whatever the input area, a compiled circuit is in topological
/// order: gate `i` outputs trace variable `i`, and every trace variable it
/// reads is the output of an earlier gate; every cell holding a formula maps
/// to a trace variable below the number of gates.
#[verifier::spinoff_prover]
pub proof fn lemma_compile_topological(input_area: Area, entries: Seq<(Address, Formula)>)
    requires
        compile(input_area, entries) is Some,
    ensures
        topologically_wired(compile(input_area, entries).unwrap().0),
        map_vars_below(
            compile(input_area, entries).unwrap().1,
            compile(input_area, entries).unwrap().0.len(),
        ),
    decreases entries.len(),
{
    if entries.len() > 0 {
        lemma_compile_topological(input_area, entries.drop_last());
        let state = compile(input_area, entries.drop_last()).unwrap();
        let g = state.0;
        let m = state.1;
        let next = g.len();
        let f = entries.last().1;
        let location = entries.last().0;
        let fg = formula_gates(input_area, m, next, f);
        let ng = g + fg;
        assert(formula_ok(input_area, m, next, f));
        assert(compile(input_area, entries).unwrap().0 == ng);
        lemma_area_dims(f.input);
        assert forall|k: int| 0 <= k < area_cells(f.input) implies trace_var_before(
            #[trigger] cell_read(input_area, m, f.input, f.input_location, k).unwrap(),
            next,
        ) by {
            lemma_read_trace_bounds(input_area, m, next, area_cell(f.input, k), f.input_location);
        }
        assert forall|i: int| 0 <= i < ng.len() implies {
            &&& trace_var_before(#[trigger] ng[i].io[0], i as nat)
            &&& trace_var_before(ng[i].io[1], i as nat)
            &&& ng[i].io[2] == Var(i as usize, DataOrTrace::Trace)
        } by {
            if i >= next {
                let t = i - next;
                assert(ng[i] == fg[t]);
                assert(cell_read(input_area, m, f.input, f.input_location, t + 1) is Some);
                assert(cell_read(input_area, m, f.input, f.input_location, 0) is Some);
                if t == 0 {
                    assert(trace_var_before(
                        cell_read(input_area, m, f.input, f.input_location, 0).unwrap(),
                        next,
                    ));
                }
                assert(trace_var_before(
                    cell_read(input_area, m, f.input, f.input_location, t + 1).unwrap(),
                    next,
                ));
            } else {
                assert(ng[i] == g[i]);
            }
        }
        assert(topologically_wired(ng));
        let nm = match formula_value(next, f) {
            Some(v) => m.push((location, v)),
            None => m,
        };
        assert(map_vars_below(nm, ng.len()));
    }
}

/// Law: on a well-wired circuit the computed trace satisfies every addition
/// and padding gate, so the data satisfies the circuit exactly when every
/// equality gate sees equal inputs.
pub proof fn lemma_check_iff_equalities(gates: Seq<WiredGate>, data: Seq<Fm>)
    requires
        well_wired(gates, data.len()),
    ensures
        (forall|i: int| 0 <= i < gates.len() ==> #[trigger] gate_holds(gates, data, i)) <==> (
        forall|i: int|
            0 <= i < gates.len() && #[trigger] gates[i].gate == GateType::Eq ==> wire_value(
                gates,
                data,
                gates[i].io[0],
            ) == wire_value(gates, data, gates[i].io[1])),
{
    assert forall|i: int| 0 <= i < gates.len() implies #[trigger] gate_holds(gates, data, i) <==> (
    gates[i].gate == GateType::Eq ==> wire_value(gates, data, gates[i].io[0]) == wire_value(
        gates,
        data,
        gates[i].io[1],
    )) by {
        let g = gates[i];
        let a = wire_value(gates, data, g.io[0]);
        let b = wire_value(gates, data, g.io[1]);
        assert(var_ok(g.io[0], data.len(), i as nat));
        assert(var_ok(g.io[1], data.len(), i as nat));
        assert(a == input_value(gates, data, i as nat, g.io[0]));
        assert(b == input_value(gates, data, i as nat, g.io[1]));
        assert(wire_value(gates, data, g.io[2]) == trace_value(gates, data, i as nat));
        assert(a < crate::field::P) by {
            if g.io[0].1 == DataOrTrace::Data {
                data[g.io[0].0 as int].lemma_view_bound();
            }
        }
        assert(b < crate::field::P) by {
            if g.io[1].1 == DataOrTrace::Data {
                data[g.io[1].0 as int].lemma_view_bound();
            }
        }
        match g.gate {
            GateType::Add => {
                crate::field::lemma_sum_constraint(a, b, fadd(a, b));
            },
            GateType::Eq => {
                crate::field::lemma_fsub_zero_iff(a, b);
            },
            GateType::Nop => {
                crate::field::lemma_fsub_zero_iff(a, a);
            },
        }
    }
    if forall|i: int| 0 <= i < gates.len() ==> #[trigger] gate_holds(gates, data, i) {
        assert forall|i: int|
            0 <= i < gates.len() && #[trigger] gates[i].gate == GateType::Eq implies wire_value(
            gates,
            data,
            gates[i].io[0],
        ) == wire_value(gates, data, gates[i].io[1]) by {
            assert(gate_holds(gates, data, i));
        }
    }
    if forall|i: int|
        0 <= i < gates.len() && #[trigger] gates[i].gate == GateType::Eq ==> wire_value(
            gates,
            data,
            gates[i].io[0],
        ) == wire_value(gates, data, gates[i].io[1]) {
        assert forall|i: int| 0 <= i < gates.len() implies #[trigger] gate_holds(gates, data, i) by {
            if gates[i].gate == GateType::Eq {
            }
        }
    }
}

/// `a` comes before `b` in the order of addresses.
fn addr_lt_exec(a: &Address, b: &Address) -> (r: bool)
    ensures
        r == addr_lt(*a, *b),
{
    a.0 < b.0 || (a.0 == b.0 && a.1 < b.1)
}

} // verus!
