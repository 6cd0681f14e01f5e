//! The structure of the spreadsheet argument: the padded circuit, the rows of
//! multilinear evaluations the zerocheck runs over, and the constraint
//! polynomial that vanishes on a row exactly when its gate is satisfied.
use crate::field::{fadd, fmul, fsub, Fm, P};
use crate::sumcheck::protocol::{
    lemma_cong_add, lemma_cong_canonical, lemma_cong_fadd, lemma_cong_fmul, lemma_cong_mul,
    lemma_cong_trans,
};
use crate::math::{is_next_power_of_two, is_power_of_two, max_usize_pow2};
use crate::commitment::CommitmentScheme;
use crate::sumcheck::point::values;
use crate::pow2vec::Pow2Vec;
use crate::sumcheck::function::SumcheckFunction;
use crate::spreadsheet::circuit_builder::{
    gate_holds, padding_gate, trace_value, wire_value, wires_ok, DataOrTrace, Var, WiredGate,
};
use crate::spreadsheet::gates::{gate_constraint, GateType};
use core::marker::PhantomData;
use vstd::arithmetic::power2::pow2;
use vstd::prelude::*;

verus! {

/// The evaluations of the argument's multilinear polynomials on one row:
/// the data table, the trace, the two gate selectors and the three looked-up
/// gate values `a`, `b`, `c`.
#[derive(Clone, Copy, Debug, Default)]
pub struct Mles<V> {
    pub table: V,
    pub trace: V,
    pub selectors: [V; 2],
    pub lookups: [V; 3],
}

/// The constraint polynomial on the values of a row:
/// `(a + b - c) * s_add + (a - b) * s_eq`.
pub open spec fn mles_constraint(s_add: nat, s_eq: nat, a: nat, b: nat, c: nat) -> nat {
    fadd(fmul(fsub(fadd(a, b), c), s_add), fmul(fsub(a, b), s_eq))
}

/// The selector values of a gate type: `(1, 0)` for additions, `(0, 1)` for
/// equalities and `(0, 0)` for padding.
pub open spec fn selectors_of(t: GateType) -> (nat, nat) {
    match t {
        GateType::Add => (1, 0),
        GateType::Eq => (0, 1),
        GateType::Nop => (0, 0),
    }
}

/// The value of a variable given the data and the trace.
pub open spec fn value_of(v: Var, data: Seq<Fm>, trace: Seq<Fm>) -> nat {
    match v.1 {
        DataOrTrace::Data => data[v.0 as int]@,
        DataOrTrace::Trace => trace[v.0 as int]@,
    }
}

/// The variable is in bounds of the data and the trace.
pub open spec fn var_in(v: Var, data_len: nat, trace_len: nat) -> bool {
    match v.1 {
        DataOrTrace::Data => v.0 < data_len,
        DataOrTrace::Trace => v.0 < trace_len,
    }
}

impl Mles<Fm> {
    /// The constraint polynomial evaluated on this row.
    pub fn function(&self) -> (r: Fm)
        ensures
            r@ == mles_constraint(
                self.selectors[0]@,
                self.selectors[1]@,
                self.lookups[0]@,
                self.lookups[1]@,
                self.lookups[2]@,
            ),
    {
        let a = self.lookups[0];
        let b = self.lookups[1];
        let c = self.lookups[2];
        let constraints = a.add(b).sub(c).mul(self.selectors[0]);
        constraints.add(a.sub(b).mul(self.selectors[1]))
    }
}

impl SumcheckFunction for Mles<Fm> {
    type Data = ();

    /// Table, trace, two selectors and three lookups.
    open spec fn slots() -> nat {
        7
    }

    open spec fn function_spec(data: (), evals: Seq<nat>) -> nat {
        mles_constraint(evals[2], evals[3], evals[4], evals[5], evals[6])
    }

    proof fn lemma_function_canonical(data: (), evals: Seq<nat>) {
    }

    fn function(data: &(), evals: &[Fm]) -> (r: Fm) {
        let row = Mles {
            table: evals[0],
            trace: evals[1],
            selectors: [evals[2], evals[3]],
            lookups: [evals[4], evals[5], evals[6]],
        };
        row.function()
    }
}

/// Law: the constraint polynomial vanishes on a row whose three lookups are
/// zero, whatever its selectors: it has no term in the selectors alone.
pub proof fn lemma_mles_constraint_vanishes_on_zero_lookups(s_add: nat, s_eq: nat)
    ensures
        mles_constraint(s_add, s_eq, 0, 0, 0) == 0,
{
    assert(fadd(0, 0) == 0);
    assert(fsub(0, 0) == 0);
    assert(0 * s_add == 0);
    assert(0 * s_eq == 0);
}

/// Law: the constraint polynomial is linear in the selectors: its value at
/// the sum of two pairs of selectors is the sum of its values at each.
pub proof fn lemma_mles_constraint_linear(
    s_add: nat,
    s_eq: nat,
    t_add: nat,
    t_eq: nat,
    a: nat,
    b: nat,
    c: nat,
)
    ensures
        mles_constraint(fadd(s_add, t_add), fadd(s_eq, t_eq), a, b, c) == fadd(
            mles_constraint(s_add, s_eq, a, b, c),
            mles_constraint(t_add, t_eq, a, b, c),
        ),
{
    let x = fsub(fadd(a, b), c);
    let y = fsub(a, b);
    let (xi, yi) = (x as int, y as int);
    let (si, ti, ui, vi) = (s_add as int, t_add as int, s_eq as int, t_eq as int);
    // left-hand side
    lemma_cong_fadd(s_add, t_add);
    lemma_cong_fmul(x, fadd(s_add, t_add));
    lemma_cong_mul(xi, xi, fadd(s_add, t_add) as int, si + ti);
    lemma_cong_trans(fmul(x, fadd(s_add, t_add)) as int, xi * fadd(s_add, t_add) as int, xi * (si + ti));
    lemma_cong_fadd(s_eq, t_eq);
    lemma_cong_fmul(y, fadd(s_eq, t_eq));
    lemma_cong_mul(yi, yi, fadd(s_eq, t_eq) as int, ui + vi);
    lemma_cong_trans(fmul(y, fadd(s_eq, t_eq)) as int, yi * fadd(s_eq, t_eq) as int, yi * (ui + vi));
    let l1 = fmul(x, fadd(s_add, t_add));
    let l2 = fmul(y, fadd(s_eq, t_eq));
    lemma_cong_fadd(l1, l2);
    lemma_cong_add(l1 as int, xi * (si + ti), l2 as int, yi * (ui + vi));
    lemma_cong_trans(fadd(l1, l2) as int, l1 as int + l2 as int, xi * (si + ti) + yi * (ui + vi));
    // right-hand side
    let m1 = mles_constraint(s_add, s_eq, a, b, c);
    let m2 = mles_constraint(t_add, t_eq, a, b, c);
    lemma_cong_fmul(x, s_add);
    lemma_cong_fmul(y, s_eq);
    lemma_cong_fadd(fmul(x, s_add), fmul(y, s_eq));
    lemma_cong_add(fmul(x, s_add) as int, xi * si, fmul(y, s_eq) as int, yi * ui);
    lemma_cong_trans(m1 as int, fmul(x, s_add) as int + fmul(y, s_eq) as int, xi * si + yi * ui);
    lemma_cong_fmul(x, t_add);
    lemma_cong_fmul(y, t_eq);
    lemma_cong_fadd(fmul(x, t_add), fmul(y, t_eq));
    lemma_cong_add(fmul(x, t_add) as int, xi * ti, fmul(y, t_eq) as int, yi * vi);
    lemma_cong_trans(m2 as int, fmul(x, t_add) as int + fmul(y, t_eq) as int, xi * ti + yi * vi);
    lemma_cong_fadd(m1, m2);
    lemma_cong_add(m1 as int, xi * si + yi * ui, m2 as int, xi * ti + yi * vi);
    lemma_cong_trans(fadd(m1, m2) as int, m1 as int + m2 as int, (xi * si + yi * ui) + (xi * ti + yi * vi));
    assert(xi * (si + ti) + yi * (ui + vi) == (xi * si + yi * ui) + (xi * ti + yi * vi)) by (nonlinear_arith);
    lemma_cong_canonical(fadd(l1, l2), fadd(m1, m2));
}

/// Law: with the selector of one gate type set and the other clear, the
/// constraint polynomial is the constraint of that gate type.
pub proof fn lemma_mles_constraint_one_hot(a: nat, b: nat, c: nat)
    ensures
        mles_constraint(1, 0, a, b, c) == gate_constraint(GateType::Add, a, b, c),
        mles_constraint(0, 1, a, b, c) == gate_constraint(GateType::Eq, a, b, c),
{
    let x = fsub(fadd(a, b), c);
    let y = fsub(a, b);
    assert(x * 1 == x && y * 1 == y && x * 0 == 0 && y * 0 == 0);
    vstd::arithmetic::div_mod::lemma_small_mod(x, P as nat);
    vstd::arithmetic::div_mod::lemma_small_mod(y, P as nat);
}

/// Law: on the row of a gate, the constraint polynomial equals the
/// constraint of this gate.
pub proof fn lemma_row_constraint(t: GateType, a: nat, b: nat, c: nat)
    ensures
        mles_constraint(selectors_of(t).0, selectors_of(t).1, a, b, c) == gate_constraint(
            t,
            a,
            b,
            c,
        ),
{
}

/// Law: with the trace computed from the data, the constraint polynomial
/// vanishes on the witness row of a gate exactly when the data satisfies
/// that gate; so the zerocheck over the rows holds exactly when the circuit
/// is satisfied.
pub proof fn lemma_witness_row_vanishes(
    gates: Seq<WiredGate>,
    data: Seq<Fm>,
    trace: Seq<Fm>,
    i: int,
)
    requires
        wires_ok(gates, data.len()),
        trace.len() == gates.len(),
        forall|j: int| 0 <= j < gates.len() ==> #[trigger] trace[j]@ == trace_value(gates, data, j as nat),
        0 <= i < gates.len(),
    ensures
        (mles_constraint(
            selectors_of(gates[i].gate).0,
            selectors_of(gates[i].gate).1,
            value_of(gates[i].io[0], data, trace),
            value_of(gates[i].io[1], data, trace),
            value_of(gates[i].io[2], data, trace),
        ) == 0) <==> gate_holds(gates, data, i),
{
    let g = gates[i];
    assert(crate::spreadsheet::circuit_builder::var_ok(g.io[0], data.len(), i as nat));
    assert(crate::spreadsheet::circuit_builder::var_ok(g.io[2], data.len(), gates.len()));
    assert(value_of(g.io[0], data, trace) == wire_value(gates, data, g.io[0]));
    assert(value_of(g.io[1], data, trace) == wire_value(gates, data, g.io[1]));
    assert(value_of(g.io[2], data, trace) == wire_value(gates, data, g.io[2]));
    lemma_row_constraint(
        g.gate,
        wire_value(gates, data, g.io[0]),
        wire_value(gates, data, g.io[1]),
        wire_value(gates, data, g.io[2]),
    );
}

/// The relation of a committed data table satisfying a spreadsheet circuit.
pub struct SpreadsheetRelation<F, C>(PhantomData<(F, C)>);

impl<F, C> SpreadsheetRelation<F, C> {
    /// The coefficients the core oracle is built from: no multilinear
    /// polynomial of the argument is computed by the verifier, so all are
    /// empty; together with the number of variables.
    pub fn core_oracle_instance(vars: usize) -> (r: (Mles<Vec<Fm>>, usize))
        ensures
            r.0.table@.len() == 0,
            r.0.trace@.len() == 0,
            r.0.selectors[0]@.len() == 0 && r.0.selectors[1]@.len() == 0,
            r.0.lookups[0]@.len() == 0 && r.0.lookups[1]@.len() == 0 && r.0.lookups[2]@.len() == 0,
            r.1 == vars,
    {
        let coefficients = Mles {
            table: Vec::new(),
            trace: Vec::new(),
            selectors: [Vec::new(), Vec::new()],
            lookups: [Vec::new(), Vec::new(), Vec::new()],
        };
        (coefficients, vars)
    }

    /// The commitments the committed oracle is built from: the data table,
    /// the trace and the three lookup columns are committed, the selectors
    /// are part of the structure.
    pub fn committed_oracle_instance<D: Copy>(data_commit: D, trace_commit: D, lookup_commits: [D; 3]) -> (r: Mles<Option<D>>)
        ensures
            r.table == Some(data_commit),
            r.trace == Some(trace_commit),
            r.selectors[0] is None && r.selectors[1] is None,
            r.lookups[0] == Some(lookup_commits[0]),
            r.lookups[1] == Some(lookup_commits[1]),
            r.lookups[2] == Some(lookup_commits[2]),
    {
        Mles {
            table: Some(data_commit),
            trace: Some(trace_commit),
            selectors: [None, None],
            lookups: [Some(lookup_commits[0]), Some(lookup_commits[1]), Some(lookup_commits[2])],
        }
    }
}

/// The circuit padded to a power of two and the commitment scheme.
#[derive(Debug)]
pub struct SpreadsheetStructure<C> {
    gates: Pow2Vec<WiredGate>,
    pcs: C,
}

impl<C> SpreadsheetStructure<C> {
    /// The gates, padded to a power of two.
    pub closed spec fn gates(&self) -> Seq<WiredGate> {
        self.gates@
    }

    /// The commitment scheme.
    pub closed spec fn scheme(&self) -> C {
        self.pcs
    }

    /// Pads `gates` with no-op gates to the smallest power of two that holds
    /// both the data table and the gates.
    pub fn new(data_table_size: usize, gates: Vec<WiredGate>, pcs: C) -> (r: Self)
        requires
            data_table_size <= max_usize_pow2(),
            gates@.len() <= max_usize_pow2(),
        ensures
            is_next_power_of_two(
                if data_table_size >= gates@.len() {
                    data_table_size as nat
                } else {
                    gates@.len()
                },
                r.gates().len(),
            ),
            r.gates().subrange(0, gates@.len() as int) == gates@,
            forall|i: int| gates@.len() <= i < r.gates().len() ==> #[trigger] r.gates()[i] == padding_gate(),
            r.scheme() == pcs,
    {
        let mut gates = gates;
        let m = if data_table_size >= gates.len() {
            data_table_size
        } else {
            gates.len()
        };
        let len = crate::math::next_power_of_two(m);
        let ghost old_gates = gates@;
        let mut i: usize = gates.len();
        while i < len
            invariant
                is_next_power_of_two(m as nat, len as nat),
                old_gates.len() <= m,
                i <= len || i == old_gates.len(),
                gates@.len() == i,
                i >= old_gates.len(),
                gates@.subrange(0, old_gates.len() as int) == old_gates,
                forall|j: int| old_gates.len() <= j < i ==> #[trigger] gates@[j] == padding_gate(),
            decreases len - i,
        {
            gates.push(WiredGate::padding());
            i = i + 1;
            proof {
                assert(gates@.subrange(0, old_gates.len() as int) =~= old_gates);
            }
        }
        let gates = Pow2Vec::new(gates);
        SpreadsheetStructure { gates, pcs }
    }

    /// The number of variables of the multilinear polynomials: the binary
    /// logarithm of the number of gates.
    pub fn vars(&self) -> (r: usize)
        ensures
            pow2(r as nat) == self.gates().len(),
    {
        let len = self.gates.len();
        proof {
            let k = choose|k: nat| pow2(k) == len;
            crate::math::lemma_pow2_positive(k);
        }
        let r = crate::math::ilog2(len) as usize;
        proof {
            let k = choose|k: nat| pow2(k) == len;
            if k < r {
                crate::math::lemma_pow2_monotone(k + 1, r as nat);
                crate::math::lemma_pow2_double(k);
            } else if k > r {
                crate::math::lemma_pow2_monotone((r + 1) as nat, k);
            }
        }
        r
    }

    /// The rows of the structure polynomials: the selectors of each gate.
    pub fn sumcheck_structure(&self) -> (r: Vec<Mles<Fm>>)
        ensures
            r@.len() == self.gates().len(),
            forall|i: int|
                0 <= i < r@.len() ==> {
                    &&& (#[trigger] r@[i]).selectors[0]@ == selectors_of(self.gates()[i].gate).0
                    &&& r@[i].selectors[1]@ == selectors_of(self.gates()[i].gate).1
                    &&& r@[i].table@ == 0 && r@[i].trace@ == 0
                    &&& r@[i].lookups[0]@ == 0 && r@[i].lookups[1]@ == 0 && r@[i].lookups[2]@ == 0
                },
    {
        let gates = self.gates.inner();
        let mut rows: Vec<Mles<Fm>> = Vec::new();
        let mut i: usize = 0;
        while i < gates.len()
            invariant
                gates@ == self.gates(),
                i <= gates@.len(),
                rows@.len() == i,
                forall|j: int|
                    0 <= j < i ==> {
                        &&& (#[trigger] rows@[j]).selectors[0]@ == selectors_of(gates@[j].gate).0
                        &&& rows@[j].selectors[1]@ == selectors_of(gates@[j].gate).1
                        &&& rows@[j].table@ == 0 && rows@[j].trace@ == 0
                        &&& rows@[j].lookups[0]@ == 0 && rows@[j].lookups[1]@ == 0
                            && rows@[j].lookups[2]@ == 0
                    },
            decreases gates@.len() - i,
        {
            let selectors = match gates[i].gate() {
                GateType::Add => [Fm::one(), Fm::zero()],
                GateType::Eq => [Fm::zero(), Fm::one()],
                GateType::Nop => [Fm::zero(), Fm::zero()],
            };
            let zero = Fm::zero();
            rows.push(Mles { table: zero, trace: zero, selectors, lookups: [zero, zero, zero] });
            i = i + 1;
        }
        rows
    }

    /// The rows of the witness polynomials: each row holds its entry of the
    /// data table and of the trace, the selectors of its gate, and the values
    /// of this gate's variables.
    pub fn witness(&self, data: &[Fm], trace: &[Fm]) -> (r: Vec<Mles<Fm>>)
        requires
            forall|i: int|
                0 <= i < self.gates().len() ==> var_in(#[trigger] self.gates()[i].io[0], data@.len(), trace@.len())
                    && var_in(self.gates()[i].io[1], data@.len(), trace@.len()) && var_in(
                    self.gates()[i].io[2],
                    data@.len(),
                    trace@.len(),
                ),
        ensures
            r@.len() == self.gates().len(),
            forall|i: int|
                0 <= i < r@.len() ==> {
                    &&& (#[trigger] r@[i]).selectors[0]@ == selectors_of(self.gates()[i].gate).0
                    &&& r@[i].selectors[1]@ == selectors_of(self.gates()[i].gate).1
                    &&& r@[i].table@ == if i < data@.len() { data@[i]@ } else { 0 }
                    &&& r@[i].trace@ == if i < trace@.len() { trace@[i]@ } else { 0 }
                    &&& r@[i].lookups[0]@ == value_of(self.gates()[i].io[0], data@, trace@)
                    &&& r@[i].lookups[1]@ == value_of(self.gates()[i].io[1], data@, trace@)
                    &&& r@[i].lookups[2]@ == value_of(self.gates()[i].io[2], data@, trace@)
                },
    {
        let structure = self.sumcheck_structure();
        let gates = self.gates.inner();
        let mut rows: Vec<Mles<Fm>> = Vec::new();
        let mut i: usize = 0;
        while i < structure.len()
            invariant
                gates@ == self.gates(),
                structure@.len() == gates@.len(),
                forall|j: int|
                    0 <= j < structure@.len() ==> {
                        &&& (#[trigger] structure@[j]).selectors[0]@ == selectors_of(gates@[j].gate).0
                        &&& structure@[j].selectors[1]@ == selectors_of(gates@[j].gate).1
                        &&& structure@[j].table@ == 0 && structure@[j].trace@ == 0
                    },
                forall|j: int|
                    0 <= j < gates@.len() ==> var_in(#[trigger] gates@[j].io[0], data@.len(), trace@.len())
                        && var_in(gates@[j].io[1], data@.len(), trace@.len()) && var_in(
                        gates@[j].io[2],
                        data@.len(),
                        trace@.len(),
                    ),
                i <= structure@.len(),
                rows@.len() == i,
                forall|j: int|
                    0 <= j < i ==> {
                        &&& (#[trigger] rows@[j]).selectors[0]@ == selectors_of(gates@[j].gate).0
                        &&& rows@[j].selectors[1]@ == selectors_of(gates@[j].gate).1
                        &&& rows@[j].table@ == if j < data@.len() { data@[j]@ } else { 0 }
                        &&& rows@[j].trace@ == if j < trace@.len() { trace@[j]@ } else { 0 }
                        &&& rows@[j].lookups[0]@ == value_of(gates@[j].io[0], data@, trace@)
                        &&& rows@[j].lookups[1]@ == value_of(gates@[j].io[1], data@, trace@)
                        &&& rows@[j].lookups[2]@ == value_of(gates@[j].io[2], data@, trace@)
                    },
            decreases structure@.len() - i,
        {
            let mut row = structure[i];
            if i < data.len() {
                row.table = data[i];
            }
            if i < trace.len() {
                row.trace = trace[i];
            }
            let io = gates[i].io();
            assert(var_in(gates@[i as int].io[0], data@.len(), trace@.len()));
            row.lookups = [lookup_value(&io[0], data, trace), lookup_value(&io[1], data, trace), lookup_value(&io[2], data, trace)];
            rows.push(row);
            i = i + 1;
        }
        rows
    }
}

/// The value of `var` in the data or the trace.
fn lookup_value(var: &Var, data: &[Fm], trace: &[Fm]) -> (r: Fm)
    requires
        var_in(*var, data@.len(), trace@.len()),
    ensures
        r@ == value_of(*var, data@, trace@),
{
    match var.1 {
        DataOrTrace::Data => data[var.0],
        DataOrTrace::Trace => trace[var.0],
    }
}

impl<F, C: CommitmentScheme> SpreadsheetRelation<F, C> {
    /// Whether `witness` satisfies the circuit of `structure` and is what
    /// the instance commits to: the lengths agree, the structure's scheme
    /// commits the witness to `instance`, and the data with its computed
    /// trace satisfies every gate.
    pub fn check(
        structure: &SpreadsheetStructure<C>,
        instance: &C::Commitment,
        witness: &Pow2Vec<Fm>,
    ) -> (r: bool)
        requires
            witness@.len() == structure.gates().len() ==> wires_ok(
                structure.gates(),
                witness@.len(),
            ),
        ensures
            r == {
                &&& witness@.len() == structure.gates().len()
                &&& structure.scheme().commit_spec(values(witness@)) == *instance
                &&& forall|i: int|
                    0 <= i < structure.gates().len() ==> #[trigger] gate_holds(
                        structure.gates(),
                        witness@,
                        i,
                    )
            },
    {
        if witness.inner().len() != structure.gates.inner().len() {
            return false;
        }
        let expected = structure.pcs.commit_mle(witness.inner());
        if !structure.pcs.same_commitment(&expected, instance) {
            return false;
        }
        WiredGate::check(structure.gates.inner(), witness.inner())
    }
}

} // verus!
