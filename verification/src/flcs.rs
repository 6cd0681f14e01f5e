//! Linear constraint systems with gates: expressions over the products
//! `M_i z` of the wiring matrices with the witness, the gates they form, and
//! the sumcheck polynomial that checks all of them at once.
use crate::commitment::CommitmentScheme;
use crate::field::{fadd, fmul, fsub, Fm, P};
use crate::sums::{fsum, lemma_fsum_ext};
use crate::sumcheck::protocol::{
    lemma_cong_canonical, lemma_cong_fmul, lemma_cong_mul, lemma_cong_trans, lemma_fadd_assoc,
    lemma_fmul_distributes, lemma_fsum_scale, scale_fn,
};
use crate::matrix_oracle::{mat_vec, mat_vec_product};
use crate::matrix_product::Matrix;
use crate::sumcheck::point::values;
use vstd::arithmetic::power2::pow2;
use std::collections::HashMap;
use std::marker::PhantomData;
use std::rc::Rc;
use vstd::prelude::*;

verus! {

/// An arithmetic expression over the inputs of a gate and a constant.
#[derive(Debug)]
pub enum Exp {
    /// Input `i` of its gate.
    Atom(usize),
    Add(Box<Exp>, Box<Exp>),
    Mul(Box<Exp>, Box<Exp>),
    Sub(Box<Exp>, Box<Exp>),
    /// The constant of its gate.
    Constant,
}

/// The value of an expression, given the inputs and the constant.
pub open spec fn exp_value(e: Exp, io: Seq<nat>, constant: nat) -> nat
    decreases e,
{
    match e {
        Exp::Atom(i) => io[i as int],
        Exp::Add(a, b) => fadd(exp_value(*a, io, constant), exp_value(*b, io, constant)),
        Exp::Mul(a, b) => fmul(exp_value(*a, io, constant), exp_value(*b, io, constant)),
        Exp::Sub(a, b) => fsub(exp_value(*a, io, constant), exp_value(*b, io, constant)),
        Exp::Constant => constant,
    }
}

/// Every input an expression reads is below `n`.
pub open spec fn atoms_below(e: Exp, n: nat) -> bool
    decreases e,
{
    match e {
        Exp::Atom(i) => i < n,
        Exp::Add(a, b) => atoms_below(*a, n) && atoms_below(*b, n),
        Exp::Mul(a, b) => atoms_below(*a, n) && atoms_below(*b, n),
        Exp::Sub(a, b) => atoms_below(*a, n) && atoms_below(*b, n),
        Exp::Constant => true,
    }
}

/// The expression reads the constant.
pub open spec fn uses_constant(e: Exp) -> bool
    decreases e,
{
    match e {
        Exp::Atom(_) => false,
        Exp::Add(a, b) => uses_constant(*a) || uses_constant(*b),
        Exp::Mul(a, b) => uses_constant(*a) || uses_constant(*b),
        Exp::Sub(a, b) => uses_constant(*a) || uses_constant(*b),
        Exp::Constant => true,
    }
}

/// The value of an expression, given the inputs of its gate and its
/// constant, if it has one.
pub fn eval_exp(exp: &Exp, io: &[Fm], constant: Option<Fm>) -> (r: Fm)
    requires
        atoms_below(*exp, io@.len() as nat),
        uses_constant(*exp) ==> constant is Some,
    ensures
        r@ == exp_value(*exp, values(io@), match constant {
            Some(c) => c@,
            None => 0,
        }),
    decreases exp,
{
    match exp {
        Exp::Atom(i) => io[*i],
        Exp::Add(a, b) => eval_exp(a, io, constant).add(eval_exp(b, io, constant)),
        Exp::Mul(a, b) => eval_exp(a, io, constant).mul(eval_exp(b, io, constant)),
        Exp::Sub(a, b) => eval_exp(a, io, constant).sub(eval_exp(b, io, constant)),
        Exp::Constant => match constant {
            Some(c) => c,
            None => {
                proof {
                    assert(false);
                }
                Fm::zero()
            },
        },
    }
}

/// The constraints of a gate: expressions that must vanish.
#[derive(Debug)]
pub enum Constraints {
    Constraint(Exp),
    Append(Box<Constraints>, Exp),
    Empty,
}

/// Every expression of the constraints vanishes.
pub open spec fn constraints_hold(c: Constraints, io: Seq<nat>, constant: nat) -> bool
    decreases c,
{
    match c {
        Constraints::Constraint(e) => exp_value(e, io, constant) == 0,
        Constraints::Append(rest, e) => exp_value(e, io, constant) == 0 && constraints_hold(
            *rest,
            io,
            constant,
        ),
        Constraints::Empty => true,
    }
}

/// Every expression of the constraints reads inputs below `n`, and reads the
/// constant only if there is one.
pub open spec fn constraints_ok(c: Constraints, n: nat, has_constant: bool) -> bool
    decreases c,
{
    match c {
        Constraints::Constraint(e) => atoms_below(e, n) && (uses_constant(e) ==> has_constant),
        Constraints::Append(rest, e) => atoms_below(e, n) && (uses_constant(e) ==> has_constant)
            && constraints_ok(*rest, n, has_constant),
        Constraints::Empty => true,
    }
}

/// Whether the inputs of a gate satisfy all its constraints.
pub fn check_gate(gate: &Constraints, io: &[Fm], constant: Option<Fm>) -> (r: bool)
    requires
        constraints_ok(*gate, io@.len() as nat, constant is Some),
    ensures
        r == constraints_hold(*gate, values(io@), match constant {
            Some(c) => c@,
            None => 0,
        }),
    decreases gate,
{
    match gate {
        Constraints::Constraint(exp) => eval_exp(exp, io, constant).is_zero(),
        Constraints::Append(constraints, exp) => {
            eval_exp(exp, io, constant).is_zero() && check_gate(constraints, io, constant)
        },
        Constraints::Empty => true,
    }
}

/// The polynomials of the sumcheck of a linear constraint system: the
/// products `M_i z`, the witness `w`, the public inputs and their selector,
/// the selectors of the gates, the constants and the combination challenge.
#[derive(Clone, Debug)]
pub struct FlcsEvals<V, const IO: usize, const S: usize, const I: usize> {
    /// One per wiring matrix.
    pub products: Vec<V>,
    pub w: V,
    pub inputs: V,
    pub input_selector: V,
    /// One per gate.
    pub gate_selectors: Vec<V>,
    pub constants: V,
    pub challenge: V,
}

impl<V, const IO: usize, const S: usize, const I: usize> FlcsEvals<V, IO, S, I> {
    /// One product per matrix and one selector per gate.
    pub open spec fn wf(&self) -> bool {
        &&& self.products@.len() == IO
        &&& self.gate_selectors@.len() == S
    }
}

/// A vector of `n` copies of `v`.
fn filled<V: Copy>(v: V, n: usize) -> (r: Vec<V>)
    ensures
        r@.len() == n,
        forall|k: int| 0 <= k < n ==> #[trigger] r@[k] == v,
{
    let mut res: Vec<V> = Vec::new();
    let mut k: usize = 0;
    while k < n
        invariant
            k <= n,
            res@.len() == k,
            forall|j: int| 0 <= j < k ==> #[trigger] res@[j] == v,
        decreases n - k,
    {
        res.push(v);
        k = k + 1;
    }
    res
}

impl<const IO: usize, const S: usize, const I: usize> FlcsEvals<Vec<Fm>, IO, S, I> {
    /// The coefficients known to the verifier: the public inputs and the
    /// challenge.
    pub fn coefficients(inputs: &[Fm], challenge: Fm) -> (r: Self)
        requires
            inputs@.len() == I,
        ensures
            r.wf(),
            r.inputs@ == inputs@,
            r.challenge@ == seq![challenge],
            r.w@.len() == 0 && r.input_selector@.len() == 0 && r.constants@.len() == 0,
            forall|k: int| 0 <= k < IO ==> (#[trigger] r.products@[k])@.len() == 0,
            forall|k: int| 0 <= k < S ==> (#[trigger] r.gate_selectors@[k])@.len() == 0,
    {
        let mut products: Vec<Vec<Fm>> = Vec::new();
        let mut k: usize = 0;
        while k < IO
            invariant
                k <= IO,
                products@.len() == k,
                forall|j: int| 0 <= j < k ==> (#[trigger] products@[j])@.len() == 0,
            decreases IO - k,
        {
            products.push(Vec::new());
            k = k + 1;
        }
        let mut gate_selectors: Vec<Vec<Fm>> = Vec::new();
        let mut k: usize = 0;
        while k < S
            invariant
                k <= S,
                gate_selectors@.len() == k,
                forall|j: int| 0 <= j < k ==> (#[trigger] gate_selectors@[j])@.len() == 0,
            decreases S - k,
        {
            gate_selectors.push(Vec::new());
            k = k + 1;
        }
        let mut input_values: Vec<Fm> = Vec::new();
        let mut k: usize = 0;
        while k < inputs.len()
            invariant
                k <= inputs@.len(),
                input_values@ == inputs@.take(k as int),
            decreases inputs@.len() - k,
        {
            input_values.push(inputs[k]);
            k = k + 1;
            proof {
                assert(input_values@ =~= inputs@.take(k as int));
            }
        }
        proof {
            assert(input_values@ =~= inputs@);
        }
        let mut c: Vec<Fm> = Vec::new();
        c.push(challenge);
        proof {
            assert(c@ =~= seq![challenge]);
        }
        FlcsEvals {
            products,
            w: Vec::new(),
            inputs: input_values,
            input_selector: Vec::new(),
            gate_selectors,
            constants: Vec::new(),
            challenge: c,
        }
    }
}

impl<const IO: usize, const S: usize, const I: usize> FlcsEvals<Fm, IO, S, I> {
    /// The structure polynomials of one row: whether it is a public input,
    /// the one-hot selector of its gate and its constant; all else zero.
    pub fn structure(is_input: bool, selector: usize, constant: Fm) -> (r: Self)
        ensures
            r.wf(),
            r.input_selector@ == if is_input {
                1nat
            } else {
                0nat
            },
            forall|k: int|
                0 <= k < S ==> (#[trigger] r.gate_selectors@[k])@ == if k == selector {
                    1nat
                } else {
                    0nat
                },
            r.constants == constant,
            forall|k: int| 0 <= k < IO ==> (#[trigger] r.products@[k])@ == 0,
            r.w@ == 0 && r.inputs@ == 0 && r.challenge@ == 0,
    {
        let mut gate_selectors: Vec<Fm> = Vec::new();
        let mut k: usize = 0;
        while k < S
            invariant
                k <= S,
                gate_selectors@.len() == k,
                forall|j: int|
                    0 <= j < k ==> (#[trigger] gate_selectors@[j])@ == if j == selector {
                        1nat
                    } else {
                        0nat
                    },
            decreases S - k,
        {
            if k == selector {
                gate_selectors.push(Fm::one());
            } else {
                gate_selectors.push(Fm::zero());
            }
            k = k + 1;
        }
        FlcsEvals {
            products: filled(Fm::zero(), IO),
            w: Fm::zero(),
            inputs: Fm::zero(),
            input_selector: if is_input {
                Fm::one()
            } else {
                Fm::zero()
            },
            gate_selectors,
            constants: constant,
            challenge: Fm::zero(),
        }
    }

    /// The witness polynomial.
    pub fn w(&self) -> (r: Fm)
        ensures
            r == self.w,
    {
        self.w
    }
}

impl<const IO: usize, const S: usize, const I: usize> FlcsEvals<bool, IO, S, I> {
    /// The flags of the slot of the vector the matrices multiply: the
    /// witness.
    pub fn vector() -> (r: Self)
        ensures
            r.wf(),
            r.w,
            !r.inputs && !r.input_selector && !r.constants && !r.challenge,
            forall|k: int| 0 <= k < IO ==> !(#[trigger] r.products@[k]),
            forall|k: int| 0 <= k < S ==> !(#[trigger] r.gate_selectors@[k]),
    {
        FlcsEvals {
            products: filled(false, IO),
            w: true,
            inputs: false,
            input_selector: false,
            gate_selectors: filled(false, S),
            constants: false,
            challenge: false,
        }
    }
}

/// The gates of a constraint system, each a list of expressions, and
/// whether the constraints are combined by powers of a challenge.
#[derive(Debug)]
pub struct FlcsData {
    gates: Vec<Vec<Exp>>,
    multi_constraint: bool,
}

impl FlcsData {
    /// The gates.
    pub closed spec fn gates(&self) -> Seq<Seq<Exp>> {
        self.gates@.map_values(|g: Vec<Exp>| g@)
    }

    /// Whether constraints are combined by powers of the challenge.
    pub closed spec fn multi(&self) -> bool {
        self.multi_constraint
    }

    /// The data of `gates`.
    pub fn new(gates: Vec<Vec<Exp>>, multi_constraint: bool) -> (r: Self)
        ensures
            r.gates() == gates@.map_values(|g: Vec<Exp>| g@),
            r.multi() == multi_constraint,
    {
        FlcsData { gates, multi_constraint }
    }
}

/// The value of one constraint of a gate: the product `M_0 z` minus the
/// constant for a bare constant, the expression over the products otherwise.
pub open spec fn constraint_value(c: Exp, products: Seq<nat>, constant: nat) -> nat {
    if c is Constant {
        fsub(products[0], constant)
    } else {
        exp_value(c, products, constant)
    }
}

/// One step of the combination: `acc * challenge + value * selector` when
/// the constraints are combined by powers of the challenge, `acc + value *
/// selector` otherwise.
pub open spec fn combine_step(acc: nat, value: nat, selector: nat, challenge: nat, multi: bool) -> nat {
    if multi {
        fadd(fmul(acc, challenge), fmul(value, selector))
    } else {
        fadd(acc, fmul(value, selector))
    }
}

/// The combination after the constraints of one gate.
pub open spec fn gate_fold(
    acc: nat,
    constraints: Seq<Exp>,
    selector: nat,
    products: Seq<nat>,
    constant: nat,
    challenge: nat,
    multi: bool,
) -> nat
    decreases constraints.len(),
{
    if constraints.len() == 0 {
        acc
    } else {
        combine_step(
            gate_fold(acc, constraints.drop_last(), selector, products, constant, challenge, multi),
            constraint_value(constraints.last(), products, constant),
            selector,
            challenge,
            multi,
        )
    }
}

/// The combination after the given gates.
pub open spec fn gates_fold(
    init: nat,
    gates: Seq<Seq<Exp>>,
    selectors: Seq<nat>,
    products: Seq<nat>,
    constant: nat,
    challenge: nat,
    multi: bool,
) -> nat
    decreases gates.len(),
{
    if gates.len() == 0 {
        init
    } else {
        let k = gates.len() - 1;
        gate_fold(
            gates_fold(init, gates.drop_last(), selectors, products, constant, challenge, multi),
            gates.last(),
            selectors[k],
            products,
            constant,
            challenge,
            multi,
        )
    }
}

/// The sumcheck polynomial of a constraint system at one point: the input
/// check `(inputs - w) * input_selector`, then every constraint of every gate
/// times the selector of its gate.
pub open spec fn flcs_function(
    gates: Seq<Seq<Exp>>,
    multi: bool,
    products: Seq<nat>,
    w: nat,
    inputs: nat,
    input_selector: nat,
    selectors: Seq<nat>,
    constant: nat,
    challenge: nat,
) -> nat {
    gates_fold(
        fmul(fsub(inputs, w), input_selector),
        gates,
        selectors,
        products,
        constant,
        challenge,
        multi,
    )
}

/// `c^n` in the field.
pub open spec fn fpow(c: nat, n: nat) -> nat
    decreases n,
{
    if n == 0 {
        1
    } else {
        fmul(fpow(c, (n - 1) as nat), c)
    }
}

/// `j ->` constraint `j` of a gate of `k` constraints times the selector,
/// weighted by `c^(k - 1 - j)`.
pub open spec fn power_terms(
    constraints: Seq<Exp>,
    selector: nat,
    products: Seq<nat>,
    constant: nat,
    c: nat,
    k: nat,
) -> spec_fn(int) -> nat {
    |j: int|
        fmul(
            fmul(constraint_value(constraints[j], products, constant), selector),
            fpow(c, (k - 1 - j) as nat),
        )
}

/// `j ->` constraint `j` of a gate times the selector.
pub open spec fn plain_terms(
    constraints: Seq<Exp>,
    selector: nat,
    products: Seq<nat>,
    constant: nat,
) -> spec_fn(int) -> nat {
    |j: int| fmul(constraint_value(constraints[j], products, constant), selector)
}

proof fn lemma_fmul_assoc(x: nat, y: nat, z: nat)
    ensures
        fmul(fmul(x, y), z) == fmul(x, fmul(y, z)),
{
    let (xi, yi, zi) = (x as int, y as int, z as int);
    lemma_cong_fmul(x, y);
    lemma_cong_fmul(fmul(x, y), z);
    lemma_cong_mul(fmul(x, y) as int, xi * yi, zi, zi);
    lemma_cong_trans(fmul(fmul(x, y), z) as int, fmul(x, y) as int * zi, (xi * yi) * zi);
    lemma_cong_fmul(y, z);
    lemma_cong_fmul(x, fmul(y, z));
    lemma_cong_mul(xi, xi, fmul(y, z) as int, yi * zi);
    lemma_cong_trans(fmul(x, fmul(y, z)) as int, xi * fmul(y, z) as int, xi * (yi * zi));
    assert((xi * yi) * zi == xi * (yi * zi)) by (nonlinear_arith);
    lemma_cong_canonical(fmul(fmul(x, y), z), fmul(x, fmul(y, z)));
}

/// Law: with the constraints combined by powers of the challenge, one gate
/// of `k` constraints with values `v_0, ..., v_(k-1)` and selector `s`
/// turns the running value `acc` into
/// `acc c^k + sum_j v_j s c^(k-1-j)`: every earlier value is weighted by a
/// higher power of the challenge.
pub proof fn lemma_gate_fold_powers(
    acc: nat,
    constraints: Seq<Exp>,
    selector: nat,
    products: Seq<nat>,
    constant: nat,
    c: nat,
)
    requires
        acc < P,
    ensures
        gate_fold(acc, constraints, selector, products, constant, c, true) == fadd(
            fmul(acc, fpow(c, constraints.len())),
            fsum(
                power_terms(constraints, selector, products, constant, c, constraints.len()),
                constraints.len(),
            ),
        ),
    decreases constraints.len(),
{
    let k = constraints.len();
    if k == 0 {
        assert(acc * 1 == acc);
        vstd::arithmetic::div_mod::lemma_small_mod(acc, P as nat);
    } else {
        let kk = (k - 1) as nat;
        let prev = constraints.drop_last();
        lemma_gate_fold_powers(acc, prev, selector, products, constant, c);
        let tp = power_terms(prev, selector, products, constant, c, kk);
        let tk = power_terms(constraints, selector, products, constant, c, k);
        let sp = fsum(tp, kk);
        let v = fmul(constraint_value(constraints.last(), products, constant), selector);
        // earlier terms gain a factor c
        assert forall|j: int| 0 <= j < kk implies #[trigger] tk(j) == scale_fn(tp, c)(j) by {
            assert(prev[j] == constraints[j]);
            assert(fpow(c, (k - 1 - j) as nat) == fmul(fpow(c, (kk - 1 - j) as nat), c));
            lemma_fmul_assoc(
                fmul(constraint_value(constraints[j], products, constant), selector),
                fpow(c, (kk - 1 - j) as nat),
                c,
            );
        }
        lemma_fsum_ext(tk, scale_fn(tp, c), kk);
        lemma_fsum_scale(tp, c, kk);
        // the last term has weight c^0 = 1
        assert(v * 1 == v);
        vstd::arithmetic::div_mod::lemma_small_mod(v, P as nat);
        assert(tk(kk as int) == v);
        assert(fsum(tk, k) == fadd(fsum(tk, kk), v));
        // acc c^(k-1) c = acc c^k
        lemma_fmul_assoc(acc, fpow(c, kk), c);
        lemma_fmul_distributes(fmul(acc, fpow(c, kk)), sp, c);
        lemma_fadd_assoc(fmul(acc, fpow(c, k)), fmul(sp, c), v);
    }
}

/// Law: with the constraints simply added up, one gate with values
/// `v_0, ..., v_(k-1)` and selector `s` adds `sum_j v_j s` to the running
/// value.
pub proof fn lemma_gate_fold_plain(
    acc: nat,
    constraints: Seq<Exp>,
    selector: nat,
    products: Seq<nat>,
    constant: nat,
    c: nat,
)
    requires
        acc < P,
    ensures
        gate_fold(acc, constraints, selector, products, constant, c, false) == fadd(
            acc,
            fsum(plain_terms(constraints, selector, products, constant), constraints.len()),
        ),
    decreases constraints.len(),
{
    let k = constraints.len();
    if k == 0 {
        vstd::arithmetic::div_mod::lemma_small_mod(acc, P as nat);
    } else {
        let kk = (k - 1) as nat;
        let prev = constraints.drop_last();
        lemma_gate_fold_plain(acc, prev, selector, products, constant, c);
        assert forall|j: int| 0 <= j < kk implies #[trigger] plain_terms(
            constraints,
            selector,
            products,
            constant,
        )(j) == plain_terms(prev, selector, products, constant)(j) by {
            assert(prev[j] == constraints[j]);
        }
        lemma_fsum_ext(
            plain_terms(constraints, selector, products, constant),
            plain_terms(prev, selector, products, constant),
            kk,
        );
        lemma_fadd_assoc(
            acc,
            fsum(plain_terms(prev, selector, products, constant), kk),
            fmul(constraint_value(constraints.last(), products, constant), selector),
        );
    }
}

/// Law: the sumcheck polynomial of a single gate of `k` constraints in
/// multi-constraint mode is `i0 c^k + sum_j v_j s c^(k-1-j)`, with `i0` the
/// input check `(inputs - w) * input_selector`: it changes with the
/// challenge as soon as an earlier term does not vanish.
pub proof fn lemma_flcs_function_single_gate(
    gate: Seq<Exp>,
    products: Seq<nat>,
    w: nat,
    inputs: nat,
    input_selector: nat,
    selector: nat,
    constant: nat,
    c: nat,
)
    ensures
        flcs_function(seq![gate], true, products, w, inputs, input_selector, seq![selector], constant, c)
            == fadd(
            fmul(fmul(fsub(inputs, w), input_selector), fpow(c, gate.len())),
            fsum(power_terms(gate, selector, products, constant, c, gate.len()), gate.len()),
        ),
{
    let init = fmul(fsub(inputs, w), input_selector);
    let gates = seq![gate];
    assert(gates.drop_last() =~= Seq::<Seq<Exp>>::empty());
    assert(gates_fold(init, gates.drop_last(), seq![selector], products, constant, c, true) == init);
    lemma_gate_fold_powers(init, gate, selector, products, constant, c);
}

/// The gates read products below `IO`, a bare constant needs a product, and
/// there is a selector per gate.
pub open spec fn gates_ok(gates: Seq<Seq<Exp>>, io: nat, s: nat) -> bool {
    &&& gates.len() <= s
    &&& forall|i: int, k: int|
        0 <= i < gates.len() && 0 <= k < gates[i].len() ==> {
            &&& atoms_below(#[trigger] gates[i][k], io)
            &&& (gates[i][k] is Constant ==> io >= 1)
        }
}

impl<const IO: usize, const S: usize, const I: usize> FlcsEvals<Fm, IO, S, I> {
    /// The sumcheck polynomial at one point.
    pub fn function(data: &FlcsData, evals: &Self) -> (r: Fm)
        requires
            evals.wf(),
            gates_ok(data.gates(), IO as nat, S as nat),
        ensures
            r@ == flcs_function(
                data.gates(),
                data.multi(),
                values(evals.products@),
                evals.w@,
                evals.inputs@,
                evals.input_selector@,
                values(evals.gate_selectors@),
                evals.constants@,
                evals.challenge@,
            ),
    {
        let ghost gates = data.gates();
        let ghost products = values(evals.products@);
        let ghost selectors = values(evals.gate_selectors@);
        let ghost init = fmul(fsub(evals.inputs@, evals.w@), evals.input_selector@);
        let mut acc = evals.inputs.sub(evals.w).mul(evals.input_selector);
        let mut i: usize = 0;
        proof {
            assert(gates.take(0) =~= Seq::<Seq<Exp>>::empty());
        }
        while i < data.gates.len()
            invariant
                i <= data.gates@.len(),
                gates == data.gates(),
                gates.len() == data.gates@.len(),
                evals.wf(),
                gates_ok(gates, IO as nat, S as nat),
                products == values(evals.products@),
                selectors == values(evals.gate_selectors@),
                acc@ == gates_fold(
                    init,
                    gates.take(i as int),
                    selectors,
                    products,
                    evals.constants@,
                    evals.challenge@,
                    data.multi(),
                ),
            decreases data.gates@.len() - i,
        {
            let constraints = &data.gates[i];
            let selector = evals.gate_selectors[i];
            let ghost before = acc@;
            proof {
                assert(constraints@ == gates[i as int]);
                assert(constraints@.take(0) =~= Seq::<Exp>::empty());
            }
            let mut k: usize = 0;
            while k < constraints.len()
                invariant
                    k <= constraints@.len(),
                    i < gates.len(),
                    constraints@ == gates[i as int],
                    evals.wf(),
                    gates_ok(gates, IO as nat, S as nat),
                    products == values(evals.products@),
                    selector@ == selectors[i as int],
                    acc@ == gate_fold(
                        before,
                        constraints@.take(k as int),
                        selector@,
                        products,
                        evals.constants@,
                        evals.challenge@,
                        data.multi(),
                    ),
                decreases constraints@.len() - k,
            {
                let constraint = &constraints[k];
                proof {
                    assert(gates[i as int][k as int] == *constraint);
                }
                let value = match constraint {
                    Exp::Constant => evals.products[0].sub(evals.constants),
                    _ => eval_exp(constraint, evals.products.as_slice(), Some(evals.constants)),
                };
                if data.multi_constraint {
                    acc = acc.mul(evals.challenge).add(value.mul(selector));
                } else {
                    acc = acc.add(value.mul(selector));
                }
                proof {
                    let t = constraints@.take(k + 1);
                    assert(t.drop_last() =~= constraints@.take(k as int));
                    assert(t.last() == *constraint);
                }
                k = k + 1;
            }
            proof {
                assert(constraints@.take(constraints@.len() as int) =~= constraints@);
                let t = gates.take(i + 1);
                assert(t.drop_last() =~= gates.take(i as int));
                assert(t.last() == gates[i as int]);
            }
            i = i + 1;
        }
        proof {
            assert(gates.take(gates.len() as int) =~= gates);
        }
        acc
    }
}

/// The sumcheck witness of a constraint system: each row of `structure` with
/// the witness `w`, the public inputs at the first rows, and the products
/// `M_i w` of the wiring matrices with the witness.
pub fn compute_sumcheck_witness<const IO: usize, const S: usize, const I: usize>(
    structure: &[FlcsEvals<Fm, IO, S, I>],
    matrices: &[Rc<Matrix>],
    witness: &[Fm],
    inputs: &[Fm],
) -> (r: Vec<FlcsEvals<Fm, IO, S, I>>)
    requires
        matrices@.len() == IO,
        forall|k: int| 0 <= k < structure@.len() ==> (#[trigger] structure@[k]).wf(),
        forall|m: int| 0 <= m < IO ==> (#[trigger] matrices@[m]).fits(witness@.len() as nat),
    ensures
        r@.len() == if structure@.len() < witness@.len() {
            structure@.len()
        } else {
            witness@.len()
        },
        forall|k: int|
            0 <= k < r@.len() ==> {
                &&& (#[trigger] r@[k]).wf()
                &&& r@[k].w == witness@[k]
                &&& r@[k].inputs == if k < inputs@.len() {
                    inputs@[k]
                } else {
                    structure@[k].inputs
                }
                &&& r@[k].input_selector == structure@[k].input_selector
                &&& r@[k].gate_selectors@ == structure@[k].gate_selectors@
                &&& r@[k].constants == structure@[k].constants
                &&& r@[k].challenge == structure@[k].challenge
                &&& forall|m: int|
                    0 <= m < IO ==> (#[trigger] r@[k].products@[m])@ == mat_vec(
                        matrices@[m].ones(),
                        values(witness@),
                    )[k]
            },
{
    let mut products: Vec<Vec<Fm>> = Vec::new();
    let mut m: usize = 0;
    while m < matrices.len()
        invariant
            m <= IO,
            matrices@.len() == IO,
            forall|c: int| 0 <= c < IO ==> (#[trigger] matrices@[c]).fits(witness@.len() as nat),
            products@.len() == m,
            forall|c: int|
                0 <= c < m ==> {
                    &&& (#[trigger] products@[c])@.len() == witness@.len()
                    &&& forall|k: int|
                        0 <= k < witness@.len() ==> (#[trigger] products@[c]@[k])@ == mat_vec(
                            matrices@[c].ones(),
                            values(witness@),
                        )[k]
                },
        decreases IO - m,
    {
        let matrix: &Matrix = &matrices[m];
        let product = mat_vec_product(matrix, witness);
        products.push(product);
        m = m + 1;
    }
    let n = if structure.len() < witness.len() {
        structure.len()
    } else {
        witness.len()
    };
    let mut res: Vec<FlcsEvals<Fm, IO, S, I>> = Vec::new();
    let mut k: usize = 0;
    while k < n
        invariant
            k <= n,
            n <= structure@.len(),
            n <= witness@.len(),
            products@.len() == IO,
            forall|c: int|
                0 <= c < IO ==> {
                    &&& (#[trigger] products@[c])@.len() == witness@.len()
                    &&& forall|j: int|
                        0 <= j < witness@.len() ==> (#[trigger] products@[c]@[j])@ == mat_vec(
                            matrices@[c].ones(),
                            values(witness@),
                        )[j]
                },
            forall|j: int| 0 <= j < structure@.len() ==> (#[trigger] structure@[j]).wf(),
            res@.len() == k,
            forall|j: int|
                0 <= j < k ==> {
                    &&& (#[trigger] res@[j]).wf()
                    &&& res@[j].w == witness@[j]
                    &&& res@[j].inputs == if j < inputs@.len() {
                        inputs@[j]
                    } else {
                        structure@[j].inputs
                    }
                    &&& res@[j].input_selector == structure@[j].input_selector
                    &&& res@[j].gate_selectors@ == structure@[j].gate_selectors@
                    &&& res@[j].constants == structure@[j].constants
                    &&& res@[j].challenge == structure@[j].challenge
                    &&& forall|c: int|
                        0 <= c < IO ==> (#[trigger] res@[j].products@[c])@ == mat_vec(
                            matrices@[c].ones(),
                            values(witness@),
                        )[j]
                },
        decreases n - k,
    {
        let row = &structure[k];
        let mut row_products: Vec<Fm> = Vec::new();
        let mut c: usize = 0;
        while c < IO
            invariant
                c <= IO,
                k < n,
                n <= witness@.len(),
                products@.len() == IO,
                forall|d: int|
                    0 <= d < IO ==> {
                        &&& (#[trigger] products@[d])@.len() == witness@.len()
                        &&& forall|j: int|
                            0 <= j < witness@.len() ==> (#[trigger] products@[d]@[j])@ == mat_vec(
                                matrices@[d].ones(),
                                values(witness@),
                            )[j]
                    },
                row_products@.len() == c,
                forall|d: int|
                    0 <= d < c ==> (#[trigger] row_products@[d])@ == mat_vec(
                        matrices@[d].ones(),
                        values(witness@),
                    )[k as int],
            decreases IO - c,
        {
            row_products.push(products[c][k]);
            c = c + 1;
        }
        let mut selectors: Vec<Fm> = Vec::new();
        let mut c: usize = 0;
        while c < row.gate_selectors.len()
            invariant
                c <= row.gate_selectors@.len(),
                selectors@ == row.gate_selectors@.take(c as int),
            decreases row.gate_selectors@.len() - c,
        {
            selectors.push(row.gate_selectors[c]);
            c = c + 1;
            proof {
                assert(selectors@ =~= row.gate_selectors@.take(c as int));
            }
        }
        proof {
            assert(selectors@ =~= row.gate_selectors@);
        }
        let input = if k < inputs.len() {
            inputs[k]
        } else {
            row.inputs
        };
        res.push(
            FlcsEvals {
                products: row_products,
                w: witness[k],
                inputs: input,
                input_selector: row.input_selector,
                gate_selectors: selectors,
                constants: row.constants,
                challenge: row.challenge,
            },
        );
        k = k + 1;
    }
    res
}

/// A constraint system with gates: the wiring matrices, which gate each
/// row has, the number of public inputs, the gates' constraints, the length
/// of the trace, the number of variables of the witness and the constants of
/// the rows that have one.
#[derive(Debug)]
pub struct CcsStructure {
    pub io_matrices: Vec<Matrix>,
    pub gate_selectors: Vec<usize>,
    pub input_len: usize,
    pub gates: Vec<Constraints>,
    pub trace_len: usize,
    pub vars: usize,
    pub constants: HashMap<usize, Fm>,
}

/// The public part of a committed constraint system instance: the witness
/// commitment and the public inputs.
#[derive(Clone, Debug)]
pub struct ClcsInstance<D> {
    pub witness_commit: D,
    pub public_inputs: Vec<Fm>,
}

impl<D> ClcsInstance<D> {
    /// The public inputs.
    pub fn public_inputs(&self) -> (r: &[Fm])
        ensures
            r@ == self.public_inputs@,
    {
        self.public_inputs.as_slice()
    }
}

/// The inputs of row `r` of a gate: entry `r` of each product `M_k z`, or
/// zeros past the last row.
pub open spec fn row_io(matrices: Seq<Matrix>, z: Seq<nat>, r: int) -> Seq<nat> {
    Seq::new(
        matrices.len(),
        |k: int|
            if r < z.len() {
                mat_vec(matrices[k].ones(), z)[r]
            } else {
                0
            },
    )
}

/// The constant of row `i`, zero if it has none.
pub open spec fn row_constant(constants: Map<usize, Fm>, i: int) -> nat {
    if constants.contains_key(i as usize) {
        constants[i as usize]@
    } else {
        0
    }
}

/// The gates a structure refers to exist, and read inputs and constants it
/// has.
pub open spec fn ccs_ok(s: CcsStructure, witness_len: nat) -> bool {
    &&& forall|m: int| 0 <= m < s.io_matrices@.len() ==> (#[trigger] s.io_matrices@[m]).fits(witness_len)
    &&& forall|i: int|
        0 <= i < s.gate_selectors@.len() ==> {
            &&& (#[trigger] s.gate_selectors@[i]) < s.gates@.len()
            &&& constraints_ok(
                s.gates@[s.gate_selectors@[i] as int],
                s.io_matrices@.len() as nat,
                s.constants@.contains_key(i as usize),
            )
        }
}

/// The relation of a committed constraint system: the witness is committed,
/// starts with the public inputs and satisfies each row's gate.
#[derive(Debug)]
pub struct ClcsRelation<C, const I: usize>(PhantomData<C>);

impl<C: CommitmentScheme, const I: usize> ClcsRelation<C, I> {
    /// Whether `witness` has the instance's commitment under `pcs`, has
    /// `2^vars` entries, the instance has `I` public inputs and the witness
    /// begins with them, and the witness satisfies the
    /// constraints of each row's gate on the inputs of that row.
    pub fn check(
        pcs: &C,
        structure: &CcsStructure,
        instance: &ClcsInstance<C::Commitment>,
        witness: &Vec<Fm>,
    ) -> (r: bool)
        requires
            ccs_ok(*structure, witness@.len() as nat),
            pow2(structure.vars as nat) <= usize::MAX,
        ensures
            r == {
                &&& pcs.commit_spec(values(witness@)) == instance.witness_commit
                &&& witness@.len() == pow2(structure.vars as nat)
                &&& structure.input_len == I
                &&& instance.public_inputs@.len() == I
                &&& forall|k: int|
                    0 <= k < witness@.len() && k < instance.public_inputs@.len() ==> (
                    #[trigger] witness@[k]) == instance.public_inputs@[k]
                &&& forall|i: int|
                    0 <= i < structure.gate_selectors@.len() ==> constraints_hold(
                        structure.gates@[(#[trigger] structure.gate_selectors@[i]) as int],
                        row_io(structure.io_matrices@, values(witness@), i),
                        row_constant(structure.constants@, i),
                    )
            },
    {
        broadcast use vstd::std_specs::hash::group_hash_axioms;

        let expected = pcs.commit_mle(witness.as_slice());
        if !pcs.same_commitment(&expected, &instance.witness_commit) {
            return false;
        }
        let mut size: usize = 1;
        let mut v: usize = 0;
        proof {
            crate::math::lemma_pow2_zero();
        }
        while v < structure.vars
            invariant
                v <= structure.vars,
                pow2(structure.vars as nat) <= usize::MAX,
                size as nat == pow2(v as nat),
            decreases structure.vars - v,
        {
            proof {
                crate::math::lemma_pow2_double(v as nat);
                crate::math::lemma_pow2_monotone((v + 1) as nat, structure.vars as nat);
            }
            size = size * 2;
            v = v + 1;
        }
        if witness.len() != size {
            return false;
        }
        if structure.input_len != I {
            return false;
        }
        if instance.public_inputs.len() != I {
            return false;
        }
        let mut k: usize = 0;
        while k < witness.len() && k < instance.public_inputs.len()
            invariant
                k <= witness@.len(),
                forall|j: int|
                    0 <= j < k && j < instance.public_inputs@.len() ==> (#[trigger] witness@[j])
                        == instance.public_inputs@[j],
            decreases witness@.len() - k,
        {
            if !witness[k].equals(&instance.public_inputs[k]) {
                return false;
            }
            k = k + 1;
        }
        let mut products: Vec<Vec<Fm>> = Vec::new();
        let mut m: usize = 0;
        while m < structure.io_matrices.len()
            invariant
                m <= structure.io_matrices@.len(),
                ccs_ok(*structure, witness@.len() as nat),
                products@.len() == m,
                forall|c: int|
                    0 <= c < m ==> {
                        &&& (#[trigger] products@[c])@.len() == witness@.len()
                        &&& forall|j: int|
                            0 <= j < witness@.len() ==> (#[trigger] products@[c]@[j])@ == mat_vec(
                                structure.io_matrices@[c].ones(),
                                values(witness@),
                            )[j]
                    },
            decreases structure.io_matrices@.len() - m,
        {
            let product = mat_vec_product(&structure.io_matrices[m], witness.as_slice());
            products.push(product);
            m = m + 1;
        }
        let mut i: usize = 0;
        while i < structure.gate_selectors.len()
            invariant
                i <= structure.gate_selectors@.len(),
                ccs_ok(*structure, witness@.len() as nat),
                products@.len() == structure.io_matrices@.len(),
                forall|c: int|
                    0 <= c < products@.len() ==> {
                        &&& (#[trigger] products@[c])@.len() == witness@.len()
                        &&& forall|j: int|
                            0 <= j < witness@.len() ==> (#[trigger] products@[c]@[j])@ == mat_vec(
                                structure.io_matrices@[c].ones(),
                                values(witness@),
                            )[j]
                    },
                forall|g: int|
                    0 <= g < i ==> constraints_hold(
                        structure.gates@[(#[trigger] structure.gate_selectors@[g]) as int],
                        row_io(structure.io_matrices@, values(witness@), g),
                        row_constant(structure.constants@, g),
                    ),
            decreases structure.gate_selectors@.len() - i,
        {
            let mut io: Vec<Fm> = Vec::new();
            let mut c: usize = 0;
            while c < products.len()
                invariant
                    c <= products@.len(),
                    products@.len() == structure.io_matrices@.len(),
                    forall|d: int|
                        0 <= d < products@.len() ==> {
                            &&& (#[trigger] products@[d])@.len() == witness@.len()
                            &&& forall|j: int|
                                0 <= j < witness@.len() ==> (#[trigger] products@[d]@[j])@
                                    == mat_vec(
                                    structure.io_matrices@[d].ones(),
                                    values(witness@),
                                )[j]
                        },
                    io@.len() == c,
                    forall|d: int|
                        0 <= d < c ==> (#[trigger] io@[d])@ == row_io(
                            structure.io_matrices@,
                            values(witness@),
                            i as int,
                        )[d],
                decreases products@.len() - c,
            {
                if i < witness.len() {
                    io.push(products[c][i]);
                } else {
                    io.push(Fm::zero());
                }
                c = c + 1;
            }
            proof {
                assert(values(io@) =~= row_io(structure.io_matrices@, values(witness@), i as int));
            }
            let constant: Option<Fm> = match structure.constants.get(&i) {
                Some(c) => Some(*c),
                None => None,
            };
            let selector = structure.gate_selectors[i];
            let gate = &structure.gates[selector];
            if !check_gate(gate, io.as_slice(), constant) {
                return false;
            }
            i = i + 1;
        }
        true
    }
}

/// The index of the highest set bit of `x`, and `0` for `x <= 1`.
pub open spec fn highest_bit(x: nat) -> nat
    decreases x,
{
    if x <= 1 {
        0
    } else {
        1 + highest_bit(x / 2)
    }
}

/// A number is below the power of two after its highest bit.
proof fn lemma_highest_bit_bound(x: nat)
    ensures
        x < pow2(highest_bit(x) + 1),
    decreases x,
{
    crate::math::lemma_pow2_zero();
    crate::math::lemma_pow2_double(0);
    if x > 1 {
        lemma_highest_bit_bound(x / 2);
        crate::math::lemma_pow2_double(highest_bit(x / 2) + 1);
    }
}

/// The index of the highest set bit of `x`, `0` for `0`.
fn highest_one_or_zero(x: usize) -> (r: u32)
    ensures
        r == highest_bit(x as nat),
        r < 64,
{
    let mut m: usize = x;
    let mut h: u32 = 0;
    proof {
        lemma_highest_bit_below(x as nat);
    }
    while m > 1
        invariant
            highest_bit(x as nat) == h + highest_bit(m as nat),
            h + highest_bit(m as nat) < 64,
        decreases m,
    {
        m = m / 2;
        h = h + 1;
    }
    h
}

/// The highest bit of a `usize` is below 64.
proof fn lemma_highest_bit_below(x: nat)
    requires
        x <= usize::MAX,
    ensures
        highest_bit(x) < 64,
{
    vstd::arithmetic::power2::lemma2_to64();
    vstd::arithmetic::power2::lemma2_to64_rest();
    if highest_bit(x) >= 64 {
        lemma_highest_bit_low(x);
        crate::math::lemma_pow2_monotone(64, highest_bit(x));
    }
}

/// A number is at least the power of two of its highest bit.
proof fn lemma_highest_bit_low(x: nat)
    requires
        x >= 1,
    ensures
        pow2(highest_bit(x)) <= x,
    decreases x,
{
    crate::math::lemma_pow2_zero();
    if x > 1 {
        lemma_highest_bit_low(x / 2);
        crate::math::lemma_pow2_double(highest_bit(x / 2));
    }
}

/// The largest row index among the ones of a matrix, `0` without ones.
pub open spec fn max_row(ones: Seq<(usize, usize)>) -> nat
    decreases ones.len(),
{
    if ones.len() == 0 {
        0
    } else {
        let prev = max_row(ones.drop_last());
        if ones.last().0 as nat > prev {
            ones.last().0 as nat
        } else {
            prev
        }
    }
}

/// The largest column index among the ones of a matrix, `0` without ones.
pub open spec fn max_col(ones: Seq<(usize, usize)>) -> nat
    decreases ones.len(),
{
    if ones.len() == 0 {
        0
    } else {
        let prev = max_col(ones.drop_last());
        if ones.last().1 as nat > prev {
            ones.last().1 as nat
        } else {
            prev
        }
    }
}

/// Every position is within the maxima.
proof fn lemma_max_bounds(ones: Seq<(usize, usize)>)
    ensures
        forall|k: int|
            0 <= k < ones.len() ==> (#[trigger] ones[k]).0 <= max_row(ones) && ones[k].1 <= max_col(
                ones,
            ),
    decreases ones.len(),
{
    if ones.len() > 0 {
        lemma_max_bounds(ones.drop_last());
        assert forall|k: int| 0 <= k < ones.len() - 1 implies #[trigger] ones[k] == ones.drop_last()[k] by {}
    }
}

/// The address of the one at `(x, y)`: `x + y 2^(h + 1)`, `h` being the
/// highest bit of the largest row index.
pub open spec fn spark_address(x: nat, y: nat, row_bits: nat) -> nat {
    x + y * pow2(row_bits + 1)
}

/// The addresses of the entries of the sparse polynomial of a matrix, one
/// per one of the matrix.
pub open spec fn spark_addresses(ones: Seq<(usize, usize)>) -> Seq<nat> {
    let h = highest_bit(max_row(ones));
    Seq::new(ones.len(), |k: int| spark_address(ones[k].0 as nat, ones[k].1 as nat, h))
}

/// The entries of a sparse polynomial are value one at `addresses`.
pub open spec fn entries_at(entries: Seq<(u64, Fm)>, addresses: Seq<nat>) -> bool {
    &&& entries.len() == addresses.len()
    &&& forall|k: int|
        0 <= k < entries.len() ==> (#[trigger] entries[k]).0 as nat == addresses[k] && entries[k].1@
            == 1
}

/// The sparse polynomials of the wiring matrices, as polynomials of 64
/// variables: the ones of a matrix at `(x, y)` become entries of value one
/// at address `x + y 2^(h + 1)`, `h` being the highest bit of the largest row.
pub fn spark_structure(matrices: &[Matrix]) -> (r: Vec<crate::spark::FlexibleSparkStructure<()>>)
    requires
        forall|m: int|
            0 <= m < matrices@.len() ==> highest_bit(max_row((#[trigger] matrices@[m]).ones()))
                + highest_bit(max_col(matrices@[m].ones())) <= 62,
    ensures
        r@.len() == matrices@.len(),
        forall|m: int|
            0 <= m < matrices@.len() ==> entries_at(
                (#[trigger] r@[m]).entries(),
                spark_addresses(matrices@[m].ones()),
            ),
{
    let mut res: Vec<crate::spark::FlexibleSparkStructure<()>> = Vec::new();
    let mut m: usize = 0;
    while m < matrices.len()
        invariant
            m <= matrices@.len(),
            forall|c: int|
                0 <= c < matrices@.len() ==> highest_bit(max_row((#[trigger] matrices@[c]).ones()))
                    + highest_bit(max_col(matrices@[c].ones())) <= 62,
            res@.len() == m,
            forall|c: int|
                0 <= c < m ==> entries_at(
                    (#[trigger] res@[c]).entries(),
                    spark_addresses(matrices@[c].ones()),
                ),
        decreases matrices@.len() - m,
    {
        let entries = spark_entries(&matrices[m]);
        res.push(crate::spark::FlexibleSparkStructure::new(Rc::new(entries), ()));
        m = m + 1;
    }
    res
}

/// The entries of the sparse polynomial of one matrix.
fn spark_entries(matrix: &Matrix) -> (r: Vec<(u64, Fm)>)
    requires
        highest_bit(max_row(matrix.ones())) + highest_bit(max_col(matrix.ones())) <= 62,
    ensures
        entries_at(r@, spark_addresses(matrix.ones())),
{
    let ones = matrix.iter();
    let mut x_max: usize = 0;
    let mut y_max: usize = 0;
    let mut k: usize = 0;
    proof {
        assert(ones@.take(0) =~= Seq::<(usize, usize)>::empty());
    }
    while k < ones.len()
        invariant
            k <= ones@.len(),
            x_max == max_row(ones@.take(k as int)),
            y_max == max_col(ones@.take(k as int)),
        decreases ones@.len() - k,
    {
        let (x, y) = ones[k];
        proof {
            let t = ones@.take(k + 1);
            assert(t.drop_last() =~= ones@.take(k as int));
            assert(t.last() == (x, y));
        }
        if x > x_max {
            x_max = x;
        }
        if y > y_max {
            y_max = y;
        }
        k = k + 1;
    }
    proof {
        assert(ones@.take(ones@.len() as int) =~= ones@);
        lemma_max_bounds(ones@);
        lemma_highest_bit_bound(x_max as nat);
        lemma_highest_bit_bound(y_max as nat);
    }
    let hx = highest_one_or_zero(x_max);
    let hy = highest_one_or_zero(y_max);
    let shift: u64 = (hx + 1) as u64;
    let ghost bound = pow2((hx + hy + 2) as nat);
    proof {
        vstd::arithmetic::power2::lemma_pow2_adds((hx + 1) as nat, (hy + 1) as nat);
        crate::math::lemma_pow2_monotone((hx + hy + 2) as nat, 64);
        vstd::arithmetic::power2::lemma2_to64_rest();
    }
    let mut entries: Vec<(u64, Fm)> = Vec::new();
    let mut k: usize = 0;
    while k < ones.len()
        invariant
            k <= ones@.len(),
            ones@ == matrix.ones(),
            hx == highest_bit(max_row(ones@)),
            hy == highest_bit(max_col(ones@)),
            hx + hy <= 62,
            shift == hx + 1,
            pow2((hx + 1) as nat) * pow2((hy + 1) as nat) == pow2((hx + hy + 2) as nat),
            pow2((hx + hy + 2) as nat) <= pow2(64),
            pow2(64) == 0x1_0000_0000_0000_0000,
            forall|c: int|
                0 <= c < ones@.len() ==> (#[trigger] ones@[c]).0 < pow2((hx + 1) as nat) && ones@[c].1
                    < pow2((hy + 1) as nat),
            entries@.len() == k,
            forall|c: int|
                0 <= c < k ==> (#[trigger] entries@[c]).0 as nat == spark_addresses(ones@)[c]
                    && entries@[c].1@ == 1,
        decreases ones@.len() - k,
    {
        let (x, y) = ones[k];
        let ghost px = pow2((hx + 1) as nat);
        let ghost py = pow2((hy + 1) as nat);
        proof {
            assert((y as nat) * px + (x as nat) < py * px) by (nonlinear_arith)
                requires
                    (y as nat) < py,
                    (x as nat) < px,
            ;
            assert(py * px == px * py) by (nonlinear_arith);
            vstd::bits::lemma_u64_shl_is_mul(y as u64, shift);
        }
        let addr: u64 = (x as u64) + ((y as u64) << shift);
        entries.push((addr, Fm::one()));
        k = k + 1;
    }
    entries
}

/// Which gate row `i` selects, or `s` (no gate) past the selectors.
pub open spec fn row_selector(selectors: Seq<usize>, i: int, s: nat) -> nat {
    if i < selectors.len() {
        selectors[i] as nat
    } else {
        s
    }
}

/// The structure polynomials of a constraint system, one row per entry of
/// the witness: the rows of the trace say whether they are public inputs,
/// select their gate and hold their constant; the padding rows, up to
/// `2^vars`, are all zero.
pub fn flcs_structure<const IO: usize, const S: usize, const I: usize>(ccs: &CcsStructure) -> (r: Vec<
    FlcsEvals<Fm, IO, S, I>,
>)
    requires
        pow2(ccs.vars as nat) <= usize::MAX,
    ensures
        r@.len() == pow2(ccs.vars as nat),
        forall|i: int|
            0 <= i < r@.len() ==> {
                let in_trace = i < ccs.trace_len;
                &&& (#[trigger] r@[i]).wf()
                &&& r@[i].input_selector@ == if in_trace && i < ccs.input_len {
                    1nat
                } else {
                    0nat
                }
                &&& forall|k: int|
                    0 <= k < S ==> (#[trigger] r@[i].gate_selectors@[k])@ == if in_trace && k
                        == row_selector(ccs.gate_selectors@, i, S as nat) {
                        1nat
                    } else {
                        0nat
                    }
                &&& r@[i].constants@ == if in_trace {
                    row_constant(ccs.constants@, i)
                } else {
                    0
                }
                &&& forall|k: int| 0 <= k < IO ==> (#[trigger] r@[i].products@[k])@ == 0
                &&& r@[i].w@ == 0 && r@[i].inputs@ == 0 && r@[i].challenge@ == 0
            },
{
    broadcast use vstd::std_specs::hash::group_hash_axioms;

    let mut size: usize = 1;
    let mut v: usize = 0;
    proof {
        crate::math::lemma_pow2_zero();
    }
    while v < ccs.vars
        invariant
            v <= ccs.vars,
            pow2(ccs.vars as nat) <= usize::MAX,
            size as nat == pow2(v as nat),
        decreases ccs.vars - v,
    {
        proof {
            crate::math::lemma_pow2_double(v as nat);
            crate::math::lemma_pow2_monotone((v + 1) as nat, ccs.vars as nat);
        }
        size = size * 2;
        v = v + 1;
    }
    let mut mles: Vec<FlcsEvals<Fm, IO, S, I>> = Vec::new();
    let mut i: usize = 0;
    while i < size
        invariant
            i <= size,
            size as nat == pow2(ccs.vars as nat),
            mles@.len() == i,
            forall|j: int|
                0 <= j < i ==> {
                    let in_trace = j < ccs.trace_len;
                    &&& (#[trigger] mles@[j]).wf()
                    &&& mles@[j].input_selector@ == if in_trace && j < ccs.input_len {
                        1nat
                    } else {
                        0nat
                    }
                    &&& forall|k: int|
                        0 <= k < S ==> (#[trigger] mles@[j].gate_selectors@[k])@ == if in_trace
                            && k == row_selector(ccs.gate_selectors@, j, S as nat) {
                            1nat
                        } else {
                            0nat
                        }
                    &&& mles@[j].constants@ == if in_trace {
                        row_constant(ccs.constants@, j)
                    } else {
                        0
                    }
                    &&& forall|k: int| 0 <= k < IO ==> (#[trigger] mles@[j].products@[k])@ == 0
                    &&& mles@[j].w@ == 0 && mles@[j].inputs@ == 0 && mles@[j].challenge@ == 0
                },
        decreases size - i,
    {
        let row = if i < ccs.trace_len {
            let is_input = i < ccs.input_len;
            let selector = if i < ccs.gate_selectors.len() {
                ccs.gate_selectors[i]
            } else {
                S
            };
            let constant = match ccs.constants.get(&i) {
                Some(c) => *c,
                None => Fm::zero(),
            };
            FlcsEvals::structure(is_input, selector, constant)
        } else {
            FlcsEvals::structure(false, S, Fm::zero())
        };
        mles.push(row);
        i = i + 1;
    }
    mles
}

/// The expressions of a gate's constraints, in the order they were added.
pub open spec fn constraint_list(c: Constraints) -> Seq<Exp>
    decreases c,
{
    match c {
        Constraints::Constraint(e) => seq![e],
        Constraints::Append(rest, e) => constraint_list(*rest).push(e),
        Constraints::Empty => Seq::empty(),
    }
}

/// The constraints hold exactly when every expression of the list vanishes.
pub proof fn lemma_constraint_list(c: Constraints, io: Seq<nat>, constant: nat)
    ensures
        constraints_hold(c, io, constant) <==> forall|k: int|
            0 <= k < constraint_list(c).len() ==> exp_value(
                #[trigger] constraint_list(c)[k],
                io,
                constant,
            ) == 0,
    decreases c,
{
    match c {
        Constraints::Constraint(e) => {
            assert(constraint_list(c)[0] == e);
        },
        Constraints::Append(rest, e) => {
            lemma_constraint_list(*rest, io, constant);
            let l = constraint_list(*rest);
            assert forall|k: int| 0 <= k < l.len() implies #[trigger] constraint_list(c)[k] == l[k] by {}
            if constraints_hold(c, io, constant) {
            } else {
                if exp_value(e, io, constant) != 0 {
                    assert(constraint_list(c)[l.len() as int] == e);
                } else {
                    let k = choose|k: int|
                        0 <= k < l.len() && exp_value(#[trigger] l[k], io, constant) != 0;
                    assert(constraint_list(c)[k] == l[k]);
                }
            }
        },
        Constraints::Empty => {},
    }
}

/// A copy of an expression.
pub fn copy_exp(e: &Exp) -> (r: Exp)
    ensures
        r == *e,
    decreases e,
{
    match e {
        Exp::Atom(i) => Exp::Atom(*i),
        Exp::Add(a, b) => Exp::Add(Box::new(copy_exp(a)), Box::new(copy_exp(b))),
        Exp::Mul(a, b) => Exp::Mul(Box::new(copy_exp(a)), Box::new(copy_exp(b))),
        Exp::Sub(a, b) => Exp::Sub(Box::new(copy_exp(a)), Box::new(copy_exp(b))),
        Exp::Constant => Exp::Constant,
    }
}

/// The expressions of a gate's constraints.
pub fn constraints_to_list(c: &Constraints) -> (r: Vec<Exp>)
    ensures
        r@ == constraint_list(*c),
    decreases c,
{
    match c {
        Constraints::Constraint(e) => {
            let mut v: Vec<Exp> = Vec::new();
            v.push(copy_exp(e));
            proof {
                assert(v@ =~= seq![*e]);
            }
            v
        },
        Constraints::Append(rest, e) => {
            let mut v = constraints_to_list(rest);
            v.push(copy_exp(e));
            v
        },
        Constraints::Empty => Vec::new(),
    }
}

impl FlcsData {
    /// The data of the sumcheck of a constraint system: the expressions of
    /// each gate, each constraint weighted by its own gate selector alone.
    pub fn from_ccs(ccs: &CcsStructure) -> (r: Self)
        ensures
            r.gates().len() == ccs.gates@.len(),
            forall|g: int|
                0 <= g < ccs.gates@.len() ==> #[trigger] r.gates()[g] == constraint_list(
                    ccs.gates@[g],
                ),
            !r.multi(),
    {
        let mut gates: Vec<Vec<Exp>> = Vec::new();
        let mut g: usize = 0;
        while g < ccs.gates.len()
            invariant
                g <= ccs.gates@.len(),
                gates@.len() == g,
                forall|h: int| 0 <= h < g ==> (#[trigger] gates@[h])@ == constraint_list(ccs.gates@[h]),
            decreases ccs.gates@.len() - g,
        {
            gates.push(constraints_to_list(&ccs.gates[g]));
            g = g + 1;
        }
        FlcsData::new(gates, false)
    }
}

/// A combination that starts at zero stays zero when every value it adds
/// is weighted by zero or vanishes.
proof fn lemma_gate_fold_zero(
    constraints: Seq<Exp>,
    selector: nat,
    products: Seq<nat>,
    constant: nat,
    challenge: nat,
    multi: bool,
)
    requires
        forall|k: int|
            0 <= k < constraints.len() ==> selector == 0 || constraint_value(
                #[trigger] constraints[k],
                products,
                constant,
            ) == 0,
    ensures
        gate_fold(0, constraints, selector, products, constant, challenge, multi) == 0,
    decreases constraints.len(),
{
    if constraints.len() > 0 {
        let l = constraints.drop_last();
        assert forall|k: int| 0 <= k < l.len() implies selector == 0 || constraint_value(
            #[trigger] l[k],
            products,
            constant,
        ) == 0 by {
            assert(l[k] == constraints[k]);
        }
        lemma_gate_fold_zero(l, selector, products, constant, challenge, multi);
        let v = constraint_value(constraints.last(), products, constant);
        assert(selector == 0 || v == 0);
        crate::field::lemma_field_identities(v);
        crate::field::lemma_field_identities(selector);
        crate::field::lemma_field_identities(challenge);
    }
}

/// All gates keep a zero combination zero.
proof fn lemma_gates_fold_zero(
    gates: Seq<Seq<Exp>>,
    selectors: Seq<nat>,
    products: Seq<nat>,
    constant: nat,
    challenge: nat,
    multi: bool,
)
    requires
        forall|g: int, k: int|
            0 <= g < gates.len() && 0 <= k < gates[g].len() ==> selectors[g] == 0
                || constraint_value(#[trigger] gates[g][k], products, constant) == 0,
    ensures
        gates_fold(0, gates, selectors, products, constant, challenge, multi) == 0,
    decreases gates.len(),
{
    if gates.len() > 0 {
        let l = gates.drop_last();
        assert forall|g: int, k: int| 0 <= g < l.len() && 0 <= k < l[g].len() implies selectors[g]
            == 0 || constraint_value(#[trigger] l[g][k], products, constant) == 0 by {
            assert(l[g] == gates[g]);
        }
        lemma_gates_fold_zero(l, selectors, products, constant, challenge, multi);
        let last = gates.last();
        assert forall|k: int| 0 <= k < last.len() implies selectors[gates.len() - 1] == 0
            || constraint_value(#[trigger] last[k], products, constant) == 0 by {
            assert(gates[gates.len() - 1] == last);
        }
        lemma_gate_fold_zero(
            last,
            selectors[gates.len() - 1],
            products,
            constant,
            challenge,
            multi,
        );
    }
}

/// No constraint of any gate is a bare constant.
pub open spec fn no_bare_constant(gates: Seq<Constraints>) -> bool {
    forall|s: int, k: int|
        0 <= s < gates.len() && 0 <= k < constraint_list(gates[s]).len() ==> !(
        #[trigger] constraint_list(gates[s])[k] is Constant)
}

/// A witness satisfies a constraint system: it has `2^vars` entries,
/// starts with the `I` public inputs, and every row's gate holds on the row.
pub open spec fn ccs_satisfied(ccs: CcsStructure, witness: Seq<Fm>, public_inputs: Seq<Fm>) -> bool {
    &&& witness.len() == pow2(ccs.vars as nat)
    &&& public_inputs.len() == ccs.input_len
    &&& forall|k: int|
        0 <= k < witness.len() && k < public_inputs.len() ==> #[trigger] witness[k]
            == public_inputs[k]
    &&& forall|i: int|
        0 <= i < ccs.gate_selectors@.len() ==> constraints_hold(
            ccs.gates@[(#[trigger] ccs.gate_selectors@[i]) as int],
            row_io(ccs.io_matrices@, values(witness), i),
            row_constant(ccs.constants@, i),
        )
}

/// The sumcheck polynomial of a satisfied constraint system vanishes on the
/// hypercube: at every row `i` of the witness, with the products
/// `(M_k w)[i]`, the public input of the row, and the structure of the row
/// (its input flag, the one-hot selector of its gate and its constant), the
/// input check and every constraint of every gate weighted by its selector
/// sum to zero, whatever the challenge.
pub proof fn lemma_satisfied_rows_vanish(
    ccs: CcsStructure,
    witness: Seq<Fm>,
    public_inputs: Seq<Fm>,
    s: nat,
    challenge: nat,
    multi: bool,
    i: int,
)
    requires
        ccs_satisfied(ccs, witness, public_inputs),
        ccs.gates@.len() <= s,
        no_bare_constant(ccs.gates@),
        0 <= i < witness.len(),
    ensures
        flcs_function(
            Seq::new(ccs.gates@.len(), |g: int| constraint_list(ccs.gates@[g])),
            multi,
            Seq::new(
                ccs.io_matrices@.len(),
                |k: int| mat_vec(ccs.io_matrices@[k].ones(), values(witness))[i],
            ),
            witness[i]@,
            if i < public_inputs.len() {
                public_inputs[i]@
            } else {
                0
            },
            if i < ccs.trace_len && i < ccs.input_len {
                1
            } else {
                0
            },
            Seq::new(
                s,
                |k: int|
                    if i < ccs.trace_len && k == row_selector(ccs.gate_selectors@, i, s) {
                        1nat
                    } else {
                        0nat
                    },
            ),
            if i < ccs.trace_len {
                row_constant(ccs.constants@, i)
            } else {
                0
            },
            challenge,
        ) == 0,
{
    let gates = Seq::new(ccs.gates@.len(), |g: int| constraint_list(ccs.gates@[g]));
    let z = values(witness);
    let products = Seq::new(
        ccs.io_matrices@.len(),
        |k: int| mat_vec(ccs.io_matrices@[k].ones(), z)[i],
    );
    let in_trace = i < ccs.trace_len;
    let selectors = Seq::new(
        s,
        |k: int|
            if in_trace && k == row_selector(ccs.gate_selectors@, i, s) {
                1nat
            } else {
                0nat
            },
    );
    let constant = if in_trace {
        row_constant(ccs.constants@, i)
    } else {
        0
    };
    let inputs = if i < public_inputs.len() {
        public_inputs[i]@
    } else {
        0
    };
    let input_selector: nat = if in_trace && i < ccs.input_len {
        1
    } else {
        0
    };
    assert(fmul(fsub(inputs, witness[i]@), input_selector) == 0) by {
        if input_selector == 1 {
            assert(witness[i] == public_inputs[i]);
            witness[i].lemma_view_bound();
            crate::field::lemma_fsub_zero_iff(inputs, witness[i]@);
            crate::field::lemma_field_identities(1);
        } else {
            crate::field::lemma_field_identities(fsub(inputs, witness[i]@));
        }
    }
    assert(row_io(ccs.io_matrices@, z, i) =~= products);
    assert forall|g: int, k: int| 0 <= g < gates.len() && 0 <= k < gates[g].len() implies selectors[g]
        == 0 || constraint_value(#[trigger] gates[g][k], products, constant) == 0 by {
        if selectors[g] != 0 {
            assert(in_trace && g == row_selector(ccs.gate_selectors@, i, s));
            assert(i < ccs.gate_selectors@.len()) by {
                if i >= ccs.gate_selectors@.len() {
                    assert(g == s);
                }
            }
            assert(ccs.gate_selectors@[i] as int == g);
            assert(constraints_hold(
                ccs.gates@[(ccs.gate_selectors@[i]) as int],
                row_io(ccs.io_matrices@, z, i),
                row_constant(ccs.constants@, i),
            ));
            lemma_constraint_list(ccs.gates@[g], products, constant);
            assert(gates[g] == constraint_list(ccs.gates@[g]));
            assert(!(gates[g][k] is Constant));
        }
    }
    lemma_gates_fold_zero(gates, selectors, products, constant, challenge, multi);
}

} // verus!
