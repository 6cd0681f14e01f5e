//! Prover messages of the sumcheck protocol: the evaluations of a univariate
//! polynomial over the domain `0..d`, with pointwise arithmetic.
use crate::field::{fadd, fmul, fsub, Fm};
use vstd::prelude::*;

verus! {

/// A message of the sumcheck protocol, represented as the evaluations of a
/// polynomial over the domain `0..d`.
#[derive(Clone, Debug)]
pub struct SumcheckMessage(pub Vec<Fm>);

/// The evaluations of a univariate polynomial over `0..d`.
#[derive(Clone, Debug)]
pub struct Message(Vec<Fm>);

/// A pointwise operation on two messages.
#[derive(Clone, Copy, Debug, PartialEq, Eq, Structural)]
pub enum MessageOp {
    Add,
    Sub,
    Mul,
}

/// The result of a pointwise operation on two values.
pub open spec fn op_spec(op: MessageOp, a: nat, b: nat) -> nat {
    match op {
        MessageOp::Add => fadd(a, b),
        MessageOp::Sub => fsub(a, b),
        MessageOp::Mul => fmul(a, b),
    }
}

impl View for Message {
    type V = Seq<Fm>;

    closed spec fn view(&self) -> Seq<Fm> {
        self.0@
    }
}

/// Entry `i` of the pointwise combination of `a` and `b`: combined where both
/// have an entry, kept from `a` past the end of `b`.
pub open spec fn bin_op_entry(op: MessageOp, a: Seq<Fm>, b: Seq<Fm>, i: int) -> nat {
    if i < b.len() {
        op_spec(op, a[i]@, b[i]@)
    } else {
        a[i]@
    }
}

impl Message {
    /// The message with the given evaluations.
    pub fn new(evals: Vec<Fm>) -> (r: Self)
        ensures
            r@ == evals@,
    {
        Message(evals)
    }

    /// Combines the entries of `self` with those of `rhs`, pointwise; entries
    /// of `self` past the end of `rhs` are kept.
    pub fn bin_op(self, rhs: &Self, op: MessageOp) -> (r: Self)
        ensures
            r@.len() == self@.len(),
            forall|i: int| 0 <= i < r@.len() ==> #[trigger] r@[i]@ == bin_op_entry(op, self@, rhs@, i),
    {
        let mut evals = self.0;
        let ghost orig = evals@;
        let mut i: usize = 0;
        while i < evals.len()
            invariant
                orig == self@,
                evals@.len() == orig.len(),
                i <= evals@.len(),
                forall|j: int| 0 <= j < i ==> #[trigger] evals@[j]@ == bin_op_entry(op, orig, rhs@, j),
                forall|j: int| i <= j < evals@.len() ==> #[trigger] evals@[j] == orig[j],
            decreases evals@.len() - i,
        {
            if i < rhs.0.len() {
                let a = evals[i];
                let b = rhs.0[i];
                let c = match op {
                    MessageOp::Add => a.add(b),
                    MessageOp::Sub => a.sub(b),
                    MessageOp::Mul => a.mul(b),
                };
                evals.set(i, c);
            }
            i = i + 1;
        }
        Message(evals)
    }

    /// The evaluation at 0.
    pub fn eval_at_0(&self) -> (r: Fm)
        requires
            self@.len() >= 1,
        ensures
            r == self@[0],
    {
        self.0[0]
    }

    /// The evaluation at 1.
    pub fn eval_at_1(&self) -> (r: Fm)
        requires
            self@.len() >= 2,
        ensures
            r == self@[1],
    {
        self.0[1]
    }

    /// Applies `op` with `rhs` to every evaluation.
    pub fn scalar_op(self, rhs: Fm, op: MessageOp) -> (r: Self)
        ensures
            r@.len() == self@.len(),
            forall|i: int| 0 <= i < r@.len() ==> #[trigger] r@[i]@ == op_spec(op, self@[i]@, rhs@),
    {
        let mut evals = self.0;
        let ghost orig = evals@;
        let mut i: usize = 0;
        while i < evals.len()
            invariant
                orig == self@,
                evals@.len() == orig.len(),
                i <= evals@.len(),
                forall|j: int| 0 <= j < i ==> #[trigger] evals@[j]@ == op_spec(op, orig[j]@, rhs@),
                forall|j: int| i <= j < evals@.len() ==> #[trigger] evals@[j] == orig[j],
            decreases evals@.len() - i,
        {
            let a = evals[i];
            let c = match op {
                MessageOp::Add => a.add(rhs),
                MessageOp::Sub => a.sub(rhs),
                MessageOp::Mul => a.mul(rhs),
            };
            evals.set(i, c);
            i = i + 1;
        }
        Message(evals)
    }

    /// Pointwise sum; entries past the end of `rhs` are kept.
    pub fn add(self, rhs: &Self) -> (r: Self)
        ensures
            r@.len() == self@.len(),
            forall|i: int|
                0 <= i < r@.len() ==> #[trigger] r@[i]@ == bin_op_entry(MessageOp::Add, self@, rhs@, i),
    {
        self.bin_op(rhs, MessageOp::Add)
    }

    /// Pointwise difference; entries past the end of `rhs` are kept.
    pub fn sub(self, rhs: &Self) -> (r: Self)
        ensures
            r@.len() == self@.len(),
            forall|i: int|
                0 <= i < r@.len() ==> #[trigger] r@[i]@ == bin_op_entry(MessageOp::Sub, self@, rhs@, i),
    {
        self.bin_op(rhs, MessageOp::Sub)
    }

    /// Pointwise product; entries past the end of `rhs` are kept.
    pub fn mul(self, rhs: &Self) -> (r: Self)
        ensures
            r@.len() == self@.len(),
            forall|i: int|
                0 <= i < r@.len() ==> #[trigger] r@[i]@ == bin_op_entry(MessageOp::Mul, self@, rhs@, i),
    {
        self.bin_op(rhs, MessageOp::Mul)
    }

    /// Multiplies every evaluation by `rhs`.
    pub fn mul_assign(&mut self, rhs: Fm)
        ensures
            final(self)@.len() == old(self)@.len(),
            forall|i: int|
                0 <= i < final(self)@.len() ==> #[trigger] final(self)@[i]@ == fmul(old(self)@[i]@, rhs@),
    {
        let mut evals = Vec::new();
        std::mem::swap(&mut evals, &mut self.0);
        *self = Message(evals).scalar_op(rhs, MessageOp::Mul);
    }

    /// Adds `rhs` pointwise; entries past the end of `rhs` are kept.
    pub fn add_assign(&mut self, rhs: &Self)
        ensures
            final(self)@.len() == old(self)@.len(),
            forall|i: int|
                0 <= i < final(self)@.len() ==> #[trigger] final(self)@[i]@ == bin_op_entry(
                    MessageOp::Add,
                    old(self)@,
                    rhs@,
                    i,
                ),
    {
        let mut evals = Vec::new();
        std::mem::swap(&mut evals, &mut self.0);
        *self = Message(evals).bin_op(rhs, MessageOp::Add);
    }
}

} // verus!
