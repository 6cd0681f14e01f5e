//! Degrees of polynomials composed from multilinear ones: sums take the
//! larger degree, products add degrees, constants leave degrees unchanged.
use crate::field::Fm;
use crate::sumcheck::oracles::EvalLocation;
use vstd::prelude::*;

verus! {

/// The degree of a polynomial.
#[derive(Clone, Copy, Debug, PartialEq, Eq, Structural)]
pub struct Degree(pub usize);

/// The larger of two numbers.
pub open spec fn max_spec(a: usize, b: usize) -> usize {
    if a >= b {
        a
    } else {
        b
    }
}

impl Degree {
    /// The degree of a sum.
    pub fn add(self, rhs: &Degree) -> (r: Degree)
        ensures
            r.0 == max_spec(self.0, rhs.0),
    {
        if self.0 >= rhs.0 {
            Degree(self.0)
        } else {
            Degree(rhs.0)
        }
    }

    /// The degree of a difference.
    pub fn sub(self, rhs: &Degree) -> (r: Degree)
        ensures
            r.0 == max_spec(self.0, rhs.0),
    {
        self.add(rhs)
    }

    /// The degree of a product.
    pub fn mul(self, rhs: &Degree) -> (r: Degree)
        requires
            self.0 + rhs.0 <= usize::MAX,
        ensures
            r.0 == self.0 + rhs.0,
    {
        Degree(self.0 + rhs.0)
    }

    /// Adding a constant leaves the degree unchanged.
    pub fn add_constant(self, _rhs: Fm) -> (r: Degree)
        ensures
            r == self,
    {
        self
    }

    /// Subtracting a constant leaves the degree unchanged.
    pub fn sub_constant(self, _rhs: Fm) -> (r: Degree)
        ensures
            r == self,
    {
        self
    }

    /// Scaling by a constant leaves the degree unchanged.
    pub fn mul_constant(self, _rhs: Fm) -> (r: Degree)
        ensures
            r == self,
    {
        self
    }

    /// Accumulates a sum.
    pub fn add_assign(&mut self, rhs: &Degree)
        ensures
            final(self).0 == max_spec(old(self).0, rhs.0),
    {
        *self = self.add(rhs);
    }

    /// Scaling by a constant leaves the degree unchanged.
    pub fn mul_assign(&mut self, _rhs: Fm)
        ensures
            *final(self) == *old(self),
    {
    }
}

/// The degree of a polynomial in the variable of a sumcheck round, by where
/// its evaluations live: instance evaluations are taken as constants, the
/// structure and the witness as multilinear.
pub open spec fn location_degree(l: EvalLocation) -> usize {
    match l {
        EvalLocation::Structure => 1,
        EvalLocation::Instance => 0,
        EvalLocation::Witness => 1,
    }
}

/// The degrees the sumcheck function is evaluated on to find the degree of
/// the sumcheck polynomial: one per polynomial, by its location.
pub fn initial_degrees(locations: &[EvalLocation]) -> (r: Vec<Degree>)
    ensures
        r@.len() == locations@.len(),
        forall|s: int| 0 <= s < locations@.len() ==> (#[trigger] r@[s]).0 == location_degree(locations@[s]),
{
    let mut degrees: Vec<Degree> = Vec::new();
    let mut s: usize = 0;
    while s < locations.len()
        invariant
            s <= locations@.len(),
            degrees@.len() == s,
            forall|t: int| 0 <= t < s ==> (#[trigger] degrees@[t]).0 == location_degree(locations@[t]),
        decreases locations@.len() - s,
    {
        let d = match locations[s] {
            EvalLocation::Structure => Degree(1),
            EvalLocation::Instance => Degree(0),
            EvalLocation::Witness => Degree(1),
        };
        degrees.push(d);
        s = s + 1;
    }
    degrees
}

} // verus!
