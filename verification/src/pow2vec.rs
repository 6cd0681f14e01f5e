//! A vector whose length is always a power of two.
use crate::math::{is_next_power_of_two, is_power_of_two, max_usize_pow2, next_power_of_two};
use vstd::prelude::*;

verus! {

/// A `Vec<T>` wrapper which only allows the length to be a power of two.
#[derive(Debug)]
pub struct Pow2Vec<T>(Vec<T>);

impl<T> View for Pow2Vec<T> {
    type V = Seq<T>;

    closed spec fn view(&self) -> Seq<T> {
        self.0@
    }
}

impl<T> Pow2Vec<T> {
    #[verifier::type_invariant]
    spec fn power_of_two_len(self) -> bool {
        is_power_of_two(self.0@.len())
    }

    /// The length of every `Pow2Vec` is a power of two.
    pub fn len(&self) -> (r: usize)
        ensures
            r == self@.len(),
            is_power_of_two(r as nat),
    {
        proof {
            use_type_invariant(self);
        }
        self.0.len()
    }

    /// Wraps `items`, whose length must be a power of two.
    pub fn new(items: Vec<T>) -> (r: Self)
        requires
            is_power_of_two(items@.len()),
        ensures
            r@ == items@,
    {
        Pow2Vec(items)
    }

    /// The items as a slice.
    pub fn inner(&self) -> (r: &[T])
        ensures
            r@ == self@,
            is_power_of_two(r@.len()),
    {
        proof {
            use_type_invariant(self);
        }
        self.0.as_slice()
    }

    /// The items as a vector.
    pub fn into_inner(self) -> (r: Vec<T>)
        ensures
            r@ == self@,
            is_power_of_two(r@.len()),
    {
        proof {
            use_type_invariant(&self);
        }
        self.0
    }
}

impl<T: Clone> Pow2Vec<T> {
    /// Doubles the length, filling the new half with clones of `value`.
    pub fn extend(&mut self, value: T)
        requires
            old(self)@.len() * 2 <= usize::MAX,
        ensures
            final(self)@.len() == 2 * old(self)@.len(),
            final(self)@.subrange(0, old(self)@.len() as int) == old(self)@,
            forall|i: int|
                old(self)@.len() <= i < final(self)@.len() ==> cloned::<T>(value, #[trigger] final(self)@[i]),
    {
        proof {
            use_type_invariant(&*self);
        }
        let len = self.0.len();
        proof {
            let k = choose|k: nat| vstd::arithmetic::power2::pow2(k) == len;
            crate::math::lemma_pow2_double(k);
            crate::math::lemma_pow2_positive(k);
            assert(vstd::arithmetic::power2::pow2(k + 1) == len * 2);
            assert(is_power_of_two((len * 2) as nat));
        }
        proof {
            crate::math::lemma_pow2_zero();
        }
        let mut old_items = Pow2Vec(vec![value.clone()]);
        std::mem::swap(self, &mut old_items);
        let Pow2Vec(mut items) = old_items;
        items.resize(len * 2, value);
        *self = Pow2Vec(items);
    }

    /// Splits into the lower and the upper half.
    pub fn split(&self) -> (r: (Self, Self))
        requires
            self@.len() >= 2,
        ensures
            r.0@.len() == self@.len() / 2,
            r.1@.len() == self@.len() / 2,
            forall|i: int| 0 <= i < r.0@.len() ==> cloned::<T>(self@[i], #[trigger] r.0@[i]),
            forall|i: int|
                0 <= i < r.1@.len() ==> cloned::<T>(self@[i + self@.len() / 2], #[trigger] r.1@[i]),
    {
        proof {
            use_type_invariant(self);
        }
        let len = self.0.len();
        let half = len / 2;
        let mut left: Vec<T> = Vec::new();
        let mut right: Vec<T> = Vec::new();
        let mut i: usize = 0;
        while i < half
            invariant
                half == len / 2,
                len == self@.len(),
                i <= half,
                left@.len() == i,
                right@.len() == i,
                forall|j: int| 0 <= j < i ==> cloned::<T>(self@[j], #[trigger] left@[j]),
                forall|j: int| 0 <= j < i ==> cloned::<T>(self@[j + half], #[trigger] right@[j]),
            decreases half - i,
        {
            left.push(self.0[i].clone());
            right.push(self.0[i + half].clone());
            i = i + 1;
        }
        proof {
            let k = choose|k: nat| vstd::arithmetic::power2::pow2(k) == len;
            if k == 0 {
                crate::math::lemma_pow2_zero();
            }
            crate::math::lemma_pow2_double((k - 1) as nat);
            assert(vstd::arithmetic::power2::pow2((k - 1) as nat) == half);
        }
        (Pow2Vec(left), Pow2Vec(right))
    }

    /// Copies `slice` and pads it with clones of `pad_with` up to the next
    /// power of two.
    pub fn from_padded_slice(slice: &[T], pad_with: T) -> (r: Self)
        requires
            slice@.len() <= max_usize_pow2(),
        ensures
            is_next_power_of_two(slice@.len(), r@.len()),
            forall|i: int| 0 <= i < slice@.len() ==> cloned::<T>(slice@[i], #[trigger] r@[i]),
            forall|i: int| slice@.len() <= i < r@.len() ==> cloned::<T>(pad_with, #[trigger] r@[i]),
    {
        let len = next_power_of_two(slice.len());
        let mut items: Vec<T> = Vec::new();
        let mut i: usize = 0;
        while i < len
            invariant
                is_next_power_of_two(slice@.len(), len as nat),
                i <= len,
                items@.len() == i,
                forall|j: int| 0 <= j < i && j < slice@.len() ==> cloned::<T>(slice@[j], #[trigger] items@[j]),
                forall|j: int| slice@.len() <= j < i ==> cloned::<T>(pad_with, #[trigger] items@[j]),
            decreases len - i,
        {
            if i < slice.len() {
                items.push(slice[i].clone());
            } else {
                items.push(pad_with.clone());
            }
            i = i + 1;
        }
        Pow2Vec(items)
    }
}

} // verus!
