//! Small safe-abstraction types that ship alongside the calculator: a growable
//! container with checked access, and an integer that is non-negative by
//! construction.

use vstd::prelude::*;

verus! {

/// A growable container over owned items with checked access.
pub struct SafeContainer<T> {
    data: Vec<T>,
}

impl<T> SafeContainer<T> {
    /// The items held, in insertion order.
    pub closed spec fn view(&self) -> Seq<T> {
        self.data@
    }

    /// An empty container.
    pub fn new() -> (r: Self)
        ensures
            r@ == Seq::<T>::empty(),
    {
        SafeContainer { data: Vec::new() }
    }

    /// The item at `index`, or nothing when the index is out of bounds.
    pub fn get(&self, index: usize) -> (r: Option<&T>)
        ensures
            index < self@.len() ==> (r matches Some(v) && *v == self@[index as int]),
            index >= self@.len() ==> r is None,
    {
        self.data.get(index)
    }

    /// Appends one item at the end.
    pub fn push(&mut self, item: T)
        ensures
            final(self)@ == old(self)@.push(item),
    {
        self.data.push(item);
    }
}

/// A number that is non-negative by construction.
#[derive(Clone, Copy, Debug, PartialEq, Eq, Structural)]
pub struct NonNegativeNumber(u32);

impl NonNegativeNumber {
    /// The value held.
    pub closed spec fn view(&self) -> int {
        self.0 as int
    }

    /// Accepts a non-negative value and rejects a negative one.
    pub fn new(value: i32) -> (r: Option<Self>)
        ensures
            value >= 0 ==> (r matches Some(v) && v@ == value as int),
            value < 0 ==> r is None,
    {
        if value >= 0 {
            Some(NonNegativeNumber(value as u32))
        } else {
            None
        }
    }

    /// The value held.
    pub fn get(&self) -> (r: u32)
        ensures
            r as int == self@,
    {
        self.0
    }
}

} // verus!
