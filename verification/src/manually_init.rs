//! A cell that is made empty and filled later, once the value is known.
//!
//! Its contents are an `Option`: empty after `new`, full after `new_with` or
//! `init`.  Reading or taking the value is allowed only while the cell is
//! full.  Filling goes through `&mut self`, so the borrow checker rules out a
//! read that overlaps a write.
use vstd::prelude::*;

verus! {

/// A cell that may be filled after it is made.
pub struct ManuallyInit<T> {
    value: Option<T>,
}

impl<T> View for ManuallyInit<T> {
    type V = Option<T>;

    closed spec fn view(&self) -> Option<T> {
        self.value
    }
}

impl<T> ManuallyInit<T> {
    /// An empty cell.
    pub fn new() -> (r: ManuallyInit<T>)
        ensures
            r@ is None,
    {
        ManuallyInit { value: None }
    }

    /// A cell holding `value`.
    pub fn new_with(value: T) -> (r: ManuallyInit<T>)
        ensures
            r@ == Some(value),
    {
        ManuallyInit { value: Some(value) }
    }

    /// Fills the cell with `value`, replacing what it held.
    pub fn init(&mut self, value: T)
        ensures
            final(self)@ == Some(value),
    {
        self.value = Some(value);
    }

    /// The value the cell holds.
    pub fn get(&self) -> (r: &T)
        requires
            self@ is Some,
        ensures
            Some(*r) == self@,
    {
        self.value.as_ref().unwrap()
    }

    /// The value, with the cell used up.
    pub fn into_inner(self) -> (r: T)
        requires
            self@ is Some,
        ensures
            Some(r) == self@,
    {
        self.value.unwrap()
    }

    /// Takes the value out, leaving the cell empty.
    pub fn take(&mut self) -> (r: T)
        requires
            old(self)@ is Some,
        ensures
            Some(r) == old(self)@,
            final(self)@ is None,
    {
        self.value.take().unwrap()
    }
}

} // verus!
