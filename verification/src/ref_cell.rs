//! A cell for a value that a template refers to.

use vstd::prelude::*;

verus! {

/// A cell that holds one value.
pub struct RefCell<T> {
    inner: T,
}

impl<T> View for RefCell<T> {
    type V = T;

    closed spec fn view(&self) -> T {
        self.inner
    }
}

impl<T> RefCell<T> {
    /// A cell that holds `value`.
    pub fn new(value: T) -> (cell: Self)
        ensures
            cell@ == value,
    {
        RefCell { inner: value }
    }

    /// The value held.
    pub fn get(&self) -> (value: &T)
        ensures
            *value == self@,
    {
        &self.inner
    }

    /// Puts `value` in the place of the value held.
    pub fn set(&mut self, value: T)
        ensures
            final(self)@ == value,
    {
        self.inner = value;
    }
}

} // verus!
