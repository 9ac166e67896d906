//! An optional value behind one explicit initialization gate.
//!
//! Process-wide allocator state sits behind one such cell; the cell is an
//! ordinary struct mutated through `&mut`, which suffices under the kernel's
//! single-execution-context model.

use vstd::prelude::*;

verus! {

/// An optional value that can be read and replaced in place.
pub struct MutableOption<T> {
    pub value: Option<T>,
}

impl<T> MutableOption<T> {
    /// Wraps the given optional value.
    pub fn new(value: Option<T>) -> (r: Self)
        ensures
            r.value == value,
    {
        Self { value }
    }

    /// A view of the held value, when one is present.
    pub fn get(&self) -> (r: Option<&T>)
        ensures
            self.value is Some ==> (r matches Some(v) && *v == self.value.unwrap()),
            self.value is None ==> r is None,
    {
        match &self.value {
            Some(inner_value) => Some(inner_value),
            None => None,
        }
    }

    /// Replaces the held value.
    pub fn set(&mut self, value: Option<T>)
        ensures
            final(self).value == value,
    {
        self.value = value;
    }
}

} // verus!
