//! A fixed-length element buffer standing at a known base address.
//!
//! The buffer stands for a span of kernel memory that a caller placed by
//! hand. The element storage is owned directly and the base address is
//! carried alongside it as a plain integer, so that the address arithmetic
//! performed on top of the buffer can be stated and proved.

use vstd::prelude::*;

verus! {

use vstd::pervasive::VecAdditionalExecFns;

/// Failure modes of buffer construction.
#[derive(Debug, Clone, Copy, PartialEq, Eq)]
pub enum HeapArrayError {
    /// The requested layout could not be formed.
    LayoutError,
    /// The backing storage could not be obtained.
    AllocationError,
}

/// Fixed-length buffer: a base address plus the elements standing there.
pub struct HeapArray<T> {
    base: usize,
    data: Vec<T>,
}

impl<T> View for HeapArray<T> {
    type V = Seq<T>;

    closed spec fn view(&self) -> Seq<T> {
        self.data@
    }
}

impl<T> HeapArray<T> {
    /// The address the buffer stands at.
    pub closed spec fn base_spec(&self) -> usize {
        self.base
    }

    /// Wraps caller-supplied storage standing at address `ptr`. The buffer
    /// never owns more than the storage it is given, so the distinction
    /// between owned and borrowed backing memory carries no release
    /// obligation here.
    pub fn new_with_ptr(ptr: usize, storage: Vec<T>) -> (r: Self)
        requires
            ptr >= 1,
        ensures
            r.base_spec() == ptr,
            r@ == storage@,
    {
        Self { base: ptr, data: storage }
    }

    /// The base address, for address arithmetic over the buffer.
    pub fn ptr(&self) -> (r: usize)
        ensures
            r == self.base_spec(),
    {
        self.base
    }

    /// The base address of a buffer that is about to be written through.
    pub fn ptr_mut(&mut self) -> (r: usize)
        ensures
            r == old(self).base_spec(),
            *final(self) == *old(self),
    {
        self.base
    }

    /// Number of elements in the buffer.
    pub fn len(&self) -> (r: usize)
        ensures
            r == self@.len(),
    {
        self.data.len()
    }

    /// Bounds-checked read: the element at `i`, or nothing when `i` is out of
    /// range.
    pub fn get(&self, i: usize) -> (r: Option<T>) where T: Copy
        ensures
            i < self@.len() ==> r == Some(self@[i as int]),
            i >= self@.len() ==> r is None,
    {
        if i < self.data.len() {
            Some(self.data[i])
        } else {
            None
        }
    }

    /// Bounds-checked write: stores `value` at `i` and reports whether `i` was
    /// in range; an out-of-range write leaves the buffer untouched.
    pub fn set(&mut self, i: usize, value: T) -> (r: bool)
        ensures
            i < old(self)@.len() ==> r && final(self)@ == old(self)@.update(i as int, value),
            i >= old(self)@.len() ==> !r && *final(self) == *old(self),
            final(self).base_spec() == old(self).base_spec(),
    {
        if i < self.data.len() {
            self.data.set(i, value);
            true
        } else {
            false
        }
    }
}

} // verus!
