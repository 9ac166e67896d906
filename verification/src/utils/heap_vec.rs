//! A fixed-capacity list: length tracking, insert-at-index and
//! remove-at-index by shifting, and push/pop at the tail, on top of storage
//! whose capacity is fixed at construction time.
//!
//! Exceeding the capacity, or indexing out of range, is an unrecoverable
//! programming error by design; those inputs are excluded by the
//! preconditions here, so every verified caller must prove them away.

use vstd::prelude::*;

verus! {

use vstd::pervasive::VecAdditionalExecFns;

/// Failure modes of list construction.
#[derive(Debug, Clone, Copy, PartialEq, Eq)]
pub enum HeapVecError {
    /// The underlying buffer could not be constructed.
    HeapArrayError,
}

/// Fixed-capacity growable list. The live elements are the first `len` slots
/// of a buffer of `cap` slots; slots past the live length are logically
/// absent.
pub struct HeapVec<T> {
    data: Vec<T>,
    cap: usize,
}

impl<T> View for HeapVec<T> {
    type V = Seq<T>;

    closed spec fn view(&self) -> Seq<T> {
        self.data@
    }
}

impl<T> HeapVec<T> {
    /// The fixed slot count chosen at construction.
    pub closed spec fn cap_spec(&self) -> usize {
        self.cap
    }

    /// The live length never exceeds the capacity.
    pub open spec fn wf(&self) -> bool {
        self@.len() <= self.cap_spec()
    }

    /// An empty list over freshly obtained storage of `cap` slots.
    pub fn new(cap: usize) -> (r: Result<Self, HeapVecError>)
        ensures
            r is Ok,
            (r matches Ok(v) ==> v@.len() == 0 && v.cap_spec() == cap),
    {
        Ok(Self { data: Vec::new(), cap })
    }

    /// An empty list over caller-placed storage of `cap` slots standing at
    /// address `ptr`; construction from existing storage cannot fail.
    #[allow(unused_variables)]
    pub fn new_with_ptr(ptr: usize, cap: usize) -> (r: Self)
        ensures
            r@.len() == 0,
            r.cap_spec() == cap,
    {
        Self { data: Vec::new(), cap }
    }

    /// Number of live elements.
    pub fn len(&self) -> (r: usize)
        ensures
            r == self@.len(),
    {
        self.data.len()
    }

    /// The fixed capacity.
    pub fn cap(&self) -> (r: usize)
        ensures
            r == self.cap_spec(),
    {
        self.cap
    }

    /// Shifts the suffix `[index, len)` one slot toward the end and writes
    /// `elem` at `index`. Capacity overrun or an index past the length is a
    /// fatal caller error, excluded by precondition.
    pub fn insert(&mut self, index: usize, elem: T)
        requires
            old(self)@.len() < old(self).cap_spec(),
            index <= old(self)@.len(),
        ensures
            final(self)@ == old(self)@.insert(index as int, elem),
            final(self).cap_spec() == old(self).cap_spec(),
    {
        self.data.insert(index, elem);
    }

    /// Reads the element at `index` out, shifts `[index + 1, len)` one slot
    /// toward the front, and decrements the length. An index past the live
    /// length is a fatal caller error, excluded by precondition.
    pub fn remove(&mut self, index: usize) -> (r: T)
        requires
            index < old(self)@.len(),
        ensures
            r == old(self)@[index as int],
            final(self)@ == old(self)@.remove(index as int),
            final(self).cap_spec() == old(self).cap_spec(),
    {
        self.data.remove(index)
    }

    /// Insert at the tail boundary.
    pub fn push(&mut self, elem: T)
        requires
            old(self)@.len() < old(self).cap_spec(),
        ensures
            final(self)@ == old(self)@.push(elem),
            final(self).cap_spec() == old(self).cap_spec(),
    {
        let len = self.data.len();
        self.insert(len, elem);
        proof {
            assert(self@ =~= old(self)@.push(elem));
        }
    }

    /// Remove at the tail boundary, index `len - 1`.
    pub fn pop(&mut self) -> (r: T)
        requires
            old(self)@.len() >= 1,
        ensures
            r == old(self)@.last(),
            final(self)@ == old(self)@.drop_last(),
            final(self).cap_spec() == old(self).cap_spec(),
    {
        let len = self.data.len();
        let r = self.remove(len - 1);
        proof {
            assert(self@ =~= old(self)@.drop_last());
        }
        r
    }

    /// Bounds-checked read of the live element at `i`.
    pub fn get(&self, i: usize) -> (r: Option<T>) where T: Copy
        ensures
            i < self@.len() ==> r == Some(self@[i as int]),
            i >= self@.len() ==> r is None,
    {
        if i < self.data.len() {
            Some(self.data[i])
        } else {
            None
        }
    }

    /// Overwrites the live element at `i` in place.
    pub fn set(&mut self, i: usize, value: T)
        requires
            i < old(self)@.len(),
        ensures
            final(self)@ == old(self)@.update(i as int, value),
            final(self).cap_spec() == old(self).cap_spec(),
    {
        self.data.set(i, value);
    }

    /// The first live element, when one exists.
    pub fn first(&self) -> (r: Option<T>) where T: Copy
        ensures
            self@.len() >= 1 ==> r == Some(self@[0]),
            self@.len() == 0 ==> r is None,
    {
        self.get(0)
    }

    /// The last live element, when one exists.
    pub fn last(&self) -> (r: Option<T>) where T: Copy
        ensures
            self@.len() >= 1 ==> r == Some(self@.last()),
            self@.len() == 0 ==> r is None,
    {
        if self.data.len() >= 1 {
            self.get(self.data.len() - 1)
        } else {
            None
        }
    }
}

} // verus!
