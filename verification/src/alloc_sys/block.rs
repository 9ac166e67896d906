//! The descriptor of one live allocation within the arena's payload region.

use vstd::prelude::*;

verus! {

/// One allocation: a byte offset and byte length relative to the payload
/// base, plus a liveness flag. A descriptor with `is_active == false` is a
/// placeholder standing for a logically absent slot.
#[derive(Debug, Clone, Copy, PartialEq, Eq, Structural)]
pub struct MemoryBlock {
    pub is_active: bool,
    pub start: usize,
    pub size: usize,
}

impl MemoryBlock {
    /// One-past-the-end offset of the block, as a mathematical integer.
    pub open spec fn end_spec(&self) -> int {
        self.start + self.size
    }

    /// A live block of `size` bytes standing at offset `start`.
    pub fn new(start: usize, size: usize) -> (r: Self)
        ensures
            r == (MemoryBlock { is_active: true, start, size }),
    {
        Self { is_active: true, start, size }
    }

    /// The placeholder descriptor: inactive, zero offset, zero length.
    pub fn null() -> (r: Self)
        ensures
            r == (MemoryBlock { is_active: false, start: 0usize, size: 0usize }),
    {
        Self { is_active: false, start: 0, size: 0 }
    }

    /// One-past-the-end offset of the block.
    pub fn end(&self) -> (r: usize)
        requires
            self.start + self.size <= usize::MAX,
        ensures
            r == self.end_spec(),
    {
        self.start + self.size
    }
}

} // verus!
