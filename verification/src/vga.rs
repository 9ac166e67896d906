//! Screen-facing data model: display modes and the colour type.

use vstd::prelude::*;

pub mod color;

verus! {

use crate::utils::heap_array::HeapArrayError;

/// Failure modes of screen construction.
#[derive(Debug, Clone, Copy, PartialEq, Eq)]
pub enum VgaError {
    /// A screen buffer could not be constructed.
    HeapArrayError(HeapArrayError),
}

/// What the screen currently draws from: the character grid or the raw pixel
/// buffer.
#[derive(Debug, Clone, Copy, PartialEq, Eq, Structural)]
pub enum VgaMode {
    Text,
    Pixels,
}

} // verus!
