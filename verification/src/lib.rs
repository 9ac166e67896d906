//! Heap-memory subsystem of a minimal single-context kernel: a general-purpose
//! allocator that manages one contiguous memory region handed to it once at
//! boot, together with the growable-container primitives it bootstraps itself
//! with, and the integer colour model used by the screen driver.

pub mod alloc_sys;
pub mod utils;
pub mod vga;
