//! General-purpose building blocks the allocator bootstraps itself with.

pub mod heap_array;
pub mod heap_vec;
pub mod mutable_option;
pub mod non_zero_rem;
