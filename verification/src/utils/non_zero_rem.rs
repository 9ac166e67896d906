//! A remainder that is never zero: where `self % rhs` would be `0`, the
//! divisor itself is handed back instead. The allocator uses it to round a
//! base address up to an alignment boundary without a zero special case.

use vstd::prelude::*;

verus! {

/// Remainder with the zero case mapped to the divisor.
pub trait NonZeroRem: Sized {
    /// What the operation yields, stated over the implementing type.
    spec fn non_zero_rem_spec(self, rhs: Self) -> Self;

    /// The inputs the operation is defined on.
    spec fn non_zero_rem_valid(self, rhs: Self) -> bool;

    /// `self % rhs`, except that a zero remainder becomes `rhs`.
    fn non_zero_rem(self, rhs: Self) -> (r: Self)
        requires
            self.non_zero_rem_valid(rhs),
        ensures
            r == self.non_zero_rem_spec(rhs),
    ;
}

impl NonZeroRem for usize {
    open spec fn non_zero_rem_spec(self, rhs: usize) -> usize {
        if self % rhs == 0 {
            rhs
        } else {
            self % rhs
        }
    }

    open spec fn non_zero_rem_valid(self, rhs: usize) -> bool {
        self >= 1 && rhs >= 1
    }

    fn non_zero_rem(self, rhs: usize) -> usize {
        let r = self % rhs;
        if r == 0 {
            rhs
        } else {
            r
        }
    }
}

impl NonZeroRem for u64 {
    open spec fn non_zero_rem_spec(self, rhs: u64) -> u64 {
        if self % rhs == 0 {
            rhs
        } else {
            self % rhs
        }
    }

    open spec fn non_zero_rem_valid(self, rhs: u64) -> bool {
        self >= 1 && rhs >= 1
    }

    fn non_zero_rem(self, rhs: u64) -> u64 {
        let r = self % rhs;
        if r == 0 {
            rhs
        } else {
            r
        }
    }
}

} // verus!
