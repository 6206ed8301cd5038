//! The error kinds shared by the whole pipeline. Every failure is local and
//! synchronous; the first error aborts the build, nothing is retried.

use vstd::prelude::*;

verus! {

/// What can go wrong while building a payload.
#[derive(Clone, Copy, Debug, PartialEq, Eq, Structural)]
pub enum EudError {
    /// Relocatable arithmetic asked for a division that does not come out
    /// even (offset or mode component not divisible by the divisor).
    NotDivisible,
    /// An operation received a relocation mode it does not support
    /// (multiplying two relocated values, bitwise work outside the
    /// constant and pointer modes, and the like).
    InvalidMode,
    /// A forward reference was evaluated before it was bound, or a
    /// reference could not be resolved at all.
    Unbound,
    /// A forward reference was bound a second time without a reset.
    AlreadyBound,
    /// An object's declared size and its actual emission disagree. Carries
    /// the object's index and the two sizes that were compared (dwords
    /// during probing, bytes during writing).
    Allocation { object: usize, expected: usize, actual: usize },
    /// A relocatable value was written at a position that is not 4-byte
    /// aligned, or at a width other than a full dword.
    MisalignedRelocation,
}

} // verus!
