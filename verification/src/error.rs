//! The ways in which an invocation fails.

use vstd::prelude::*;

verus! {

/// Why an invocation, or one step of it, failed.
#[derive(Clone, Copy, Debug, PartialEq, Eq, Structural)]
pub enum ChatError {
    /// The payload is not a known command.
    InvalidInstructionData,
    /// A buffer that is not empty does not hold a store.
    InvalidAccountData,
    /// The supplied storage location is not the one derived for the owner.
    AddressMismatch,
    /// The storage location is controlled by another authority than the program.
    AuthorityMismatch,
    /// No slot is empty.
    CapacityError,
    /// The index names no slot, or an empty one.
    InvalidIndexError,
    /// A length in the store does not fit in the 32 bits of the layout.
    EncodingError,
}

} // verus!
