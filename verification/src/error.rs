use vstd::prelude::*;

verus! {

/// Every way an operation on the store can fail. Each failure is terminal for
/// the operation that raised it and leaves the store unchanged.
#[derive(Clone, Copy, Debug, PartialEq, Eq, Structural)]
pub enum LedgerError {
    /// The encoded record would not fit the fixed allocation budget.
    KeyTooLong,
    /// A record already occupies the derived address.
    AlreadyExists,
    /// No record occupies the targeted address.
    NotFound,
    /// The caller is not an authenticated signer.
    Unauthorized,
    /// The caller-asserted (owner, color) pair derives to an address other
    /// than the targeted slot.
    AddressMismatch,
    /// The caller cannot cover the fixed storage allocation.
    InsufficientFunding,
    /// The host's derivation primitive found no disambiguation byte in its
    /// search range (statistically negligible).
    BumpNotFound,
}

} // verus!
