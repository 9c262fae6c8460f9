use vstd::prelude::*;

verus! {

/// Everything that can make an escrow operation abort.
///
/// Every failure is scoped to the single attempted operation: the operation
/// that returns one of these has changed nothing, and both record and vault
/// are left in their prior state.
#[derive(Clone, Copy, Debug, PartialEq, Eq, Structural)]
pub enum EscrowError {
    /// The terms of a new escrow are ill-formed: a zero lock amount, a zero
    /// asked amount, or offered and asked asset identical.
    InvalidTerms,
    /// A live record already occupies the slot derived from `(maker, seed)`.
    DuplicateRecord,
    /// The referenced record does not exist, or was already consumed.
    RecordNotFound,
    /// The supplied accounts do not match the record's stored maker or
    /// offered asset: an attempted substitution of someone else's escrow.
    BindingMismatch,
    /// The presented authority is not the one that controls the vault: only
    /// the authority re-derived from the record's own fields may move or
    /// close vault funds.
    AuthorityMismatch,
    /// The paying account holds less than the required amount.
    InsufficientFunds,
    /// The caller-declared decimal precision disagrees with the asset's
    /// authoritative declared precision.
    PrecisionMismatch,
}

} // verus!
