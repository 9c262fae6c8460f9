use vstd::prelude::*;

verus! {

/// Namespace tag under which escrow record addresses are derived.
///
/// Every record address is derived from this tag, the maker's identity and
/// the maker-chosen seed, so records of this protocol can never collide with
/// addresses derived by another protocol under a different tag.  The value
/// spells the protocol's name in ASCII.
pub const ESCROW_NAMESPACE: u64 = 0x657363726f77;

} // verus!
