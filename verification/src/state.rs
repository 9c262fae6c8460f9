use vstd::prelude::*;
use crate::constants::ESCROW_NAMESPACE;

verus! {

/// A deterministic account address, derived rather than chosen.
///
/// The ledger collaborator derives addresses from a namespace tag and key
/// parts; the derivation is reproducible and collision-checked, so the pair
/// `(maker, seed)` names at most one record slot under this protocol's tag.
/// The model keeps the derivation inputs themselves as the address, which is
/// trivially collision-free on distinct inputs.
#[derive(Clone, Copy, Debug, PartialEq, Eq, Structural)]
pub struct Address {
    pub namespace: u64,
    pub maker: u64,
    pub seed: u64,
}

/// The capability that controls a vault.
///
/// Anyone able to recompute the same derivation from public inputs can act as
/// this authority; no private key exists for it.  It is stored once in the
/// vault at creation and must be presented explicitly to every vault-mutating
/// call.
#[derive(Clone, Copy, Debug, PartialEq, Eq, Structural)]
pub struct Authority {
    pub address: Address,
    pub witness: u8,
}

/// The durable record of one open escrow: the terms of the trade.
///
/// Terms are immutable once created; the record lives from its creation by
/// `make` until the single `take` or `refund` that consumes it.
#[derive(Clone, Copy, Debug, PartialEq, Eq, Structural)]
pub struct EscrowState {
    /// Caller-chosen disambiguator; `(maker, seed)` keys the record slot.
    pub seed: u64,
    /// The party who created the record and who alone may refund it.
    pub maker: u64,
    /// The offered asset, locked in the vault.
    pub mint_a: u64,
    /// The asset the maker demands in return.
    pub mint_b: u64,
    /// Exact quantity of `mint_b` the maker demands.
    pub receive_amount: u64,
    /// Derivation witness: lets the record sign for the vault.
    pub bump: u8,
}

/// The record slot derived from the namespace tag, a maker and a seed.
pub open spec fn record_address(maker: u64, seed: u64) -> Address {
    Address { namespace: ESCROW_NAMESPACE, maker, seed }
}

/// The derivation witness for `(maker, seed)`: a deterministic byte computed
/// from the same public inputs as the address.
pub open spec fn witness_of(maker: u64, seed: u64) -> u8 {
    (((maker ^ seed) % 256) as u8)
}

/// The authority derived for the record slot of `(maker, seed)`.
pub open spec fn authority_of(maker: u64, seed: u64) -> Authority {
    Authority { address: record_address(maker, seed), witness: witness_of(maker, seed) }
}

/// Derives the record address and its witness byte from public inputs.
pub fn derive_record_address(maker: u64, seed: u64) -> (r: (Address, u8))
    ensures
        r.0 == record_address(maker, seed),
        r.1 == witness_of(maker, seed),
{
    let witness: u8 = ((maker ^ seed) % 256) as u8;
    (Address { namespace: ESCROW_NAMESPACE, maker, seed }, witness)
}

/// Reconstructs the vault-controlling authority from public inputs.
///
/// Every operation that moves funds out of a vault recomputes this value and
/// presents it; a mismatch with the vault's stored authority aborts the
/// operation.
pub fn derive_authority(maker: u64, seed: u64) -> (r: Authority)
    ensures
        r == authority_of(maker, seed),
{
    let (address, witness) = derive_record_address(maker, seed);
    Authority { address, witness }
}

} // verus!
