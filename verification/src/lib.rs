//! A two-party conditional token-swap escrow.
//!
//! A maker locks a quantity of one fungible asset and names the amount of a
//! second asset wanted in return.  Any taker may fulfil the trade by paying
//! that amount to the maker, receiving the locked funds; until then the maker
//! may cancel and reclaim them.  The locked funds sit in a vault controlled
//! not by a private key but by an authority derived from public inputs, so a
//! maker can be paid without being online.
//!
//! The ledger itself (accounts, balances, atomic commitment) is modelled as an
//! explicit value, [`ledger::Ledger`], and the three operations —
//! [`make::make`], [`take::take`], [`refund::refund`] — are verified functions
//! over it: every operation either performs all of its transfers and
//! record-keeping or returns an error and leaves the ledger untouched.

pub mod constants;
pub mod errors;
pub mod state;
pub mod accounts;
pub mod ledger;
pub mod make;
pub mod take;
pub mod refund;
pub mod laws;

pub use constants::ESCROW_NAMESPACE;
pub use errors::EscrowError;
pub use state::Address;
pub use state::Authority;
pub use state::EscrowState;
pub use state::derive_record_address;
pub use state::derive_authority;
pub use accounts::AssetInfo;
pub use accounts::Holding;
pub use accounts::OpenEscrow;
pub use accounts::Vault;
pub use ledger::Ledger;
pub use make::Make;
pub use make::make;
pub use take::Take;
pub use take::take;
pub use refund::Refund;
pub use refund::refund;
