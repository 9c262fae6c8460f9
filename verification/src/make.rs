use vstd::prelude::*;
use crate::accounts::Vault;
use crate::errors::EscrowError;
use crate::ledger::Ledger;
use crate::state::Address;
use crate::state::EscrowState;
use crate::state::authority_of;
use crate::state::derive_record_address;
use crate::state::record_address;
use crate::state::witness_of;

verus! {

/// The accounts a maker supplies when opening an escrow: their own identity,
/// the offered and asked assets, and the decimal precision they declare for
/// the offered asset (validated against the asset's authoritative one).
#[derive(Clone, Copy, Debug, PartialEq, Eq, Structural)]
pub struct Make {
    pub maker: u64,
    pub mint_a: u64,
    pub mint_b: u64,
    pub mint_a_decimals: u8,
}

/// The record a successful `make` writes: all terms, and the derivation
/// witness that lets the record sign for its vault.
pub open spec fn made_state(ctx: Make, seed: u64, receive_amount: u64) -> EscrowState {
    EscrowState {
        seed,
        bump: witness_of(ctx.maker, seed),
        mint_a: ctx.mint_a,
        mint_b: ctx.mint_b,
        receive_amount,
        maker: ctx.maker,
    }
}

/// Why allocating the record for this escrow would be refused; `None` when
/// it succeeds.
pub open spec fn init_error(l: Ledger, ctx: Make, seed: u64, receive_amount: u64) -> Option<
    EscrowError,
> {
    if receive_amount == 0 || ctx.mint_a == ctx.mint_b {
        Some(EscrowError::InvalidTerms)
    } else if l.has_record(record_address(ctx.maker, seed)) {
        Some(EscrowError::DuplicateRecord)
    } else if !l.asset_registered(ctx.mint_a) {
        Some(EscrowError::PrecisionMismatch)
    } else {
        None
    }
}

/// Why the whole `make` operation would be refused; `None` when it succeeds.
/// Checks are made in this order: terms, record slot, declared precision,
/// maker's funds.
pub open spec fn make_error(
    l: Ledger,
    ctx: Make,
    seed: u64,
    receive_amount: u64,
    amount: u64,
) -> Option<EscrowError> {
    if amount == 0 || receive_amount == 0 || ctx.mint_a == ctx.mint_b {
        Some(EscrowError::InvalidTerms)
    } else if l.has_record(record_address(ctx.maker, seed)) {
        Some(EscrowError::DuplicateRecord)
    } else if !l.asset_registered(ctx.mint_a) || l.decimals_of(ctx.mint_a) != ctx.mint_a_decimals {
        Some(EscrowError::PrecisionMismatch)
    } else if l.balance(ctx.maker, ctx.mint_a) < amount {
        Some(EscrowError::InsufficientFunds)
    } else {
        None
    }
}

/// What a successful `make` leaves behind: the new record with its terms, a
/// vault funded with exactly the locked amount, the maker's holding debited
/// by that amount, and everything else — other balances, other records, the
/// registry and every recorded supply — untouched.
pub open spec fn make_post(
    pre: Ledger,
    post: Ledger,
    ctx: Make,
    seed: u64,
    receive_amount: u64,
    amount: u64,
) -> bool {
    let addr = record_address(ctx.maker, seed);
    &&& post.wf()
    &&& post.has_record(addr)
    &&& post.record_at(addr) == made_state(ctx, seed, receive_amount)
    &&& post.vault_at(addr) == Vault {
        mint: ctx.mint_a,
        amount,
        authority: authority_of(ctx.maker, seed),
    }
    &&& forall|ad: Address| ad != addr ==> #[trigger] post.has_record(ad) == pre.has_record(ad)
    &&& forall|ad: Address|
        ad != addr && pre.has_record(ad) ==> #[trigger] post.record_at(ad) == pre.record_at(ad)
            && post.vault_at(ad) == pre.vault_at(ad)
    &&& forall|o: u64, a: u64| #[trigger] post.balance(o, a) == pre.balance(o, a) - (if o
        == ctx.maker && a == ctx.mint_a {
        amount as int
    } else {
        0
    })
    &&& forall|a: u64| #[trigger] post.asset_registered(a) == pre.asset_registered(a)
    &&& forall|a: u64| #[trigger] post.supply_of(a) == pre.supply_of(a)
    &&& forall|a: u64|
        pre.asset_registered(a) ==> #[trigger] post.decimals_of(a) == pre.decimals_of(a)
}

impl Make {
    /// Populates a fresh record at the slot derived from the namespace tag,
    /// the maker and the seed, with an empty vault under the record's
    /// derived authority; the deposit follows separately.
    pub fn init_escrow_state(&self, l: &mut Ledger, seed: u64, receive_amount: u64) -> (r: Result<
        Address,
        EscrowError,
    >)
        requires
            old(l).wf(),
        ensures
            final(l).wf(),
            match r {
                Ok(addr) => init_error(*old(l), *self, seed, receive_amount) is None && addr
                    == record_address(self.maker, seed) && final(l).has_record(addr) && final(l).record_at(addr) == made_state(*self, seed, receive_amount) && final(l).vault_at(
                    addr,
                ) == Vault {
                    mint: self.mint_a,
                    amount: 0u64,
                    authority: authority_of(self.maker, seed),
                } && (forall|ad: Address|
                    ad != addr ==> #[trigger] final(l).has_record(ad) == old(l).has_record(ad)) && (
                forall|ad: Address|
                    ad != addr && old(l).has_record(ad) ==> #[trigger] final(l).record_at(ad)
                        == old(l).record_at(ad) && final(l).vault_at(ad) == old(l).vault_at(ad))
                    && final(l).holdings == old(l).holdings && final(l).assets == old(l).assets,
                Err(e) => init_error(*old(l), *self, seed, receive_amount) == Some(e) && *final(l)
                    == *old(l),
            },
            forall|a: u64| #[trigger] final(l).asset_registered(a) == old(l).asset_registered(a),
            forall|a: u64| #[trigger] final(l).supply_of(a) == old(l).supply_of(a),
            forall|a: u64|
                old(l).asset_registered(a) ==> #[trigger] final(l).decimals_of(a) == old(l).decimals_of(a),
    {
        if receive_amount == 0 || self.mint_a == self.mint_b {
            return Err(EscrowError::InvalidTerms);
        }
        let (_, bump) = derive_record_address(self.maker, seed);
        let st = EscrowState {
            seed,
            bump,
            mint_a: self.mint_a,
            mint_b: self.mint_b,
            receive_amount,
            maker: self.maker,
        };
        l.create_escrow(st)
    }

    /// Funds the vault: transfers the locked amount of the offered asset
    /// from the maker's holding into the vault, validating the declared
    /// decimal precision.
    pub fn deposit(&self, l: &mut Ledger, seed: u64, amount: u64) -> (r: Result<(), EscrowError>)
        requires
            old(l).wf(),
        ensures
            final(l).wf(),
            match r {
                Ok(_) => old(l).vault_deposit_error(
                    self.maker,
                    record_address(self.maker, seed),
                    amount,
                    self.mint_a_decimals,
                ) is None && final(l).assets == old(l).assets && (forall|o: u64, a: u64|
                    #[trigger] final(l).balance(o, a) == old(l).balance(o, a) - (if o == self.maker
                        && a == old(l).vault_at(record_address(self.maker, seed)).mint {
                        amount as int
                    } else {
                        0
                    })) && (forall|ad: Address| #[trigger] final(l).has_record(ad) == old(l).has_record(ad)) && (forall|ad: Address|
                    old(l).has_record(ad) ==> #[trigger] final(l).record_at(ad) == old(l).record_at(ad)) && (forall|ad: Address|
                    ad != record_address(self.maker, seed) && old(l).has_record(ad)
                        ==> #[trigger] final(l).vault_at(ad) == old(l).vault_at(ad)) && final(l).vault_at(record_address(self.maker, seed)) == Vault {
                    amount: (old(l).vault_at(record_address(self.maker, seed)).amount
                        + amount) as u64,
                    ..old(l).vault_at(record_address(self.maker, seed))
                },
                Err(e) => old(l).vault_deposit_error(
                    self.maker,
                    record_address(self.maker, seed),
                    amount,
                    self.mint_a_decimals,
                ) == Some(e) && *final(l) == *old(l),
            },
            forall|a: u64| #[trigger] final(l).asset_registered(a) == old(l).asset_registered(a),
            forall|a: u64| #[trigger] final(l).supply_of(a) == old(l).supply_of(a),
            forall|a: u64|
                old(l).asset_registered(a) ==> #[trigger] final(l).decimals_of(a) == old(l).decimals_of(a),
    {
        let (addr, _) = derive_record_address(self.maker, seed);
        l.vault_deposit(self.maker, &addr, amount, self.mint_a_decimals)
    }
}

/// Opens an escrow: creates the record and vault at their derived addresses
/// and locks `amount` of the offered asset in the vault, all in one atomic
/// step — every check precedes the first write, so any refusal leaves the
/// ledger exactly as it was.
pub fn make(l: &mut Ledger, ctx: &Make, seeds: u64, receive_amount: u64, amount: u64) -> (r:
    Result<Address, EscrowError>)
    requires
        old(l).wf(),
    ensures
        final(l).wf(),
        match r {
            Ok(addr) => make_error(*old(l), *ctx, seeds, receive_amount, amount) is None && addr
                == record_address(ctx.maker, seeds) && make_post(
                *old(l),
                *final(l),
                *ctx,
                seeds,
                receive_amount,
                amount,
            ),
            Err(e) => make_error(*old(l), *ctx, seeds, receive_amount, amount) == Some(e) && *final(l) == *old(l),
        },
{
    if amount == 0 || receive_amount == 0 || ctx.mint_a == ctx.mint_b {
        return Err(EscrowError::InvalidTerms);
    }
    let (addr, _) = derive_record_address(ctx.maker, seeds);
    match l.get_record(&addr) {
        Some(_) => {
            return Err(EscrowError::DuplicateRecord);
        },
        None => {},
    }
    match l.asset_decimals(ctx.mint_a) {
        None => {
            return Err(EscrowError::PrecisionMismatch);
        },
        Some(d) => {
            if d != ctx.mint_a_decimals {
                return Err(EscrowError::PrecisionMismatch);
            }
        },
    }
    if l.balance_of(ctx.maker, ctx.mint_a) < amount {
        return Err(EscrowError::InsufficientFunds);
    }
    let addr = match ctx.init_escrow_state(l, seeds, receive_amount) {
        Ok(a) => a,
        Err(e) => {
            return Err(e);
        },
    };
    match ctx.deposit(l, seeds, amount) {
        Ok(_) => {},
        Err(e) => {
            return Err(e);
        },
    }
    Ok(addr)
}

} // verus!
