use vstd::prelude::*;
use crate::errors::EscrowError;
use crate::ledger::Ledger;
use crate::ledger::entry_wf;
use crate::state::Address;
use crate::state::authority_of;
use crate::state::derive_authority;

verus! {

/// The accounts a maker supplies when cancelling their own escrow: their
/// identity (the caller must be the maker stored in the record), the offered
/// asset they expect the record to be bound to, and the record's derived
/// address.
#[derive(Clone, Copy, Debug, PartialEq, Eq, Structural)]
pub struct Refund {
    pub maker: u64,
    pub mint_a: u64,
    pub escrow: Address,
}

/// Why the whole `refund` operation would be refused; `None` when it
/// succeeds.  A caller who is not the maker stored in the record — or who
/// supplies an asset the record is not bound to — is turned away before any
/// funds move.
pub open spec fn refund_error(l: Ledger, ctx: Refund) -> Option<EscrowError> {
    if !l.has_record(ctx.escrow) {
        Some(EscrowError::RecordNotFound)
    } else if l.record_at(ctx.escrow).maker != ctx.maker || l.record_at(ctx.escrow).mint_a
        != ctx.mint_a {
        Some(EscrowError::BindingMismatch)
    } else {
        None
    }
}

/// What a successful `refund` leaves behind: the full vault balance of the
/// offered asset back in the maker's holding, the record and vault
/// destroyed, and everything else — other balances, other records, the
/// registry and every recorded supply — untouched.
pub open spec fn refund_post(pre: Ledger, post: Ledger, ctx: Refund) -> bool {
    let st = pre.record_at(ctx.escrow);
    let v = pre.vault_at(ctx.escrow);
    &&& post.wf()
    &&& !post.has_record(ctx.escrow)
    &&& forall|ad: Address|
        ad != ctx.escrow ==> #[trigger] post.has_record(ad) == pre.has_record(ad)
    &&& forall|ad: Address|
        ad != ctx.escrow && pre.has_record(ad) ==> #[trigger] post.record_at(ad) == pre.record_at(
            ad,
        ) && post.vault_at(ad) == pre.vault_at(ad)
    &&& forall|o: u64, a: u64| #[trigger] post.balance(o, a) == pre.balance(o, a) + (if o
        == st.maker && a == st.mint_a {
        v.amount as int
    } else {
        0
    })
    &&& forall|a: u64| #[trigger] post.asset_registered(a) == pre.asset_registered(a)
    &&& forall|a: u64| #[trigger] post.supply_of(a) == pre.supply_of(a)
    &&& forall|a: u64|
        pre.asset_registered(a) ==> #[trigger] post.decimals_of(a) == pre.decimals_of(a)
}

impl Refund {
    /// Returns the full vault balance to the maker and destroys the vault
    /// and record, reconstructing and presenting the record's derived
    /// authority for both the transfer and the closure.
    pub fn refund_and_close_vault(&self, l: &mut Ledger) -> (r: Result<(), EscrowError>)
        requires
            old(l).wf(),
        ensures
            final(l).wf(),
            match r {
                Ok(_) => refund_error(*old(l), *self) is None && refund_post(
                    *old(l),
                    *final(l),
                    *self,
                ),
                Err(e) => refund_error(*old(l), *self) == Some(e) && *final(l) == *old(l),
            },
    {
        let st = match l.get_record(&self.escrow) {
            None => {
                return Err(EscrowError::RecordNotFound);
            },
            Some(st) => st,
        };
        if st.maker != self.maker || st.mint_a != self.mint_a {
            return Err(EscrowError::BindingMismatch);
        }
        proof {
            l.lemma_escrow_idx_valid(self.escrow);
            assert(entry_wf(l.escrows@[l.escrow_idx(self.escrow)]));
            assert(st == l.record_at(self.escrow));
            assert(l.vault_at(self.escrow).authority == authority_of(st.maker, st.seed));
        }
        let auth = derive_authority(st.maker, st.seed);
        match l.vault_withdraw(&self.escrow, self.maker, &auth) {
            Ok(_) => {},
            Err(e) => {
                return Err(e);
            },
        }
        let ghost m1 = *l;
        match l.close_escrow(&self.escrow, &auth) {
            Ok(_) => {},
            Err(e) => {
                return Err(e);
            },
        }
        proof {
            let st0 = old(l).record_at(self.escrow);
            let v0 = old(l).vault_at(self.escrow);
            assert(l.holdings == m1.holdings);
            assert forall|o: u64, a: u64| #[trigger] l.balance(o, a) == old(l).balance(o, a) + (
            if o == st0.maker && a == st0.mint_a {
                v0.amount as int
            } else {
                0
            }) by {
                assert(m1.balance(o, a) == old(l).balance(o, a) + (if o == self.maker && a
                    == v0.mint {
                    v0.amount as int
                } else {
                    0
                }));
                assert(l.balance(o, a) == m1.balance(o, a));
            }
        }
        Ok(())
    }
}

/// Cancels an escrow: the maker — and only the maker recorded in the record
/// — reclaims the full vault balance, and the vault and record are
/// destroyed, all in one atomic step.
pub fn refund(l: &mut Ledger, ctx: &Refund) -> (r: Result<(), EscrowError>)
    requires
        old(l).wf(),
    ensures
        final(l).wf(),
        match r {
            Ok(_) => refund_error(*old(l), *ctx) is None && refund_post(*old(l), *final(l), *ctx),
            Err(e) => refund_error(*old(l), *ctx) == Some(e) && *final(l) == *old(l),
        },
{
    ctx.refund_and_close_vault(l)
}

} // verus!
