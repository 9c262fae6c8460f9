use vstd::prelude::*;
use crate::accounts::Vault;
use crate::errors::EscrowError;
use crate::ledger::Ledger;
use crate::ledger::entry_wf;
use crate::state::Address;
use crate::state::authority_of;
use crate::state::derive_authority;

verus! {

/// The accounts a taker supplies when fulfilling an escrow: their own
/// identity, the maker and offered asset they expect the record to be bound
/// to, and the record's derived address.
#[derive(Clone, Copy, Debug, PartialEq, Eq, Structural)]
pub struct Take {
    pub taker: u64,
    pub maker: u64,
    pub mint_a: u64,
    pub escrow: Address,
}

/// Why the whole `take` operation would be refused; `None` when it
/// succeeds.  Checks are made in this order: the record exists, the supplied
/// maker and offered asset match the record's stored bindings, the taker's
/// funds cover the asked amount.
pub open spec fn take_error(l: Ledger, ctx: Take) -> Option<EscrowError> {
    if !l.has_record(ctx.escrow) {
        Some(EscrowError::RecordNotFound)
    } else if l.record_at(ctx.escrow).maker != ctx.maker || l.record_at(ctx.escrow).mint_a
        != ctx.mint_a {
        Some(EscrowError::BindingMismatch)
    } else if l.balance(ctx.taker, l.record_at(ctx.escrow).mint_b) < l.record_at(
        ctx.escrow,
    ).receive_amount {
        Some(EscrowError::InsufficientFunds)
    } else {
        None
    }
}

/// What a successful `take` leaves behind: the taker paid the asked amount
/// of the asked asset to the maker and received the full vault balance of
/// the offered asset, the record and vault are destroyed, and everything
/// else — other balances, other records, the registry and every recorded
/// supply — is untouched.
pub open spec fn take_post(pre: Ledger, post: Ledger, ctx: Take) -> bool {
    let st = pre.record_at(ctx.escrow);
    let v = pre.vault_at(ctx.escrow);
    &&& post.wf()
    &&& !post.has_record(ctx.escrow)
    &&& forall|ad: Address|
        ad != ctx.escrow ==> #[trigger] post.has_record(ad) == pre.has_record(ad)
    &&& forall|ad: Address|
        ad != ctx.escrow && pre.has_record(ad) ==> #[trigger] post.record_at(ad) == pre.record_at(
            ad,
        ) && post.vault_at(ad) == pre.vault_at(ad)
    &&& forall|o: u64, a: u64| #[trigger] post.balance(o, a) == pre.balance(o, a) - (if o
        == ctx.taker && a == st.mint_b {
        st.receive_amount as int
    } else {
        0
    }) + (if o == st.maker && a == st.mint_b {
        st.receive_amount as int
    } else {
        0
    }) + (if o == ctx.taker && a == st.mint_a {
        v.amount as int
    } else {
        0
    })
    &&& forall|a: u64| #[trigger] post.asset_registered(a) == pre.asset_registered(a)
    &&& forall|a: u64| #[trigger] post.supply_of(a) == pre.supply_of(a)
    &&& forall|a: u64|
        pre.asset_registered(a) ==> #[trigger] post.decimals_of(a) == pre.decimals_of(a)
}

impl Take {
    /// Pays the maker: transfers the asked amount of the asked asset from
    /// the taker's holding to the maker's, at the asset's own authoritative
    /// decimal precision — never one the caller declares.
    pub fn deposit(&self, l: &mut Ledger) -> (r: Result<(), EscrowError>)
        requires
            old(l).wf(),
        ensures
            final(l).wf(),
            match r {
                Ok(_) => take_error(*old(l), *self) is None && final(l).assets == old(l).assets
                    && (forall|o: u64, a: u64| #[trigger] final(l).balance(o, a) == old(l).balance(
                    o,
                    a,
                ) - (if o == self.taker && a == old(l).record_at(self.escrow).mint_b {
                    old(l).record_at(self.escrow).receive_amount as int
                } else {
                    0
                }) + (if o == old(l).record_at(self.escrow).maker && a == old(l).record_at(
                    self.escrow,
                ).mint_b {
                    old(l).record_at(self.escrow).receive_amount as int
                } else {
                    0
                })) && (forall|ad: Address| #[trigger] final(l).has_record(ad) == old(l).has_record(ad)) && (forall|ad: Address|
                    old(l).has_record(ad) ==> #[trigger] final(l).record_at(ad) == old(l).record_at(ad) && final(l).vault_at(ad) == old(l).vault_at(ad)),
                Err(e) => take_error(*old(l), *self) == Some(e) && *final(l) == *old(l),
            },
            forall|a: u64| #[trigger] final(l).asset_registered(a) == old(l).asset_registered(a),
            forall|a: u64| #[trigger] final(l).supply_of(a) == old(l).supply_of(a),
            forall|a: u64|
                old(l).asset_registered(a) ==> #[trigger] final(l).decimals_of(a) == old(l).decimals_of(a),
    {
        let st = match l.get_record(&self.escrow) {
            None => {
                return Err(EscrowError::RecordNotFound);
            },
            Some(st) => st,
        };
        if st.maker != self.maker || st.mint_a != self.mint_a {
            return Err(EscrowError::BindingMismatch);
        }
        let bal = l.balance_of(self.taker, st.mint_b);
        if bal < st.receive_amount {
            return Err(EscrowError::InsufficientFunds);
        }
        proof {
            l.lemma_escrow_idx_valid(self.escrow);
            assert(entry_wf(l.escrows@[l.escrow_idx(self.escrow)]));
            if !l.asset_registered(st.mint_b) {
                assert forall|j: int|
                    0 <= j < l.holdings@.len() implies !((#[trigger] l.holdings@[j]).owner
                    == self.taker && l.holdings@[j].asset == st.mint_b) by {
                    assert(l.asset_registered(l.holdings@[j].asset));
                }
                crate::accounts::lemma_holdings_absent(l.holdings@, self.taker, st.mint_b);
            }
        }
        let dec_b = match l.asset_decimals(st.mint_b) {
            None => {
                return vstd::pervasive::unreached();
            },
            Some(d) => d,
        };
        match l.transfer(self.taker, st.maker, st.mint_b, st.receive_amount, dec_b) {
            Ok(_) => Ok(()),
            Err(e) => Err(e),
        }
    }

    /// Pays the taker from the vault: reconstructs the record's derived
    /// authority from its own maker and seed, presents it, and moves the
    /// full vault balance of the offered asset to the taker.
    pub fn withdraw(&self, l: &mut Ledger) -> (r: Result<(), EscrowError>)
        requires
            old(l).wf(),
        ensures
            final(l).wf(),
            match r {
                Ok(_) => !(take_error(*old(l), *self) matches Some(
                    EscrowError::RecordNotFound,
                )) && !(take_error(*old(l), *self) matches Some(EscrowError::BindingMismatch))
                    && final(l).assets == old(l).assets && (forall|o: u64, a: u64| #[trigger] final(l).balance(o, a) == old(l).balance(o, a) + (if o == self.taker && a == old(l).record_at(self.escrow).mint_a {
                    old(l).vault_at(self.escrow).amount as int
                } else {
                    0
                })) && (forall|ad: Address| #[trigger] final(l).has_record(ad) == old(l).has_record(ad)) && (forall|ad: Address|
                    old(l).has_record(ad) ==> #[trigger] final(l).record_at(ad) == old(l).record_at(ad)) && (forall|ad: Address|
                    ad != self.escrow && old(l).has_record(ad) ==> #[trigger] final(l).vault_at(ad)
                        == old(l).vault_at(ad)) && final(l).vault_at(self.escrow) == Vault {
                    amount: 0u64,
                    ..old(l).vault_at(self.escrow)
                },
                Err(e) => (take_error(*old(l), *self) == Some(e) && (e matches
                    EscrowError::RecordNotFound || e matches EscrowError::BindingMismatch))
                    && *final(l) == *old(l),
            },
            forall|a: u64| #[trigger] final(l).asset_registered(a) == old(l).asset_registered(a),
            forall|a: u64| #[trigger] final(l).supply_of(a) == old(l).supply_of(a),
            forall|a: u64|
                old(l).asset_registered(a) ==> #[trigger] final(l).decimals_of(a) == old(l).decimals_of(a),
    {
        let st = match l.get_record(&self.escrow) {
            None => {
                return Err(EscrowError::RecordNotFound);
            },
            Some(st) => st,
        };
        if st.maker != self.maker || st.mint_a != self.mint_a {
            return Err(EscrowError::BindingMismatch);
        }
        proof {
            l.lemma_escrow_idx_valid(self.escrow);
            assert(entry_wf(l.escrows@[l.escrow_idx(self.escrow)]));
            assert(st == l.record_at(self.escrow));
            assert(l.vault_at(self.escrow).authority == authority_of(st.maker, st.seed));
        }
        let auth = derive_authority(st.maker, st.seed);
        match l.vault_withdraw(&self.escrow, self.taker, &auth) {
            Ok(_) => Ok(()),
            Err(e) => Err(e),
        }
    }

    /// Destroys the drained vault and the record in one step, presenting
    /// the record's reconstructed derived authority.
    pub fn close_vault(&self, l: &mut Ledger) -> (r: Result<(), EscrowError>)
        requires
            old(l).wf(),
            old(l).has_record(self.escrow) ==> old(l).vault_amount_at(self.escrow) == 0,
        ensures
            final(l).wf(),
            match r {
                Ok(_) => old(l).has_record(self.escrow) && old(l).record_at(self.escrow).maker
                    == self.maker && old(l).record_at(self.escrow).mint_a == self.mint_a && final(l).assets == old(l).assets && final(l).holdings == old(l).holdings && !final(l).has_record(self.escrow) && (forall|ad: Address|
                    ad != self.escrow ==> #[trigger] final(l).has_record(ad) == old(l).has_record(
                        ad,
                    )) && (forall|ad: Address|
                    ad != self.escrow && old(l).has_record(ad) ==> #[trigger] final(l).record_at(ad)
                        == old(l).record_at(ad) && final(l).vault_at(ad) == old(l).vault_at(ad)),
                Err(e) => take_error(*old(l), *self) == Some(e) && (e == EscrowError::RecordNotFound
                    || e == EscrowError::BindingMismatch) && *final(l) == *old(l),
            },
            forall|a: u64| #[trigger] final(l).asset_registered(a) == old(l).asset_registered(a),
            forall|a: u64| #[trigger] final(l).supply_of(a) == old(l).supply_of(a),
            forall|a: u64|
                old(l).asset_registered(a) ==> #[trigger] final(l).decimals_of(a) == old(l).decimals_of(a),
    {
        let st = match l.get_record(&self.escrow) {
            None => {
                return Err(EscrowError::RecordNotFound);
            },
            Some(st) => st,
        };
        if st.maker != self.maker || st.mint_a != self.mint_a {
            return Err(EscrowError::BindingMismatch);
        }
        proof {
            l.lemma_escrow_idx_valid(self.escrow);
            assert(entry_wf(l.escrows@[l.escrow_idx(self.escrow)]));
            assert(st == l.record_at(self.escrow));
            assert(l.vault_at(self.escrow).authority == authority_of(st.maker, st.seed));
        }
        let auth = derive_authority(st.maker, st.seed);
        match l.close_escrow(&self.escrow, &auth) {
            Ok(_) => Ok(()),
            Err(e) => Err(e),
        }
    }
}

/// Fulfils an escrow: pays the asked amount to the maker, pays the full
/// vault balance to the taker, and destroys the vault and record, all in
/// one atomic step — every check precedes the first write, so any refusal
/// leaves the ledger exactly as it was and the record live for another
/// attempt.
pub fn take(l: &mut Ledger, ctx: &Take) -> (r: Result<(), EscrowError>)
    requires
        old(l).wf(),
    ensures
        final(l).wf(),
        match r {
            Ok(_) => take_error(*old(l), *ctx) is None && take_post(*old(l), *final(l), *ctx),
            Err(e) => take_error(*old(l), *ctx) == Some(e) && *final(l) == *old(l),
        },
{
    let st = match l.get_record(&ctx.escrow) {
        None => {
            return Err(EscrowError::RecordNotFound);
        },
        Some(st) => st,
    };
    if st.maker != ctx.maker || st.mint_a != ctx.mint_a {
        return Err(EscrowError::BindingMismatch);
    }
    if l.balance_of(ctx.taker, st.mint_b) < st.receive_amount {
        return Err(EscrowError::InsufficientFunds);
    }
    match ctx.deposit(l) {
        Ok(_) => {},
        Err(e) => {
            return Err(e);
        },
    }
    let ghost m1 = *l;
    match ctx.withdraw(l) {
        Ok(_) => {},
        Err(e) => {
            return Err(e);
        },
    }
    let ghost m2 = *l;
    match ctx.close_vault(l) {
        Ok(_) => {},
        Err(e) => {
            return Err(e);
        },
    }
    proof {
        let st = old(l).record_at(ctx.escrow);
        let v = old(l).vault_at(ctx.escrow);
        assert(m1.record_at(ctx.escrow) == st);
        assert(m1.vault_at(ctx.escrow) == v);
        assert(l.holdings == m2.holdings);
        assert forall|o: u64, a: u64| #[trigger] l.balance(o, a) == old(l).balance(o, a) - (if o
            == ctx.taker && a == st.mint_b {
            st.receive_amount as int
        } else {
            0
        }) + (if o == st.maker && a == st.mint_b {
            st.receive_amount as int
        } else {
            0
        }) + (if o == ctx.taker && a == st.mint_a {
            v.amount as int
        } else {
            0
        }) by {
            assert(m1.balance(o, a) == old(l).balance(o, a) - (if o == ctx.taker && a == st.mint_b {
                st.receive_amount as int
            } else {
                0
            }) + (if o == st.maker && a == st.mint_b {
                st.receive_amount as int
            } else {
                0
            }));
            assert(m2.balance(o, a) == m1.balance(o, a) + (if o == ctx.taker && a == st.mint_a {
                v.amount as int
            } else {
                0
            }));
            assert(l.balance(o, a) == m2.balance(o, a));
        }
    }
    Ok(())
}

} // verus!
