use vstd::prelude::*;
use crate::accounts::AssetInfo;
use crate::accounts::Holding;
use crate::accounts::OpenEscrow;
use crate::accounts::Vault;
use crate::accounts::assets_unique;
use crate::accounts::escrow_address;
use crate::accounts::escrows_unique;
use crate::accounts::lemma_escrows_unique_push;
use crate::accounts::lemma_escrows_unique_remove;
use crate::accounts::lemma_holdings_unique_push;
use crate::accounts::lemma_holdings_unique_update;
use crate::accounts::holdings_balance;
use crate::accounts::holdings_total;
use crate::accounts::holdings_unique;
use crate::accounts::lemma_holdings_absent;
use crate::accounts::lemma_holdings_at;
use crate::accounts::lemma_holdings_balance_le_total;
use crate::accounts::lemma_holdings_nonneg;
use crate::accounts::lemma_holdings_push;
use crate::accounts::lemma_holdings_update;
use crate::accounts::lemma_holdings_total_absent;
use crate::accounts::lemma_vaults_total_absent;
use crate::accounts::lemma_vault_le_total;
use crate::accounts::lemma_vaults_nonneg;
use crate::accounts::lemma_vaults_remove;
use crate::accounts::lemma_vaults_push;
use crate::accounts::lemma_vaults_update;
use crate::accounts::vault_part;
use crate::accounts::vaults_total;
use crate::errors::EscrowError;
use crate::state::Address;
use crate::state::Authority;
use crate::state::EscrowState;
use crate::state::authority_of;
use crate::state::record_address;
use crate::state::witness_of;

verus! {

/// A live escrow entry is internally consistent: its witness and vault
/// authority are exactly the values derived from its own maker and seed, its
/// vault is denominated in the offered asset, and its terms are well-formed.
pub open spec fn entry_wf(e: OpenEscrow) -> bool {
    &&& e.state.bump == witness_of(e.state.maker, e.state.seed)
    &&& e.vault.authority == authority_of(e.state.maker, e.state.seed)
    &&& e.vault.mint == e.state.mint_a
    &&& e.state.mint_a != e.state.mint_b
    &&& e.state.receive_amount > 0
}

/// The in-memory model of the ledger collaborator: asset registry, holding
/// accounts, and the live escrows with their vaults.
///
/// Each of the three operations mutates a `Ledger` atomically: every check is
/// made before the first write, so an operation that returns an error has
/// changed nothing.
pub struct Ledger {
    pub assets: Vec<AssetInfo>,
    pub holdings: Vec<Holding>,
    pub escrows: Vec<OpenEscrow>,
}

impl Ledger {
    /// Whether an asset with identifier `a` has been issued.
    pub open spec fn asset_registered(self, a: u64) -> bool {
        exists|i: int| 0 <= i < self.assets@.len() && (#[trigger] self.assets@[i].id) == a
    }

    /// Index of the registry entry for `a` (meaningful when registered).
    pub open spec fn asset_idx(self, a: u64) -> int {
        choose|i: int| 0 <= i < self.assets@.len() && (#[trigger] self.assets@[i].id) == a
    }

    /// The authoritative declared decimal precision of `a`.
    pub open spec fn decimals_of(self, a: u64) -> u8 {
        self.assets@[self.asset_idx(a)].decimals
    }

    /// The recorded total quantity issued of `a`; zero for an unknown asset.
    pub open spec fn supply_of(self, a: u64) -> int {
        if self.asset_registered(a) {
            self.assets@[self.asset_idx(a)].supply as int
        } else {
            0
        }
    }

    /// The balance of `owner`'s holding account for `asset`.
    pub open spec fn balance(self, owner: u64, asset: u64) -> int {
        holdings_balance(self.holdings@, owner, asset)
    }

    /// Whether a live record occupies the slot `addr`.
    pub open spec fn has_record(self, addr: Address) -> bool {
        exists|i: int|
            0 <= i < self.escrows@.len() && escrow_address(#[trigger] self.escrows@[i]) == addr
    }

    /// Index of the live escrow at `addr` (meaningful when it exists).
    pub open spec fn escrow_idx(self, addr: Address) -> int {
        choose|i: int|
            0 <= i < self.escrows@.len() && escrow_address(#[trigger] self.escrows@[i]) == addr
    }

    /// The record stored at `addr`.
    pub open spec fn record_at(self, addr: Address) -> EscrowState {
        self.escrows@[self.escrow_idx(addr)].state
    }

    /// The vault owned by the record at `addr`.
    pub open spec fn vault_at(self, addr: Address) -> Vault {
        self.escrows@[self.escrow_idx(addr)].vault
    }

    /// The vault balance at `addr`.
    pub open spec fn vault_amount_at(self, addr: Address) -> int {
        self.vault_at(addr).amount as int
    }

    /// The holdings piece of well-formedness: unique `(owner, asset)` keys,
    /// and only issued assets held.
    pub open spec fn holdings_wf(self) -> bool {
        &&& holdings_unique(self.holdings@)
        &&& forall|i: int|
            0 <= i < self.holdings@.len() ==> self.asset_registered(
                (#[trigger] self.holdings@[i]).asset,
            )
    }

    /// Well-formedness of the whole ledger: unique registry, holding and
    /// record keys; only issued assets are held or locked; every live escrow
    /// entry is internally consistent; and the recorded supply of each asset
    /// equals what is held plus what is locked — conservation.
    pub open spec fn wf(self) -> bool {
        &&& assets_unique(self.assets@)
        &&& self.holdings_wf()
        &&& escrows_unique(self.escrows@)
        &&& forall|i: int|
            0 <= i < self.escrows@.len() ==> entry_wf(#[trigger] self.escrows@[i])
                && self.asset_registered(self.escrows@[i].state.mint_a)
        &&& forall|i: int|
            0 <= i < self.assets@.len() ==> (#[trigger] self.assets@[i]).supply as int
                == holdings_total(self.holdings@, self.assets@[i].id) + vaults_total(
                self.escrows@,
                self.assets@[i].id,
            )
    }

    /// The registry entry holding `id` is the one `asset_idx` points at.
    pub proof fn lemma_asset_at(self, i: int)
        requires
            assets_unique(self.assets@),
            0 <= i < self.assets@.len(),
        ensures
            self.asset_registered(self.assets@[i].id),
            self.asset_idx(self.assets@[i].id) == i,
    {
        let a = self.assets@[i].id;
        assert(self.asset_registered(a));
        let j = self.asset_idx(a);
        assert(0 <= j < self.assets@.len() && self.assets@[j].id == a);
    }

    /// For a registered asset, `asset_idx` is a valid index whose entry
    /// carries that identifier.
    pub proof fn lemma_asset_idx_valid(self, a: u64)
        requires
            self.asset_registered(a),
        ensures
            0 <= self.asset_idx(a) < self.assets@.len(),
            self.assets@[self.asset_idx(a)].id == a,
    {
    }

    /// The escrow entry at index `i` is the one its own address looks up.
    pub proof fn lemma_escrow_at(self, i: int)
        requires
            escrows_unique(self.escrows@),
            0 <= i < self.escrows@.len(),
        ensures
            self.has_record(escrow_address(self.escrows@[i])),
            self.escrow_idx(escrow_address(self.escrows@[i])) == i,
            self.record_at(escrow_address(self.escrows@[i])) == self.escrows@[i].state,
            self.vault_at(escrow_address(self.escrows@[i])) == self.escrows@[i].vault,
    {
        let ad = escrow_address(self.escrows@[i]);
        assert(self.has_record(ad));
        let j = self.escrow_idx(ad);
        assert(0 <= j < self.escrows@.len() && escrow_address(self.escrows@[j]) == ad);
    }

    /// For an occupied slot, `escrow_idx` is a valid index whose entry
    /// occupies that slot.
    pub proof fn lemma_escrow_idx_valid(self, addr: Address)
        requires
            self.has_record(addr),
        ensures
            0 <= self.escrow_idx(addr) < self.escrows@.len(),
            escrow_address(self.escrows@[self.escrow_idx(addr)]) == addr,
    {
    }

    /// Conservation, read off the registry: for a registered asset the
    /// recorded supply equals held plus locked, and both fit in a balance.
    pub proof fn lemma_conservation(self, a: u64)
        requires
            self.wf(),
            self.asset_registered(a),
        ensures
            self.supply_of(a) == holdings_total(self.holdings@, a) + vaults_total(
                self.escrows@,
                a,
            ),
            holdings_total(self.holdings@, a) + vaults_total(self.escrows@, a) <= u64::MAX as int,
    {
        self.lemma_asset_idx_valid(a);
    }

    /// Two ledgers with the same registry register the same assets.
    pub proof fn lemma_registered_same_assets(pre: Ledger, post: Ledger)
        requires
            post.assets@ == pre.assets@,
        ensures
            forall|a: u64| #[trigger] post.asset_registered(a) == pre.asset_registered(a),
    {
        assert forall|a: u64| #[trigger] post.asset_registered(a) == pre.asset_registered(a) by {
            if pre.asset_registered(a) {
                let k = pre.asset_idx(a);
                assert(0 <= k < pre.assets@.len() && pre.assets@[k].id == a);
                assert(post.assets@[k].id == a);
            }
            if post.asset_registered(a) {
                let k = post.asset_idx(a);
                assert(0 <= k < post.assets@.len() && post.assets@[k].id == a);
                assert(pre.assets@[k].id == a);
            }
        }
    }

    /// Holdings well-formedness carries over to a ledger with the same
    /// holdings and registry.
    pub proof fn lemma_holdings_wf_same(pre: Ledger, post: Ledger)
        requires
            pre.holdings_wf(),
            post.holdings@ == pre.holdings@,
            post.assets@ == pre.assets@,
        ensures
            post.holdings_wf(),
    {
        Self::lemma_registered_same_assets(pre, post);
        assert forall|j: int| 0 <= j < post.holdings@.len() implies post.asset_registered(
            (#[trigger] post.holdings@[j]).asset,
        ) by {
            assert(post.holdings@[j] == pre.holdings@[j]);
        }
    }

    /// A registry whose identifiers are unchanged entry for entry resolves
    /// every asset exactly as before.
    pub proof fn lemma_registry_same_ids(pre: Ledger, post: Ledger)
        requires
            assets_unique(pre.assets@),
            post.assets@.len() == pre.assets@.len(),
            forall|j: int|
                0 <= j < pre.assets@.len() ==> (#[trigger] post.assets@[j]).id
                    == pre.assets@[j].id,
        ensures
            assets_unique(post.assets@),
            forall|a: u64| #[trigger] post.asset_registered(a) == pre.asset_registered(a),
            forall|a: u64|
                pre.asset_registered(a) ==> #[trigger] post.asset_idx(a) == pre.asset_idx(a),
    {
        assert forall|a: u64| #[trigger] post.asset_registered(a) == pre.asset_registered(a) by {
            if pre.asset_registered(a) {
                let j = pre.asset_idx(a);
                assert(post.assets@[j].id == a);
            }
            if post.asset_registered(a) {
                let j = post.asset_idx(a);
                assert(pre.assets@[j].id == a);
            }
        }
        assert forall|a: u64| pre.asset_registered(a) implies #[trigger] post.asset_idx(a)
            == pre.asset_idx(a) by {
            let jp = pre.asset_idx(a);
            assert(post.assets@[jp].id == a);
            let jq = post.asset_idx(a);
            assert(pre.assets@[jq].id == a);
        }
    }

    /// A registry extended by one fresh asset resolves every other asset
    /// exactly as before and the new one to the appended entry.
    pub proof fn lemma_registry_pushed(pre: Ledger, post: Ledger, info: AssetInfo)
        requires
            assets_unique(pre.assets@),
            !pre.asset_registered(info.id),
            post.assets@ == pre.assets@.push(info),
        ensures
            assets_unique(post.assets@),
            post.asset_registered(info.id),
            post.decimals_of(info.id) == info.decimals,
            post.supply_of(info.id) == info.supply as int,
            forall|a: u64|
                a != info.id ==> #[trigger] post.asset_registered(a) == pre.asset_registered(a),
            forall|a: u64| a != info.id ==> #[trigger] post.supply_of(a) == pre.supply_of(a),
            forall|a: u64|
                a != info.id && pre.asset_registered(a) ==> #[trigger] post.decimals_of(a)
                    == pre.decimals_of(a),
    {
        let n = pre.assets@.len() as int;
        assert(post.assets@[n] == info);
        assert forall|p: int, q: int|
            0 <= p < post.assets@.len() && 0 <= q < post.assets@.len() && p != q implies (
        #[trigger] post.assets@[p].id) != (#[trigger] post.assets@[q].id) by {
            if p < n && q < n {
                assert(post.assets@[p] == pre.assets@[p] && post.assets@[q] == pre.assets@[q]);
            } else if p < n {
                assert(post.assets@[p] == pre.assets@[p] && post.assets@[q] == info);
            } else {
                assert(post.assets@[p] == info && post.assets@[q] == pre.assets@[q]);
            }
        }
        assert(post.asset_registered(info.id));
        let k = post.asset_idx(info.id);
        assert(0 <= k < post.assets@.len() && post.assets@[k].id == info.id);
        assert(k == n);
        assert forall|a: u64|
            a != info.id implies #[trigger] post.asset_registered(a) == pre.asset_registered(
            a,
        ) by {
            if pre.asset_registered(a) {
                let j = pre.asset_idx(a);
                assert(post.assets@[j].id == a);
            }
            if post.asset_registered(a) {
                let j = post.asset_idx(a);
                assert(j < n);
                assert(pre.assets@[j].id == a);
            }
        }
        assert forall|a: u64| a != info.id implies #[trigger] post.supply_of(a) == pre.supply_of(
            a,
        ) by {
            if pre.asset_registered(a) {
                let jp = pre.asset_idx(a);
                assert(post.assets@[jp].id == a);
                let jq = post.asset_idx(a);
                assert(jq < n);
                assert(pre.assets@[jq].id == a);
                assert(jq == jp);
            }
        }
        assert forall|a: u64|
            a != info.id && pre.asset_registered(a) implies #[trigger] post.decimals_of(a)
            == pre.decimals_of(a) by {
            let jp = pre.asset_idx(a);
            assert(post.assets@[jp].id == a);
            let jq = post.asset_idx(a);
            assert(jq < n);
            assert(pre.assets@[jq].id == a);
            assert(jq == jp);
        }
    }

    /// Escrow entries whose record slots are unchanged entry for entry
    /// resolve every slot exactly as before.
    pub proof fn lemma_escrow_slots_same(pre: Ledger, post: Ledger)
        requires
            escrows_unique(pre.escrows@),
            post.escrows@.len() == pre.escrows@.len(),
            forall|j: int|
                0 <= j < pre.escrows@.len() ==> escrow_address(#[trigger] post.escrows@[j])
                    == escrow_address(pre.escrows@[j]),
        ensures
            escrows_unique(post.escrows@),
            forall|ad: Address| #[trigger] post.has_record(ad) == pre.has_record(ad),
            forall|ad: Address|
                pre.has_record(ad) ==> #[trigger] post.escrow_idx(ad) == pre.escrow_idx(ad),
    {
        assert forall|p: int, q: int|
            0 <= p < post.escrows@.len() && 0 <= q < post.escrows@.len() && p != q implies !(
        #[trigger] post.escrows@[p].state.maker == #[trigger] post.escrows@[q].state.maker
            && post.escrows@[p].state.seed == post.escrows@[q].state.seed) by {
            assert(escrow_address(post.escrows@[p]) == escrow_address(pre.escrows@[p]));
            assert(escrow_address(post.escrows@[q]) == escrow_address(pre.escrows@[q]));
            assert(!(pre.escrows@[p].state.maker == pre.escrows@[q].state.maker
                && pre.escrows@[p].state.seed == pre.escrows@[q].state.seed));
        }
        assert forall|ad: Address| #[trigger] post.has_record(ad) == pre.has_record(ad) by {
            if pre.has_record(ad) {
                let j = pre.escrow_idx(ad);
                assert(escrow_address(post.escrows@[j]) == ad);
            }
            if post.has_record(ad) {
                let j = post.escrow_idx(ad);
                assert(escrow_address(pre.escrows@[j]) == ad);
            }
        }
        assert forall|ad: Address| pre.has_record(ad) implies #[trigger] post.escrow_idx(ad)
            == pre.escrow_idx(ad) by {
            let jp = pre.escrow_idx(ad);
            assert(escrow_address(post.escrows@[jp]) == ad);
            let jq = post.escrow_idx(ad);
            assert(escrow_address(pre.escrows@[jq]) == ad);
            assert(escrow_address(pre.escrows@[jp]) == ad);
        }
    }

    /// Appending an escrow in a fresh slot leaves every other slot resolving
    /// exactly as before and the new slot resolving to the appended entry.
    pub proof fn lemma_escrow_slots_pushed(pre: Ledger, post: Ledger, e: OpenEscrow)
        requires
            escrows_unique(pre.escrows@),
            !pre.has_record(escrow_address(e)),
            post.escrows@ == pre.escrows@.push(e),
        ensures
            escrows_unique(post.escrows@),
            post.has_record(escrow_address(e)),
            post.record_at(escrow_address(e)) == e.state,
            post.vault_at(escrow_address(e)) == e.vault,
            forall|ad: Address|
                ad != escrow_address(e) ==> #[trigger] post.has_record(ad) == pre.has_record(ad),
            forall|ad: Address|
                ad != escrow_address(e) && pre.has_record(ad) ==> #[trigger] post.record_at(ad)
                    == pre.record_at(ad) && post.vault_at(ad) == pre.vault_at(ad),
    {
        let n = pre.escrows@.len() as int;
        let ad_new = escrow_address(e);
        assert(post.escrows@[n] == e);
        assert forall|j: int|
            0 <= j < pre.escrows@.len() implies !((#[trigger] pre.escrows@[j]).state.maker
            == e.state.maker && pre.escrows@[j].state.seed == e.state.seed) by {
            if pre.escrows@[j].state.maker == e.state.maker && pre.escrows@[j].state.seed
                == e.state.seed {
                assert(escrow_address(pre.escrows@[j]) == ad_new);
                assert(pre.has_record(ad_new));
            }
        }
        lemma_escrows_unique_push(pre.escrows@, e);
        assert(post.escrows@ =~= pre.escrows@.push(e));
        assert(escrows_unique(post.escrows@));
        assert(post.has_record(ad_new));
        let k = post.escrow_idx(ad_new);
        assert(0 <= k < post.escrows@.len() && escrow_address(post.escrows@[k]) == ad_new);
        assert(k == n);
        assert forall|ad: Address| ad != ad_new implies #[trigger] post.has_record(ad)
            == pre.has_record(ad) by {
            if pre.has_record(ad) {
                let j = pre.escrow_idx(ad);
                assert(escrow_address(post.escrows@[j]) == ad);
            }
            if post.has_record(ad) {
                let j = post.escrow_idx(ad);
                assert(j < n);
                assert(escrow_address(pre.escrows@[j]) == ad);
            }
        }
        assert forall|ad: Address| ad != ad_new && pre.has_record(ad) implies #[trigger] post
            .record_at(ad) == pre.record_at(ad) && post.vault_at(ad) == pre.vault_at(ad) by {
            let jp = pre.escrow_idx(ad);
            assert(escrow_address(post.escrows@[jp]) == ad);
            let jq = post.escrow_idx(ad);
            assert(jq < n);
            assert(escrow_address(pre.escrows@[jq]) == ad);
            assert(jq == jp);
            assert(post.escrows@[jp] == pre.escrows@[jp]);
        }
    }

    /// Removing the escrow at `i` empties its slot and leaves every other
    /// slot resolving exactly as before.
    pub proof fn lemma_escrow_slots_removed(pre: Ledger, post: Ledger, i: int)
        requires
            escrows_unique(pre.escrows@),
            0 <= i < pre.escrows@.len(),
            post.escrows@ == pre.escrows@.remove(i),
        ensures
            escrows_unique(post.escrows@),
            !post.has_record(escrow_address(pre.escrows@[i])),
            forall|ad: Address|
                ad != escrow_address(pre.escrows@[i]) ==> #[trigger] post.has_record(ad)
                    == pre.has_record(ad),
            forall|ad: Address|
                ad != escrow_address(pre.escrows@[i]) && pre.has_record(ad)
                    ==> #[trigger] post.record_at(ad) == pre.record_at(ad) && post.vault_at(ad)
                    == pre.vault_at(ad),
    {
        let n = pre.escrows@.len() as int;
        let ad_gone = escrow_address(pre.escrows@[i]);
        lemma_escrows_unique_remove(pre.escrows@, i);
        pre.escrows@.remove_ensures(i);
        assert forall|j: int| 0 <= j < post.escrows@.len() implies escrow_address(
            #[trigger] post.escrows@[j],
        ) != ad_gone by {
            let j0 = if j < i {
                j
            } else {
                j + 1
            };
            assert(post.escrows@[j] == pre.escrows@[j0]);
            if escrow_address(pre.escrows@[j0]) == ad_gone {
                assert(pre.escrows@[j0].state.maker == pre.escrows@[i].state.maker
                    && pre.escrows@[j0].state.seed == pre.escrows@[i].state.seed);
                assert(j0 != i);
            }
        }
        assert(!post.has_record(ad_gone));
        assert forall|ad: Address| ad != ad_gone implies #[trigger] post.has_record(ad)
            == pre.has_record(ad) by {
            if pre.has_record(ad) {
                let j = pre.escrow_idx(ad);
                assert(j != i);
                let j1 = if j < i {
                    j
                } else {
                    j - 1
                };
                assert(post.escrows@[j1] == pre.escrows@[j]);
                assert(escrow_address(post.escrows@[j1]) == ad);
            }
            if post.has_record(ad) {
                let j = post.escrow_idx(ad);
                let j0 = if j < i {
                    j
                } else {
                    j + 1
                };
                assert(post.escrows@[j] == pre.escrows@[j0]);
                assert(escrow_address(pre.escrows@[j0]) == ad);
            }
        }
        assert forall|ad: Address| ad != ad_gone && pre.has_record(ad) implies #[trigger] post
            .record_at(ad) == pre.record_at(ad) && post.vault_at(ad) == pre.vault_at(ad) by {
            let jp = pre.escrow_idx(ad);
            assert(jp != i);
            let j1 = if jp < i {
                jp
            } else {
                jp - 1
            };
            assert(post.escrows@[j1] == pre.escrows@[jp]);
            assert(escrow_address(post.escrows@[j1]) == ad);
            let jq = post.escrow_idx(ad);
            let jq0 = if jq < i {
                jq
            } else {
                jq + 1
            };
            assert(post.escrows@[jq] == pre.escrows@[jq0]);
            assert(escrow_address(pre.escrows@[jq0]) == ad);
            assert(jq == j1);
        }
    }

    /// An empty ledger: no assets issued, nothing held, nothing escrowed.
    pub fn new() -> (l: Ledger)
        ensures
            l.wf(),
            l.assets@.len() == 0,
            l.holdings@.len() == 0,
            l.escrows@.len() == 0,
            forall|o: u64, a: u64| #[trigger] l.balance(o, a) == 0,
            forall|ad: Address| !(#[trigger] l.has_record(ad)),
            forall|a: u64| !(#[trigger] l.asset_registered(a)),
            forall|a: u64| #[trigger] l.supply_of(a) == 0,
    {
        let l = Ledger { assets: Vec::new(), holdings: Vec::new(), escrows: Vec::new() };
        proof {
            assert forall|o: u64, a: u64| #[trigger] l.balance(o, a) == 0 by {
                assert(holdings_balance(l.holdings@, o, a) == 0);
            }
        }
        l
    }

    /// Credits `amount` to the holding account `(owner, asset)`, creating
    /// the account if absent.
    fn credit(&mut self, owner: u64, asset: u64, amount: u64)
        requires
            old(self).holdings_wf(),
            old(self).asset_registered(asset),
            old(self).balance(owner, asset) + amount <= u64::MAX as int,
        ensures
            final(self).holdings_wf(),
            final(self).assets == old(self).assets,
            final(self).escrows == old(self).escrows,
            forall|o: u64, a: u64| #[trigger] final(self).balance(o, a) == old(self).balance(o, a)
                + (if o == owner && a == asset { amount as int } else { 0 }),
            forall|a: u64| #[trigger] holdings_total(final(self).holdings@, a) == holdings_total(
                old(self).holdings@,
                a,
            ) + (if a == asset { amount as int } else { 0 }),
    {
        match self.find_holding(owner, asset) {
            Some(i) => {
                proof {
                    lemma_holdings_at(self.holdings@, i as int);
                }
                let h = self.holdings[i];
                let nh = Holding { owner: h.owner, asset: h.asset, amount: h.amount + amount };
                proof {
                    lemma_holdings_update(self.holdings@, i as int, nh);
                    lemma_holdings_unique_update(self.holdings@, i as int, nh);
                }
                self.holdings.set(i, nh);
                proof {
                    Self::lemma_registered_same_assets(*old(self), *self);
                    assert forall|j: int| 0 <= j < self.holdings@.len() implies self
                        .asset_registered((#[trigger] self.holdings@[j]).asset) by {
                        assert(self.holdings@[j].asset == old(self).holdings@[j].asset);
                    }
                }
            },
            None => {
                let nh = Holding { owner, asset, amount };
                proof {
                    lemma_holdings_absent(self.holdings@, owner, asset);
                    lemma_holdings_push(self.holdings@, nh);
                    lemma_holdings_unique_push(self.holdings@, nh);
                }
                self.holdings.push(nh);
                proof {
                    Self::lemma_registered_same_assets(*old(self), *self);
                    assert forall|j: int| 0 <= j < self.holdings@.len() implies self
                        .asset_registered((#[trigger] self.holdings@[j]).asset) by {
                        if j < old(self).holdings@.len() {
                            assert(self.holdings@[j] == old(self).holdings@[j]);
                        } else {
                            assert(self.holdings@[j] == nh);
                        }
                    }
                }
            },
        }
    }

    /// Debits `amount` from the holding account `(owner, asset)`; callable
    /// only when the balance covers it.
    fn debit(&mut self, owner: u64, asset: u64, amount: u64)
        requires
            old(self).holdings_wf(),
            amount as int <= old(self).balance(owner, asset),
        ensures
            final(self).holdings_wf(),
            final(self).assets == old(self).assets,
            final(self).escrows == old(self).escrows,
            forall|o: u64, a: u64| #[trigger] final(self).balance(o, a) == old(self).balance(o, a)
                - (if o == owner && a == asset { amount as int } else { 0 }),
            forall|a: u64| #[trigger] holdings_total(final(self).holdings@, a) == holdings_total(
                old(self).holdings@,
                a,
            ) - (if a == asset { amount as int } else { 0 }),
    {
        match self.find_holding(owner, asset) {
            Some(i) => {
                proof {
                    lemma_holdings_at(self.holdings@, i as int);
                }
                let h = self.holdings[i];
                let nh = Holding { owner: h.owner, asset: h.asset, amount: h.amount - amount };
                proof {
                    lemma_holdings_update(self.holdings@, i as int, nh);
                    lemma_holdings_unique_update(self.holdings@, i as int, nh);
                }
                self.holdings.set(i, nh);
                proof {
                    Self::lemma_registered_same_assets(*old(self), *self);
                    assert forall|j: int| 0 <= j < self.holdings@.len() implies self
                        .asset_registered((#[trigger] self.holdings@[j]).asset) by {
                        assert(self.holdings@[j].asset == old(self).holdings@[j].asset);
                    }
                }
            },
            None => {
                proof {
                    lemma_holdings_absent(self.holdings@, owner, asset);
                }
            },
        }
    }

    /// Issues a new asset with the given declared precision and zero supply.
    ///
    /// Returns `true` when the asset was new; an already-registered
    /// identifier is left untouched and reported with `false`, so an asset's
    /// authoritative precision can never change once issued.
    pub fn register_asset(&mut self, id: u64, decimals: u8) -> (r: bool)
        requires
            old(self).wf(),
        ensures
            final(self).wf(),
            r == !old(self).asset_registered(id),
            !r ==> *final(self) == *old(self),
            r ==> final(self).asset_registered(id) && final(self).decimals_of(id) == decimals
                && final(self).supply_of(id) == 0 && final(self).holdings == old(self).holdings
                && final(self).escrows == old(self).escrows,
            forall|a: u64|
                a != id ==> #[trigger] final(self).asset_registered(a) == old(self).asset_registered(a),
            forall|a: u64| a != id ==> #[trigger] final(self).supply_of(a) == old(self).supply_of(a),
            forall|a: u64|
                a != id && old(self).asset_registered(a) ==> #[trigger] final(self).decimals_of(a)
                    == old(self).decimals_of(a),
            forall|o: u64, a: u64| #[trigger] final(self).balance(o, a) == old(self).balance(o, a),
            forall|ad: Address| #[trigger] final(self).has_record(ad) == old(self).has_record(ad),
            forall|ad: Address|
                old(self).has_record(ad) ==> #[trigger] final(self).record_at(ad) == old(self).record_at(ad) && final(self).vault_at(ad) == old(self).vault_at(ad),
    {
        match self.find_asset(id) {
            Some(_) => {
                proof {
                    assert(old(self).asset_registered(id));
                }
                false
            },
            None => {
                let info = AssetInfo { id, decimals, supply: 0 };
                self.assets.push(info);
                proof {
                    Self::lemma_registry_pushed(*old(self), *self, info);
                    Self::lemma_escrow_slots_same(*old(self), *self);
                    assert forall|j: int| 0 <= j < old(self).holdings@.len() implies (
                    #[trigger] old(self).holdings@[j]).asset != id by {
                        assert(old(self).asset_registered(old(self).holdings@[j].asset));
                    }
                    lemma_holdings_total_absent(self.holdings@, id);
                    assert forall|j: int| 0 <= j < old(self).escrows@.len() implies (
                    #[trigger] old(self).escrows@[j]).vault.mint != id by {
                        assert(old(self).asset_registered(old(self).escrows@[j].state.mint_a));
                        assert(entry_wf(old(self).escrows@[j]));
                    }
                    lemma_vaults_total_absent(self.escrows@, id);
                    assert forall|i: int| 0 <= i < self.assets@.len() implies (
                    #[trigger] self.assets@[i]).supply as int == holdings_total(
                        self.holdings@,
                        self.assets@[i].id,
                    ) + vaults_total(self.escrows@, self.assets@[i].id) by {
                        if i < old(self).assets@.len() {
                            assert(self.assets@[i] == old(self).assets@[i]);
                        } else {
                            assert(self.assets@[i] == info);
                        }
                    }
                }
                true
            },
        }
    }

    /// Issues `amount` of `asset` to `owner`, growing the recorded supply.
    ///
    /// Returns `false`, changing nothing, when the asset is unknown or the
    /// issue would push its supply past what a balance can carry.
    pub fn mint_to(&mut self, owner: u64, asset: u64, amount: u64) -> (r: bool)
        requires
            old(self).wf(),
        ensures
            final(self).wf(),
            r == (old(self).asset_registered(asset) && old(self).supply_of(asset) + amount
                <= u64::MAX as int),
            !r ==> *final(self) == *old(self),
            r ==> final(self).supply_of(asset) == old(self).supply_of(asset) + amount && final(self).escrows == old(self).escrows,
            r ==> (forall|o: u64, a: u64| #[trigger] final(self).balance(o, a) == old(self).balance(o, a) + (if o == owner && a == asset { amount as int } else { 0 })),
            forall|a: u64| #[trigger] final(self).asset_registered(a) == old(self).asset_registered(
                a,
            ),
            forall|a: u64|
                old(self).asset_registered(a) ==> #[trigger] final(self).decimals_of(a) == old(self).decimals_of(a),
            forall|a: u64| a != asset ==> #[trigger] final(self).supply_of(a) == old(self).supply_of(a),
            forall|ad: Address| #[trigger] final(self).has_record(ad) == old(self).has_record(ad),
            forall|ad: Address|
                old(self).has_record(ad) ==> #[trigger] final(self).record_at(ad) == old(self).record_at(ad) && final(self).vault_at(ad) == old(self).vault_at(ad),
    {
        match self.find_asset(asset) {
            None => false,
            Some(i) => {
                proof {
                    self.lemma_asset_at(i as int);
                }
                let info = self.assets[i];
                if amount > u64::MAX - info.supply {
                    return false;
                }
                let ni = AssetInfo {
                    id: info.id,
                    decimals: info.decimals,
                    supply: info.supply + amount,
                };
                self.assets.set(i, ni);
                proof {
                    Self::lemma_registry_same_ids(*old(self), *self);
                    lemma_holdings_balance_le_total(self.holdings@);
                    lemma_vaults_nonneg(self.escrows@);
                    assert(old(self).supply_of(asset) == holdings_total(self.holdings@, asset)
                        + vaults_total(self.escrows@, asset));
                }
                self.credit(owner, asset, amount);
                proof {
                    Self::lemma_registry_same_ids(*old(self), *self);
                    Self::lemma_escrow_slots_same(*old(self), *self);
                    assert forall|k: int| 0 <= k < self.assets@.len() implies (
                    #[trigger] self.assets@[k]).supply as int == holdings_total(
                        self.holdings@,
                        self.assets@[k].id,
                    ) + vaults_total(self.escrows@, self.assets@[k].id) by {
                        if k != i as int {
                            assert(self.assets@[k] == old(self).assets@[k]);
                            assert(old(self).assets@[k].id != asset);
                        } else {
                            assert(self.assets@[k] == ni);
                        }
                    }
                    assert(self.asset_idx(asset) == i as int);
                    assert forall|a: u64| a != asset implies #[trigger] self.supply_of(a) == old(self).supply_of(a) by {
                        if old(self).asset_registered(a) {
                            assert(self.asset_idx(a) == old(self).asset_idx(a));
                            assert(old(self).asset_idx(a) != i as int);
                            assert(self.assets@[old(self).asset_idx(a)] == old(self).assets@[old(self).asset_idx(a)]);
                        }
                    }
                    assert forall|a: u64|
                        old(self).asset_registered(a) implies #[trigger] self.decimals_of(a) == old(self).decimals_of(a) by {
                        assert(self.asset_idx(a) == old(self).asset_idx(a));
                        if old(self).asset_idx(a) != i as int {
                            assert(self.assets@[old(self).asset_idx(a)] == old(self).assets@[old(self).asset_idx(a)]);
                        } else {
                            assert(self.assets@[i as int] == ni);
                        }
                    }
                }
                true
            },
        }
    }

    /// Why a transfer of `amount` of `asset` out of `from`'s holding, under
    /// caller-declared `precision`, would be refused; `None` when it goes
    /// through.
    pub open spec fn transfer_error(
        self,
        from: u64,
        asset: u64,
        amount: u64,
        precision: u8,
    ) -> Option<EscrowError> {
        if !self.asset_registered(asset) || self.decimals_of(asset) != precision {
            Some(EscrowError::PrecisionMismatch)
        } else if self.balance(from, asset) < amount {
            Some(EscrowError::InsufficientFunds)
        } else {
            None
        }
    }

    /// The asset-transfer primitive: debits `from` and credits `to` with
    /// `amount` of `asset`, after validating the caller-declared decimal
    /// `precision` against the asset's authoritative one and the payer's
    /// balance against the amount.  All checks precede the first write.
    pub fn transfer(&mut self, from: u64, to: u64, asset: u64, amount: u64, precision: u8) -> (r:
        Result<(), EscrowError>)
        requires
            old(self).wf(),
        ensures
            final(self).wf(),
            match r {
                Ok(_) => old(self).transfer_error(from, asset, amount, precision) is None && final(self).escrows == old(self).escrows && final(self).assets == old(self).assets && (
                forall|o: u64, a: u64| #[trigger] final(self).balance(o, a) == old(self).balance(
                    o,
                    a,
                ) - (if o == from && a == asset { amount as int } else { 0 }) + (if o == to && a
                    == asset { amount as int } else { 0 })),
                Err(e) => old(self).transfer_error(from, asset, amount, precision) == Some(e) && *final(self) == *old(self),
            },
            forall|ad: Address| #[trigger] final(self).has_record(ad) == old(self).has_record(ad),
            forall|ad: Address|
                old(self).has_record(ad) ==> #[trigger] final(self).record_at(ad) == old(self).record_at(ad) && final(self).vault_at(ad) == old(self).vault_at(ad),
            forall|a: u64| #[trigger] final(self).asset_registered(a) == old(self).asset_registered(
                a,
            ),
            forall|a: u64| #[trigger] final(self).supply_of(a) == old(self).supply_of(a),
            forall|a: u64|
                old(self).asset_registered(a) ==> #[trigger] final(self).decimals_of(a) == old(self).decimals_of(a),
    {
        let di = match self.find_asset(asset) {
            None => {
                return Err(EscrowError::PrecisionMismatch);
            },
            Some(d) => d,
        };
        proof {
            self.lemma_asset_at(di as int);
        }
        if self.assets[di].decimals != precision {
            return Err(EscrowError::PrecisionMismatch);
        }
        let b = self.balance_of(from, asset);
        if b < amount {
            return Err(EscrowError::InsufficientFunds);
        }
        proof {
            lemma_holdings_balance_le_total(self.holdings@);
            lemma_vaults_nonneg(self.escrows@);
            self.lemma_conservation(asset);
        }
        self.debit(from, asset, amount);
        proof {
            Self::lemma_registered_same_assets(*old(self), *self);
            lemma_holdings_balance_le_total(self.holdings@);
            lemma_holdings_nonneg(old(self).holdings@);
        }
        self.credit(to, asset, amount);
        proof {
            Self::lemma_registered_same_assets(*old(self), *self);
            Self::lemma_registry_same_ids(*old(self), *self);
            Self::lemma_escrow_slots_same(*old(self), *self);
            assert forall|i: int| 0 <= i < self.escrows@.len() implies entry_wf(
                #[trigger] self.escrows@[i],
            ) && self.asset_registered(self.escrows@[i].state.mint_a) by {
                assert(self.escrows@[i] == old(self).escrows@[i]);
            }
            assert forall|k: int| 0 <= k < self.assets@.len() implies (
            #[trigger] self.assets@[k]).supply as int == holdings_total(
                self.holdings@,
                self.assets@[k].id,
            ) + vaults_total(self.escrows@, self.assets@[k].id) by {
                assert(self.assets@[k] == old(self).assets@[k]);
            }
            assert forall|a: u64| #[trigger] self.supply_of(a) == old(self).supply_of(a) by {
                if old(self).asset_registered(a) {
                    assert(self.asset_idx(a) == old(self).asset_idx(a));
                }
            }
            assert forall|a: u64|
                old(self).asset_registered(a) implies #[trigger] self.decimals_of(a) == old(self).decimals_of(a) by {
                assert(self.asset_idx(a) == old(self).asset_idx(a));
            }
        }
        Ok(())
    }

    /// Why a deposit of `amount` into the vault at `addr` out of `from`'s
    /// holding, under caller-declared `precision`, would be refused.
    pub open spec fn vault_deposit_error(
        self,
        from: u64,
        addr: Address,
        amount: u64,
        precision: u8,
    ) -> Option<EscrowError> {
        if !self.has_record(addr) {
            Some(EscrowError::RecordNotFound)
        } else if self.decimals_of(self.vault_at(addr).mint) != precision {
            Some(EscrowError::PrecisionMismatch)
        } else if self.balance(from, self.vault_at(addr).mint) < amount {
            Some(EscrowError::InsufficientFunds)
        } else {
            None
        }
    }

    /// Moves `amount` of the vault's asset from `from`'s holding into the
    /// vault at `addr`, validating the caller-declared decimal `precision`
    /// against the asset's authoritative one.
    pub fn vault_deposit(&mut self, from: u64, addr: &Address, amount: u64, precision: u8) -> (r:
        Result<(), EscrowError>)
        requires
            old(self).wf(),
        ensures
            final(self).wf(),
            match r {
                Ok(_) => old(self).vault_deposit_error(from, *addr, amount, precision) is None
                    && final(self).assets == old(self).assets && (forall|o: u64, a: u64|
                    #[trigger] final(self).balance(o, a) == old(self).balance(o, a) - (if o == from
                        && a == old(self).vault_at(*addr).mint {
                        amount as int
                    } else {
                        0
                    })) && (forall|ad: Address| #[trigger] final(self).has_record(ad) == old(self).has_record(ad)) && (forall|ad: Address|
                    old(self).has_record(ad) ==> #[trigger] final(self).record_at(ad) == old(self).record_at(ad)) && (forall|ad: Address|
                    ad != *addr && old(self).has_record(ad) ==> #[trigger] final(self).vault_at(ad)
                        == old(self).vault_at(ad)) && final(self).vault_at(*addr) == Vault {
                    amount: (old(self).vault_at(*addr).amount + amount) as u64,
                    ..old(self).vault_at(*addr)
                },
                Err(e) => old(self).vault_deposit_error(from, *addr, amount, precision) == Some(e)
                    && *final(self) == *old(self),
            },
            forall|a: u64| #[trigger] final(self).asset_registered(a) == old(self).asset_registered(
                a,
            ),
            forall|a: u64| #[trigger] final(self).supply_of(a) == old(self).supply_of(a),
            forall|a: u64|
                old(self).asset_registered(a) ==> #[trigger] final(self).decimals_of(a) == old(self).decimals_of(a),
    {
        let i = match self.find_escrow(addr) {
            None => {
                return Err(EscrowError::RecordNotFound);
            },
            Some(i) => i,
        };
        proof {
            self.lemma_escrow_at(i as int);
        }
        let v = self.escrows[i].vault;
        let di = match self.find_asset(v.mint) {
            None => {
                return vstd::pervasive::unreached();
            },
            Some(d) => d,
        };
        proof {
            self.lemma_asset_at(di as int);
        }
        if self.assets[di].decimals != precision {
            return Err(EscrowError::PrecisionMismatch);
        }
        let b = self.balance_of(from, v.mint);
        if b < amount {
            return Err(EscrowError::InsufficientFunds);
        }
        proof {
            lemma_holdings_balance_le_total(self.holdings@);
            lemma_vault_le_total(self.escrows@, i as int);
            self.lemma_conservation(v.mint);
        }
        let ne = OpenEscrow {
            state: self.escrows[i].state,
            vault: Vault { mint: v.mint, amount: v.amount + amount, authority: v.authority },
        };
        proof {
            lemma_vaults_update(self.escrows@, i as int, ne);
        }
        self.escrows.set(i, ne);
        proof {
            Self::lemma_registered_same_assets(*old(self), *self);
            Self::lemma_holdings_wf_same(*old(self), *self);
            assert forall|j: int|
                0 <= j < old(self).escrows@.len() implies escrow_address(
                #[trigger] self.escrows@[j],
            ) == escrow_address(old(self).escrows@[j]) by {
                if j != i as int {
                    assert(self.escrows@[j] == old(self).escrows@[j]);
                }
            }
            Self::lemma_escrow_slots_same(*old(self), *self);
        }
        self.debit(from, v.mint, amount);
        proof {
            Self::lemma_registered_same_assets(*old(self), *self);
            Self::lemma_registry_same_ids(*old(self), *self);
            assert forall|j: int|
                0 <= j < old(self).escrows@.len() implies escrow_address(
                #[trigger] self.escrows@[j],
            ) == escrow_address(old(self).escrows@[j]) by {
                if j != i as int {
                    assert(self.escrows@[j] == old(self).escrows@[j]);
                }
            }
            Self::lemma_escrow_slots_same(*old(self), *self);
            assert forall|j: int| 0 <= j < self.escrows@.len() implies entry_wf(
                #[trigger] self.escrows@[j],
            ) && self.asset_registered(self.escrows@[j].state.mint_a) by {
                if j != i as int {
                    assert(self.escrows@[j] == old(self).escrows@[j]);
                } else {
                    assert(self.escrows@[j] == ne);
                    assert(entry_wf(old(self).escrows@[j]));
                }
            }
            assert forall|k: int| 0 <= k < self.assets@.len() implies (
            #[trigger] self.assets@[k]).supply as int == holdings_total(
                self.holdings@,
                self.assets@[k].id,
            ) + vaults_total(self.escrows@, self.assets@[k].id) by {
                assert(self.assets@[k] == old(self).assets@[k]);
                assert(vaults_total(self.escrows@, self.assets@[k].id) == vaults_total(
                    old(self).escrows@,
                    self.assets@[k].id,
                ) - vault_part(old(self).escrows@[i as int], self.assets@[k].id) + vault_part(
                    ne,
                    self.assets@[k].id,
                ));
            }
            assert forall|ad: Address|
                old(self).has_record(ad) implies #[trigger] self.record_at(ad) == old(self).record_at(ad) by {
                assert(self.escrow_idx(ad) == old(self).escrow_idx(ad));
                if old(self).escrow_idx(ad) != i as int {
                    assert(self.escrows@[old(self).escrow_idx(ad)] == old(self).escrows@[old(self).escrow_idx(ad)]);
                }
            }
            assert forall|ad: Address|
                ad != *addr && old(self).has_record(ad) implies #[trigger] self.vault_at(ad) == old(self).vault_at(ad) by {
                assert(self.escrow_idx(ad) == old(self).escrow_idx(ad));
                assert(old(self).escrow_idx(ad) != i as int);
                assert(self.escrows@[old(self).escrow_idx(ad)] == old(self).escrows@[old(self).escrow_idx(ad)]);
            }
            assert(self.escrow_idx(*addr) == i as int);
            assert forall|a: u64| #[trigger] self.supply_of(a) == old(self).supply_of(a) by {
                if old(self).asset_registered(a) {
                    assert(self.asset_idx(a) == old(self).asset_idx(a));
                }
            }
            assert forall|a: u64|
                old(self).asset_registered(a) implies #[trigger] self.decimals_of(a) == old(self).decimals_of(a) by {
                assert(self.asset_idx(a) == old(self).asset_idx(a));
            }
        }
        Ok(())
    }

    /// Why a withdrawal from the vault at `addr` under the presented
    /// authority would be refused.
    pub open spec fn vault_withdraw_error(self, addr: Address, presented: Authority) -> Option<
        EscrowError,
    > {
        if !self.has_record(addr) {
            Some(EscrowError::RecordNotFound)
        } else if presented != self.vault_at(addr).authority {
            Some(EscrowError::AuthorityMismatch)
        } else {
            None
        }
    }

    /// Pays the full vault balance at `addr` out to `to`'s holding.
    ///
    /// The caller must present the vault's controlling authority — the value
    /// derived from the record's own maker and seed — and a vault is never
    /// partially drained: the whole balance moves and the vault is left at
    /// zero.
    pub fn vault_withdraw(&mut self, addr: &Address, to: u64, presented: &Authority) -> (r: Result<
        (),
        EscrowError,
    >)
        requires
            old(self).wf(),
        ensures
            final(self).wf(),
            match r {
                Ok(_) => old(self).vault_withdraw_error(*addr, *presented) is None && final(self).assets == old(self).assets && (forall|o: u64, a: u64| #[trigger] final(self).balance(o, a) == old(self).balance(o, a) + (if o == to && a == old(self).vault_at(
                    *addr,
                ).mint {
                    old(self).vault_at(*addr).amount as int
                } else {
                    0
                })) && (forall|ad: Address| #[trigger] final(self).has_record(ad) == old(self).has_record(ad)) && (forall|ad: Address|
                    old(self).has_record(ad) ==> #[trigger] final(self).record_at(ad) == old(self).record_at(ad)) && (forall|ad: Address|
                    ad != *addr && old(self).has_record(ad) ==> #[trigger] final(self).vault_at(ad)
                        == old(self).vault_at(ad)) && final(self).vault_at(*addr) == Vault {
                    amount: 0u64,
                    ..old(self).vault_at(*addr)
                },
                Err(e) => old(self).vault_withdraw_error(*addr, *presented) == Some(e) && *final(self) == *old(self),
            },
            forall|a: u64| #[trigger] final(self).asset_registered(a) == old(self).asset_registered(
                a,
            ),
            forall|a: u64| #[trigger] final(self).supply_of(a) == old(self).supply_of(a),
            forall|a: u64|
                old(self).asset_registered(a) ==> #[trigger] final(self).decimals_of(a) == old(self).decimals_of(a),
    {
        let i = match self.find_escrow(addr) {
            None => {
                return Err(EscrowError::RecordNotFound);
            },
            Some(i) => i,
        };
        proof {
            self.lemma_escrow_at(i as int);
        }
        let v = self.escrows[i].vault;
        if !(presented.address == v.authority.address && presented.witness == v.authority.witness) {
            return Err(EscrowError::AuthorityMismatch);
        }
        proof {
            lemma_holdings_balance_le_total(self.holdings@);
            lemma_vault_le_total(self.escrows@, i as int);
            self.lemma_conservation(v.mint);
        }
        let ne = OpenEscrow {
            state: self.escrows[i].state,
            vault: Vault { mint: v.mint, amount: 0, authority: v.authority },
        };
        proof {
            lemma_vaults_update(self.escrows@, i as int, ne);
        }
        self.escrows.set(i, ne);
        proof {
            Self::lemma_registered_same_assets(*old(self), *self);
            Self::lemma_holdings_wf_same(*old(self), *self);
            assert forall|j: int|
                0 <= j < old(self).escrows@.len() implies escrow_address(
                #[trigger] self.escrows@[j],
            ) == escrow_address(old(self).escrows@[j]) by {
                if j != i as int {
                    assert(self.escrows@[j] == old(self).escrows@[j]);
                }
            }
            Self::lemma_escrow_slots_same(*old(self), *self);
        }
        self.credit(to, v.mint, v.amount);
        proof {
            Self::lemma_registered_same_assets(*old(self), *self);
            Self::lemma_registry_same_ids(*old(self), *self);
            assert forall|j: int|
                0 <= j < old(self).escrows@.len() implies escrow_address(
                #[trigger] self.escrows@[j],
            ) == escrow_address(old(self).escrows@[j]) by {
                if j != i as int {
                    assert(self.escrows@[j] == old(self).escrows@[j]);
                }
            }
            Self::lemma_escrow_slots_same(*old(self), *self);
            assert forall|j: int| 0 <= j < self.escrows@.len() implies entry_wf(
                #[trigger] self.escrows@[j],
            ) && self.asset_registered(self.escrows@[j].state.mint_a) by {
                if j != i as int {
                    assert(self.escrows@[j] == old(self).escrows@[j]);
                } else {
                    assert(self.escrows@[j] == ne);
                    assert(entry_wf(old(self).escrows@[j]));
                }
            }
            assert forall|k: int| 0 <= k < self.assets@.len() implies (
            #[trigger] self.assets@[k]).supply as int == holdings_total(
                self.holdings@,
                self.assets@[k].id,
            ) + vaults_total(self.escrows@, self.assets@[k].id) by {
                assert(self.assets@[k] == old(self).assets@[k]);
                assert(vaults_total(self.escrows@, self.assets@[k].id) == vaults_total(
                    old(self).escrows@,
                    self.assets@[k].id,
                ) - vault_part(old(self).escrows@[i as int], self.assets@[k].id) + vault_part(
                    ne,
                    self.assets@[k].id,
                ));
            }
            assert forall|ad: Address|
                old(self).has_record(ad) implies #[trigger] self.record_at(ad) == old(self).record_at(ad) by {
                assert(self.escrow_idx(ad) == old(self).escrow_idx(ad));
                if old(self).escrow_idx(ad) != i as int {
                    assert(self.escrows@[old(self).escrow_idx(ad)] == old(self).escrows@[old(self).escrow_idx(ad)]);
                }
            }
            assert forall|ad: Address|
                ad != *addr && old(self).has_record(ad) implies #[trigger] self.vault_at(ad) == old(self).vault_at(ad) by {
                assert(self.escrow_idx(ad) == old(self).escrow_idx(ad));
                assert(old(self).escrow_idx(ad) != i as int);
                assert(self.escrows@[old(self).escrow_idx(ad)] == old(self).escrows@[old(self).escrow_idx(ad)]);
            }
            assert(self.escrow_idx(*addr) == i as int);
            assert forall|a: u64| #[trigger] self.supply_of(a) == old(self).supply_of(a) by {
                if old(self).asset_registered(a) {
                    assert(self.asset_idx(a) == old(self).asset_idx(a));
                }
            }
            assert forall|a: u64|
                old(self).asset_registered(a) implies #[trigger] self.decimals_of(a) == old(self).decimals_of(a) by {
                assert(self.asset_idx(a) == old(self).asset_idx(a));
            }
        }
        Ok(())
    }

    /// Why destroying the escrow at `addr` under the presented authority
    /// would be refused.
    pub open spec fn close_error(self, addr: Address, presented: Authority) -> Option<
        EscrowError,
    > {
        if !self.has_record(addr) {
            Some(EscrowError::RecordNotFound)
        } else if presented != self.vault_at(addr).authority {
            Some(EscrowError::AuthorityMismatch)
        } else {
            None
        }
    }

    /// Destroys the record and vault at `addr` in one step, reclaiming their
    /// storage.
    ///
    /// The caller must present the vault's controlling authority, and the
    /// custody primitive refuses to destroy an account still holding funds,
    /// so the vault must already have been drained.
    pub fn close_escrow(&mut self, addr: &Address, presented: &Authority) -> (r: Result<
        (),
        EscrowError,
    >)
        requires
            old(self).wf(),
            old(self).has_record(*addr) ==> old(self).vault_amount_at(*addr) == 0,
        ensures
            final(self).wf(),
            match r {
                Ok(_) => old(self).close_error(*addr, *presented) is None && final(self).assets
                    == old(self).assets && final(self).holdings == old(self).holdings && !final(self).has_record(*addr) && (forall|ad: Address|
                    ad != *addr ==> #[trigger] final(self).has_record(ad) == old(self).has_record(
                        ad,
                    )) && (forall|ad: Address|
                    ad != *addr && old(self).has_record(ad) ==> #[trigger] final(self).record_at(ad)
                        == old(self).record_at(ad) && final(self).vault_at(ad) == old(self).vault_at(ad)),
                Err(e) => old(self).close_error(*addr, *presented) == Some(e) && *final(self)
                    == *old(self),
            },
            forall|a: u64| #[trigger] final(self).asset_registered(a) == old(self).asset_registered(
                a,
            ),
            forall|a: u64| #[trigger] final(self).supply_of(a) == old(self).supply_of(a),
            forall|a: u64|
                old(self).asset_registered(a) ==> #[trigger] final(self).decimals_of(a) == old(self).decimals_of(a),
    {
        let i = match self.find_escrow(addr) {
            None => {
                return Err(EscrowError::RecordNotFound);
            },
            Some(i) => i,
        };
        proof {
            self.lemma_escrow_at(i as int);
        }
        let v = self.escrows[i].vault;
        if !(presented.address == v.authority.address && presented.witness == v.authority.witness) {
            return Err(EscrowError::AuthorityMismatch);
        }
        proof {
            lemma_vaults_remove(self.escrows@, i as int);
        }
        self.escrows.remove(i);
        proof {
            Self::lemma_registered_same_assets(*old(self), *self);
            Self::lemma_registry_same_ids(*old(self), *self);
            Self::lemma_holdings_wf_same(*old(self), *self);
            Self::lemma_escrow_slots_removed(*old(self), *self, i as int);
            old(self).escrows@.remove_ensures(i as int);
            assert forall|j: int| 0 <= j < self.escrows@.len() implies entry_wf(
                #[trigger] self.escrows@[j],
            ) && self.asset_registered(self.escrows@[j].state.mint_a) by {
                let j0 = if j < i as int {
                    j
                } else {
                    j + 1
                };
                assert(self.escrows@[j] == old(self).escrows@[j0]);
                assert(entry_wf(old(self).escrows@[j0]));
            }
            assert forall|k: int| 0 <= k < self.assets@.len() implies (
            #[trigger] self.assets@[k]).supply as int == holdings_total(
                self.holdings@,
                self.assets@[k].id,
            ) + vaults_total(self.escrows@, self.assets@[k].id) by {
                assert(self.assets@[k] == old(self).assets@[k]);
                assert(vaults_total(self.escrows@, self.assets@[k].id) == vaults_total(
                    old(self).escrows@,
                    self.assets@[k].id,
                ) - vault_part(old(self).escrows@[i as int], self.assets@[k].id));
                assert(vault_part(old(self).escrows@[i as int], self.assets@[k].id) == 0);
            }
            assert forall|a: u64| #[trigger] self.supply_of(a) == old(self).supply_of(a) by {
                if old(self).asset_registered(a) {
                    assert(self.asset_idx(a) == old(self).asset_idx(a));
                }
            }
            assert forall|a: u64|
                old(self).asset_registered(a) implies #[trigger] self.decimals_of(a) == old(self).decimals_of(a) by {
                assert(self.asset_idx(a) == old(self).asset_idx(a));
            }
        }
        Ok(())
    }

    /// Why allocating a record and vault for `st` would be refused: its
    /// derived slot is already occupied, or the offered asset is unknown so
    /// no vault can be denominated in it.
    pub open spec fn create_error(self, st: EscrowState) -> Option<EscrowError> {
        if self.has_record(record_address(st.maker, st.seed)) {
            Some(EscrowError::DuplicateRecord)
        } else if !self.asset_registered(st.mint_a) {
            Some(EscrowError::PrecisionMismatch)
        } else {
            None
        }
    }

    /// Allocates storage for a new record at its derived, collision-checked
    /// slot, together with an empty vault controlled by the record's derived
    /// authority.
    pub fn create_escrow(&mut self, st: EscrowState) -> (r: Result<Address, EscrowError>)
        requires
            old(self).wf(),
            st.bump == witness_of(st.maker, st.seed),
            st.mint_a != st.mint_b,
            st.receive_amount > 0,
        ensures
            final(self).wf(),
            match r {
                Ok(addr) => old(self).create_error(st) is None && addr == record_address(
                    st.maker,
                    st.seed,
                ) && final(self).has_record(addr) && final(self).record_at(addr) == st && final(self).vault_at(addr) == Vault {
                    mint: st.mint_a,
                    amount: 0u64,
                    authority: authority_of(st.maker, st.seed),
                } && (forall|ad: Address|
                    ad != addr ==> #[trigger] final(self).has_record(ad) == old(self).has_record(
                        ad,
                    )) && (forall|ad: Address|
                    ad != addr && old(self).has_record(ad) ==> #[trigger] final(self).record_at(ad)
                        == old(self).record_at(ad) && final(self).vault_at(ad) == old(self).vault_at(ad)) && final(self).holdings == old(self).holdings && final(self).assets == old(self).assets,
                Err(e) => old(self).create_error(st) == Some(e) && *final(self) == *old(self),
            },
            forall|a: u64| #[trigger] final(self).asset_registered(a) == old(self).asset_registered(
                a,
            ),
            forall|a: u64| #[trigger] final(self).supply_of(a) == old(self).supply_of(a),
            forall|a: u64|
                old(self).asset_registered(a) ==> #[trigger] final(self).decimals_of(a) == old(self).decimals_of(a),
    {
        let addr = Address {
            namespace: crate::constants::ESCROW_NAMESPACE,
            maker: st.maker,
            seed: st.seed,
        };
        match self.find_escrow(&addr) {
            Some(_) => {
                return Err(EscrowError::DuplicateRecord);
            },
            None => {},
        }
        match self.find_asset(st.mint_a) {
            None => {
                return Err(EscrowError::PrecisionMismatch);
            },
            Some(_) => {},
        }
        let auth = Authority { address: addr, witness: st.bump };
        let e = OpenEscrow { state: st, vault: Vault { mint: st.mint_a, amount: 0, authority: auth } };
        proof {
            lemma_vaults_push(self.escrows@, e);
        }
        self.escrows.push(e);
        proof {
            Self::lemma_registered_same_assets(*old(self), *self);
            Self::lemma_registry_same_ids(*old(self), *self);
            Self::lemma_holdings_wf_same(*old(self), *self);
            Self::lemma_escrow_slots_pushed(*old(self), *self, e);
            assert(escrow_address(e) == addr);
            assert forall|j: int| 0 <= j < self.escrows@.len() implies entry_wf(
                #[trigger] self.escrows@[j],
            ) && self.asset_registered(self.escrows@[j].state.mint_a) by {
                if j < old(self).escrows@.len() {
                    assert(self.escrows@[j] == old(self).escrows@[j]);
                } else {
                    assert(self.escrows@[j] == e);
                }
            }
            assert forall|k: int| 0 <= k < self.assets@.len() implies (
            #[trigger] self.assets@[k]).supply as int == holdings_total(
                self.holdings@,
                self.assets@[k].id,
            ) + vaults_total(self.escrows@, self.assets@[k].id) by {
                assert(self.assets@[k] == old(self).assets@[k]);
                assert(vault_part(e, self.assets@[k].id) == 0);
            }
            assert forall|a: u64| #[trigger] self.supply_of(a) == old(self).supply_of(a) by {
                if old(self).asset_registered(a) {
                    assert(self.asset_idx(a) == old(self).asset_idx(a));
                }
            }
            assert forall|a: u64|
                old(self).asset_registered(a) implies #[trigger] self.decimals_of(a) == old(self).decimals_of(a) by {
                assert(self.asset_idx(a) == old(self).asset_idx(a));
            }
        }
        Ok(addr)
    }

    /// First registry index carrying `a`, if any.
    fn find_asset(&self, a: u64) -> (r: Option<usize>)
        ensures
            match r {
                Some(i) => 0 <= i < self.assets@.len() && self.assets@[i as int].id == a,
                None => !self.asset_registered(a),
            },
    {
        let n = self.assets.len();
        let mut i: usize = 0;
        while i < n
            invariant
                n == self.assets@.len(),
                0 <= i <= n,
                forall|j: int| 0 <= j < i ==> (#[trigger] self.assets@[j].id) != a,
            decreases n - i,
        {
            if self.assets[i].id == a {
                return Some(i);
            }
            i += 1;
        }
        None
    }

    /// First holding index keyed `(o, a)`, if any.
    fn find_holding(&self, o: u64, a: u64) -> (r: Option<usize>)
        ensures
            match r {
                Some(i) => 0 <= i < self.holdings@.len() && self.holdings@[i as int].owner == o
                    && self.holdings@[i as int].asset == a,
                None => forall|j: int|
                    0 <= j < self.holdings@.len() ==> !((#[trigger] self.holdings@[j]).owner == o
                        && self.holdings@[j].asset == a),
            },
    {
        let n = self.holdings.len();
        let mut i: usize = 0;
        while i < n
            invariant
                n == self.holdings@.len(),
                0 <= i <= n,
                forall|j: int|
                    0 <= j < i ==> !((#[trigger] self.holdings@[j]).owner == o
                        && self.holdings@[j].asset == a),
            decreases n - i,
        {
            if self.holdings[i].owner == o && self.holdings[i].asset == a {
                return Some(i);
            }
            i += 1;
        }
        None
    }

    /// First escrow index occupying the slot `addr`, if any.
    fn find_escrow(&self, addr: &Address) -> (r: Option<usize>)
        ensures
            match r {
                Some(i) => 0 <= i < self.escrows@.len() && escrow_address(self.escrows@[i as int])
                    == *addr,
                None => !self.has_record(*addr),
            },
    {
        let n = self.escrows.len();
        let mut i: usize = 0;
        while i < n
            invariant
                n == self.escrows@.len(),
                0 <= i <= n,
                forall|j: int| 0 <= j < i ==> escrow_address(#[trigger] self.escrows@[j]) != *addr,
            decreases n - i,
        {
            let e = &self.escrows[i];
            if e.state.maker == addr.maker && e.state.seed == addr.seed && addr.namespace
                == crate::constants::ESCROW_NAMESPACE {
                return Some(i);
            }
            i += 1;
        }
        None
    }

    /// The balance of `owner`'s holding account for `asset`, as a value.
    pub fn balance_of(&self, owner: u64, asset: u64) -> (r: u64)
        requires
            self.wf(),
        ensures
            r as int == self.balance(owner, asset),
    {
        match self.find_holding(owner, asset) {
            Some(i) => {
                proof {
                    lemma_holdings_at(self.holdings@, i as int);
                }
                self.holdings[i].amount
            },
            None => {
                proof {
                    lemma_holdings_absent(self.holdings@, owner, asset);
                }
                0
            },
        }
    }

    /// The record at `addr`, if the slot is occupied.
    pub fn get_record(&self, addr: &Address) -> (r: Option<EscrowState>)
        requires
            self.wf(),
        ensures
            match r {
                Some(st) => self.has_record(*addr) && st == self.record_at(*addr),
                None => !self.has_record(*addr),
            },
    {
        match self.find_escrow(addr) {
            Some(i) => {
                proof {
                    self.lemma_escrow_at(i as int);
                }
                Some(self.escrows[i].state)
            },
            None => None,
        }
    }

    /// The vault balance at `addr`, if the slot is occupied.
    pub fn vault_balance(&self, addr: &Address) -> (r: Option<u64>)
        requires
            self.wf(),
        ensures
            match r {
                Some(v) => self.has_record(*addr) && v as int == self.vault_amount_at(*addr),
                None => !self.has_record(*addr),
            },
    {
        match self.find_escrow(addr) {
            Some(i) => {
                proof {
                    self.lemma_escrow_at(i as int);
                }
                Some(self.escrows[i].vault.amount)
            },
            None => None,
        }
    }

    /// The authoritative declared precision of `a`, if it is registered.
    pub fn asset_decimals(&self, a: u64) -> (r: Option<u8>)
        requires
            self.wf(),
        ensures
            match r {
                Some(d) => self.asset_registered(a) && d == self.decimals_of(a),
                None => !self.asset_registered(a),
            },
    {
        match self.find_asset(a) {
            Some(i) => {
                proof {
                    self.lemma_asset_at(i as int);
                }
                Some(self.assets[i].decimals)
            },
            None => None,
        }
    }

    /// The recorded supply of `a`, if it is registered.
    pub fn asset_supply(&self, a: u64) -> (r: Option<u64>)
        requires
            self.wf(),
        ensures
            match r {
                Some(v) => self.asset_registered(a) && v as int == self.supply_of(a),
                None => !self.asset_registered(a),
            },
    {
        match self.find_asset(a) {
            Some(i) => {
                proof {
                    self.lemma_asset_at(i as int);
                }
                Some(self.assets[i].supply)
            },
            None => None,
        }
    }
}

} // verus!
