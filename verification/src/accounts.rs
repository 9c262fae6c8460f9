use vstd::prelude::*;
use crate::state::Address;
use crate::state::Authority;
use crate::state::EscrowState;
use crate::state::record_address;

verus! {

/// The authoritative description of one fungible asset: its declared decimal
/// precision and the total quantity ever issued of it.
#[derive(Clone, Copy, Debug, PartialEq, Eq, Structural)]
pub struct AssetInfo {
    pub id: u64,
    pub decimals: u8,
    pub supply: u64,
}

/// One party's holding account for one asset.
#[derive(Clone, Copy, Debug, PartialEq, Eq, Structural)]
pub struct Holding {
    pub owner: u64,
    pub asset: u64,
    pub amount: u64,
}

/// A custody account for the locked asset of one escrow.  Its controlling
/// authority is a derived value, not a party: funds leave it only when the
/// exact derivation is presented again.
#[derive(Clone, Copy, Debug, PartialEq, Eq, Structural)]
pub struct Vault {
    pub mint: u64,
    pub amount: u64,
    pub authority: Authority,
}

/// One live escrow: its record together with the vault the record controls.
/// The two are created in one atomic step and destroyed in one atomic step.
#[derive(Clone, Copy, Debug, PartialEq, Eq, Structural)]
pub struct OpenEscrow {
    pub state: EscrowState,
    pub vault: Vault,
}

/// The record slot an open escrow occupies.
pub open spec fn escrow_address(e: OpenEscrow) -> Address {
    record_address(e.state.maker, e.state.seed)
}

/// What one holding entry contributes to the balance of `(owner, asset)`.
pub open spec fn holding_part(h: Holding, owner: u64, asset: u64) -> int {
    if h.owner == owner && h.asset == asset {
        h.amount as int
    } else {
        0
    }
}

/// What one holding entry contributes to the circulating total of `asset`.
pub open spec fn asset_part(h: Holding, asset: u64) -> int {
    if h.asset == asset {
        h.amount as int
    } else {
        0
    }
}

/// What one escrow's vault contributes to the circulating total of `asset`.
pub open spec fn vault_part(e: OpenEscrow, asset: u64) -> int {
    if e.vault.mint == asset {
        e.vault.amount as int
    } else {
        0
    }
}

/// The balance of `(owner, asset)` over a sequence of holding entries.
pub open spec fn holdings_balance(s: Seq<Holding>, owner: u64, asset: u64) -> int
    decreases s.len(),
{
    if s.len() == 0 {
        0
    } else {
        holdings_balance(s.drop_last(), owner, asset) + holding_part(s.last(), owner, asset)
    }
}

/// The total of `asset` held across all holding entries.
pub open spec fn holdings_total(s: Seq<Holding>, asset: u64) -> int
    decreases s.len(),
{
    if s.len() == 0 {
        0
    } else {
        holdings_total(s.drop_last(), asset) + asset_part(s.last(), asset)
    }
}

/// The total of `asset` locked across all vaults.
pub open spec fn vaults_total(s: Seq<OpenEscrow>, asset: u64) -> int
    decreases s.len(),
{
    if s.len() == 0 {
        0
    } else {
        vaults_total(s.drop_last(), asset) + vault_part(s.last(), asset)
    }
}

/// No two registry entries describe the same asset.
pub open spec fn assets_unique(s: Seq<AssetInfo>) -> bool {
    forall|i: int, j: int|
        0 <= i < s.len() && 0 <= j < s.len() && i != j ==> (#[trigger] s[i].id) != (
        #[trigger] s[j].id)
}

/// No two holding entries share an `(owner, asset)` key.
pub open spec fn holdings_unique(s: Seq<Holding>) -> bool {
    forall|i: int, j: int|
        0 <= i < s.len() && 0 <= j < s.len() && i != j ==> !(#[trigger] s[i].owner == #[trigger] s[j].owner
            && s[i].asset == s[j].asset)
}

/// No two escrows share a `(maker, seed)` record slot.
pub open spec fn escrows_unique(s: Seq<OpenEscrow>) -> bool {
    forall|i: int, j: int|
        0 <= i < s.len() && 0 <= j < s.len() && i != j ==> !(#[trigger] s[i].state.maker
            == #[trigger] s[j].state.maker && s[i].state.seed == s[j].state.seed)
}

/// Appending an entry adds exactly its contribution to every balance and
/// every total.
pub proof fn lemma_holdings_push(s: Seq<Holding>, h: Holding)
    ensures
        forall|o: u64, a: u64| #[trigger] holdings_balance(s.push(h), o, a) == holdings_balance(
            s,
            o,
            a,
        ) + holding_part(h, o, a),
        forall|a: u64| #[trigger] holdings_total(s.push(h), a) == holdings_total(s, a)
            + asset_part(h, a),
{
    assert(s.push(h).drop_last() =~= s);
    assert(s.push(h).last() == h);
}

/// Replacing the entry at `i` swaps its old contribution for the new one, in
/// every balance and every total.
pub proof fn lemma_holdings_update(s: Seq<Holding>, i: int, h: Holding)
    requires
        0 <= i < s.len(),
    ensures
        forall|o: u64, a: u64| #[trigger] holdings_balance(s.update(i, h), o, a)
            == holdings_balance(s, o, a) - holding_part(s[i], o, a) + holding_part(h, o, a),
        forall|a: u64| #[trigger] holdings_total(s.update(i, h), a) == holdings_total(s, a)
            - asset_part(s[i], a) + asset_part(h, a),
    decreases s.len(),
{
    let t = s.update(i, h);
    if i == s.len() - 1 {
        assert(t.drop_last() =~= s.drop_last());
        assert(t.last() == h);
    } else {
        assert(t.drop_last() =~= s.drop_last().update(i, h));
        assert(t.last() == s.last());
        lemma_holdings_update(s.drop_last(), i, h);
        assert(s.drop_last()[i] == s[i]);
    }
    assert forall|o: u64, a: u64| #[trigger] holdings_balance(t, o, a) == holdings_balance(s, o, a)
        - holding_part(s[i], o, a) + holding_part(h, o, a) by {
        assert(holdings_balance(t, o, a) == holdings_balance(t.drop_last(), o, a) + holding_part(
            t.last(),
            o,
            a,
        ));
        assert(holdings_balance(s, o, a) == holdings_balance(s.drop_last(), o, a) + holding_part(
            s.last(),
            o,
            a,
        ));
    }
    assert forall|a: u64| #[trigger] holdings_total(t, a) == holdings_total(s, a) - asset_part(
        s[i],
        a,
    ) + asset_part(h, a) by {
        assert(holdings_total(t, a) == holdings_total(t.drop_last(), a) + asset_part(t.last(), a));
        assert(holdings_total(s, a) == holdings_total(s.drop_last(), a) + asset_part(s.last(), a));
    }
}

/// Balances and totals are sums of non-negative contributions.
pub proof fn lemma_holdings_nonneg(s: Seq<Holding>)
    ensures
        forall|o: u64, a: u64| 0 <= #[trigger] holdings_balance(s, o, a),
        forall|a: u64| 0 <= #[trigger] holdings_total(s, a),
    decreases s.len(),
{
    if s.len() > 0 {
        lemma_holdings_nonneg(s.drop_last());
        assert forall|o: u64, a: u64| 0 <= #[trigger] holdings_balance(s, o, a) by {
            assert(holdings_balance(s, o, a) == holdings_balance(s.drop_last(), o, a)
                + holding_part(s.last(), o, a));
        }
        assert forall|a: u64| 0 <= #[trigger] holdings_total(s, a) by {
            assert(holdings_total(s, a) == holdings_total(s.drop_last(), a) + asset_part(
                s.last(),
                a,
            ));
        }
    }
}

/// One pair's balance never exceeds the asset's circulating holdings total.
pub proof fn lemma_holdings_balance_le_total(s: Seq<Holding>)
    ensures
        forall|o: u64, a: u64| #[trigger] holdings_balance(s, o, a) <= holdings_total(s, a),
    decreases s.len(),
{
    if s.len() > 0 {
        lemma_holdings_balance_le_total(s.drop_last());
        assert forall|o: u64, a: u64| #[trigger] holdings_balance(s, o, a) <= holdings_total(
            s,
            a,
        ) by {
            assert(holdings_balance(s, o, a) == holdings_balance(s.drop_last(), o, a)
                + holding_part(s.last(), o, a));
            assert(holdings_total(s, a) == holdings_total(s.drop_last(), a) + asset_part(
                s.last(),
                a,
            ));
        }
    }
}

/// Where no entry carries the key `(owner, asset)`, its balance is zero.
pub proof fn lemma_holdings_absent(s: Seq<Holding>, owner: u64, asset: u64)
    requires
        forall|j: int|
            0 <= j < s.len() ==> !(#[trigger] s[j].owner == owner && s[j].asset == asset),
    ensures
        holdings_balance(s, owner, asset) == 0,
    decreases s.len(),
{
    if s.len() > 0 {
        assert forall|j: int| 0 <= j < s.drop_last().len() implies !(#[trigger] s.drop_last()[j].owner
            == owner && s.drop_last()[j].asset == asset) by {
            assert(s.drop_last()[j] == s[j]);
        }
        lemma_holdings_absent(s.drop_last(), owner, asset);
    }
}

/// Where no entry holds `asset`, its circulating holdings total is zero.
pub proof fn lemma_holdings_total_absent(s: Seq<Holding>, asset: u64)
    requires
        forall|j: int| 0 <= j < s.len() ==> (#[trigger] s[j]).asset != asset,
    ensures
        holdings_total(s, asset) == 0,
    decreases s.len(),
{
    if s.len() > 0 {
        assert forall|j: int| 0 <= j < s.drop_last().len() implies (#[trigger] s.drop_last()[j]).asset
            != asset by {
            assert(s.drop_last()[j] == s[j]);
        }
        lemma_holdings_total_absent(s.drop_last(), asset);
        assert(holdings_total(s, asset) == holdings_total(s.drop_last(), asset) + asset_part(
            s.last(),
            asset,
        ));
    }
}

/// Where no vault is denominated in `asset`, its locked total is zero.
pub proof fn lemma_vaults_total_absent(s: Seq<OpenEscrow>, asset: u64)
    requires
        forall|j: int| 0 <= j < s.len() ==> (#[trigger] s[j]).vault.mint != asset,
    ensures
        vaults_total(s, asset) == 0,
    decreases s.len(),
{
    if s.len() > 0 {
        assert forall|j: int| 0 <= j < s.drop_last().len() implies (
        #[trigger] s.drop_last()[j]).vault.mint != asset by {
            assert(s.drop_last()[j] == s[j]);
        }
        lemma_vaults_total_absent(s.drop_last(), asset);
        assert(vaults_total(s, asset) == vaults_total(s.drop_last(), asset) + vault_part(
            s.last(),
            asset,
        ));
    }
}

/// With unique keys, the balance of a key is exactly the amount of its one
/// entry.
pub proof fn lemma_holdings_at(s: Seq<Holding>, i: int)
    requires
        holdings_unique(s),
        0 <= i < s.len(),
    ensures
        holdings_balance(s, s[i].owner, s[i].asset) == s[i].amount as int,
    decreases s.len(),
{
    let o = s[i].owner;
    let a = s[i].asset;
    if i == s.len() - 1 {
        assert forall|j: int| 0 <= j < s.drop_last().len() implies !(#[trigger] s.drop_last()[j].owner
            == o && s.drop_last()[j].asset == a) by {
            assert(s.drop_last()[j] == s[j]);
        }
        lemma_holdings_absent(s.drop_last(), o, a);
    } else {
        assert forall|p: int, q: int|
            0 <= p < s.drop_last().len() && 0 <= q < s.drop_last().len() && p != q implies !(
        #[trigger] s.drop_last()[p].owner == #[trigger] s.drop_last()[q].owner
            && s.drop_last()[p].asset == s.drop_last()[q].asset) by {
            assert(s.drop_last()[p] == s[p]);
            assert(s.drop_last()[q] == s[q]);
        }
        assert(s.drop_last()[i] == s[i]);
        lemma_holdings_at(s.drop_last(), i);
        assert(!(s.last().owner == o && s.last().asset == a));
    }
}

/// Replacing an entry without changing its key keeps holding keys unique.
pub proof fn lemma_holdings_unique_update(s: Seq<Holding>, i: int, h: Holding)
    requires
        holdings_unique(s),
        0 <= i < s.len(),
        h.owner == s[i].owner,
        h.asset == s[i].asset,
    ensures
        holdings_unique(s.update(i, h)),
{
    let t = s.update(i, h);
    assert forall|p: int, q: int|
        0 <= p < t.len() && 0 <= q < t.len() && p != q implies !(#[trigger] t[p].owner
        == #[trigger] t[q].owner && t[p].asset == t[q].asset) by {
        assert(t[p].owner == s[p].owner && t[p].asset == s[p].asset);
        assert(t[q].owner == s[q].owner && t[q].asset == s[q].asset);
        assert(!(s[p].owner == s[q].owner && s[p].asset == s[q].asset));
    }
}

/// Appending an entry under a fresh key keeps holding keys unique.
pub proof fn lemma_holdings_unique_push(s: Seq<Holding>, h: Holding)
    requires
        holdings_unique(s),
        forall|j: int| 0 <= j < s.len() ==> !((#[trigger] s[j]).owner == h.owner && s[j].asset
            == h.asset),
    ensures
        holdings_unique(s.push(h)),
{
    let t = s.push(h);
    assert forall|p: int, q: int|
        0 <= p < t.len() && 0 <= q < t.len() && p != q implies !(#[trigger] t[p].owner
        == #[trigger] t[q].owner && t[p].asset == t[q].asset) by {
        if p < s.len() && q < s.len() {
            assert(!(s[p].owner == s[q].owner && s[p].asset == s[q].asset));
        } else if p < s.len() {
            assert(t[q] == h && t[p] == s[p]);
        } else {
            assert(t[p] == h && t[q] == s[q]);
        }
    }
}

/// Appending an escrow in a fresh record slot keeps slots unique.
pub proof fn lemma_escrows_unique_push(s: Seq<OpenEscrow>, e: OpenEscrow)
    requires
        escrows_unique(s),
        forall|j: int| 0 <= j < s.len() ==> !((#[trigger] s[j]).state.maker == e.state.maker
            && s[j].state.seed == e.state.seed),
    ensures
        escrows_unique(s.push(e)),
{
    let t = s.push(e);
    assert forall|p: int, q: int|
        0 <= p < t.len() && 0 <= q < t.len() && p != q implies !(#[trigger] t[p].state.maker
        == #[trigger] t[q].state.maker && t[p].state.seed == t[q].state.seed) by {
        if p < s.len() && q < s.len() {
            assert(!(s[p].state.maker == s[q].state.maker && s[p].state.seed == s[q].state.seed));
        } else if p < s.len() {
            assert(t[q] == e && t[p] == s[p]);
        } else {
            assert(t[p] == e && t[q] == s[q]);
        }
    }
}

/// Removing an escrow keeps the remaining slots unique.
pub proof fn lemma_escrows_unique_remove(s: Seq<OpenEscrow>, i: int)
    requires
        escrows_unique(s),
        0 <= i < s.len(),
    ensures
        escrows_unique(s.remove(i)),
{
    let t = s.remove(i);
    s.remove_ensures(i);
    assert forall|p: int, q: int|
        0 <= p < t.len() && 0 <= q < t.len() && p != q implies !(#[trigger] t[p].state.maker
        == #[trigger] t[q].state.maker && t[p].state.seed == t[q].state.seed) by {
        let p0 = if p < i { p } else { p + 1 };
        let q0 = if q < i { q } else { q + 1 };
        assert(t[p] == s[p0]);
        assert(t[q] == s[q0]);
        assert(!(s[p0].state.maker == s[q0].state.maker && s[p0].state.seed == s[q0].state.seed));
    }
}

/// Appending an escrow adds exactly its vault's contribution to every total.
pub proof fn lemma_vaults_push(s: Seq<OpenEscrow>, e: OpenEscrow)
    ensures
        forall|a: u64| #[trigger] vaults_total(s.push(e), a) == vaults_total(s, a) + vault_part(
            e,
            a,
        ),
{
    assert(s.push(e).drop_last() =~= s);
    assert(s.push(e).last() == e);
}

/// Replacing the escrow at `i` swaps its vault's old contribution for the new
/// one, in every total.
pub proof fn lemma_vaults_update(s: Seq<OpenEscrow>, i: int, e: OpenEscrow)
    requires
        0 <= i < s.len(),
    ensures
        forall|a: u64| #[trigger] vaults_total(s.update(i, e), a) == vaults_total(s, a)
            - vault_part(s[i], a) + vault_part(e, a),
    decreases s.len(),
{
    let t = s.update(i, e);
    if i == s.len() - 1 {
        assert(t.drop_last() =~= s.drop_last());
        assert(t.last() == e);
    } else {
        assert(t.drop_last() =~= s.drop_last().update(i, e));
        assert(t.last() == s.last());
        lemma_vaults_update(s.drop_last(), i, e);
        assert(s.drop_last()[i] == s[i]);
    }
    assert forall|a: u64| #[trigger] vaults_total(t, a) == vaults_total(s, a) - vault_part(s[i], a)
        + vault_part(e, a) by {
        assert(vaults_total(t, a) == vaults_total(t.drop_last(), a) + vault_part(t.last(), a));
        assert(vaults_total(s, a) == vaults_total(s.drop_last(), a) + vault_part(s.last(), a));
    }
}

/// Removing the escrow at `i` subtracts exactly its vault's contribution from
/// every total.
pub proof fn lemma_vaults_remove(s: Seq<OpenEscrow>, i: int)
    requires
        0 <= i < s.len(),
    ensures
        forall|a: u64| #[trigger] vaults_total(s.remove(i), a) == vaults_total(s, a) - vault_part(
            s[i],
            a,
        ),
    decreases s.len(),
{
    let t = s.remove(i);
    if i == s.len() - 1 {
        assert(t =~= s.drop_last());
    } else {
        assert(t.drop_last() =~= s.drop_last().remove(i));
        assert(t.last() == s.last());
        lemma_vaults_remove(s.drop_last(), i);
        assert(s.drop_last()[i] == s[i]);
    }
    assert forall|a: u64| #[trigger] vaults_total(t, a) == vaults_total(s, a) - vault_part(
        s[i],
        a,
    ) by {
        if i < s.len() - 1 {
            assert(vaults_total(t, a) == vaults_total(t.drop_last(), a) + vault_part(t.last(), a));
        }
        assert(vaults_total(s, a) == vaults_total(s.drop_last(), a) + vault_part(s.last(), a));
    }
}

/// Vault totals are sums of non-negative contributions.
pub proof fn lemma_vaults_nonneg(s: Seq<OpenEscrow>)
    ensures
        forall|a: u64| 0 <= #[trigger] vaults_total(s, a),
    decreases s.len(),
{
    if s.len() > 0 {
        lemma_vaults_nonneg(s.drop_last());
        assert forall|a: u64| 0 <= #[trigger] vaults_total(s, a) by {
            assert(vaults_total(s, a) == vaults_total(s.drop_last(), a) + vault_part(s.last(), a));
        }
    }
}

/// One vault's amount never exceeds its asset's locked total.
pub proof fn lemma_vault_le_total(s: Seq<OpenEscrow>, i: int)
    requires
        0 <= i < s.len(),
    ensures
        s[i].vault.amount as int <= vaults_total(s, s[i].vault.mint),
    decreases s.len(),
{
    let m = s[i].vault.mint;
    if i == s.len() - 1 {
        lemma_vaults_nonneg(s.drop_last());
    } else {
        assert(s.drop_last()[i] == s[i]);
        lemma_vault_le_total(s.drop_last(), i);
    }
    assert(vaults_total(s, m) == vaults_total(s.drop_last(), m) + vault_part(s.last(), m));
}

} // verus!
