use vstd::prelude::*;
use crate::accounts::holdings_total;
use crate::accounts::lemma_holdings_absent;
use crate::accounts::vaults_total;
use crate::errors::EscrowError;
use crate::ledger::Ledger;
use crate::ledger::entry_wf;
use crate::make::Make;
use crate::make::make_error;
use crate::refund::Refund;
use crate::refund::refund_error;
use crate::refund::refund_post;
use crate::state::record_address;
use crate::take::Take;
use crate::take::take_error;
use crate::take::take_post;

verus! {

/// Record uniqueness: while a live record occupies the slot derived from
/// `(maker, seed)`, a second `make` with the same pair and otherwise valid
/// terms is refused with `DuplicateRecord`.
pub proof fn law_second_make_fails(l: Ledger, ctx: Make, seed: u64, receive_amount: u64, amount: u64)
    requires
        l.wf(),
        amount > 0,
        receive_amount > 0,
        ctx.mint_a != ctx.mint_b,
        l.has_record(record_address(ctx.maker, seed)),
    ensures
        make_error(l, ctx, seed, receive_amount, amount) == Some(EscrowError::DuplicateRecord),
{
}

/// Record uniqueness, second half: once a `take` has consumed the record,
/// the slot is free again, and a new `make` with the same `(maker, seed)`
/// and terms, precision and funds in order succeeds.
pub proof fn law_remake_after_take(
    pre: Ledger,
    post: Ledger,
    tctx: Take,
    mctx: Make,
    seed: u64,
    receive_amount: u64,
    amount: u64,
)
    requires
        take_post(pre, post, tctx),
        tctx.escrow == record_address(mctx.maker, seed),
        amount > 0,
        receive_amount > 0,
        mctx.mint_a != mctx.mint_b,
        post.asset_registered(mctx.mint_a),
        post.decimals_of(mctx.mint_a) == mctx.mint_a_decimals,
        post.balance(mctx.maker, mctx.mint_a) >= amount,
    ensures
        make_error(post, mctx, seed, receive_amount, amount) is None,
{
}

/// Record uniqueness, second half, for cancellation: once a `refund` has
/// consumed the record, the slot is free again, and a new `make` with the
/// same `(maker, seed)` and terms, precision and funds in order succeeds.
pub proof fn law_remake_after_refund(
    pre: Ledger,
    post: Ledger,
    rctx: Refund,
    mctx: Make,
    seed: u64,
    receive_amount: u64,
    amount: u64,
)
    requires
        refund_post(pre, post, rctx),
        rctx.escrow == record_address(mctx.maker, seed),
        amount > 0,
        receive_amount > 0,
        mctx.mint_a != mctx.mint_b,
        post.asset_registered(mctx.mint_a),
        post.decimals_of(mctx.mint_a) == mctx.mint_a_decimals,
        post.balance(mctx.maker, mctx.mint_a) >= amount,
    ensures
        make_error(post, mctx, seed, receive_amount, amount) is None,
{
}

/// Conservation: a successful `take` moves exactly the vault balance to the
/// taker and exactly the asked amount from the taker to the maker, and the
/// total quantity of both assets — what is held plus what is locked, and
/// every recorded supply — is unchanged.
pub proof fn law_take_conserves(pre: Ledger, post: Ledger, ctx: Take)
    requires
        pre.wf(),
        take_error(pre, ctx) is None,
        take_post(pre, post, ctx),
        ctx.taker != pre.record_at(ctx.escrow).maker,
    ensures
        post.balance(ctx.taker, pre.record_at(ctx.escrow).mint_a) == pre.balance(
            ctx.taker,
            pre.record_at(ctx.escrow).mint_a,
        ) + pre.vault_amount_at(ctx.escrow),
        post.balance(ctx.taker, pre.record_at(ctx.escrow).mint_b) == pre.balance(
            ctx.taker,
            pre.record_at(ctx.escrow).mint_b,
        ) - pre.record_at(ctx.escrow).receive_amount,
        post.balance(pre.record_at(ctx.escrow).maker, pre.record_at(ctx.escrow).mint_b)
            == pre.balance(pre.record_at(ctx.escrow).maker, pre.record_at(ctx.escrow).mint_b)
            + pre.record_at(ctx.escrow).receive_amount,
        forall|x: u64| #[trigger] post.supply_of(x) == pre.supply_of(x),
        holdings_total(post.holdings@, pre.record_at(ctx.escrow).mint_a) + vaults_total(
            post.escrows@,
            pre.record_at(ctx.escrow).mint_a,
        ) == holdings_total(pre.holdings@, pre.record_at(ctx.escrow).mint_a) + vaults_total(
            pre.escrows@,
            pre.record_at(ctx.escrow).mint_a,
        ),
        holdings_total(post.holdings@, pre.record_at(ctx.escrow).mint_b) + vaults_total(
            post.escrows@,
            pre.record_at(ctx.escrow).mint_b,
        ) == holdings_total(pre.holdings@, pre.record_at(ctx.escrow).mint_b) + vaults_total(
            pre.escrows@,
            pre.record_at(ctx.escrow).mint_b,
        ),
{
    let st = pre.record_at(ctx.escrow);
    pre.lemma_escrow_idx_valid(ctx.escrow);
    assert(entry_wf(pre.escrows@[pre.escrow_idx(ctx.escrow)]));
    assert(st.mint_a != st.mint_b);
    assert(st.receive_amount > 0);
    assert(pre.asset_registered(st.mint_a));
    if !pre.asset_registered(st.mint_b) {
        assert forall|j: int|
            0 <= j < pre.holdings@.len() implies !((#[trigger] pre.holdings@[j]).owner == ctx.taker
            && pre.holdings@[j].asset == st.mint_b) by {
            assert(pre.asset_registered(pre.holdings@[j].asset));
        }
        lemma_holdings_absent(pre.holdings@, ctx.taker, st.mint_b);
    }
    assert(post.asset_registered(st.mint_a) && post.asset_registered(st.mint_b));
    pre.lemma_conservation(st.mint_a);
    pre.lemma_conservation(st.mint_b);
    post.lemma_conservation(st.mint_a);
    post.lemma_conservation(st.mint_b);
}

/// Exactly-once consumption, `take` first: after a successful `take`, the
/// record's storage is gone, and any later `take` or `refund` referencing
/// the same slot is refused with `RecordNotFound`.
pub proof fn law_consumed_once_take(pre: Ledger, post: Ledger, ctx: Take, ctx2: Take, rctx: Refund)
    requires
        take_post(pre, post, ctx),
        ctx2.escrow == ctx.escrow,
        rctx.escrow == ctx.escrow,
    ensures
        !post.has_record(ctx.escrow),
        take_error(post, ctx2) == Some(EscrowError::RecordNotFound),
        refund_error(post, rctx) == Some(EscrowError::RecordNotFound),
{
}

/// Exactly-once consumption, `refund` first: after a successful `refund`,
/// the record's storage is gone, and any later `take` or `refund`
/// referencing the same slot is refused with `RecordNotFound`.
pub proof fn law_consumed_once_refund(
    pre: Ledger,
    post: Ledger,
    ctx: Refund,
    tctx: Take,
    rctx2: Refund,
)
    requires
        refund_post(pre, post, ctx),
        tctx.escrow == ctx.escrow,
        rctx2.escrow == ctx.escrow,
    ensures
        !post.has_record(ctx.escrow),
        take_error(post, tctx) == Some(EscrowError::RecordNotFound),
        refund_error(post, rctx2) == Some(EscrowError::RecordNotFound),
{
}

/// Authority exclusivity: a `refund` whose caller is any identity other
/// than the maker stored in the record is refused with `BindingMismatch`,
/// however correct the record reference is; `refund`'s contract then
/// guarantees the ledger is left untouched.
pub proof fn law_refund_needs_maker(l: Ledger, ctx: Refund)
    requires
        l.wf(),
        l.has_record(ctx.escrow),
        ctx.maker != l.record_at(ctx.escrow).maker,
    ensures
        refund_error(l, ctx) == Some(EscrowError::BindingMismatch),
{
}

/// Atomicity under failure: a `take` by an underfunded taker is classified
/// as `InsufficientFunds`; `take`'s contract then guarantees that on that
/// error the ledger — vault balance, record, and every party's holdings —
/// is exactly what it was before the call.
pub proof fn law_take_insufficient_classified(l: Ledger, ctx: Take)
    requires
        l.wf(),
        l.has_record(ctx.escrow),
        l.record_at(ctx.escrow).maker == ctx.maker,
        l.record_at(ctx.escrow).mint_a == ctx.mint_a,
        l.balance(ctx.taker, l.record_at(ctx.escrow).mint_b) < l.record_at(
            ctx.escrow,
        ).receive_amount,
    ensures
        take_error(l, ctx) == Some(EscrowError::InsufficientFunds),
{
}

} // verus!
