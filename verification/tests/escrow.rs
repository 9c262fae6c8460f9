use escrow::derive_authority;
use escrow::derive_record_address;
use escrow::make;
use escrow::refund;
use escrow::take;
use escrow::Address;
use escrow::EscrowError;
use escrow::Ledger;
use escrow::Make;
use escrow::Refund;
use escrow::Take;
use escrow::ESCROW_NAMESPACE;

const MAKER: u64 = 10;
const TAKER: u64 = 20;
const MINT_A: u64 = 1;
const MINT_B: u64 = 2;

/// A ledger with two assets issued (A with 6 decimals, B with 0), the maker
/// funded with 100 A and the taker with 50 B.
fn funded_ledger() -> Ledger {
    let mut l = Ledger::new();
    assert!(l.register_asset(MINT_A, 6));
    assert!(l.register_asset(MINT_B, 0));
    assert!(l.mint_to(MAKER, MINT_A, 100));
    assert!(l.mint_to(TAKER, MINT_B, 50));
    l
}

fn make_ctx() -> Make {
    Make { maker: MAKER, mint_a: MINT_A, mint_b: MINT_B, mint_a_decimals: 6 }
}

fn open_escrow(l: &mut Ledger) -> Address {
    make(l, &make_ctx(), 1, 50, 100).expect("make with valid terms and funds succeeds")
}

#[test]
fn scenario_make_then_take() {
    let mut l = funded_ledger();
    let addr = open_escrow(&mut l);
    assert_eq!(l.vault_balance(&addr), Some(100));
    assert_eq!(l.balance_of(MAKER, MINT_A), 0);

    let t = Take { taker: TAKER, maker: MAKER, mint_a: MINT_A, escrow: addr };
    assert_eq!(take(&mut l, &t), Ok(()));
    assert_eq!(l.balance_of(MAKER, MINT_B), 50);
    assert_eq!(l.balance_of(TAKER, MINT_A), 100);
    assert_eq!(l.balance_of(TAKER, MINT_B), 0);
    assert_eq!(l.vault_balance(&addr), None);
    assert!(l.get_record(&addr).is_none());

    // the record is consumed: a second take and a refund both fail
    assert_eq!(take(&mut l, &t), Err(EscrowError::RecordNotFound));
    let r = Refund { maker: MAKER, mint_a: MINT_A, escrow: addr };
    assert_eq!(refund(&mut l, &r), Err(EscrowError::RecordNotFound));
}

#[test]
fn scenario_refund_before_take() {
    let mut l = funded_ledger();
    let addr = open_escrow(&mut l);
    let r = Refund { maker: MAKER, mint_a: MINT_A, escrow: addr };
    assert_eq!(refund(&mut l, &r), Ok(()));
    assert_eq!(l.balance_of(MAKER, MINT_A), 100);
    assert!(l.get_record(&addr).is_none());

    // a later take attempt finds nothing
    let t = Take { taker: TAKER, maker: MAKER, mint_a: MINT_A, escrow: addr };
    assert_eq!(take(&mut l, &t), Err(EscrowError::RecordNotFound));
}

#[test]
fn make_rejects_invalid_terms() {
    let mut l = funded_ledger();
    let ctx = make_ctx();
    assert_eq!(make(&mut l, &ctx, 1, 50, 0), Err(EscrowError::InvalidTerms));
    assert_eq!(make(&mut l, &ctx, 1, 0, 100), Err(EscrowError::InvalidTerms));
    let same = Make { maker: MAKER, mint_a: MINT_A, mint_b: MINT_A, mint_a_decimals: 6 };
    assert_eq!(make(&mut l, &same, 1, 50, 100), Err(EscrowError::InvalidTerms));
    // nothing was created or moved
    assert_eq!(l.balance_of(MAKER, MINT_A), 100);
}

#[test]
fn make_rejects_duplicate_record() {
    let mut l = funded_ledger();
    assert!(l.mint_to(MAKER, MINT_A, 100));
    let addr = open_escrow(&mut l);
    // same (maker, seed) while the first record is live
    assert_eq!(make(&mut l, &make_ctx(), 1, 7, 100), Err(EscrowError::DuplicateRecord));
    // a different seed is a different slot
    let addr2 = make(&mut l, &make_ctx(), 2, 7, 100).expect("fresh seed opens a second escrow");
    assert_ne!(addr, addr2);
}

#[test]
fn remake_after_consumption_succeeds() {
    let mut l = funded_ledger();
    let addr = open_escrow(&mut l);
    let r = Refund { maker: MAKER, mint_a: MINT_A, escrow: addr };
    assert_eq!(refund(&mut l, &r), Ok(()));
    // the slot is free again: same (maker, seed) works
    let addr2 = open_escrow(&mut l);
    assert_eq!(addr, addr2);
}

#[test]
fn make_rejects_wrong_declared_precision() {
    let mut l = funded_ledger();
    let ctx = Make { maker: MAKER, mint_a: MINT_A, mint_b: MINT_B, mint_a_decimals: 9 };
    assert_eq!(make(&mut l, &ctx, 1, 50, 100), Err(EscrowError::PrecisionMismatch));
    let unknown = Make { maker: MAKER, mint_a: 777, mint_b: MINT_B, mint_a_decimals: 6 };
    assert_eq!(make(&mut l, &unknown, 1, 50, 100), Err(EscrowError::PrecisionMismatch));
}

#[test]
fn make_rejects_underfunded_maker() {
    let mut l = funded_ledger();
    assert_eq!(make(&mut l, &make_ctx(), 1, 50, 101), Err(EscrowError::InsufficientFunds));
    assert_eq!(l.balance_of(MAKER, MINT_A), 100);
}

#[test]
fn take_rejects_underfunded_taker_and_changes_nothing() {
    let mut l = funded_ledger();
    let addr = open_escrow(&mut l);
    let poor: u64 = 30;
    let t = Take { taker: poor, maker: MAKER, mint_a: MINT_A, escrow: addr };
    assert_eq!(take(&mut l, &t), Err(EscrowError::InsufficientFunds));
    // atomicity under failure: vault, record and all balances are untouched
    assert_eq!(l.vault_balance(&addr), Some(100));
    assert!(l.get_record(&addr).is_some());
    assert_eq!(l.balance_of(MAKER, MINT_A), 0);
    assert_eq!(l.balance_of(MAKER, MINT_B), 0);
    assert_eq!(l.balance_of(TAKER, MINT_B), 50);
    assert_eq!(l.balance_of(poor, MINT_B), 0);
}

#[test]
fn take_rejects_substituted_accounts() {
    let mut l = funded_ledger();
    let addr = open_escrow(&mut l);
    let wrong_maker = Take { taker: TAKER, maker: 99, mint_a: MINT_A, escrow: addr };
    assert_eq!(take(&mut l, &wrong_maker), Err(EscrowError::BindingMismatch));
    let wrong_mint = Take { taker: TAKER, maker: MAKER, mint_a: MINT_B, escrow: addr };
    assert_eq!(take(&mut l, &wrong_mint), Err(EscrowError::BindingMismatch));
    assert_eq!(l.vault_balance(&addr), Some(100));
}

#[test]
fn refund_by_other_identity_fails() {
    let mut l = funded_ledger();
    let addr = open_escrow(&mut l);
    // the taker, armed with the correct record reference, cannot refund
    let forged = Refund { maker: TAKER, mint_a: MINT_A, escrow: addr };
    assert_eq!(refund(&mut l, &forged), Err(EscrowError::BindingMismatch));
    // and a matching maker with the wrong asset binding is refused too
    let wrong_mint = Refund { maker: MAKER, mint_a: MINT_B, escrow: addr };
    assert_eq!(refund(&mut l, &wrong_mint), Err(EscrowError::BindingMismatch));
    assert_eq!(l.vault_balance(&addr), Some(100));
}

#[test]
fn forged_authority_cannot_drain_vault() {
    let mut l = funded_ledger();
    let addr = open_escrow(&mut l);
    // correct address, wrong witness: the derivation check refuses it
    let mut forged = derive_authority(MAKER, 1);
    forged.witness = forged.witness.wrapping_add(1);
    assert_eq!(l.vault_withdraw(&addr, TAKER, &forged), Err(EscrowError::AuthorityMismatch));
    // an authority derived for another record fails as well
    let other = derive_authority(TAKER, 1);
    assert_eq!(l.vault_withdraw(&addr, TAKER, &other), Err(EscrowError::AuthorityMismatch));
    assert_eq!(l.vault_balance(&addr), Some(100));
    // the genuine derived authority is exactly what the vault obeys
    let genuine = derive_authority(MAKER, 1);
    assert_eq!(l.vault_withdraw(&addr, TAKER, &genuine), Ok(()));
    assert_eq!(l.balance_of(TAKER, MINT_A), 100);
    assert_eq!(l.vault_balance(&addr), Some(0));
}

#[test]
fn conservation_across_take() {
    let mut l = funded_ledger();
    let addr = open_escrow(&mut l);
    let supply_a = l.asset_supply(MINT_A);
    let supply_b = l.asset_supply(MINT_B);
    let t = Take { taker: TAKER, maker: MAKER, mint_a: MINT_A, escrow: addr };
    assert_eq!(take(&mut l, &t), Ok(()));
    assert_eq!(l.asset_supply(MINT_A), supply_a);
    assert_eq!(l.asset_supply(MINT_B), supply_b);
    // every unit is accounted for in holdings; no vault remains
    assert_eq!(l.balance_of(MAKER, MINT_A) + l.balance_of(TAKER, MINT_A), 100);
    assert_eq!(l.balance_of(MAKER, MINT_B) + l.balance_of(TAKER, MINT_B), 50);
}

#[test]
fn record_stores_the_terms() {
    let mut l = funded_ledger();
    let addr = open_escrow(&mut l);
    let st = l.get_record(&addr).expect("record is live after make");
    assert_eq!(st.seed, 1);
    assert_eq!(st.maker, MAKER);
    assert_eq!(st.mint_a, MINT_A);
    assert_eq!(st.mint_b, MINT_B);
    assert_eq!(st.receive_amount, 50);
    let (derived, witness) = derive_record_address(MAKER, 1);
    assert_eq!(addr, derived);
    assert_eq!(st.bump, witness);
    assert_eq!(addr.namespace, ESCROW_NAMESPACE);
    assert_eq!(addr.maker, MAKER);
    assert_eq!(addr.seed, 1);
}

#[test]
fn derivation_is_deterministic() {
    let (a1, w1) = derive_record_address(MAKER, 7);
    let (a2, w2) = derive_record_address(MAKER, 7);
    assert_eq!(a1, a2);
    assert_eq!(w1, w2);
    // the witness byte is a pure function of the same public inputs
    assert_eq!(w1, ((MAKER ^ 7) % 256) as u8);
    // the namespace tag spells the protocol's name in ASCII
    assert_eq!(ESCROW_NAMESPACE, 0x657363726f77);
    assert_eq!(a1.namespace, ESCROW_NAMESPACE);
    let (a3, _) = derive_record_address(MAKER, 8);
    assert_ne!(a1, a3);
    let auth = derive_authority(MAKER, 7);
    assert_eq!(auth.address, a1);
    assert_eq!(auth.witness, w1);
}

#[test]
fn registry_is_write_once() {
    let mut l = Ledger::new();
    assert!(l.register_asset(MINT_A, 6));
    // a second registration cannot change the authoritative precision
    assert!(!l.register_asset(MINT_A, 9));
    assert_eq!(l.asset_decimals(MINT_A), Some(6));
    assert_eq!(l.asset_decimals(777), None);
}

#[test]
fn mint_refuses_supply_overflow() {
    let mut l = Ledger::new();
    assert!(l.register_asset(MINT_A, 6));
    assert!(l.mint_to(MAKER, MINT_A, u64::MAX));
    assert!(!l.mint_to(MAKER, MINT_A, 1));
    assert!(!l.mint_to(TAKER, 777, 1));
    assert_eq!(l.balance_of(MAKER, MINT_A), u64::MAX);
}

#[test]
fn escrow_at_largest_amount() {
    let mut l = Ledger::new();
    assert!(l.register_asset(MINT_A, 6));
    assert!(l.register_asset(MINT_B, 0));
    assert!(l.mint_to(MAKER, MINT_A, u64::MAX));
    assert!(l.mint_to(TAKER, MINT_B, 1));
    let addr = make(&mut l, &make_ctx(), 1, 1, u64::MAX).expect("whole supply can be locked");
    assert_eq!(l.vault_balance(&addr), Some(u64::MAX));
    let t = Take { taker: TAKER, maker: MAKER, mint_a: MINT_A, escrow: addr };
    assert_eq!(take(&mut l, &t), Ok(()));
    assert_eq!(l.balance_of(TAKER, MINT_A), u64::MAX);
    assert_eq!(l.balance_of(MAKER, MINT_B), 1);
}

#[test]
fn several_open_escrows_per_maker() {
    let mut l = funded_ledger();
    assert!(l.mint_to(MAKER, MINT_A, 200));
    let a1 = make(&mut l, &make_ctx(), 1, 10, 100).expect("first escrow");
    let a2 = make(&mut l, &make_ctx(), 2, 20, 100).expect("second escrow");
    let a3 = make(&mut l, &make_ctx(), 3, 30, 100).expect("third escrow");
    assert_eq!(l.balance_of(MAKER, MINT_A), 0);
    // consuming one leaves the others live and untouched
    let r2 = Refund { maker: MAKER, mint_a: MINT_A, escrow: a2 };
    assert_eq!(refund(&mut l, &r2), Ok(()));
    assert_eq!(l.vault_balance(&a1), Some(100));
    assert_eq!(l.vault_balance(&a2), None);
    assert_eq!(l.vault_balance(&a3), Some(100));
    assert_eq!(l.get_record(&a3).expect("third still live").receive_amount, 30);
}

#[test]
fn take_on_never_created_record_fails() {
    let mut l = funded_ledger();
    let (addr, _) = derive_record_address(MAKER, 42);
    let t = Take { taker: TAKER, maker: MAKER, mint_a: MINT_A, escrow: addr };
    assert_eq!(take(&mut l, &t), Err(EscrowError::RecordNotFound));
}
