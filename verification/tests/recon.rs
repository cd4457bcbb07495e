//! From a confirmed chain event to a ledger entry, and end to end into the
//! store.

use fintrails::indexer::{Address, B256, ChainEvent, U256};
use fintrails::ledger::{AccountId, Asset, InMemoryStore, LedgerStore};
use fintrails::recon::{ReconError, account_of, asset_of, event_to_transaction, idempotency_key};

fn u256(v: alloy::primitives::U256) -> U256 {
    U256::from_limbs(v.into_limbs())
}

fn event(value: U256) -> ChainEvent {
    ChainEvent {
        token: Address::repeat_byte(0xaa),
        from: Address::repeat_byte(0x11),
        to: Address::repeat_byte(0x22),
        value,
        block_number: 100,
        tx_hash: B256::repeat_byte(0xbb),
        log_index: 3,
    }
}

#[test]
fn transfer_becomes_a_balanced_mirror_entry() {
    let tx = event_to_transaction(&event(U256::from_u64(1000))).unwrap();
    let postings = tx.postings();

    // Sender debited, receiver credited, summing to zero.
    let from = &postings[0];
    let to = &postings[1];
    assert_eq!(from.account, account_of(Address::repeat_byte(0x11)));
    assert_eq!(from.amount, -1000);
    assert_eq!(to.account, account_of(Address::repeat_byte(0x22)));
    assert_eq!(to.amount, 1000);
    assert_eq!(from.amount + to.amount, 0);
}

#[test]
fn value_above_i128_max_is_rejected() {
    let too_big = u256(
        alloy::primitives::U256::from(i128::MAX) + alloy::primitives::U256::from(1u64),
    );
    let result = event_to_transaction(&event(too_big));
    assert!(matches!(result, Err(ReconError::AmountOverflow(_))));
}

#[test]
fn idempotency_key_combines_tx_hash_and_log_index() {
    let key = idempotency_key(&event(U256::from_u64(1)));
    assert!(key.ends_with(":3"));
}

#[test]
fn idempotency_key_is_hex_hash_colon_index() {
    let key = idempotency_key(&event(U256::from_u64(1)));
    assert_eq!(key, format!("0x{}:3", "bb".repeat(32)));
}

#[test]
fn accounts_and_assets_are_lower_hex_addresses() {
    let a = Address::repeat_byte(0xab);
    assert_eq!(account_of(a), AccountId(format!("onchain:0x{}", "ab".repeat(20))));
    assert_eq!(asset_of(a), Asset(format!("0x{}", "ab".repeat(20))));
    let mut bytes = [0u8; 20];
    bytes[0] = 0x0f;
    bytes[19] = 0xa0;
    assert_eq!(
        asset_of(Address(bytes)),
        Asset("0x0f000000000000000000000000000000000000a0".to_string())
    );
}

#[test]
fn i128_max_is_still_accepted() {
    let max = u256(alloy::primitives::U256::from(i128::MAX));
    let tx = event_to_transaction(&event(max)).unwrap();
    assert_eq!(tx.postings()[0].amount, -i128::MAX);
    assert_eq!(tx.postings()[1].amount, i128::MAX);
}

#[test]
fn overflow_error_carries_the_decimal_amount() {
    let huge = u256(alloy::primitives::U256::MAX);
    match event_to_transaction(&event(huge)) {
        Err(ReconError::AmountOverflow(s)) => {
            assert_eq!(s, alloy::primitives::U256::MAX.to_string());
        }
        other => panic!("expected AmountOverflow, got {:?}", other),
    }
}

// --- end to end ---------------------------------------------------------------

fn transfer(from: Address, to: Address, token: Address, value: u64, log_index: u64) -> ChainEvent {
    ChainEvent {
        token,
        from,
        to,
        value: U256::from_u64(value),
        block_number: 1_000,
        tx_hash: B256::repeat_byte(0xab),
        log_index,
    }
}

fn ingest(store: &mut InMemoryStore, event: &ChainEvent) {
    let tx = event_to_transaction(event).expect("event maps to a balanced transaction");
    store.append(&idempotency_key(event), tx).expect("ledger accepts the transaction");
}

#[test]
fn single_transfer_credits_receiver_and_debits_sender() {
    let token = Address::repeat_byte(0x01);
    let payer = Address::repeat_byte(0xf1);
    let payee = Address::repeat_byte(0xf2);

    let mut store = InMemoryStore::new();
    ingest(&mut store, &transfer(payer, payee, token, 100, 0));

    let asset = asset_of(token);
    assert_eq!(store.balance(&account_of(payee), &asset).unwrap(), 100);
    assert_eq!(store.balance(&account_of(payer), &asset).unwrap(), -100);
}

#[test]
fn replaying_the_same_event_does_not_double_count() {
    let token = Address::repeat_byte(0x01);
    let payer = Address::repeat_byte(0xf1);
    let payee = Address::repeat_byte(0xf2);
    let event = transfer(payer, payee, token, 100, 0);

    let mut store = InMemoryStore::new();
    ingest(&mut store, &event);
    ingest(&mut store, &event); // at-least-once delivery: same (tx_hash, log_index)

    assert_eq!(store.balance(&account_of(payee), &asset_of(token)).unwrap(), 100);
}

#[test]
fn create2_sweep_split_flow_composes_balances() {
    let usdc = Address::repeat_byte(0x01);
    let cex = Address::repeat_byte(0xc0);
    let child = Address::repeat_byte(0xcd);
    let payout = Address::repeat_byte(0xa0);
    let treasury = Address::repeat_byte(0x77);

    let mut store = InMemoryStore::new();
    ingest(&mut store, &transfer(cex, child, usdc, 100_000_000, 0)); // inbound 100
    ingest(&mut store, &transfer(child, payout, usdc, 99_500_000, 1)); // sweep 99.5
    ingest(&mut store, &transfer(child, treasury, usdc, 500_000, 2)); // split 0.5

    let asset = asset_of(usdc);
    assert_eq!(store.balance(&account_of(child), &asset).unwrap(), 0);
    assert_eq!(store.balance(&account_of(payout), &asset).unwrap(), 99_500_000);
    assert_eq!(store.balance(&account_of(treasury), &asset).unwrap(), 500_000);
    assert_eq!(store.balance(&account_of(cex), &asset).unwrap(), -100_000_000);
}

#[test]
fn distinct_logs_get_distinct_keys() {
    let mut a = event(U256::from_u64(1));
    let mut b = a;
    b.log_index = 30;
    assert_ne!(idempotency_key(&a), idempotency_key(&b));
    a.log_index = 3;
    b.log_index = 3;
    b.tx_hash = B256::repeat_byte(0xbc);
    assert_ne!(idempotency_key(&a), idempotency_key(&b));
    assert_eq!(idempotency_key(&a), idempotency_key(&a.clone()));
}

#[test]
fn distinct_addresses_get_distinct_accounts() {
    let a = Address::repeat_byte(0x01);
    let b = Address::repeat_byte(0x10);
    assert_ne!(account_of(a), account_of(b));
    assert_ne!(asset_of(a), asset_of(b));
}

#[test]
fn the_mirror_entry_nets_to_zero_per_asset() {
    let tx = event_to_transaction(&event(U256::from_u64(77))).unwrap();
    let total: i128 = tx.postings().iter().map(|p| p.amount).sum();
    assert_eq!(total, 0);
    assert_eq!(tx.postings()[0].asset, tx.postings()[1].asset);
    assert_eq!(tx.postings()[0].asset, asset_of(Address::repeat_byte(0xaa)));
}
