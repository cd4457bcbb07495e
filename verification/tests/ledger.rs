//! The ledger's public API exercised as an external consumer: transactions,
//! reversal, balances and the idempotent store.

use fintrails::ledger::{
    AccountId, Asset, InMemoryStore, LedgerError, LedgerStore, Posting, Transaction, balance_of,
};

fn acc(s: &str) -> AccountId {
    AccountId(s.into())
}

fn asset(s: &str) -> Asset {
    Asset(s.into())
}

fn posting(account: &str, asset_code: &str, amount: i128) -> Posting {
    Posting { account: acc(account), asset: asset(asset_code), amount }
}

fn usd(account: &str, amount: i128) -> Posting {
    posting(account, "USD", amount)
}

fn transfer() -> Transaction {
    Transaction::new(vec![usd("card", -100), usd("cash", 100)]).unwrap()
}

// --- transaction: Σ=0 invariant (unit tests of the transaction module) ----

#[test]
fn transaction_balanced_transaction_is_accepted() {
    let tx = Transaction::new(vec![posting("card", "UAH", -100), posting("cash", "UAH", 100)]);
    assert!(tx.is_ok());
}

#[test]
fn transaction_unbalanced_transaction_is_rejected() {
    let tx = Transaction::new(vec![posting("card", "UAH", -100), posting("cash", "UAH", 90)]);
    assert!(matches!(tx, Err(LedgerError::NotBalanced(_))));
}

#[test]
fn transaction_empty_transaction_is_rejected() {
    let tx = Transaction::new(vec![]);
    assert!(matches!(tx, Err(LedgerError::EmptyTransaction)));
}

#[test]
fn transaction_balancing_is_checked_per_asset() {
    // Nets to zero overall, but not within each asset.
    let tx = Transaction::new(vec![posting("a", "USDC", 100), posting("b", "USDT", -100)]);
    assert!(matches!(tx, Err(LedgerError::NotBalanced(_))));
}

#[test]
fn transaction_reverse_negates_every_posting() {
    let tx = Transaction::new(vec![posting("card", "UAH", -100), posting("cash", "UAH", 100)])
        .unwrap();
    let storno = tx.reverse().unwrap();

    assert_eq!(storno.postings(), &[posting("card", "UAH", 100), posting("cash", "UAH", -100)]);
}

#[test]
fn transaction_original_plus_reversal_nets_to_zero() {
    let tx = Transaction::new(vec![posting("card", "UAH", -100), posting("cash", "UAH", 100)])
        .unwrap();
    let journal = [tx.clone(), tx.reverse().unwrap()];

    let uah = Asset("UAH".into());
    assert_eq!(balance_of(&journal, &AccountId("card".into()), &uah).unwrap(), 0);
    assert_eq!(balance_of(&journal, &AccountId("cash".into()), &uah).unwrap(), 0);
}

#[test]
fn transaction_double_reversal_restores_the_original() {
    let tx = Transaction::new(vec![posting("card", "UAH", -100), posting("cash", "UAH", 100)])
        .unwrap();
    assert_eq!(tx.reverse().unwrap().reverse().unwrap(), tx);
}

// --- transaction: Σ=0 invariant (integration tests) -----------------------

#[test]
fn ledger_balanced_transaction_is_accepted() {
    let tx = Transaction::new(vec![posting("card", "UAH", -100), posting("cash", "UAH", 100)]);
    assert!(tx.is_ok());
}

#[test]
fn ledger_unbalanced_transaction_is_rejected() {
    let tx = Transaction::new(vec![posting("card", "UAH", -100), posting("cash", "UAH", 90)]);
    assert!(matches!(tx, Err(LedgerError::NotBalanced(_))));
}

#[test]
fn ledger_empty_transaction_is_rejected() {
    let tx = Transaction::new(vec![]);
    assert!(matches!(tx, Err(LedgerError::EmptyTransaction)));
}

#[test]
fn ledger_balancing_is_checked_per_asset() {
    let tx = Transaction::new(vec![posting("a", "USDC", 100), posting("b", "USDT", -100)]);
    assert!(matches!(tx, Err(LedgerError::NotBalanced(_))));
}

#[test]
fn ledger_reverse_negates_every_posting() {
    let tx = Transaction::new(vec![posting("card", "UAH", -100), posting("cash", "UAH", 100)])
        .unwrap();
    let storno = tx.reverse().unwrap();

    assert_eq!(storno.postings(), &[posting("card", "UAH", 100), posting("cash", "UAH", -100)]);
}

#[test]
fn ledger_original_plus_reversal_nets_to_zero() {
    let tx = Transaction::new(vec![posting("card", "UAH", -100), posting("cash", "UAH", 100)])
        .unwrap();
    let journal = [tx.clone(), tx.reverse().unwrap()];

    let uah = asset("UAH");
    assert_eq!(balance_of(&journal, &acc("card"), &uah).unwrap(), 0);
    assert_eq!(balance_of(&journal, &acc("cash"), &uah).unwrap(), 0);
}

#[test]
fn ledger_double_reversal_restores_the_original() {
    let tx = Transaction::new(vec![posting("card", "UAH", -100), posting("cash", "UAH", 100)])
        .unwrap();
    assert_eq!(tx.reverse().unwrap().reverse().unwrap(), tx);
}

// --- store: append, idempotency, balances --------------------------------

#[test]
fn balances_reflect_appended_transactions() {
    let mut store = InMemoryStore::new();
    store.append("tx-1", transfer()).unwrap();

    assert_eq!(store.balance(&acc("card"), &asset("USD")).unwrap(), -100);
    assert_eq!(store.balance(&acc("cash"), &asset("USD")).unwrap(), 100);
}

#[test]
fn append_is_idempotent_on_repeated_key() {
    let mut store = InMemoryStore::new();
    store.append("tx-1", transfer()).unwrap();
    store.append("tx-1", transfer()).unwrap(); // same key, must be ignored

    assert_eq!(store.balance(&acc("cash"), &asset("USD")).unwrap(), 100);
}

#[test]
fn append_rejects_same_key_with_different_body() {
    let mut store = InMemoryStore::new();
    store.append("tx-1", transfer()).unwrap();

    // Same key, different body: must be rejected, not silently ignored.
    let other = Transaction::new(vec![usd("card", -50), usd("cash", 50)]).unwrap();
    assert!(matches!(store.append("tx-1", other), Err(LedgerError::IdempotencyConflict { .. })));

    // The conflicting transaction must not have touched balances.
    assert_eq!(store.balance(&acc("cash"), &asset("USD")).unwrap(), 100);
}

#[test]
fn balance_accumulates_across_transactions() {
    let mut store = InMemoryStore::new();
    store.append("a", transfer()).unwrap();
    store.append("b", Transaction::new(vec![usd("card", -50), usd("cash", 50)]).unwrap()).unwrap();

    assert_eq!(store.balance(&acc("cash"), &asset("USD")).unwrap(), 150);
    assert_eq!(store.balance(&acc("card"), &asset("USD")).unwrap(), -150);
}

#[test]
fn unknown_account_has_zero_balance() {
    let store = InMemoryStore::new();
    assert_eq!(store.balance(&acc("ghost"), &asset("USD")).unwrap(), 0);
}

// --- further cases ---------------------------------------------------------

/// A small deterministic generator (LCG) for many-case checks.
fn next(state: &mut u64) -> u64 {
    *state = state.wrapping_mul(6364136223846793005).wrapping_add(1442695040888963407);
    *state >> 33
}

/// One to seven legs over a small account pool, and the amount they sum to.
fn balanced_legs(state: &mut u64) -> (Vec<Posting>, i128) {
    let n = 1 + (next(state) % 7) as usize;
    let mut sum: i128 = 0;
    let mut postings = Vec::new();
    for _ in 0..n {
        let account = format!("acc{}", next(state) % 5);
        let amount = (next(state) % 2_000_000_001) as i128 - 1_000_000_000;
        sum += amount;
        postings.push(usd(&account, amount));
    }
    (postings, sum)
}

#[test]
fn balanced_transactions_are_always_accepted() {
    let mut state = 7;
    for _ in 0..200 {
        let (mut postings, sum) = balanced_legs(&mut state);
        postings.push(usd("balancer", -sum));
        assert!(Transaction::new(postings).is_ok());
    }
}

#[test]
fn unbalanced_transactions_are_always_rejected() {
    let mut state = 11;
    for _ in 0..200 {
        let (mut postings, sum) = balanced_legs(&mut state);
        let perturb = 1 + (next(&mut state) % 1_000_000) as i128;
        postings.push(usd("balancer", -sum + perturb));
        assert!(matches!(Transaction::new(postings), Err(LedgerError::NotBalanced(_))));
    }
}

#[test]
fn journal_balances_sum_to_zero_across_accounts() {
    let mut state = 13;
    for _ in 0..30 {
        let count = (next(&mut state) % 10) as usize;
        let mut txs = Vec::new();
        for _ in 0..count {
            let (mut postings, sum) = balanced_legs(&mut state);
            postings.push(usd("balancer", -sum));
            txs.push(Transaction::new(postings).unwrap());
        }
        let mut accounts: Vec<AccountId> = Vec::new();
        for tx in &txs {
            for p in tx.postings() {
                if !accounts.contains(&p.account) {
                    accounts.push(p.account.clone());
                }
            }
        }
        let total: i128 =
            accounts.iter().map(|a| balance_of(&txs, a, &asset("USD")).unwrap()).sum();
        assert_eq!(total, 0);
    }
}

#[test]
fn unbalanced_asset_is_named_in_the_error() {
    let tx = Transaction::new(vec![
        posting("a", "USDC", 100),
        posting("b", "USDC", -100),
        posting("c", "EUR", 5),
    ]);
    match tx {
        Err(LedgerError::NotBalanced(a)) => assert_eq!(a, asset("EUR")),
        other => panic!("expected NotBalanced, got {:?}", other),
    }
}

#[test]
fn reversing_i128_min_overflows_on_that_posting() {
    let tx = Transaction::new(vec![
        posting("a", "X", 5),
        posting("b", "X", -5),
        posting("c", "Y", i128::MIN),
        posting("d", "Y", i128::MAX),
        posting("e", "Y", 1),
    ])
    .unwrap();
    match tx.reverse() {
        Err(LedgerError::Overflow { account, asset: a }) => {
            assert_eq!(account, acc("c"));
            assert_eq!(a, asset("Y"));
        }
        other => panic!("expected Overflow, got {:?}", other),
    }
}

#[test]
fn balance_overflow_is_reported_not_wrapped() {
    let big = Transaction::new(vec![usd("rich", i128::MAX), usd("bank", -i128::MAX)]).unwrap();
    let more = Transaction::new(vec![usd("rich", 1), usd("bank", -1)]).unwrap();
    let journal = [big, more];
    match balance_of(&journal, &acc("rich"), &asset("USD")) {
        Err(LedgerError::Overflow { account, asset: a }) => {
            assert_eq!(account, acc("rich"));
            assert_eq!(a, asset("USD"));
        }
        other => panic!("expected Overflow, got {:?}", other),
    }
    // The other side stays representable.
    assert_eq!(balance_of(&journal, &acc("bank"), &asset("USD")).unwrap(), -i128::MAX - 1);
}

#[test]
fn balance_only_counts_the_asked_asset() {
    let usd_tx = Transaction::new(vec![usd("a", -7), usd("b", 7)]).unwrap();
    let eur_tx = Transaction::new(vec![posting("a", "EUR", 3), posting("b", "EUR", -3)]).unwrap();
    let journal = [usd_tx, eur_tx];
    assert_eq!(balance_of(&journal, &acc("a"), &asset("USD")).unwrap(), -7);
    assert_eq!(balance_of(&journal, &acc("a"), &asset("EUR")).unwrap(), 3);
}

#[test]
fn conflict_error_names_the_key() {
    let mut store = InMemoryStore::new();
    store.append("k", transfer()).unwrap();
    let other = Transaction::new(vec![usd("x", -1), usd("y", 1)]).unwrap();
    match store.append("k", other) {
        Err(LedgerError::IdempotencyConflict { key }) => assert_eq!(key, "k"),
        other => panic!("expected IdempotencyConflict, got {:?}", other),
    }
}

#[test]
fn transactions_compare_by_postings() {
    assert_eq!(transfer(), transfer());
    let other = Transaction::new(vec![usd("card", -50), usd("cash", 50)]).unwrap();
    assert_ne!(transfer(), other);
}

#[test]
fn sums_beyond_i128_are_rejected_by_their_true_value() {
    // MAX + MAX + 2 is 2^128: not zero, though it wraps to zero in an i128.
    let tx = Transaction::new(vec![usd("a", i128::MAX), usd("b", i128::MAX), usd("c", 2)]);
    match tx {
        Err(LedgerError::NotBalanced(a)) => assert_eq!(a, asset("USD")),
        other => panic!("expected NotBalanced, got {:?}", other),
    }
}

#[test]
fn running_sums_may_leave_i128_when_the_total_nets_to_zero() {
    let legs = vec![usd("a", i128::MAX), usd("b", i128::MAX), usd("c", i128::MIN), usd("d", i128::MIN), usd("e", 2)];
    let tx = Transaction::new(legs.clone()).unwrap();
    assert_eq!(tx.postings(), &legs[..]);
}

#[test]
fn store_balances_are_those_of_the_accepted_appends() {
    let first = transfer();
    let second = Transaction::new(vec![usd("card", -7), usd("bank", 7)]).unwrap();
    let mut store = InMemoryStore::new();
    store.append("k1", first.clone()).unwrap();
    store.append("k1", first.clone()).unwrap(); // replay
    let other = Transaction::new(vec![usd("card", -1), usd("cash", 1)]).unwrap();
    assert!(store.append("k1", other).is_err()); // conflict
    store.append("k2", second.clone()).unwrap();
    let accepted = vec![first, second];
    for a in ["card", "cash", "bank", "ghost"] {
        assert_eq!(
            store.balance(&acc(a), &asset("USD")).unwrap(),
            balance_of(&accepted, &acc(a), &asset("USD")).unwrap()
        );
    }
}
