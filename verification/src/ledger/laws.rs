use vstd::prelude::*;

use crate::ledger::balance::{
    account_total, checked_balance, flatten_journal, lemma_flatten_append,
    lemma_flatten_single,
};
use crate::ledger::posting::PostingView;
use crate::ledger::store::{AppendOutcome, StoreView, append_spec, store_well_formed};
use crate::ledger::transaction::{asset_total, fits_i128, is_balanced, negatable, negated};

verus! {

/// The distinct accounts that postings of `ps` touch, in order of first use.
pub open spec fn accounts_of(ps: Seq<PostingView>) -> Seq<Seq<char>>
    decreases ps.len(),
{
    if ps.len() == 0 {
        Seq::empty()
    } else {
        let r = accounts_of(ps.drop_last());
        if r.contains(ps.last().account) {
            r
        } else {
            r.push(ps.last().account)
        }
    }
}

/// Sum, over the accounts `accs`, of each account's total in `asset`.
pub open spec fn sum_of_account_totals(
    accs: Seq<Seq<char>>,
    ps: Seq<PostingView>,
    asset: Seq<char>,
) -> int
    decreases accs.len(),
{
    if accs.len() == 0 {
        0
    } else {
        sum_of_account_totals(accs.drop_last(), ps, asset) + account_total(ps, accs.last(), asset)
    }
}

/// Reversing a transaction twice gives back its postings.
pub proof fn law_double_reversal_restores(ps: Seq<PostingView>)
    requires
        forall|i: int| 0 <= i < ps.len() ==> fits_i128(#[trigger] ps[i].amount),
        negatable(ps),
    ensures
        negatable(negated(ps)),
        negated(negated(ps)) == ps,
{
    assert forall|k: int| 0 <= k < negated(ps).len() implies #[trigger] negated(ps)[k].amount
        != i128::MIN by {
        assert(fits_i128(ps[k].amount));
        assert(ps[k].amount != i128::MIN);
    }
    assert(negated(negated(ps)) =~= ps);
}

/// A transaction followed by its reversal leaves every account, in every
/// asset, where it started.
pub proof fn law_reversal_nets_to_zero(ps: Seq<PostingView>, account: Seq<char>, asset: Seq<char>)
    ensures
        account_total(flatten_journal(seq![ps, negated(ps)]), account, asset) == 0,
{
    lemma_flatten_append(seq![ps], seq![negated(ps)]);
    assert(seq![ps] + seq![negated(ps)] =~= seq![ps, negated(ps)]);
    lemma_flatten_single(ps);
    lemma_flatten_single(negated(ps));
    lemma_account_total_append(ps, negated(ps), account, asset);
    lemma_account_total_negated(ps, account, asset);
}

/// An account that no posting touches has balance zero, without overflow.
pub proof fn law_untouched_account_has_zero_balance(
    ps: Seq<PostingView>,
    account: Seq<char>,
    asset: Seq<char>,
)
    requires
        forall|i: int| 0 <= i < ps.len() ==> #[trigger] ps[i].account != account,
    ensures
        checked_balance(ps, account, asset) == Some(0int),
    decreases ps.len(),
{
    if ps.len() > 0 {
        assert forall|i: int| 0 <= i < ps.drop_last().len() implies #[trigger] ps.drop_last()[i].account
            != account by {
            assert(ps.drop_last()[i] == ps[i]);
        }
        law_untouched_account_has_zero_balance(ps.drop_last(), account, asset);
        assert(ps[ps.len() - 1].account != account);
    }
}

/// Double entry's defining property: over a journal of balanced
/// transactions, the balances of all accounts touched sum to zero, per asset.
pub proof fn law_journal_balances_sum_to_zero(journal: Seq<Seq<PostingView>>, asset: Seq<char>)
    requires
        forall|i: int| 0 <= i < journal.len() ==> is_balanced(#[trigger] journal[i]),
    ensures
        sum_of_account_totals(
            accounts_of(flatten_journal(journal)),
            flatten_journal(journal),
            asset,
        ) == 0,
{
    lemma_sum_over_accounts_is_asset_total(flatten_journal(journal), asset);
    lemma_journal_asset_total_zero(journal, asset);
}

/// Replaying an append that succeeded is a no-op that also succeeds:
/// at-least-once delivery becomes exactly-once.
pub proof fn law_replayed_append_is_noop(s: StoreView, key: Seq<char>, tx: Seq<PostingView>)
    requires
        store_well_formed(s),
    ensures
        store_well_formed(append_spec(s, key, tx).0),
        append_spec(s, key, tx).1 != AppendOutcome::Conflict ==> append_spec(
            append_spec(s, key, tx).0,
            key,
            tx,
        ) == (append_spec(s, key, tx).0, AppendOutcome::Replayed),
{
    let s1 = append_spec(s, key, tx).0;
    if !s.keys.contains(key) {
        assert(s1.keys[s1.keys.len() - 1] == key);
        assert(s1.keys.contains(key));
        let j = s1.keys.index_of(key);
        assert(s1.keys[j] == key);
        if j != s1.keys.len() - 1 {
            assert(s.keys[j] == key);
        }
        assert(s1.keys.no_duplicates());
    }
}

/// The store states and outcomes of appending each `(key, body)` of `ops`
/// in order to a store holding `s`, as successive calls of `append` do:
/// the final state and the outcome of each call.
pub open spec fn append_run(s: StoreView, ops: Seq<(Seq<char>, Seq<PostingView>)>) -> (
    StoreView,
    Seq<AppendOutcome>,
)
    decreases ops.len(),
{
    if ops.len() == 0 {
        (s, Seq::empty())
    } else {
        let (s1, outs) = append_run(s, ops.drop_last());
        let (s2, out) = append_spec(s1, ops.last().0, ops.last().1);
        (s2, outs.push(out))
    }
}

/// The bodies of `ops` that the store holding `s` accepted as new, in call
/// order: replays and conflicts left out.
pub open spec fn accepted_bodies(s: StoreView, ops: Seq<(Seq<char>, Seq<PostingView>)>) -> Seq<
    Seq<PostingView>,
>
    decreases ops.len(),
{
    if ops.len() == 0 {
        Seq::empty()
    } else {
        let prev = accepted_bodies(s, ops.drop_last());
        let s1 = append_run(s, ops.drop_last()).0;
        if append_spec(s1, ops.last().0, ops.last().1).1 == AppendOutcome::Appended {
            prev.push(ops.last().1)
        } else {
            prev
        }
    }
}

/// Balances are derived from the append-only journal: after any run of
/// appends, the journal is what it was followed by the bodies accepted as
/// new, in call order, and the store stays well formed. So, from an empty
/// store, every balance (and whether it overflows) is the balance over
/// exactly the accepted transactions.
pub proof fn law_journal_is_the_accepted_appends(s: StoreView, ops: Seq<(Seq<char>, Seq<PostingView>)>)
    requires
        store_well_formed(s),
    ensures
        store_well_formed(append_run(s, ops).0),
        append_run(s, ops).0.journal == s.journal + accepted_bodies(s, ops),
        s.journal.len() == 0 ==> forall|account: Seq<char>, asset: Seq<char>|
            #![trigger checked_balance(flatten_journal(append_run(s, ops).0.journal), account, asset)]
            {
                &&& checked_balance(flatten_journal(append_run(s, ops).0.journal), account, asset)
                    == checked_balance(flatten_journal(accepted_bodies(s, ops)), account, asset)
                &&& account_total(flatten_journal(append_run(s, ops).0.journal), account, asset)
                    == account_total(flatten_journal(accepted_bodies(s, ops)), account, asset)
            },
    decreases ops.len(),
{
    if ops.len() == 0 {
        assert(s.journal + Seq::<Seq<PostingView>>::empty() =~= s.journal);
    } else {
        let init = ops.drop_last();
        law_journal_is_the_accepted_appends(s, init);
        let s1 = append_run(s, init).0;
        let (key, tx) = ops.last();
        law_replayed_append_is_noop(s1, key, tx);
        if append_spec(s1, key, tx).1 == AppendOutcome::Appended {
            assert(s.journal + accepted_bodies(s, init).push(tx) =~= (s.journal + accepted_bodies(
                s,
                init,
            )).push(tx));
        }
    }
    if s.journal.len() == 0 {
        assert(s.journal + accepted_bodies(s, ops) =~= accepted_bodies(s, ops));
    }
}

/// Idempotency compares whole bodies. Under a key the store already holds at
/// entry `i`, an append is a replay exactly when the new body equals the
/// stored one posting for posting, and a conflict exactly when they differ
/// anywhere; either way the store is unchanged. Under a new key the body is
/// appended as the last entry.
pub proof fn law_append_compares_whole_bodies(s: StoreView, key: Seq<char>, tx: Seq<PostingView>, i: int)
    requires
        store_well_formed(s),
    ensures
        0 <= i < s.keys.len() && s.keys[i] == key ==> {
            &&& (append_spec(s, key, tx).1 == AppendOutcome::Replayed) <==> (s.journal[i].len() == tx.len()
                && forall|j: int| 0 <= j < tx.len() ==> #[trigger] s.journal[i][j] == tx[j])
            &&& (append_spec(s, key, tx).1 == AppendOutcome::Conflict) <==> s.journal[i] != tx
            &&& append_spec(s, key, tx).0 == s
        },
        (forall|j: int| 0 <= j < s.keys.len() ==> s.keys[j] != key) ==> {
            &&& append_spec(s, key, tx).1 == AppendOutcome::Appended
            &&& append_spec(s, key, tx).0.journal.len() == s.journal.len() + 1
            &&& append_spec(s, key, tx).0.journal.last() == tx
            &&& append_spec(s, key, tx).0.keys.last() == key
        },
{
    if 0 <= i < s.keys.len() && s.keys[i] == key {
        assert(s.keys.contains(key));
        let j = s.keys.index_of(key);
        assert(s.keys[j] == key);
        assert(j == i);
        if s.journal[i].len() == tx.len() && forall|j: int| 0 <= j < tx.len() ==> #[trigger] s.journal[i][j] == tx[j] {
            assert(s.journal[i] =~= tx);
        }
    }
    if forall|j: int| 0 <= j < s.keys.len() ==> s.keys[j] != key {
        assert(!s.keys.contains(key));
    }
}

/// A rejected append leaves the store, and therefore every balance, as it was.
pub proof fn law_conflicting_append_changes_nothing(s: StoreView, key: Seq<char>, tx: Seq<PostingView>)
    ensures
        append_spec(s, key, tx).1 == AppendOutcome::Conflict ==> append_spec(s, key, tx).0 == s,
{
}

/// Account totals add up over concatenated postings.
pub proof fn lemma_account_total_append(
    a: Seq<PostingView>,
    b: Seq<PostingView>,
    account: Seq<char>,
    asset: Seq<char>,
)
    ensures
        account_total(a + b, account, asset) == account_total(a, account, asset) + account_total(
            b,
            account,
            asset,
        ),
    decreases b.len(),
{
    if b.len() == 0 {
        assert(a + b =~= a);
    } else {
        assert((a + b).drop_last() =~= a + b.drop_last());
        lemma_account_total_append(a, b.drop_last(), account, asset);
    }
}

/// Negating every posting negates every account total.
pub proof fn lemma_account_total_negated(ps: Seq<PostingView>, account: Seq<char>, asset: Seq<char>)
    ensures
        account_total(negated(ps), account, asset) == -account_total(ps, account, asset),
    decreases ps.len(),
{
    if ps.len() > 0 {
        assert(negated(ps).drop_last() =~= negated(ps.drop_last()));
        lemma_account_total_negated(ps.drop_last(), account, asset);
    }
}

/// Asset totals add up over concatenated postings.
pub proof fn lemma_asset_total_append(a: Seq<PostingView>, b: Seq<PostingView>, asset: Seq<char>)
    ensures
        asset_total(a + b, asset) == asset_total(a, asset) + asset_total(b, asset),
    decreases b.len(),
{
    if b.len() == 0 {
        assert(a + b =~= a);
    } else {
        assert((a + b).drop_last() =~= a + b.drop_last());
        lemma_asset_total_append(a, b.drop_last(), asset);
    }
}

/// A journal of balanced transactions nets to zero in every asset.
pub proof fn lemma_journal_asset_total_zero(journal: Seq<Seq<PostingView>>, asset: Seq<char>)
    requires
        forall|i: int| 0 <= i < journal.len() ==> is_balanced(#[trigger] journal[i]),
    ensures
        asset_total(flatten_journal(journal), asset) == 0,
    decreases journal.len(),
{
    if journal.len() > 0 {
        let init = journal.drop_last();
        assert forall|i: int| 0 <= i < init.len() implies is_balanced(#[trigger] init[i]) by {
            assert(init[i] == journal[i]);
        }
        lemma_journal_asset_total_zero(init, asset);
        lemma_asset_total_append(flatten_journal(init), journal.last(), asset);
        assert(is_balanced(journal[journal.len() - 1]));
        assert(asset_total(journal.last(), asset) == 0);
    }
}

/// Every account touched by `ps` is listed once in `accounts_of(ps)`, and
/// nothing else is.
pub proof fn lemma_accounts_of(ps: Seq<PostingView>)
    ensures
        accounts_of(ps).no_duplicates(),
        forall|x: Seq<char>|
            #[trigger] accounts_of(ps).contains(x) <==> exists|i: int|
                0 <= i < ps.len() && #[trigger] ps[i].account == x,
    decreases ps.len(),
{
    if ps.len() > 0 {
        let init = ps.drop_last();
        lemma_accounts_of(init);
        let r = accounts_of(init);
        let last = ps.last();
        assert forall|x: Seq<char>|
            #[trigger] accounts_of(ps).contains(x) <==> exists|i: int|
                0 <= i < ps.len() && #[trigger] ps[i].account == x by {
            if accounts_of(ps).contains(x) {
                if r.contains(x) {
                    let i = choose|i: int| 0 <= i < init.len() && #[trigger] init[i].account == x;
                    assert(ps[i].account == x);
                } else {
                    assert(x == last.account);
                    assert(ps[ps.len() - 1].account == x);
                }
            }
            if exists|i: int| 0 <= i < ps.len() && #[trigger] ps[i].account == x {
                let i = choose|i: int| 0 <= i < ps.len() && #[trigger] ps[i].account == x;
                if i < ps.len() - 1 {
                    assert(init[i].account == x);
                    assert(r.contains(x));
                    if !r.contains(last.account) {
                        assert(r.push(last.account)[r.index_of(x)] == x);
                    }
                } else {
                    if !r.contains(last.account) {
                        assert(r.push(last.account)[r.len() as int] == x);
                    }
                }
            }
        }
    }
}

/// Summing over listed accounts after one more posting adds that posting's
/// amount once, if its account is listed and its asset matches.
pub proof fn lemma_sum_totals_step(accs: Seq<Seq<char>>, ps: Seq<PostingView>, asset: Seq<char>)
    requires
        ps.len() > 0,
        accs.no_duplicates(),
    ensures
        sum_of_account_totals(accs, ps, asset) == sum_of_account_totals(accs, ps.drop_last(), asset)
            + if ps.last().asset == asset && accs.contains(ps.last().account) {
            ps.last().amount
        } else {
            0
        },
    decreases accs.len(),
{
    if accs.len() > 0 {
        let init = accs.drop_last();
        assert(init.no_duplicates());
        lemma_sum_totals_step(init, ps, asset);
        if accs.contains(ps.last().account) {
            if ps.last().account != accs.last() {
                let i = choose|i: int| 0 <= i < accs.len() && accs[i] == ps.last().account;
                assert(init[i] == ps.last().account);
            } else {
                if init.contains(ps.last().account) {
                    let i = choose|i: int| 0 <= i < init.len() && init[i] == ps.last().account;
                    assert(accs[i] == accs[accs.len() - 1]);
                }
            }
        } else {
            assert(!init.contains(ps.last().account)) by {
                if init.contains(ps.last().account) {
                    let i = choose|i: int| 0 <= i < init.len() && init[i] == ps.last().account;
                    assert(accs[i] == ps.last().account);
                }
            }
        }
    }
}

/// An account that no posting touches totals zero.
pub proof fn lemma_account_total_absent(ps: Seq<PostingView>, account: Seq<char>, asset: Seq<char>)
    requires
        !accounts_of(ps).contains(account),
    ensures
        account_total(ps, account, asset) == 0,
    decreases ps.len(),
{
    if ps.len() > 0 {
        let init = ps.drop_last();
        lemma_accounts_of(ps);
        lemma_accounts_of(init);
        assert(!accounts_of(init).contains(account)) by {
            if accounts_of(init).contains(account) {
                let i = choose|i: int| 0 <= i < init.len() && #[trigger] init[i].account == account;
                assert(ps[i].account == account);
            }
        }
        lemma_account_total_absent(init, account, asset);
        assert(ps[ps.len() - 1].account != account);
    }
}

/// Summing every touched account's total gives the asset's total.
pub proof fn lemma_sum_over_accounts_is_asset_total(ps: Seq<PostingView>, asset: Seq<char>)
    ensures
        sum_of_account_totals(accounts_of(ps), ps, asset) == asset_total(ps, asset),
    decreases ps.len(),
{
    if ps.len() > 0 {
        let init = ps.drop_last();
        let last = ps.last();
        lemma_sum_over_accounts_is_asset_total(init, asset);
        lemma_accounts_of(init);
        lemma_accounts_of(ps);
        let r = accounts_of(init);
        lemma_sum_totals_step(accounts_of(ps), ps, asset);
        if r.contains(last.account) {
            assert(accounts_of(ps) == r);
        } else {
            let accs = r.push(last.account);
            assert(accounts_of(ps) == accs);
            assert(accs.drop_last() =~= r);
            assert(accs.contains(last.account)) by {
                assert(accs[r.len() as int] == last.account);
            }
            // The new account's only leg is the last posting.
            lemma_sum_totals_step(r, ps, asset);
            lemma_account_total_absent(init, last.account, asset);
        }
    }
}

} // verus!
