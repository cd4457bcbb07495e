use vstd::prelude::*;

use crate::ledger::account::{AccountId, Asset};
use crate::ledger::error::LedgerError;
use crate::ledger::posting::{PostingView, postings_view};
use crate::ledger::transaction::{Transaction, fits_i128};

verus! {

/// The views of the transactions of a journal, in order.
pub open spec fn journal_view(txs: Seq<Transaction>) -> Seq<Seq<PostingView>> {
    txs.map_values(|t: Transaction| t@)
}

/// All postings of a journal, transaction after transaction.
pub open spec fn flatten_journal(j: Seq<Seq<PostingView>>) -> Seq<PostingView>
    decreases j.len(),
{
    if j.len() == 0 {
        Seq::empty()
    } else {
        flatten_journal(j.drop_last()) + j.last()
    }
}

/// The posting is on `account` in `asset`.
pub open spec fn is_leg_of(p: PostingView, account: Seq<char>, asset: Seq<char>) -> bool {
    p.account == account && p.asset == asset
}

/// Sum of the amounts of the postings on `account` in `asset`.
pub open spec fn account_total(ps: Seq<PostingView>, account: Seq<char>, asset: Seq<char>) -> int
    decreases ps.len(),
{
    if ps.len() == 0 {
        0
    } else {
        account_total(ps.drop_last(), account, asset) + if is_leg_of(ps.last(), account, asset) {
            ps.last().amount
        } else {
            0
        }
    }
}

/// The balance of `account` in `asset`, summed posting by posting in `i128`:
/// `None` as soon as a running sum leaves the `i128` range.
pub open spec fn checked_balance(ps: Seq<PostingView>, account: Seq<char>, asset: Seq<char>) -> Option<int>
    decreases ps.len(),
{
    if ps.len() == 0 {
        Some(0)
    } else {
        match checked_balance(ps.drop_last(), account, asset) {
            Some(b) => {
                let nb = b + if is_leg_of(ps.last(), account, asset) {
                    ps.last().amount
                } else {
                    0
                };
                if fits_i128(nb) {
                    Some(nb)
                } else {
                    None
                }
            },
            None => None,
        }
    }
}

/// Flattening distributes over concatenation of journals.
pub proof fn lemma_flatten_append(a: Seq<Seq<PostingView>>, b: Seq<Seq<PostingView>>)
    ensures
        flatten_journal(a + b) == flatten_journal(a) + flatten_journal(b),
    decreases b.len(),
{
    if b.len() == 0 {
        assert(a + b =~= a);
        assert(flatten_journal(a) + flatten_journal(b) =~= flatten_journal(a));
    } else {
        assert((a + b).drop_last() =~= a + b.drop_last());
        lemma_flatten_append(a, b.drop_last());
        assert(flatten_journal(a + b) =~= flatten_journal(a) + flatten_journal(b));
    }
}

/// A journal of one transaction flattens to its postings.
pub proof fn lemma_flatten_single(t: Seq<PostingView>)
    ensures
        flatten_journal(seq![t]) == t,
{
    let j = seq![t];
    assert(j.drop_last() =~= Seq::<Seq<PostingView>>::empty());
    assert(flatten_journal(j.drop_last()) =~= Seq::<PostingView>::empty());
    assert(flatten_journal(j) =~= t);
}

/// A checked balance that has overflowed stays overflowed.
pub proof fn lemma_checked_balance_none_extends(
    s: Seq<PostingView>,
    t: Seq<PostingView>,
    account: Seq<char>,
    asset: Seq<char>,
)
    requires
        checked_balance(s, account, asset) is None,
    ensures
        checked_balance(s + t, account, asset) is None,
    decreases t.len(),
{
    if t.len() == 0 {
        assert(s + t =~= s);
    } else {
        assert((s + t).drop_last() =~= s + t.drop_last());
        lemma_checked_balance_none_extends(s, t.drop_last(), account, asset);
    }
}

/// A checked balance, when it exists, is the exact sum of the matching legs.
pub proof fn lemma_checked_balance_is_total(ps: Seq<PostingView>, account: Seq<char>, asset: Seq<char>)
    requires
        checked_balance(ps, account, asset) is Some,
    ensures
        checked_balance(ps, account, asset) == Some(account_total(ps, account, asset)),
    decreases ps.len(),
{
    if ps.len() > 0 {
        lemma_checked_balance_is_total(ps.drop_last(), account, asset);
    }
}

/// Balance of an account in an asset: the sum of every matching posting.
///
/// Pure fold over the journal — the balance is always derived, never stored.
/// Errors with [`LedgerError::Overflow`] instead of panicking or wrapping when
/// the running sum leaves the `i128` range.
pub fn balance_of(txs: &[Transaction], account: &AccountId, asset: &Asset) -> (r: Result<
    i128,
    LedgerError,
>)
    ensures
        (r is Ok) <==> checked_balance(flatten_journal(journal_view(txs@)), account@, asset@) is Some,
        r matches Ok(v) ==> {
            &&& checked_balance(flatten_journal(journal_view(txs@)), account@, asset@) == Some(v as int)
            &&& v == account_total(flatten_journal(journal_view(txs@)), account@, asset@)
        },
        r matches Err(e) ==> e is Overflow,
        r matches Err(LedgerError::Overflow { account: a, asset: s }) ==> a@ == account@ && s@
            == asset@,
{
    let ghost jv = journal_view(txs@);
    let n = txs.len();
    let mut acc: i128 = 0;
    for i in 0..n
        invariant
            n == txs@.len(),
            jv == journal_view(txs@),
            checked_balance(flatten_journal(jv.take(i as int)), account@, asset@) == Some(acc as int),
    {
        let ps = txs[i].postings();
        let m = ps.len();
        let ghost done = flatten_journal(jv.take(i as int));
        let ghost pv = postings_view(ps@);
        assert(pv == jv[i as int]);
        for j in 0..m
            invariant
                m == ps@.len(),
                0 <= i < n == txs@.len(),
                jv == journal_view(txs@),
                pv == postings_view(ps@),
                pv == jv[i as int],
                done == flatten_journal(jv.take(i as int)),
                checked_balance(done + pv.take(j as int), account@, asset@) == Some(acc as int),
        {
            let p = &ps[j];
            proof {
                assert((done + pv.take(j + 1)).drop_last() =~= done + pv.take(j as int));
            }
            if p.account.0 == account.0 && p.asset.0 == asset.0 {
                match acc.checked_add(p.amount) {
                    Some(v) => {
                        acc = v;
                    },
                    None => {
                        proof {
                            let q = done + pv.take(j + 1);
                            assert(checked_balance(q, account@, asset@) is None);
                            let rest = pv.skip(j + 1) + flatten_journal(jv.skip(i + 1));
                            assert(jv =~= jv.take(i as int) + (seq![jv[i as int]] + jv.skip(i + 1)));
                            lemma_flatten_append(jv.take(i as int), seq![jv[i as int]] + jv.skip(i + 1));
                            lemma_flatten_append(seq![jv[i as int]], jv.skip(i + 1));
                            lemma_flatten_single(pv);
                            assert(flatten_journal(jv) =~= q + rest);
                            lemma_checked_balance_none_extends(q, rest, account@, asset@);
                        }
                        return Err(
                            LedgerError::Overflow { account: account.copy(), asset: asset.copy() },
                        );
                    },
                }
            }
        }
        proof {
            assert(pv.take(m as int) =~= pv);
            assert(jv.take(i + 1).drop_last() =~= jv.take(i as int));
        }
    }
    proof {
        assert(jv.take(n as int) =~= jv);
        lemma_checked_balance_is_total(flatten_journal(jv), account@, asset@);
    }
    Ok(acc)
}

} // verus!
