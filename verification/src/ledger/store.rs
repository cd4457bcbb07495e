use vstd::prelude::*;

use crate::ledger::account::{AccountId, Asset};
use crate::ledger::balance::{
    balance_of, account_total, checked_balance, flatten_journal, journal_view,
};
use crate::ledger::error::LedgerError;
use crate::ledger::posting::PostingView;
use crate::ledger::transaction::Transaction;

verus! {

broadcast use vstd::string::to_string_from_display_ensures_for_str;

/// Storage contract for the ledger: append-only journal, derived balances.
pub trait LedgerStore {
    /// Append a transaction under an idempotency key. Repeating the same key
    /// with the same body is a no-op, turning at-least-once delivery into
    /// exactly-once. Reusing a key with a *different* body is rejected with
    /// [`LedgerError::IdempotencyConflict`].
    fn append(&mut self, key: &str, tx: Transaction) -> Result<(), LedgerError>;

    /// Current balance of an account in an asset.
    fn balance(&self, account: &AccountId, asset: &Asset) -> Result<i128, LedgerError>;
}

/// The content of a store: the idempotency key of each journal entry, and
/// the journal itself (entry `i` was appended under `keys[i]`).
pub struct StoreView {
    pub keys: Seq<Seq<char>>,
    pub journal: Seq<Seq<PostingView>>,
}

/// What an append does with its key and body.
#[derive(PartialEq, Eq, Structural, Debug, Clone, Copy)]
pub enum AppendOutcome {
    /// The key was new: the body was appended under it.
    Appended,
    /// The key was known with the same body: nothing changed.
    Replayed,
    /// The key was known with a different body: rejected, nothing changed.
    Conflict,
}

/// Keys are unique and there is one per journal entry.
pub open spec fn store_well_formed(s: StoreView) -> bool {
    &&& s.keys.len() == s.journal.len()
    &&& s.keys.no_duplicates()
}

/// The effect of appending `tx` under `key` to a store holding `s`.
pub open spec fn append_spec(s: StoreView, key: Seq<char>, tx: Seq<PostingView>) -> (
    StoreView,
    AppendOutcome,
) {
    if s.keys.contains(key) {
        let i = s.keys.index_of(key);
        if s.journal[i] == tx {
            (s, AppendOutcome::Replayed)
        } else {
            (s, AppendOutcome::Conflict)
        }
    } else {
        (StoreView { keys: s.keys.push(key), journal: s.journal.push(tx) }, AppendOutcome::Appended)
    }
}

/// In-memory store for tests and examples. The journal is the source of truth.
#[derive(Debug)]
pub struct InMemoryStore {
    journal: Vec<Transaction>,
    /// Idempotency key of each journal entry, at the same position.
    keys: Vec<String>,
}

impl View for InMemoryStore {
    type V = StoreView;

    closed spec fn view(&self) -> StoreView {
        StoreView {
            keys: self.keys@.map_values(|k: String| k@),
            journal: journal_view(self.journal@),
        }
    }
}

impl InMemoryStore {
    #[verifier::type_invariant]
    spec fn well_formed(self) -> bool {
        store_well_formed(self@)
    }

    /// An empty store.
    pub fn new() -> (s: InMemoryStore)
        ensures
            s@.keys.len() == 0,
            s@.journal.len() == 0,
    {
        let s = InMemoryStore { journal: Vec::new(), keys: Vec::new() };
        assert(s@.keys =~= Seq::<Seq<char>>::empty());
        s
    }

    /// The store's content is well formed: unique keys, one per entry.
    pub fn prove_well_formed(&self)
        ensures
            store_well_formed(self@),
    {
        proof {
            use_type_invariant(self);
        }
    }
}

impl Default for InMemoryStore {
    fn default() -> (s: Self)
        ensures
            s@.keys.len() == 0,
            s@.journal.len() == 0,
    {
        InMemoryStore::new()
    }
}

impl LedgerStore for InMemoryStore {
    fn append(&mut self, key: &str, tx: Transaction) -> (r: Result<(), LedgerError>)
        ensures
            final(self)@ == append_spec(old(self)@, key@, tx@).0,
            (r is Ok) <==> append_spec(old(self)@, key@, tx@).1 != AppendOutcome::Conflict,
            r matches Err(e) ==> e is IdempotencyConflict,
            r matches Err(LedgerError::IdempotencyConflict { key: k }) ==> k@ == key@,
    {
        proof {
            use_type_invariant(&*self);
        }
        let ghost s = self@;
        let k = key.to_string();
        let n = self.keys.len();
        for i in 0..n
            invariant
                n == self.keys@.len(),
                s == self@,
                store_well_formed(s),
                k@ == key@,
                forall|j: int| 0 <= j < i ==> s.keys[j] != key@,
        {
            if self.keys[i] == k {
                proof {
                    assert(s.keys[i as int] == key@);
                    assert(s.keys.contains(key@));
                    let j = s.keys.index_of(key@);
                    assert(s.keys[j] == key@);
                    assert(j == i);
                }
                if self.journal[i].same_as(&tx) {
                    return Ok(());
                } else {
                    return Err(LedgerError::IdempotencyConflict { key: k });
                }
            }
        }
        proof {
            assert(!s.keys.contains(key@));
        }
        let mut taken = InMemoryStore::new();
        std::mem::swap(&mut taken, self);
        proof {
            use_type_invariant(&taken);
        }
        let InMemoryStore { mut journal, mut keys } = taken;
        keys.push(k);
        journal.push(tx);
        let ghost grown = StoreView {
            keys: keys@.map_values(|k: String| k@),
            journal: journal_view(journal@),
        };
        proof {
            assert(grown.keys =~= s.keys.push(key@));
            assert(grown.journal =~= s.journal.push(tx@));
        }
        *self = InMemoryStore { journal, keys };
        Ok(())
    }

    fn balance(&self, account: &AccountId, asset: &Asset) -> (r: Result<i128, LedgerError>)
        ensures
            (r is Ok) <==> checked_balance(flatten_journal(self@.journal), account@, asset@) is Some,
            r matches Ok(v) ==> v == account_total(flatten_journal(self@.journal), account@, asset@),
            r matches Err(e) ==> e is Overflow,
            r matches Err(LedgerError::Overflow { account: a, asset: s }) ==> a@ == account@ && s@
                == asset@,
    {
        balance_of(self.journal.as_slice(), account, asset)
    }
}

} // verus!
