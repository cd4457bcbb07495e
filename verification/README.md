# fintrails

A double-entry ledger, an on-chain ERC-20 `Transfer` indexer and the
reconciliation that mirrors indexed transfers into the ledger, written in
Verus with the logic proved against its contracts.

- `src/ledger`: accounts, postings, balanced transactions and their
  reversal, the journal store with idempotent appends, and balances.
  `laws.rs` holds the properties that span several operations. The store
  keeps its idempotency keys in a `Vec<String>` under a no-duplicates
  invariant, and `Transaction::new` nets assets in per-asset slots found by
  linear search: a hash map keyed by `String` would leave its contents
  unspecified to Verus.
- `src/indexer`: block-range windows, decoding of fetched logs into events,
  the retry policy, the confirmation/reorg tracker, checkpoints, and the
  poller as a state machine that asks for one source call at a time.
- `src/recon`: the mapping of a chain event to a ledger transaction, with
  its idempotency key and the account and asset names it derives.
- `app`: the asynchronous edges (JSON-RPC block sources, the retry and poll
  loops, checkpoint traits) and the serde/thiserror copies of library types.
- `tests`: the library's tests, run against the compiled crate.
