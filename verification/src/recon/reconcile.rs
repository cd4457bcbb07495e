use vstd::prelude::*;

use crate::indexer::event::ChainEvent;
use crate::indexer::primitives::Address;
use crate::ledger::account::{AccountId, Asset};
use crate::ledger::posting::{Posting, PostingView, postings_view};
use crate::ledger::transaction::{Transaction, asset_total, is_balanced};
use crate::recon::error::ReconError;
use crate::recon::format::{
    address_hex, b256_hex, decimal, prefixed_hex, u256_decimal, u256_to_i128, u64_decimal,
};

verus! {

broadcast use vstd::string::to_string_from_display_ensures_for_str;

/// The ledger account of a chain address: the address under an `onchain:`
/// namespace.
pub open spec fn account_of_spec(addr: Address) -> Seq<char> {
    "onchain:"@ + prefixed_hex(addr.0@)
}

/// The ledger asset of a token contract: the contract's address.
pub open spec fn asset_of_spec(token: Address) -> Seq<char> {
    prefixed_hex(token.0@)
}

/// The two legs that mirror `event`, moving `amount`: the sender debited,
/// the receiver credited.
pub open spec fn mirror_postings(event: ChainEvent, amount: int) -> Seq<PostingView> {
    seq![
        PostingView {
            account: account_of_spec(event.from),
            asset: asset_of_spec(event.token),
            amount: -amount,
        },
        PostingView {
            account: account_of_spec(event.to),
            asset: asset_of_spec(event.token),
            amount: amount,
        },
    ]
}

/// Maps a chain address to a ledger account id: the raw address, as `0x` and
/// lower-case hex, under an `onchain:` namespace.
pub fn account_of(addr: Address) -> (r: AccountId)
    ensures
        r@ == account_of_spec(addr),
{
    let mut s = "onchain:".to_string();
    let hex = address_hex(&addr);
    s.append(hex.as_str());
    AccountId(s)
}

/// Maps a token contract to a ledger asset: the raw token address, as `0x`
/// and lower-case hex.
pub fn asset_of(token: Address) -> (r: Asset)
    ensures
        r@ == asset_of_spec(token),
{
    Asset(address_hex(&token))
}

/// Idempotency key for an event: a log is unique per `(tx_hash, log_index)`.
/// Feeding this to the ledger's idempotent `append` makes the pipeline
/// exactly-once even under at-least-once delivery.
pub fn idempotency_key(event: &ChainEvent) -> (r: String)
    ensures
        r@ == prefixed_hex(event.tx_hash.0@) + ":"@ + decimal(event.log_index as nat),
{
    let mut s = b256_hex(&event.tx_hash);
    s.append(":");
    let idx = u64_decimal(event.log_index);
    s.append(idx.as_str());
    s
}

/// Converts an on-chain amount to the ledger's signed minor units, erroring
/// if it overflows `i128` rather than silently wrapping.
fn u256_amount(event: &ChainEvent) -> (r: Result<i128, ReconError>)
    ensures
        (r is Ok) <==> event.value.value() <= i128::MAX,
        r matches Ok(v) ==> v == event.value.value(),
        r matches Err(e) ==> e matches ReconError::AmountOverflow(s) && s@ == decimal(
            event.value.value(),
        ),
{
    match u256_to_i128(&event.value) {
        Some(v) => Ok(v),
        None => Err(ReconError::AmountOverflow(u256_decimal(&event.value))),
    }
}

/// Turns one confirmed on-chain `Transfer` into a balanced ledger transaction.
///
/// The event moves `value` of `token` from `from` to `to`; it is mirrored as
/// a two-leg double entry so the ledger's `Σ == 0` invariant holds by
/// construction: the sender account is debited, the receiver credited.
pub fn event_to_transaction(event: &ChainEvent) -> (r: Result<Transaction, ReconError>)
    ensures
        (r is Ok) <==> event.value.value() <= i128::MAX,
        r matches Ok(tx) ==> tx@ == mirror_postings(*event, event.value.value() as int),
        r matches Err(e) ==> e matches ReconError::AmountOverflow(s) && s@ == decimal(
            event.value.value(),
        ),
{
    let amount = match u256_amount(event) {
        Ok(a) => a,
        Err(e) => {
            return Err(e);
        },
    };
    let asset = asset_of(event.token);
    let debit = Posting { account: account_of(event.from), asset: asset.copy(), amount: -amount };
    let credit = Posting { account: account_of(event.to), asset, amount };
    let mut postings: Vec<Posting> = Vec::new();
    postings.push(debit);
    postings.push(credit);
    let ghost pv = postings_view(postings@);
    proof {
        assert(pv =~= mirror_postings(*event, amount as int));
        lemma_mirror_balanced(pv);
    }
    match Transaction::new(postings) {
        Ok(tx) => Ok(tx),
        Err(e) => Err(ReconError::from(e)),
    }
}

/// Two legs of one asset that cancel out net to zero.
proof fn lemma_mirror_balanced(pv: Seq<PostingView>)
    requires
        pv.len() == 2,
        pv[0].asset == pv[1].asset,
        pv[0].amount == -pv[1].amount,
    ensures
        is_balanced(pv),
{
    reveal_with_fuel(asset_total, 3);
    assert(pv.drop_last().drop_last() =~= Seq::<PostingView>::empty());
    assert(pv.drop_last().last() == pv[0]);
    assert forall|a: Seq<char>| #[trigger] asset_total(pv, a) == 0 by {
        assert(asset_total(pv.drop_last(), a) == asset_total(pv.drop_last().drop_last(), a) + if pv[0].asset == a {
            pv[0].amount
        } else {
            0
        });
    }
}

} // verus!
