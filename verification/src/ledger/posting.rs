use vstd::prelude::*;

use crate::ledger::account::{AccountId, Asset};

verus! {

/// One leg of a transaction: a signed change of one asset on one account.
///
/// `amount` is in minor units. Sign carries direction: positive flows into
/// the account, negative flows out. Balancing (`Σ == 0`) is a property of the
/// whole transaction, not of a single posting.
#[derive(Debug, Clone, Eq)]
pub struct Posting {
    pub account: AccountId,
    pub asset: Asset,
    pub amount: i128,
}

/// The mathematical content of a posting: account and asset codes as
/// character sequences, the amount as an integer.
pub struct PostingView {
    pub account: Seq<char>,
    pub asset: Seq<char>,
    pub amount: int,
}

impl View for Posting {
    type V = PostingView;

    open spec fn view(&self) -> PostingView {
        PostingView { account: self.account@, asset: self.asset@, amount: self.amount as int }
    }
}

/// The views of a sequence of postings, in order.
pub open spec fn postings_view(ps: Seq<Posting>) -> Seq<PostingView> {
    ps.map_values(|p: Posting| p@)
}

/// Appending a posting appends its view.
pub proof fn lemma_postings_view_push(ps: Seq<Posting>, p: Posting)
    ensures
        postings_view(ps.push(p)) == postings_view(ps).push(p@),
{
    assert(postings_view(ps.push(p)) =~= postings_view(ps).push(p@));
}

impl Posting {
    /// A copy of this posting with the same account, asset and amount.
    pub fn copy(&self) -> (r: Posting)
        ensures
            r@ == self@,
    {
        Posting { account: self.account.copy(), asset: self.asset.copy(), amount: self.amount }
    }

    /// Whether two postings name the same account, asset and amount.
    pub fn same_as(&self, other: &Posting) -> (r: bool)
        ensures
            r == (self@ == other@),
    {
        self.account.0 == other.account.0 && self.asset.0 == other.asset.0 && self.amount
            == other.amount
    }
}

impl PartialEq for Posting {
    fn eq(&self, other: &Self) -> (r: bool) {
        self.same_as(other)
    }
}

impl vstd::std_specs::cmp::PartialEqSpecImpl for Posting {
    open spec fn obeys_eq_spec() -> bool {
        true
    }

    open spec fn eq_spec(&self, other: &Self) -> bool {
        self@ == other@
    }
}

} // verus!
