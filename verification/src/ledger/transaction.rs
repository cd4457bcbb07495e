use vstd::prelude::*;

use crate::ledger::error::LedgerError;
use crate::ledger::posting::{Posting, PostingView, postings_view, lemma_postings_view_push};

verus! {

/// Net amount of `asset` over the postings `ps`.
pub open spec fn asset_total(ps: Seq<PostingView>, asset: Seq<char>) -> int
    decreases ps.len(),
{
    if ps.len() == 0 {
        0
    } else {
        asset_total(ps.drop_last(), asset) + if ps.last().asset == asset {
            ps.last().amount
        } else {
            0
        }
    }
}

/// Every asset nets to zero over `ps`.
pub open spec fn is_balanced(ps: Seq<PostingView>) -> bool {
    forall|a: Seq<char>| #[trigger] asset_total(ps, a) == 0
}

/// `x` is representable as an `i128`.
pub open spec fn fits_i128(x: int) -> bool {
    i128::MIN <= x <= i128::MAX
}

/// `2^128`: the weight of one carry in a running sum held as an `i128` and
/// a carry count.
pub open spec fn carry_unit() -> int {
    0x1_0000_0000_0000_0000_0000_0000_0000_0000int
}

/// The exact value of a running sum held as `sum + carry * 2^128`.
pub open spec fn carried(sum: i128, carry: i128) -> int {
    sum + carry * carry_unit()
}

/// Adds `amount` to the running sum `sum + carry * 2^128` without losing
/// anything: an overflow of the `i128` part moves one unit into the carry.
fn add_carrying(sum: i128, carry: i128, amount: i128) -> (r: (i128, i128))
    requires
        i128::MIN < carry < i128::MAX,
    ensures
        carried(r.0, r.1) == carried(sum, carry) + amount,
        carry - 1 <= r.1 <= carry + 1,
{
    proof {
        assert((carry + 1) * carry_unit() == carry * carry_unit() + carry_unit()) by (nonlinear_arith);
        assert((carry - 1) * carry_unit() == carry * carry_unit() - carry_unit()) by (nonlinear_arith);
    }
    match sum.checked_add(amount) {
        Some(s) => (s, carry),
        None => {
            if amount > 0 {
                // sum + amount - 2^128, computed in range.
                let s = (sum - i128::MAX - 1) + (amount - i128::MAX - 1);
                (s, carry + 1)
            } else {
                // sum + amount + 2^128, computed in range.
                let s = (sum + i128::MAX + 1) + (amount + i128::MAX + 1);
                (s, carry - 1)
            }
        },
    }
}

/// A running sum held as an `i128` and a carry count is zero exactly when
/// both parts are.
proof fn lemma_carried_zero(sum: i128, carry: i128)
    ensures
        (carried(sum, carry) == 0) <==> (sum == 0 && carry == 0),
{
    if carry >= 1 {
        assert(carry * carry_unit() >= carry_unit()) by (nonlinear_arith)
            requires
                carry >= 1,
        ;
    } else if carry <= -1 {
        assert(carry * carry_unit() <= -carry_unit()) by (nonlinear_arith)
            requires
                carry <= -1,
        ;
    }
}

/// `a` is the asset of some posting in `ps`.
pub open spec fn has_asset(ps: Seq<PostingView>, a: Seq<char>) -> bool {
    exists|i: int| 0 <= i < ps.len() && #[trigger] ps[i].asset == a
}

/// Some slot of `firsts` indexes a posting of `pv` whose asset is `a`.
pub open spec fn listed(pv: Seq<PostingView>, firsts: Seq<usize>, a: Seq<char>) -> bool {
    exists|j: int| 0 <= j < firsts.len() && #[trigger] pv[firsts[j] as int].asset == a
}

/// The posting with its amount negated.
pub open spec fn negate_posting(p: PostingView) -> PostingView {
    PostingView { account: p.account, asset: p.asset, amount: -p.amount }
}

/// The exact negation of every posting, in order.
pub open spec fn negated(ps: Seq<PostingView>) -> Seq<PostingView> {
    ps.map_values(|p: PostingView| negate_posting(p))
}

/// No posting of `ps` before index `i` carries `i128::MIN`.
pub open spec fn negatable_before(ps: Seq<PostingView>, i: int) -> bool {
    forall|k: int| 0 <= k < i ==> #[trigger] ps[k].amount != i128::MIN
}

/// Every posting of `ps` can be negated within `i128`.
pub open spec fn negatable(ps: Seq<PostingView>) -> bool {
    negatable_before(ps, ps.len() as int)
}

/// An asset that does not occur in `ps` nets to zero there.
pub proof fn lemma_asset_total_absent(ps: Seq<PostingView>, a: Seq<char>)
    requires
        !has_asset(ps, a),
    ensures
        asset_total(ps, a) == 0,
    decreases ps.len(),
{
    if ps.len() > 0 {
        assert(!has_asset(ps.drop_last(), a)) by {
            if has_asset(ps.drop_last(), a) {
                let i = choose|i: int| 0 <= i < ps.drop_last().len() && #[trigger] ps.drop_last()[i].asset == a;
                assert(ps[i].asset == a);
            }
        }
        lemma_asset_total_absent(ps.drop_last(), a);
        assert(ps[ps.len() - 1].asset != a);
    }
}

/// Extending a prefix by one posting adds that posting's amount to its asset.
pub proof fn lemma_asset_total_step(ps: Seq<PostingView>, i: int, a: Seq<char>)
    requires
        0 <= i < ps.len(),
    ensures
        asset_total(ps.take(i + 1), a) == asset_total(ps.take(i), a) + if ps[i].asset == a {
            ps[i].amount
        } else {
            0
        },
{
    assert(ps.take(i + 1).drop_last() =~= ps.take(i));
}

/// Negating every posting negates every asset's net amount.
pub proof fn lemma_asset_total_negated(ps: Seq<PostingView>, a: Seq<char>)
    ensures
        asset_total(negated(ps), a) == -asset_total(ps, a),
    decreases ps.len(),
{
    if ps.len() > 0 {
        assert(negated(ps).drop_last() =~= negated(ps.drop_last()));
        lemma_asset_total_negated(ps.drop_last(), a);
    }
}

/// A set of postings treated as one atomic unit.
///
/// The only ways to build one are [`Transaction::new`], which rejects anything
/// that is empty or does not balance to zero per asset, and
/// [`Transaction::reverse`]. Holding a `Transaction` therefore proves it is
/// balanced.
#[derive(Debug)]
pub struct Transaction {
    postings: Vec<Posting>,
}

impl View for Transaction {
    type V = Seq<PostingView>;

    closed spec fn view(&self) -> Seq<PostingView> {
        postings_view(self.postings@)
    }
}

impl Transaction {
    #[verifier::type_invariant]
    spec fn well_formed(self) -> bool {
        &&& self.postings@.len() > 0
        &&& is_balanced(postings_view(self.postings@))
    }

    /// Builds a transaction, enforcing the ledger invariants: the set must be
    /// non-empty and must net to zero per asset. Returns [`LedgerError`]
    /// otherwise; when several assets fail to net to zero, one of them is
    /// reported.
    pub fn new(postings: Vec<Posting>) -> (r: Result<Transaction, LedgerError>)
        ensures
            (r is Ok) <==> (postings@.len() > 0 && is_balanced(postings_view(postings@))),
            r matches Ok(t) ==> t@ == postings_view(postings@),
            (r matches Err(LedgerError::EmptyTransaction)) <==> postings@.len() == 0,
            r matches Err(LedgerError::NotBalanced(a)) ==> {
                &&& has_asset(postings_view(postings@), a@)
                &&& asset_total(postings_view(postings@), a@) != 0
            },
            r matches Err(e) ==> (e is EmptyTransaction || e is NotBalanced),
    {
        let n = postings.len();
        if n == 0 {
            return Err(LedgerError::EmptyTransaction);
        }
        let ghost pv = postings_view(postings@);
        // One slot per distinct asset, in order of first occurrence: the index
        // of its first posting and its running net amount, held exactly as an
        // `i128` part and a count of `2^128` carries.
        let mut firsts: Vec<usize> = Vec::new();
        let mut sums: Vec<i128> = Vec::new();
        let mut carries: Vec<i128> = Vec::new();
        for i in 0..n
            invariant
                n == postings@.len(),
                pv == postings_view(postings@),
                firsts@.len() == sums@.len(),
                carries@.len() == sums@.len(),
                forall|j: int| 0 <= j < firsts@.len() ==> #[trigger] firsts@[j] < i,
                forall|j1: int, j2: int|
                    0 <= j1 < j2 < firsts@.len() ==> pv[#[trigger] firsts@[j1] as int].asset
                        != pv[#[trigger] firsts@[j2] as int].asset,
                forall|j: int|
                    0 <= j < firsts@.len() ==> carried(#[trigger] sums@[j], carries@[j]) == asset_total(
                        pv.take(i as int),
                        pv[firsts@[j] as int].asset,
                    ),
                forall|j: int| 0 <= j < carries@.len() ==> -(i as int) <= #[trigger] carries@[j] <= i,
                forall|k: int| 0 <= k < i ==> listed(pv, firsts@, #[trigger] pv[k].asset),
        {
            let ghost f0 = firsts@;
            let mut j: usize = 0;
            let mut found = false;
            while j < firsts.len()
                invariant
                    0 <= j <= firsts@.len(),
                    0 <= i < n == postings@.len(),
                    pv == postings_view(postings@),
                    forall|j0: int| 0 <= j0 < firsts@.len() ==> #[trigger] firsts@[j0] < i,
                    forall|j0: int| 0 <= j0 < j ==> pv[#[trigger] firsts@[j0] as int].asset != pv[i as int].asset,
                    found ==> (j < firsts@.len() && pv[firsts@[j as int] as int].asset == pv[i as int].asset),
                ensures
                    found ==> (j < firsts@.len() && pv[firsts@[j as int] as int].asset == pv[i as int].asset),
                    !found ==> forall|j0: int| 0 <= j0 < firsts@.len() ==> pv[#[trigger] firsts@[j0] as int].asset != pv[i as int].asset,
                decreases firsts@.len() - j,
            {
                if postings[firsts[j]].asset.0 == postings[i].asset.0 {
                    found = true;
                    break;
                }
                j = j + 1;
            }
            proof {
                assert forall|a: Seq<char>| true implies #[trigger] asset_total(pv.take(i + 1), a)
                    == asset_total(pv.take(i as int), a) + if pv[i as int].asset == a {
                        pv[i as int].amount
                    } else {
                        0
                    } by {
                    lemma_asset_total_step(pv, i as int, a);
                }
            }
            if found {
                let (s, c) = add_carrying(sums[j], carries[j], postings[i].amount);
                sums.set(j, s);
                carries.set(j, c);
            } else {
                proof {
                    assert(!has_asset(pv.take(i as int), pv[i as int].asset)) by {
                        if has_asset(pv.take(i as int), pv[i as int].asset) {
                            let k = choose|k: int| 0 <= k < pv.take(i as int).len() && #[trigger] pv.take(i as int)[k].asset == pv[i as int].asset;
                            assert(pv[k].asset == pv[i as int].asset);
                        }
                    }
                    lemma_asset_total_absent(pv.take(i as int), pv[i as int].asset);
                }
                firsts.push(i);
                sums.push(postings[i].amount);
                carries.push(0);
            }
            proof {
                assert forall|k: int| 0 <= k < i + 1 implies listed(pv, firsts@, #[trigger] pv[k].asset) by {
                    if k == i {
                        if found {
                            assert(pv[firsts@[j as int] as int].asset == pv[k].asset);
                        } else {
                            assert(pv[firsts@[firsts@.len() - 1] as int].asset == pv[k].asset);
                        }
                    } else {
                        assert(listed(pv, f0, pv[k].asset));
                        let j1 = choose|j1: int|
                            0 <= j1 < f0.len() && pv[#[trigger] f0[j1] as int].asset == pv[k].asset;
                        assert(firsts@[j1] == f0[j1]);
                    }
                }
            }
        }
        assert(pv.take(n as int) =~= pv);
        let mut j: usize = 0;
        while j < sums.len()
            invariant
                0 <= j <= sums@.len() == firsts@.len(),
                carries@.len() == sums@.len(),
                n == postings@.len(),
                pv == postings_view(postings@),
                pv.take(n as int) == pv,
                forall|j0: int| 0 <= j0 < firsts@.len() ==> #[trigger] firsts@[j0] < n,
                forall|j0: int|
                    0 <= j0 < firsts@.len() ==> carried(#[trigger] sums@[j0], carries@[j0]) == asset_total(
                        pv,
                        pv[firsts@[j0] as int].asset,
                    ),
                forall|j0: int| 0 <= j0 < j ==> #[trigger] sums@[j0] == 0,
                forall|j0: int| 0 <= j0 < j ==> #[trigger] carries@[j0] == 0,
            decreases sums@.len() - j,
        {
            proof {
                lemma_carried_zero(sums@[j as int], carries@[j as int]);
            }
            let s = sums[j];
            let c = carries[j];
            if s != 0 || c != 0 {
                let a = postings[firsts[j]].asset.copy();
                assert(pv[firsts@[j as int] as int].asset == a@);
                return Err(LedgerError::NotBalanced(a));
            }
            assert(sums@[j as int] == 0 && carries@[j as int] == 0);
            j = j + 1;
        }
        proof {
            assert forall|a: Seq<char>| #[trigger] asset_total(pv, a) == 0 by {
                if has_asset(pv, a) {
                    let k = choose|k: int| 0 <= k < pv.len() && #[trigger] pv[k].asset == a;
                    assert(listed(pv, firsts@, pv[k].asset));
                    let j0 = choose|j0: int|
                        0 <= j0 < firsts@.len() && pv[#[trigger] firsts@[j0] as int].asset == pv[k].asset;
                    assert(sums@[j0] == 0 && carries@[j0] == 0);
                } else {
                    lemma_asset_total_absent(pv, a);
                }
            }
        }
        Ok(Transaction { postings })
    }

    /// The postings, in the order given to [`Transaction::new`]. A transaction
    /// is never empty and always nets to zero per asset.
    pub fn postings(&self) -> (r: &[Posting])
        ensures
            postings_view(r@) == self@,
            self@.len() > 0,
            is_balanced(self@),
    {
        proof {
            use_type_invariant(self);
        }
        self.postings.as_slice()
    }

    /// A copy of this transaction with the same postings.
    pub fn copy(&self) -> (r: Transaction)
        ensures
            r@ == self@,
    {
        proof {
            use_type_invariant(self);
        }
        let n = self.postings.len();
        let mut out: Vec<Posting> = Vec::new();
        for i in 0..n
            invariant
                n == self.postings@.len(),
                postings_view(out@) =~= postings_view(self.postings@).take(i as int),
        {
            let p = self.postings[i].copy();
            proof {
                lemma_postings_view_push(out@, p);
                assert(postings_view(self.postings@).take(i + 1) =~= postings_view(
                    self.postings@,
                ).take(i as int).push(p@));
            }
            out.push(p);
        }
        assert(postings_view(self.postings@).take(n as int) =~= postings_view(self.postings@));
        Transaction { postings: out }
    }

    /// Whether two transactions hold the same postings in the same order.
    pub fn same_as(&self, other: &Transaction) -> (r: bool)
        ensures
            r == (self@ == other@),
    {
        let n = self.postings.len();
        if n != other.postings.len() {
            assert(self@.len() != other@.len());
            return false;
        }
        for i in 0..n
            invariant
                n == self.postings@.len() == other.postings@.len(),
                forall|k: int| 0 <= k < i ==> self@[k] == other@[k],
        {
            if !self.postings[i].same_as(&other.postings[i]) {
                assert(self@[i as int] != other@[i as int]);
                return false;
            }
        }
        assert(self@ =~= other@);
        true
    }

    /// Builds the reversing (storno) transaction: the exact negation of every
    /// posting, in order. Appending it undoes `self` without mutating the
    /// journal, keeping it append-only. The result nets to zero because
    /// negating a balanced set stays balanced.
    ///
    /// Errors with [`LedgerError::Overflow`], naming the first posting whose
    /// amount is `i128::MIN`, which has no positive counterpart to negate.
    pub fn reverse(&self) -> (r: Result<Transaction, LedgerError>)
        ensures
            (r is Ok) <==> negatable(self@),
            r matches Ok(t) ==> t@ == negated(self@),
            r matches Err(e) ==> e is Overflow,
            r matches Err(LedgerError::Overflow { account, asset }) ==> exists|i: int|
                0 <= i < self@.len() && #[trigger] self@[i].amount == i128::MIN && negatable_before(
                    self@,
                    i,
                ) && account@ == self@[i].account && asset@ == self@[i].asset,
    {
        proof {
            use_type_invariant(self);
        }
        let ghost pv = self@;
        let n = self.postings.len();
        let mut out: Vec<Posting> = Vec::new();
        for i in 0..n
            invariant
                n == self.postings@.len(),
                pv == self@,
                pv == postings_view(self.postings@),
                negatable_before(pv, i as int),
                postings_view(out@) =~= negated(pv).take(i as int),
        {
            let p = &self.postings[i];
            if p.amount == i128::MIN {
                let e = LedgerError::Overflow { account: p.account.copy(), asset: p.asset.copy() };
                assert(pv[i as int].amount == i128::MIN);
                return Err(e);
            }
            let q = Posting { account: p.account.copy(), asset: p.asset.copy(), amount: -p.amount };
            proof {
                lemma_postings_view_push(out@, q);
                assert(negated(pv).take(i + 1) =~= negated(pv).take(i as int).push(q@));
            }
            out.push(q);
        }
        proof {
            assert(negated(pv).take(n as int) =~= negated(pv));
            assert forall|a: Seq<char>| #[trigger] asset_total(negated(pv), a) == 0 by {
                lemma_asset_total_negated(pv, a);
            }
        }
        Ok(Transaction { postings: out })
    }
}

impl Clone for Transaction {
    fn clone(&self) -> (r: Self)
        ensures
            r@ == self@,
    {
        self.copy()
    }
}

impl PartialEq for Transaction {
    fn eq(&self, other: &Self) -> (r: bool) {
        self.same_as(other)
    }
}

impl vstd::std_specs::cmp::PartialEqSpecImpl for Transaction {
    open spec fn obeys_eq_spec() -> bool {
        true
    }

    open spec fn eq_spec(&self, other: &Self) -> bool {
        self@ == other@
    }
}

} // verus!
