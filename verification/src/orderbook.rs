use vstd::prelude::*;

use crate::types::{PartialOrder, Side};

verus! {

/// The side an incoming order's counterparties rest on.
pub open spec fn opposite(side: Side) -> Side {
    match side {
        Side::Buy => Side::Sell,
        Side::Sell => Side::Buy,
    }
}

/// Price compatibility: a resting order is eligible for an aggressor with
/// this side and limit price iff the prices cross. Equality crosses: a Buy
/// at limit P matches a resting Sell priced exactly P, and vice versa.
pub open spec fn eligible(resting: PartialOrder, aggressor_side: Side, limit: u64) -> bool {
    match aggressor_side {
        Side::Buy => resting.price <= limit,
        Side::Sell => resting.price >= limit,
    }
}

/// Whether price `p` is strictly better than price `q` from the point of
/// view of an aggressor with the given side: a buyer prefers paying less,
/// a seller prefers earning more.
pub open spec fn price_strictly_better(p: u64, q: u64, aggressor_side: Side) -> bool {
    match aggressor_side {
        Side::Buy => p < q,
        Side::Sell => p > q,
    }
}

/// The index of the resting order an aggressor matches next: the eligible
/// order with the best price, ties broken towards the lowest index. In a
/// book kept in ascending ordinal order the lowest index is the oldest
/// order, so this is exactly price-time priority. `-1` when nothing is
/// eligible.
pub open spec fn best_idx(s: Seq<PartialOrder>, aggressor_side: Side, limit: u64) -> int
    decreases s.len(),
{
    if s.len() == 0 {
        -1
    } else {
        let prev = best_idx(s.take(s.len() - 1), aggressor_side, limit);
        let last = s.len() - 1;
        if !eligible(s[last], aggressor_side, limit) {
            prev
        } else if prev == -1 {
            last
        } else if price_strictly_better(s[last].price, s[prev].price, aggressor_side) {
            last
        } else {
            prev
        }
    }
}

/// One side of the book is well formed when every resting order carries
/// that side, has a positive price, a positive remaining part of its
/// original amount, and the orders stand in strictly increasing ordinal
/// order.
pub open spec fn side_wf(s: Seq<PartialOrder>, side: Side) -> bool {
    &&& forall|i: int| 0 <= i < s.len() ==> (#[trigger] s[i]).side == side
    &&& forall|i: int| 0 <= i < s.len() ==> 1 <= (#[trigger] s[i]).remaining <= s[i].amount
    &&& forall|i: int| 0 <= i < s.len() ==> (#[trigger] s[i]).price >= 1
    &&& forall|i: int, j: int|
        #![trigger s[i].ordinal, s[j].ordinal]
        0 <= i < j < s.len() ==> s[i].ordinal < s[j].ordinal
}

/// Every ordinal in the sequence is at most `c`.
pub open spec fn ordinal_bound(s: Seq<PartialOrder>, c: u64) -> bool {
    forall|i: int| 0 <= i < s.len() ==> (#[trigger] s[i]).ordinal <= c
}

/// The fill record produced when `take` units are taken from a resting
/// order: it executes at the resting order's price and is attributed to
/// the resting signer and ordinal, its `remaining` showing what the
/// resting order has left.
pub open spec fn fill_of(resting: PartialOrder, take: u64) -> PartialOrder {
    PartialOrder {
        price: resting.price,
        amount: take,
        remaining: (resting.remaining - take) as u64,
        side: resting.side,
        signer: resting.signer,
        ordinal: resting.ordinal,
    }
}

/// The matching loop of the engine, as a function of one side of the book.
///
/// Starting from `rem` units still to trade, repeatedly select the best
/// eligible resting order, trade the smaller of the two remaining
/// quantities at the resting order's price, remove the resting order if
/// that empties it, and stop when nothing is eligible or the incoming
/// order is exhausted. The result is the ordered sequence of fill
/// records, the book side after matching, and the units left untraded.
pub open spec fn spec_submit(s: Seq<PartialOrder>, aggressor_side: Side, limit: u64, rem: u64) -> (
    Seq<PartialOrder>,
    Seq<PartialOrder>,
    u64,
)
    decreases rem,
{
    if rem == 0 {
        (Seq::<PartialOrder>::empty(), s, rem)
    } else {
        let b = best_idx(s, aggressor_side, limit);
        if b == -1 {
            (Seq::<PartialOrder>::empty(), s, rem)
        } else {
            let resting = s[b];
            if resting.remaining == 0 {
                // never reached from a well-formed book
                (Seq::<PartialOrder>::empty(), s, rem)
            } else {
                let take = if rem <= resting.remaining {
                    rem
                } else {
                    resting.remaining
                };
                let fill = fill_of(resting, take);
                let s2 = if resting.remaining == take {
                    s.remove(b)
                } else {
                    s.update(b, PartialOrder { remaining: (resting.remaining - take) as u64, ..resting })
                };
                let rest = spec_submit(s2, aggressor_side, limit, (rem - take) as u64);
                (seq![fill] + rest.0, rest.1, rest.2)
            }
        }
    }
}

/// The properties that make [`best_idx`] price-time priority: when it
/// returns an index, that order is eligible, no eligible order offers a
/// strictly better price, and every eligible order standing earlier in the
/// book has a strictly worse price; when it returns `-1`, nothing is
/// eligible.
pub proof fn lemma_best_idx_props(s: Seq<PartialOrder>, aggressor_side: Side, limit: u64)
    ensures
        best_idx(s, aggressor_side, limit) == -1 ==> forall|j: int|
            0 <= j < s.len() ==> !eligible(#[trigger] s[j], aggressor_side, limit),
        best_idx(s, aggressor_side, limit) != -1 ==> {
            let b = best_idx(s, aggressor_side, limit);
            &&& 0 <= b < s.len()
            &&& eligible(s[b], aggressor_side, limit)
            &&& forall|j: int|
                0 <= j < s.len() && eligible(#[trigger] s[j], aggressor_side, limit)
                    ==> !price_strictly_better(s[j].price, s[b].price, aggressor_side)
            &&& forall|j: int|
                0 <= j < b && eligible(#[trigger] s[j], aggressor_side, limit)
                    ==> price_strictly_better(s[b].price, s[j].price, aggressor_side)
        },
    decreases s.len(),
{
    if s.len() > 0 {
        let front = s.take(s.len() - 1);
        lemma_best_idx_props(front, aggressor_side, limit);
        assert(forall|j: int| 0 <= j < front.len() ==> front[j] == s[j]);
    }
}

/// Equality crosses: a resting Sell priced exactly at a Buy's limit is
/// eligible, and a resting Buy priced exactly at a Sell's limit is
/// eligible.
pub proof fn lemma_equal_price_crosses(resting: PartialOrder, aggressor_side: Side, limit: u64)
    requires
        resting.price == limit,
    ensures
        eligible(resting, aggressor_side, limit),
{
}

/// Time priority: in a book in ascending ordinal order, among eligible
/// resting orders of equal price the one with the smallest ordinal is the
/// one selected.
pub proof fn lemma_time_priority(
    s: Seq<PartialOrder>,
    side_of_book: Side,
    aggressor_side: Side,
    limit: u64,
    j: int,
)
    requires
        side_wf(s, side_of_book),
        0 <= j < s.len(),
        eligible(s[j], aggressor_side, limit),
        best_idx(s, aggressor_side, limit) != j,
        s[j].price == s[best_idx(s, aggressor_side, limit)].price,
    ensures
        s[best_idx(s, aggressor_side, limit)].ordinal < s[j].ordinal,
{
    lemma_best_idx_props(s, aggressor_side, limit);
    let b = best_idx(s, aggressor_side, limit);
    assert(b != -1);
    assert(!price_strictly_better(s[b].price, s[j].price, aggressor_side));
    assert(b < j);
}

/// Two ordered collections of resting partial orders, one per side of the
/// market, each kept in ascending ordinal order.
pub struct OrderBook {
    buys: Vec<PartialOrder>,
    sells: Vec<PartialOrder>,
}

/// An explicit copy of a partial order, field by field, so that the copy
/// is known to equal the original.
pub(crate) fn duplicate(p: &PartialOrder) -> (r: PartialOrder)
    ensures
        r == *p,
{
    PartialOrder {
        price: p.price,
        amount: p.amount,
        remaining: p.remaining,
        side: p.side,
        signer: p.signer.clone(),
        ordinal: p.ordinal,
    }
}

/// Select the index of the best eligible resting order for an aggressor
/// with the given side and limit price, scanning the whole side.
fn best_match_index(book: &Vec<PartialOrder>, aggressor_side: Side, limit: u64) -> (r: Option<
    usize,
>)
    ensures
        match r {
            Some(i) => best_idx(book@, aggressor_side, limit) == i as int,
            None => best_idx(book@, aggressor_side, limit) == -1,
        },
{
    let mut best: Option<usize> = None;
    let mut j: usize = 0;
    while j < book.len()
        invariant
            j <= book.len(),
            match best {
                Some(b) => b < j && best_idx(book@.take(j as int), aggressor_side, limit)
                    == b as int,
                None => best_idx(book@.take(j as int), aggressor_side, limit) == -1,
            },
        decreases book.len() - j,
    {
        let ghost prefix = book@.take(j as int);
        let ghost next = book@.take(j + 1 as int);
        proof {
            assert(next.take(next.len() - 1) =~= prefix);
            assert(next[next.len() - 1] == book@[j as int]);
        }
        let candidate = &book[j];
        let crosses = match aggressor_side {
            Side::Buy => candidate.price <= limit,
            Side::Sell => candidate.price >= limit,
        };
        if crosses {
            let take_it = match best {
                Some(b) => {
                    let better = match aggressor_side {
                        Side::Buy => candidate.price < book[b].price,
                        Side::Sell => candidate.price > book[b].price,
                    };
                    better
                },
                None => true,
            };
            if take_it {
                best = Some(j);
            }
        }
        j = j + 1;
    }
    proof {
        assert(book@.take(book@.len() as int) =~= book@);
    }
    best
}

/// The matching loop over one side of the book: mirrors [`spec_submit`]
/// step by step, mutating the side in place and collecting the fill
/// records in order.
#[verifier::rlimit(60)]
fn run_matching(book: &mut Vec<PartialOrder>, aggressor_side: Side, limit: u64, amount: u64) -> (r:
    (Vec<PartialOrder>, u64))
    requires
        side_wf(old(book)@, opposite(aggressor_side)),
    ensures
        side_wf(final(book)@, opposite(aggressor_side)),
        (r.0@, final(book)@, r.1) == spec_submit(old(book)@, aggressor_side, limit, amount),
        r.1 <= amount,
        forall|c: u64|
            ordinal_bound(old(book)@, c) ==> #[trigger] ordinal_bound(final(book)@, c),
{
    let mut fills: Vec<PartialOrder> = Vec::new();
    let mut rem: u64 = amount;
    proof {
        assert(Seq::<PartialOrder>::empty() + spec_submit(book@, aggressor_side, limit, rem).0
            =~= spec_submit(book@, aggressor_side, limit, rem).0);
    }
    while rem > 0
        invariant_except_break
            side_wf(book@, opposite(aggressor_side)),
            rem <= amount,
            spec_submit(old(book)@, aggressor_side, limit, amount).0 == fills@ + spec_submit(
                book@,
                aggressor_side,
                limit,
                rem,
            ).0,
            spec_submit(old(book)@, aggressor_side, limit, amount).1 == spec_submit(
                book@,
                aggressor_side,
                limit,
                rem,
            ).1,
            spec_submit(old(book)@, aggressor_side, limit, amount).2 == spec_submit(
                book@,
                aggressor_side,
                limit,
                rem,
            ).2,
            forall|c: u64|
                ordinal_bound(old(book)@, c) ==> #[trigger] ordinal_bound(book@, c),
        ensures
            side_wf(book@, opposite(aggressor_side)),
            rem <= amount,
            fills@ == spec_submit(old(book)@, aggressor_side, limit, amount).0,
            book@ == spec_submit(old(book)@, aggressor_side, limit, amount).1,
            rem == spec_submit(old(book)@, aggressor_side, limit, amount).2,
            forall|c: u64|
                ordinal_bound(old(book)@, c) ==> #[trigger] ordinal_bound(book@, c),
        decreases rem,
    {
        let ghost pre = book@;
        let m = best_match_index(book, aggressor_side, limit);
        match m {
            None => {
                proof {
                    assert(spec_submit(book@, aggressor_side, limit, rem).0
                        =~= Seq::<PartialOrder>::empty());
                    assert(fills@ + Seq::<PartialOrder>::empty() =~= fills@);
                }
                break ;
            },
            Some(i) => {
                proof {
                    lemma_best_idx_props(pre, aggressor_side, limit);
                }
                let take = if rem <= book[i].remaining {
                    rem
                } else {
                    book[i].remaining
                };
                let ghost resting = pre[i as int];
                let entry = &mut book[i];
                let price = entry.price;
                let fill = PartialOrder::take_from(entry, take, price);
                proof {
                    assert(fill == fill_of(resting, take));
                    assert(book@ =~= pre.update(i as int, PartialOrder {
                        remaining: (resting.remaining - take) as u64,
                        ..resting
                    }));
                }
                if book[i].remaining == 0 {
                    book.remove(i);
                    proof {
                        assert(book@ =~= pre.remove(i as int));
                    }
                }
                let ghost s2 = book@;
                proof {
                    // one unfolding of the matching recursion
                    let step = spec_submit(pre, aggressor_side, limit, rem);
                    let rest = spec_submit(s2, aggressor_side, limit, (rem - take) as u64);
                    assert(step.0 == seq![fill] + rest.0);
                    assert(fills@ + step.0 =~= fills@.push(fill) + rest.0);
                    // the side stays well formed
                    assert forall|a: int, b: int|
                        0 <= a < b < s2.len() implies #[trigger] s2[a].ordinal < #[trigger] s2[b].ordinal by {
                        if resting.remaining == take {
                            assert(s2[a] == if a < i as int { pre[a] } else { pre[a + 1] });
                            assert(s2[b] == if b < i as int { pre[b] } else { pre[b + 1] });
                        }
                    }
                    assert(side_wf(s2, opposite(aggressor_side)));
                    assert forall|c: u64| ordinal_bound(pre, c) implies #[trigger] ordinal_bound(
                        s2,
                        c,
                    ) by {
                        assert forall|a: int| 0 <= a < s2.len() implies (#[trigger] s2[a]).ordinal
                            <= c by {
                            if resting.remaining == take {
                                assert(s2[a] == if a < i as int { pre[a] } else { pre[a + 1] });
                            } else {
                                assert(s2[a] == if a == i as int { s2[i as int] } else { pre[a] });
                            }
                        }
                    }
                }
                fills.push(fill);
                rem = rem - take;
            },
        }
    }
    (fills, rem)
}

impl OrderBook {
    /// The Buy side, oldest ordinal first.
    pub closed spec fn buys_view(&self) -> Seq<PartialOrder> {
        self.buys@
    }

    /// The Sell side, oldest ordinal first.
    pub closed spec fn sells_view(&self) -> Seq<PartialOrder> {
        self.sells@
    }

    /// Both sides are well formed.
    pub open spec fn wf(&self) -> bool {
        side_wf(self.buys_view(), Side::Buy) && side_wf(self.sells_view(), Side::Sell)
    }

    /// An empty book.
    pub fn new() -> (r: OrderBook)
        ensures
            r.wf(),
            r.buys_view() == Seq::<PartialOrder>::empty(),
            r.sells_view() == Seq::<PartialOrder>::empty(),
    {
        OrderBook { buys: Vec::new(), sells: Vec::new() }
    }

    /// Run the matching loop for an incoming order against the opposite
    /// side of the book, and rest what is left of the incoming order on
    /// its own side. Returns the fill records in the order the trades
    /// happened; each executes at the resting order's price.
    pub fn submit(&mut self, incoming: PartialOrder) -> (fills: Vec<PartialOrder>)
        requires
            old(self).wf(),
            incoming.price >= 1,
            incoming.amount >= 1,
            incoming.remaining == incoming.amount,
            ordinal_bound(old(self).buys_view(), (incoming.ordinal - 1) as u64),
            ordinal_bound(old(self).sells_view(), (incoming.ordinal - 1) as u64),
            incoming.ordinal >= 1,
        ensures
            final(self).wf(),
            ordinal_bound(final(self).buys_view(), incoming.ordinal),
            ordinal_bound(final(self).sells_view(), incoming.ordinal),
            incoming.side == Side::Buy ==> ({
                let r = spec_submit(old(self).sells_view(), Side::Buy, incoming.price,
                    incoming.amount);
                &&& fills@ == r.0
                &&& final(self).sells_view() == r.1
                &&& final(self).buys_view() == if r.2 > 0 {
                    old(self).buys_view().push(PartialOrder { remaining: r.2, ..incoming })
                } else {
                    old(self).buys_view()
                }
            }),
            incoming.side == Side::Sell ==> ({
                let r = spec_submit(old(self).buys_view(), Side::Sell, incoming.price,
                    incoming.amount);
                &&& fills@ == r.0
                &&& final(self).buys_view() == r.1
                &&& final(self).sells_view() == if r.2 > 0 {
                    old(self).sells_view().push(PartialOrder { remaining: r.2, ..incoming })
                } else {
                    old(self).sells_view()
                }
            }),
    {
        match incoming.side {
            Side::Buy => {
                let (fills, rem) = run_matching(
                    &mut self.sells,
                    Side::Buy,
                    incoming.price,
                    incoming.amount,
                );
                if rem > 0 {
                    let mut residual = incoming;
                    residual.remaining = rem;
                    self.buys.push(residual);
                }
                fills
            },
            Side::Sell => {
                let (fills, rem) = run_matching(
                    &mut self.buys,
                    Side::Sell,
                    incoming.price,
                    incoming.amount,
                );
                if rem > 0 {
                    let mut residual = incoming;
                    residual.remaining = rem;
                    self.sells.push(residual);
                }
                fills
            },
        }
    }

    /// All resting partial orders, in ascending ordinal order: the
    /// canonical, deterministic view of the book's state.
    pub fn snapshot(&self) -> (r: Vec<PartialOrder>)
        ensures
            r@ == merge_by_ordinal(self.buys_view(), self.sells_view()),
            self.wf() ==> sorted_by_ordinal(r@),
    {
        let a = &self.buys;
        let b = &self.sells;
        let mut r: Vec<PartialOrder> = Vec::new();
        let mut i: usize = 0;
        let mut j: usize = 0;
        proof {
            assert(a@.skip(0) =~= a@);
            assert(b@.skip(0) =~= b@);
            assert(Seq::<PartialOrder>::empty() + merge_by_ordinal(a@, b@) =~= merge_by_ordinal(
                a@,
                b@,
            ));
        }
        while i < a.len() || j < b.len()
            invariant
                i <= a.len(),
                j <= b.len(),
                merge_by_ordinal(a@, b@) == r@ + merge_by_ordinal(
                    a@.skip(i as int),
                    b@.skip(j as int),
                ),
            decreases a.len() - i + b.len() - j,
        {
            let ghost ra = a@.skip(i as int);
            let ghost rb = b@.skip(j as int);
            let from_buys = if j >= b.len() {
                true
            } else if i >= a.len() {
                false
            } else {
                a[i].ordinal <= b[j].ordinal
            };
            if from_buys {
                proof {
                    assert(ra[0] == a@[i as int]);
                    assert(ra.drop_first() =~= a@.skip(i as int + 1));
                    if rb.len() == 0 {
                        assert(ra =~= seq![ra[0]] + ra.drop_first());
                    }
                    assert(r@ + merge_by_ordinal(ra, rb) =~= r@.push(a@[i as int])
                        + merge_by_ordinal(a@.skip(i as int + 1), rb));
                }
                r.push(duplicate(&a[i]));
                i = i + 1;
            } else {
                proof {
                    assert(rb[0] == b@[j as int]);
                    assert(rb.drop_first() =~= b@.skip(j as int + 1));
                    if ra.len() == 0 {
                        assert(rb =~= seq![rb[0]] + rb.drop_first());
                    }
                    assert(r@ + merge_by_ordinal(ra, rb) =~= r@.push(b@[j as int])
                        + merge_by_ordinal(ra, b@.skip(j as int + 1)));
                }
                r.push(duplicate(&b[j]));
                j = j + 1;
            }
        }
        proof {
            assert(a@.skip(a@.len() as int) =~= Seq::<PartialOrder>::empty());
            assert(b@.skip(b@.len() as int) =~= Seq::<PartialOrder>::empty());
            assert(r@ + Seq::<PartialOrder>::empty() =~= r@);
            if self.wf() {
                lemma_merge_sorted(a@, b@);
            }
        }
        r
    }
}

/// Non-strict ordinal order: what a merged snapshot of two well-formed
/// sides guarantees.
pub open spec fn sorted_by_ordinal(s: Seq<PartialOrder>) -> bool {
    forall|i: int, j: int|
        #![trigger s[i].ordinal, s[j].ordinal]
        0 <= i <= j < s.len() ==> s[i].ordinal <= s[j].ordinal
}

/// The two sides of the book, merged into one sequence by ascending
/// ordinal; on a tie the first sequence's order comes first.
pub open spec fn merge_by_ordinal(a: Seq<PartialOrder>, b: Seq<PartialOrder>) -> Seq<PartialOrder>
    decreases a.len() + b.len(),
{
    if a.len() == 0 {
        b
    } else if b.len() == 0 {
        a
    } else if a[0].ordinal <= b[0].ordinal {
        seq![a[0]] + merge_by_ordinal(a.drop_first(), b)
    } else {
        seq![b[0]] + merge_by_ordinal(a, b.drop_first())
    }
}

/// Merging two sequences that are each in ascending ordinal order yields
/// a sequence in ascending ordinal order, holding exactly the elements of
/// both.
pub proof fn lemma_merge_sorted(a: Seq<PartialOrder>, b: Seq<PartialOrder>)
    requires
        sorted_by_ordinal(a),
        sorted_by_ordinal(b),
    ensures
        sorted_by_ordinal(merge_by_ordinal(a, b)),
        merge_by_ordinal(a, b).len() == a.len() + b.len(),
        merge_by_ordinal(a, b).len() > 0 ==> ((a.len() > 0 && merge_by_ordinal(a, b)[0] == a[0])
            || (b.len() > 0 && merge_by_ordinal(a, b)[0] == b[0])),
    decreases a.len() + b.len(),
{
    if a.len() == 0 || b.len() == 0 {
    } else if a[0].ordinal <= b[0].ordinal {
        assert(sorted_by_ordinal(a.drop_first()));
        lemma_merge_sorted(a.drop_first(), b);
        let m = seq![a[0]] + merge_by_ordinal(a.drop_first(), b);
        let rest = merge_by_ordinal(a.drop_first(), b);
        assert forall|i: int, j: int|
            0 <= i <= j < m.len() implies #[trigger] m[i].ordinal <= #[trigger] m[j].ordinal by {
            if 1 <= i {
                assert(m[i] == rest[i - 1] && m[j] == rest[j - 1]);
            } else if 1 <= j {
                assert(m[j] == rest[j - 1]);
                if rest.len() > 0 {
                    assert(rest[0].ordinal <= rest[j - 1].ordinal);
                }
            }
        }
    } else {
        assert(sorted_by_ordinal(b.drop_first()));
        lemma_merge_sorted(a, b.drop_first());
        let m = seq![b[0]] + merge_by_ordinal(a, b.drop_first());
        let rest = merge_by_ordinal(a, b.drop_first());
        assert forall|i: int, j: int|
            0 <= i <= j < m.len() implies #[trigger] m[i].ordinal <= #[trigger] m[j].ordinal by {
            if 1 <= i {
                assert(m[i] == rest[i - 1] && m[j] == rest[j - 1]);
            } else if 1 <= j {
                assert(m[j] == rest[j - 1]);
                if rest.len() > 0 {
                    assert(rest[0].ordinal <= rest[j - 1].ordinal);
                }
            }
        }
    }
}

} // verus!
