use vstd::prelude::*;

use crate::types::{BookEntry, Side};

verus! {

/// Strict price-time priority: `a` is served before `b` on side `side`.
/// The Buy side prioritizes the highest price, the Sell side the lowest;
/// ties are broken by ascending ordinal (first in, first matched).
pub open spec fn prio_before(side: Side, a: BookEntry, b: BookEntry) -> bool {
    match side {
        Side::Buy => a.price > b.price || (a.price == b.price && a.ordinal < b.ordinal),
        Side::Sell => a.price < b.price || (a.price == b.price && a.ordinal < b.ordinal),
    }
}

/// A well-formed side: every entry lies on `side` and is live (positive
/// price, positive remaining amount), and the sequence is sorted by strict
/// priority, best first.
pub open spec fn side_wf(side: Side, s: Seq<BookEntry>) -> bool {
    &&& forall|i: int|
        0 <= i < s.len() ==> s[i].side == side && s[i].price > 0 && s[i].remaining > 0
    &&& forall|i: int, j: int| 0 <= i < j < s.len() ==> prio_before(side, s[i], s[j])
}

/// Every ordinal in `s` lies below `bound`.
pub open spec fn ordinals_below(s: Seq<BookEntry>, bound: u64) -> bool {
    forall|i: int| 0 <= i < s.len() ==> s[i].ordinal < bound
}

/// The set of currently unmatched limit orders, partitioned by side and held
/// in price-time priority order (best first).
#[derive(Debug)]
pub struct OrderBook {
    buys: Vec<BookEntry>,
    sells: Vec<BookEntry>,
}

/// Executable mirror of [`prio_before`].
fn goes_before(side: Side, a: &BookEntry, b: &BookEntry) -> (r: bool)
    ensures
        r == prio_before(side, *a, *b),
{
    match side {
        Side::Buy => a.price > b.price || (a.price == b.price && a.ordinal < b.ordinal),
        Side::Sell => a.price < b.price || (a.price == b.price && a.ordinal < b.ordinal),
    }
}

fn insert_sorted(v: &mut Vec<BookEntry>, side: Side, entry: BookEntry)
    requires
        side_wf(side, old(v)@),
        entry.side == side,
        entry.price > 0,
        entry.remaining > 0,
        ordinals_below(old(v)@, entry.ordinal),
    ensures
        side_wf(side, final(v)@),
        exists|p: int|
            0 <= p <= old(v)@.len() && final(v)@ == old(v)@.insert(p, entry),
{
    let mut p: usize = 0;
    while p < v.len() && goes_before(side, &v[p], &entry)
        invariant
            side_wf(side, v@),
            ordinals_below(v@, entry.ordinal),
            p <= v@.len(),
            forall|j: int| 0 <= j < p ==> prio_before(side, v@[j], entry),
        decreases v@.len() - p,
    {
        p += 1;
    }
    let ghost prev = v@;
    let ghost pos = p as int;
    proof {
        if pos < prev.len() {
            assert(prev[pos].ordinal < entry.ordinal);
            assert(prio_before(side, entry, prev[pos]));
        }
    }
    v.insert(p, entry);
    proof {
        assert(v@ == prev.insert(pos, entry));
        assert forall|i: int, j: int| 0 <= i < j < v@.len() implies prio_before(
            side,
            v@[i],
            v@[j],
        ) by {
            if i < pos && j > pos {
                assert(prio_before(side, prev[i], prev[j - 1]));
            }
            if i == pos && j > pos {
                assert(prio_before(side, entry, prev[pos]));
                if j - 1 > pos {
                    assert(prio_before(side, prev[pos], prev[j - 1]));
                }
            }
        }
    }
}

fn reduce_front(v: &mut Vec<BookEntry>, side: Side, filled: u64)
    requires
        side_wf(side, old(v)@),
        old(v)@.len() > 0,
        0 < filled <= old(v)@[0].remaining,
    ensures
        side_wf(side, final(v)@),
        filled == old(v)@[0].remaining ==> final(v)@ == old(v)@.drop_first(),
        filled < old(v)@[0].remaining ==> final(v)@ == old(v)@.update(
            0,
            (BookEntry {
                ordinal: old(v)@[0].ordinal,
                price: old(v)@[0].price,
                remaining: (old(v)@[0].remaining - filled) as u64,
                side: old(v)@[0].side,
                signer: old(v)@[0].signer,
            }),
        ),
{
    let ghost prev = v@;
    if filled == v[0].remaining {
        v.remove(0);
        proof {
            assert(v@ =~= prev.drop_first());
            assert forall|i: int|
                0 <= i < v@.len() implies v@[i].side == side && v@[i].price > 0 && v@[i].remaining
                > 0 by {
                assert(v@[i] == prev[i + 1]);
            }
            assert forall|i: int, j: int| 0 <= i < j < v@.len() implies prio_before(
                side,
                v@[i],
                v@[j],
            ) by {
                assert(prio_before(side, prev[i + 1], prev[j + 1]));
            }
        }
    } else {
        let rest = v[0].remaining - filled;
        v[0].remaining = rest;
        proof {
            assert(v@ =~= prev.update(
                0,
                (BookEntry {
                    ordinal: prev[0].ordinal,
                    price: prev[0].price,
                    remaining: (prev[0].remaining - filled) as u64,
                    side: prev[0].side,
                    signer: prev[0].signer,
                }),
            ));
            assert forall|i: int, j: int| 0 <= i < j < v@.len() implies prio_before(
                side,
                v@[i],
                v@[j],
            ) by {
                assert(prio_before(side, prev[i], prev[j]));
            }
        }
    }
}

impl OrderBook {
    /// The resting entries of `side`, best priority first.
    pub closed spec fn side_seq(&self, side: Side) -> Seq<BookEntry> {
        match side {
            Side::Buy => self.buys@,
            Side::Sell => self.sells@,
        }
    }

    /// Both sides well-formed.
    pub open spec fn wf(&self) -> bool {
        side_wf(Side::Buy, self.side_seq(Side::Buy)) && side_wf(Side::Sell, self.side_seq(Side::Sell))
    }

    /// An empty book.
    pub fn new() -> (r: OrderBook)
        ensures
            r.wf(),
            r.side_seq(Side::Buy) == Seq::<BookEntry>::empty(),
            r.side_seq(Side::Sell) == Seq::<BookEntry>::empty(),
    {
        OrderBook { buys: Vec::new(), sells: Vec::new() }
    }

    /// Adds a resting entry to its side at its priority position.
    ///
    /// The caller hands in a live entry whose ordinal is newer than every
    /// ordinal already resting on that side, so the entry takes its place
    /// after all equal-priced entries.
    pub fn insert(&mut self, entry: BookEntry)
        requires
            old(self).wf(),
            entry.price > 0,
            entry.remaining > 0,
            ordinals_below(old(self).side_seq(entry.side), entry.ordinal),
        ensures
            final(self).wf(),
            final(self).side_seq(entry.side.spec_opposite()) == old(self).side_seq(
                entry.side.spec_opposite(),
            ),
            exists|p: int|
                0 <= p <= old(self).side_seq(entry.side).len() && final(self).side_seq(entry.side)
                    == old(self).side_seq(entry.side).insert(p, entry),
    {
        match entry.side {
            Side::Buy => insert_sorted(&mut self.buys, Side::Buy, entry),
            Side::Sell => insert_sorted(&mut self.sells, Side::Sell, entry),
        }
    }

    /// The highest-priority resting entry on the side opposite to `side`,
    /// or `None` if that side is empty.
    pub fn best_opposite(&self, side: Side) -> (r: Option<BookEntry>)
        ensures
            (match r {
                Some(e) => self.side_seq(side.spec_opposite()).len() > 0 && e == self.side_seq(
                    side.spec_opposite(),
                )[0],
                None => self.side_seq(side.spec_opposite()).len() == 0,
            }),
    {
        let v = match side {
            Side::Buy => &self.sells,
            Side::Sell => &self.buys,
        };
        if v.len() == 0 {
            None
        } else {
            Some(v[0].clone())
        }
    }

    /// Decrements the remaining amount of the best entry on `side` by
    /// `filled`; removes the entry from the book when its remaining amount
    /// reaches zero.
    pub fn reduce_or_remove(&mut self, side: Side, filled: u64)
        requires
            old(self).wf(),
            old(self).side_seq(side).len() > 0,
            0 < filled <= old(self).side_seq(side)[0].remaining,
        ensures
            final(self).wf(),
            final(self).side_seq(side.spec_opposite()) == old(self).side_seq(side.spec_opposite()),
            filled == old(self).side_seq(side)[0].remaining ==> final(self).side_seq(side) == old(
                self,
            ).side_seq(side).drop_first(),
            filled < old(self).side_seq(side)[0].remaining ==> final(self).side_seq(side) == old(
                self,
            ).side_seq(side).update(
                0,
                (BookEntry {
                    ordinal: old(self).side_seq(side)[0].ordinal,
                    price: old(self).side_seq(side)[0].price,
                    remaining: (old(self).side_seq(side)[0].remaining - filled) as u64,
                    side: old(self).side_seq(side)[0].side,
                    signer: old(self).side_seq(side)[0].signer,
                }),
            ),
    {
        match side {
            Side::Buy => reduce_front(&mut self.buys, Side::Buy, filled),
            Side::Sell => reduce_front(&mut self.sells, Side::Sell, filled),
        }
    }

    /// An ordered snapshot for external reporting: every resting Buy in
    /// priority order, then every resting Sell in priority order.
    pub fn snapshot(&self) -> (r: Vec<BookEntry>)
        ensures
            r@ == self.side_seq(Side::Buy) + self.side_seq(Side::Sell),
    {
        let mut r: Vec<BookEntry> = Vec::new();
        let mut i: usize = 0;
        while i < self.buys.len()
            invariant
                i <= self.buys@.len(),
                r@ == self.buys@.take(i as int),
            decreases self.buys@.len() - i,
        {
            r.push(self.buys[i].clone());
            proof {
                assert(r@ =~= self.buys@.take(i + 1 as int));
            }
            i += 1;
        }
        let mut j: usize = 0;
        while j < self.sells.len()
            invariant
                j <= self.sells@.len(),
                r@ == self.buys@ + self.sells@.take(j as int),
            decreases self.sells@.len() - j,
        {
            r.push(self.sells[j].clone());
            proof {
                assert(r@ =~= self.buys@ + self.sells@.take(j + 1 as int));
            }
            j += 1;
        }
        proof {
            assert(self.buys@.take(self.buys@.len() as int) =~= self.buys@);
            assert(self.sells@.take(self.sells@.len() as int) =~= self.sells@);
            assert(r@ =~= self.buys@ + self.sells@);
        }
        r
    }
}

} // verus!
