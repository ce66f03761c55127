use vstd::prelude::*;

use crate::accounting::spec_send;
use crate::book::{prio_before, side_wf};
use crate::types::{crosses, BookEntry, Match, Side};

verus! {

/// The fill sequence the match loop produces for an incoming order of the
/// given side, price and quantity against the resting opposite side `opp`
/// (in priority order, best first): walk `opp` while quantity remains and
/// the resting price crosses; each fill takes the smaller of the incoming
/// remainder and the resting remainder, at the resting order's price.
pub open spec fn spec_fills(opp: Seq<BookEntry>, side: Side, price: u64, amount: int) -> Seq<
    Match,
>
    decreases opp.len(),
{
    if amount <= 0 || opp.len() == 0 || !crosses(side, price, opp[0].price) {
        Seq::empty()
    } else {
        let fill: int = if amount < opp[0].remaining {
            amount
        } else {
            opp[0].remaining as int
        };
        seq![
            (Match { ordinal: opp[0].ordinal, amount: fill as u64, price: opp[0].price }),
        ] + spec_fills(opp.drop_first(), side, price, amount - fill)
    }
}

/// What is left of the resting opposite side after the match loop.
pub open spec fn spec_book_after(opp: Seq<BookEntry>, side: Side, price: u64, amount: int) -> Seq<
    BookEntry,
>
    decreases opp.len(),
{
    if amount <= 0 || opp.len() == 0 || !crosses(side, price, opp[0].price) {
        opp
    } else if opp[0].remaining <= amount {
        spec_book_after(opp.drop_first(), side, price, amount - opp[0].remaining)
    } else {
        opp.update(
            0,
            (BookEntry {
                ordinal: opp[0].ordinal,
                price: opp[0].price,
                remaining: (opp[0].remaining - amount) as u64,
                side: opp[0].side,
                signer: opp[0].signer,
            }),
        )
    }
}

/// The total quantity filled by a sequence of matches.
pub open spec fn sum_fills(ms: Seq<Match>) -> int
    decreases ms.len(),
{
    if ms.len() == 0 {
        0
    } else {
        sum_fills(ms.drop_last()) + ms.last().amount
    }
}

/// The account that pays for a fill: the taker of a Buy, else the maker.
pub open spec fn spec_buyer(side: Side, taker: Seq<char>, maker: Seq<char>) -> Seq<char> {
    match side {
        Side::Buy => taker,
        Side::Sell => maker,
    }
}

/// The account that is paid for a fill: the maker of a Buy, else the taker.
pub open spec fn spec_seller(side: Side, taker: Seq<char>, maker: Seq<char>) -> Seq<char> {
    match side {
        Side::Buy => maker,
        Side::Sell => taker,
    }
}

/// The ledger after committing `fills` (fill `i` pairing the taker with the
/// maker `opp[i].signer` at cost `fills[i].amount * opp[i].price`), taking
/// each settlement as the atomic transfer of [`spec_send`]. A settlement
/// that would fail leaves the ledger as it stood; [`spec_settle_ok`] says
/// when none does.
pub open spec fn spec_settled(
    m: Map<Seq<char>, u64>,
    taker: Seq<char>,
    side: Side,
    opp: Seq<BookEntry>,
    fills: Seq<Match>,
) -> Map<Seq<char>, u64>
    decreases fills.len(),
{
    if fills.len() == 0 {
        m
    } else {
        let i = fills.len() - 1;
        let prev = spec_settled(m, taker, side, opp, fills.drop_last());
        let maker = opp[i].signer@;
        let cost = fills[i].amount * opp[i].price;
        match spec_send(
            prev,
            spec_buyer(side, taker, maker),
            spec_seller(side, taker, maker),
            cost as u64,
        ) {
            Ok(m2) => m2,
            Err(_) => prev,
        }
    }
}

/// Every settlement of `fills` fits in the fixed-point range and succeeds.
pub open spec fn spec_settle_ok(
    m: Map<Seq<char>, u64>,
    taker: Seq<char>,
    side: Side,
    opp: Seq<BookEntry>,
    fills: Seq<Match>,
) -> bool
    decreases fills.len(),
{
    if fills.len() == 0 {
        true
    } else {
        let i = fills.len() - 1;
        let prev = spec_settled(m, taker, side, opp, fills.drop_last());
        let maker = opp[i].signer@;
        let cost = fills[i].amount * opp[i].price;
        &&& spec_settle_ok(m, taker, side, opp, fills.drop_last())
        &&& cost <= u64::MAX
        &&& spec_send(
            prev,
            spec_buyer(side, taker, maker),
            spec_seller(side, taker, maker),
            cost as u64,
        ) is Ok
    }
}

/// If the whole fill sequence settles, so does every prefix of it.
pub proof fn lemma_settle_ok_prefix(
    m: Map<Seq<char>, u64>,
    taker: Seq<char>,
    side: Side,
    opp: Seq<BookEntry>,
    fills: Seq<Match>,
    j: int,
)
    requires
        spec_settle_ok(m, taker, side, opp, fills),
        0 <= j <= fills.len(),
    ensures
        spec_settle_ok(m, taker, side, opp, fills.take(j)),
    decreases fills.len(),
{
    if j == fills.len() {
        assert(fills.take(j) =~= fills);
    } else {
        assert(fills.drop_last().take(j) =~= fills.take(j));
        lemma_settle_ok_prefix(m, taker, side, opp, fills.drop_last(), j);
    }
}

/// Law: every fill pairs the incoming order with a resting entry whose
/// price crosses the incoming price, executes at that resting entry's own
/// price and under its own ordinal, and fills at most its remaining amount.
/// The fills walk the resting side in priority order: fill `i` pairs
/// resting entry `i`, and every fill but the last empties its entry.
pub proof fn lemma_fills_cross(opp: Seq<BookEntry>, side: Side, price: u64, amount: int)
    requires
        forall|i: int| 0 <= i < opp.len() ==> opp[i].remaining > 0,
    ensures
        spec_fills(opp, side, price, amount).len() <= opp.len(),
        forall|i: int|
            0 <= i < spec_fills(opp, side, price, amount).len() ==> {
                let f = #[trigger] spec_fills(opp, side, price, amount)[i];
                crosses(side, price, f.price) && f.ordinal == opp[i].ordinal && f.price
                    == opp[i].price && 0 < f.amount <= opp[i].remaining
            },
        forall|i: int|
            0 <= i < spec_fills(opp, side, price, amount).len() - 1 ==> #[trigger] spec_fills(
                opp,
                side,
                price,
                amount,
            )[i].amount == opp[i].remaining,
    decreases opp.len(),
{
    if amount <= 0 || opp.len() == 0 || !crosses(side, price, opp[0].price) {
    } else {
        let fill: int = if amount < opp[0].remaining {
            amount
        } else {
            opp[0].remaining as int
        };
        lemma_fills_cross(opp.drop_first(), side, price, amount - fill);
        let fills = spec_fills(opp, side, price, amount);
        let rest = spec_fills(opp.drop_first(), side, price, amount - fill);
        if fill == amount && fill < opp[0].remaining {
            assert(rest =~= Seq::<Match>::empty());
        }
        assert forall|i: int| 1 <= i < fills.len() implies {
            let f = #[trigger] fills[i];
            crosses(side, price, f.price) && f.ordinal == opp[i].ordinal && f.price == opp[i].price
                && 0 < f.amount <= opp[i].remaining
        } by {
            assert(fills[i] == rest[i - 1]);
            assert(opp.drop_first()[i - 1] == opp[i]);
        }
        assert forall|i: int| 1 <= i < fills.len() - 1 implies fills[i].amount
            == opp[i].remaining by {
            assert(fills[i] == rest[i - 1]);
            assert(rest[i - 1].amount == opp.drop_first()[i - 1].remaining);
        }
    }
}

/// Law: the quantity filled never exceeds the incoming order's amount, and
/// when the incoming amount is positive the shortfall is exactly what the
/// match loop could not cross.
pub proof fn lemma_fills_bounded(opp: Seq<BookEntry>, side: Side, price: u64, amount: int)
    requires
        amount >= 0,
    ensures
        0 <= sum_fills(spec_fills(opp, side, price, amount)) <= amount,
    decreases opp.len(),
{
    let fills = spec_fills(opp, side, price, amount);
    if amount <= 0 || opp.len() == 0 || !crosses(side, price, opp[0].price) {
    } else {
        let fill: int = if amount < opp[0].remaining {
            amount
        } else {
            opp[0].remaining as int
        };
        let rest = spec_fills(opp.drop_first(), side, price, amount - fill);
        lemma_fills_bounded(opp.drop_first(), side, price, amount - fill);
        lemma_sum_fills_cons(
            (Match { ordinal: opp[0].ordinal, amount: fill as u64, price: opp[0].price }),
            rest,
        );
    }
}

/// Splitting the running total off the front of a fill sequence.
proof fn lemma_sum_fills_cons(f: Match, rest: Seq<Match>)
    ensures
        sum_fills(seq![f] + rest) == f.amount + sum_fills(rest),
    decreases rest.len(),
{
    if rest.len() == 0 {
        assert((seq![f] + rest) =~= seq![f]);
        assert(seq![f].drop_last() =~= Seq::<Match>::empty());
        assert(seq![f].last() == f);
        assert(sum_fills(Seq::<Match>::empty()) == 0);
    } else {
        let whole = seq![f] + rest;
        assert(whole.drop_last() =~= seq![f] + rest.drop_last());
        assert(whole.last() == rest.last());
        lemma_sum_fills_cons(f, rest.drop_last());
    }
}

/// Law (time priority): among resting entries at the same price, the one
/// with the lower ordinal is matched first; if the later entry `j` was
/// reached by the match loop, the earlier entry `i` was fully filled
/// before it.
pub proof fn lemma_time_priority(
    opp: Seq<BookEntry>,
    side: Side,
    price: u64,
    amount: int,
    i: int,
    j: int,
)
    requires
        side_wf(side.spec_opposite(), opp),
        0 <= i < j < opp.len(),
        opp[i].price == opp[j].price,
        j < spec_fills(opp, side, price, amount).len(),
    ensures
        opp[i].ordinal < opp[j].ordinal,
        spec_fills(opp, side, price, amount)[i].ordinal == opp[i].ordinal,
        spec_fills(opp, side, price, amount)[i].amount == opp[i].remaining,
{
    assert(prio_before(side.spec_opposite(), opp[i], opp[j]));
    lemma_fills_cross(opp, side, price, amount);
}

} // verus!
