use vstd::prelude::*;

use crate::accounting::{spec_deposit, spec_send, spec_withdraw, Accounts};
use crate::book::{ordinals_below, side_wf, OrderBook};
use crate::errors::AccountingError;
use crate::matching::{
    spec_book_after, spec_fills, spec_settle_ok, spec_settled, sum_fills,
};
use crate::types::{crossing, BookEntry, Match, Order, Receipt, Side};

verus! {

/// The trading venue façade: one ledger, one order book and one ordinal
/// counter behind a single set of operations. Every operation is one
/// indivisible step from the caller's perspective; the only committed
/// partial state is the documented halt of the match loop in [`Self::order`].
#[derive(Debug)]
pub struct TradingPlatform {
    /// The ledger of account balances.
    pub accounts: Accounts,
    /// The resting orders, partitioned by side.
    pub book: OrderBook,
    /// The ordinal the next accepted order will receive; never reused.
    pub next_ordinal: u64,
}

impl TradingPlatform {
    /// The resting entries of `side`, best priority first.
    pub closed spec fn side_entries(&self, side: Side) -> Seq<BookEntry> {
        self.book.side_seq(side)
    }

    /// The ordinal the next accepted order will receive.
    pub closed spec fn ordinal_counter(&self) -> u64 {
        self.next_ordinal
    }

    /// Well-formed platform: the ledger and book invariants hold, and every
    /// resting ordinal was assigned before the counter reached its current
    /// value.
    pub closed spec fn wf(&self) -> bool {
        &&& self.accounts.wf()
        &&& self.book.wf()
        &&& ordinals_below(self.side_entries(Side::Buy), self.next_ordinal)
        &&& ordinals_below(self.side_entries(Side::Sell), self.next_ordinal)
        &&& self.next_ordinal >= 1
    }

    /// What well-formedness guarantees about the visible state.
    pub proof fn lemma_wf_entries(&self)
        requires
            self.wf(),
        ensures
            side_wf(Side::Buy, self.side_entries(Side::Buy)),
            side_wf(Side::Sell, self.side_entries(Side::Sell)),
            ordinals_below(self.side_entries(Side::Buy), self.ordinal_counter()),
            ordinals_below(self.side_entries(Side::Sell), self.ordinal_counter()),
            self.ordinal_counter() >= 1,
    {
    }

    /// The fill sequence an incoming `order` produces against this
    /// platform's resting opposite side.
    pub open spec fn fills_for(&self, order: Order) -> Seq<Match> {
        spec_fills(
            self.side_entries(order.side.spec_opposite()),
            order.side,
            order.price,
            order.amount as int,
        )
    }

    /// Whether every settlement of `fills` (paired against this platform's
    /// resting opposite side) succeeds on this platform's ledger.
    pub open spec fn settles(&self, order: Order, fills: Seq<Match>) -> bool {
        spec_settle_ok(
            self.accounts@,
            order.signer@,
            order.side,
            self.side_entries(order.side.spec_opposite()),
            fills,
        )
    }

    /// The ledger after committing `fills` for `order` on this platform.
    pub open spec fn ledger_after(&self, order: Order, fills: Seq<Match>) -> Map<Seq<char>, u64> {
        spec_settled(
            self.accounts@,
            order.signer@,
            order.side,
            self.side_entries(order.side.spec_opposite()),
            fills,
        )
    }

    /// The resting opposite side after the match loop for `order`.
    pub open spec fn opposite_after(&self, order: Order) -> Seq<BookEntry> {
        spec_book_after(
            self.side_entries(order.side.spec_opposite()),
            order.side,
            order.price,
            order.amount as int,
        )
    }

    /// Law: ordinals assigned by `order` are strictly increasing across the
    /// lifetime of one platform, and no ordinal is reused. The contract of
    /// [`Self::order`] gives the first three premises for any two accepting
    /// calls; the fourth holds because every operation's contract keeps the
    /// ordinal counter from decreasing between the two calls.
    pub proof fn lemma_ordinals_strictly_increase(
        pre1: TradingPlatform,
        post1: TradingPlatform,
        r1: Receipt,
        pre2: TradingPlatform,
        r2: Receipt,
    )
        requires
            r1.ordinal == pre1.ordinal_counter(),
            post1.ordinal_counter() == pre1.ordinal_counter() + 1,
            r2.ordinal == pre2.ordinal_counter(),
            pre2.ordinal_counter() >= post1.ordinal_counter(),
        ensures
            r1.ordinal < r2.ordinal,
    {
    }

    /// A fresh platform: empty ledger, empty book, ordinals starting at 1.
    pub fn new() -> (r: TradingPlatform)
        ensures
            r.wf(),
            r.accounts@ == Map::<Seq<char>, u64>::empty(),
            r.side_entries(Side::Buy) == Seq::<BookEntry>::empty(),
            r.side_entries(Side::Sell) == Seq::<BookEntry>::empty(),
            r.ordinal_counter() == 1,
    {
        TradingPlatform { accounts: Accounts::new(), book: OrderBook::new(), next_ordinal: 1 }
    }

    /// Deposits `amount` into the account of `signer`; see
    /// [`Accounts::deposit`]. The book and the ordinal counter are untouched.
    pub fn deposit(&mut self, signer: &String, amount: u64) -> (r: Result<(), AccountingError>)
        requires
            old(self).wf(),
        ensures
            final(self).wf(),
            final(self).side_entries(Side::Buy) == old(self).side_entries(Side::Buy),
            final(self).side_entries(Side::Sell) == old(self).side_entries(Side::Sell),
            final(self).ordinal_counter() == old(self).ordinal_counter(),
            (match spec_deposit(old(self).accounts@, signer@, amount) {
                Ok(m) => r == Ok::<(), AccountingError>(()) && final(self).accounts@ == m,
                Err(e) => r == Err::<(), AccountingError>(e) && final(self).accounts@ == old(
                    self,
                ).accounts@,
            }),
    {
        self.accounts.deposit(signer, amount)
    }

    /// Withdraws `amount` from the account of `signer`; see
    /// [`Accounts::withdraw`]. The book and the ordinal counter are untouched.
    pub fn withdraw(&mut self, signer: &String, amount: u64) -> (r: Result<(), AccountingError>)
        requires
            old(self).wf(),
        ensures
            final(self).wf(),
            final(self).side_entries(Side::Buy) == old(self).side_entries(Side::Buy),
            final(self).side_entries(Side::Sell) == old(self).side_entries(Side::Sell),
            final(self).ordinal_counter() == old(self).ordinal_counter(),
            (match spec_withdraw(old(self).accounts@, signer@, amount) {
                Ok(m) => r == Ok::<(), AccountingError>(()) && final(self).accounts@ == m,
                Err(e) => r == Err::<(), AccountingError>(e) && final(self).accounts@ == old(
                    self,
                ).accounts@,
            }),
    {
        self.accounts.withdraw(signer, amount)
    }

    /// Moves `amount` from `sender` to `recipient` atomically; see
    /// [`Accounts::send`]. The book and the ordinal counter are untouched.
    pub fn send(
        &mut self,
        sender: &String,
        recipient: &String,
        amount: u64,
    ) -> (r: Result<(), AccountingError>)
        requires
            old(self).wf(),
        ensures
            final(self).wf(),
            final(self).side_entries(Side::Buy) == old(self).side_entries(Side::Buy),
            final(self).side_entries(Side::Sell) == old(self).side_entries(Side::Sell),
            final(self).ordinal_counter() == old(self).ordinal_counter(),
            (match spec_send(old(self).accounts@, sender@, recipient@, amount) {
                Ok(m) => r == Ok::<(), AccountingError>(()) && final(self).accounts@ == m,
                Err(e) => r == Err::<(), AccountingError>(e) && final(self).accounts@ == old(
                    self,
                ).accounts@,
            }),
    {
        self.accounts.send(sender, recipient, amount)
    }

    /// The current balance of `signer`; see [`Accounts::balance_of`].
    pub fn balance_of(&self, signer: &String) -> (r: Result<u64, AccountingError>)
        requires
            self.wf(),
        ensures
            (match r {
                Ok(b) => self.accounts@.dom().contains(signer@) && b == self.accounts@[signer@],
                Err(e) => e == AccountingError::AccountNotFound && !self.accounts@.dom().contains(
                    signer@,
                ),
            }),
    {
        self.accounts.balance_of(signer)
    }

    /// An ordered snapshot of all resting orders: every Buy in priority
    /// order, then every Sell in priority order.
    pub fn orderbook(&self) -> (r: Vec<BookEntry>)
        ensures
            r@ == self.side_entries(Side::Buy) + self.side_entries(Side::Sell),
    {
        self.book.snapshot()
    }

    /// Processes an incoming limit order.
    ///
    /// A malformed order (zero price or zero amount) is rejected with
    /// `InvalidOrder` and nothing changes. Otherwise the order is accepted
    /// under the next ordinal and matched against the resting opposite side
    /// in priority order while its price crosses: each pairing fills the
    /// smaller of the two remainders at the resting order's price, settles
    /// that cost from the buyer to the seller through the ledger, and
    /// reduces or removes the resting entry. If a settlement fails, the
    /// loop halts at once: the pairings committed earlier in the same call
    /// stay committed (they are not rolled back) and the error propagates.
    /// Any unfilled remainder is inserted into the book as a new resting
    /// entry under the assigned ordinal, and a receipt with that ordinal
    /// and the fills is returned.
    #[verifier::rlimit(60)]
    pub fn order(&mut self, order: Order) -> (r: Result<Receipt, AccountingError>)
        requires
            old(self).wf(),
        ensures
            final(self).wf(),
            final(self).ordinal_counter() >= old(self).ordinal_counter(),
            !order.valid() ==> r == Err::<Receipt, AccountingError>(AccountingError::InvalidOrder)
                && *final(self) == *old(self),
            order.valid() && old(self).ordinal_counter() == u64::MAX ==> r == Err::<
                Receipt,
                AccountingError,
            >(AccountingError::Overflow) && *final(self) == *old(self),
            (r is Ok) <==> (order.valid() && old(self).ordinal_counter() < u64::MAX && old(
                self,
            ).settles(order, old(self).fills_for(order))),
            (match r {
                Ok(receipt) => {
                    &&& receipt.ordinal == old(self).ordinal_counter()
                    &&& final(self).ordinal_counter() == old(self).ordinal_counter() + 1
                    &&& receipt.matches@ == old(self).fills_for(order)
                    &&& final(self).accounts@ == old(self).ledger_after(order, receipt.matches@)
                    &&& final(self).side_entries(order.side.spec_opposite()) == old(
                        self,
                    ).opposite_after(order)
                    &&& 0 <= sum_fills(receipt.matches@) <= order.amount
                    &&& (sum_fills(receipt.matches@) == order.amount ==> final(self).side_entries(
                        order.side,
                    ) == old(self).side_entries(order.side))
                    &&& (sum_fills(receipt.matches@) < order.amount ==> exists|p: int|
                        0 <= p <= old(self).side_entries(order.side).len()
                            && final(self).side_entries(order.side) == #[trigger] old(
                            self,
                        ).side_entries(order.side).insert(
                            p,
                            (BookEntry {
                                ordinal: receipt.ordinal,
                                price: order.price,
                                remaining: (order.amount - sum_fills(receipt.matches@)) as u64,
                                side: order.side,
                                signer: order.signer,
                            }),
                        ))
                },
                Err(e) => order.valid() && old(self).ordinal_counter() < u64::MAX ==> {
                    &&& final(self).ordinal_counter() == old(self).ordinal_counter() + 1
                    &&& final(self).side_entries(order.side) == old(self).side_entries(order.side)
                    &&& exists|k: int|
                        0 <= k <= old(self).fills_for(order).len() && old(self).settles(
                            order,
                            old(self).fills_for(order).take(k),
                        ) && final(self).accounts@ == old(self).ledger_after(
                            order,
                            old(self).fills_for(order).take(k),
                        ) && final(self).side_entries(order.side.spec_opposite()) == old(
                            self,
                        ).side_entries(order.side.spec_opposite()).skip(k)
                },
            }),
    {
        if order.price == 0 || order.amount == 0 {
            return Err(AccountingError::InvalidOrder);
        }
        if self.next_ordinal == u64::MAX {
            return Err(AccountingError::Overflow);
        }
        let ordinal = self.next_ordinal;
        self.next_ordinal = ordinal + 1;

        let ghost old_acc = self.accounts@;
        let ghost taker = order.signer@;
        let ghost side = order.side;
        let ghost opp_side = order.side.spec_opposite();
        let ghost old_opp = self.side_entries(opp_side);
        let ghost old_same = self.side_entries(side);
        let ghost fills_all = spec_fills(old_opp, side, order.price, order.amount as int);

        let mut remaining: u64 = order.amount;
        let mut fills: Vec<Match> = Vec::new();

        loop
            invariant_except_break
                fills@.len() <= old_opp.len(),
                self.side_entries(opp_side) == old_opp.skip(fills@.len() as int),
            invariant
                self.accounts.wf(),
                self.book.wf(),
                ordinals_below(self.side_entries(Side::Buy), self.next_ordinal),
                ordinals_below(self.side_entries(Side::Sell), self.next_ordinal),
                self.next_ordinal == ordinal + 1,
                ordinal == old(self).ordinal_counter(),
                ordinal < u64::MAX,
                order.valid(),
                side == order.side,
                opp_side == side.spec_opposite(),
                taker == order.signer@,
                old_acc == old(self).accounts@,
                old_opp == old(self).side_entries(opp_side),
                old_same == old(self).side_entries(side),
                fills_all == spec_fills(old_opp, side, order.price, order.amount as int),
                ordinals_below(old_same, ordinal),
                remaining <= order.amount,
                self.side_entries(side) == old_same,
                self.accounts@ == spec_settled(old_acc, taker, side, old_opp, fills@),
                spec_settle_ok(old_acc, taker, side, old_opp, fills@),
                sum_fills(fills@) == order.amount - remaining,
                fills@ + spec_fills(self.side_entries(opp_side), side, order.price, remaining as int)
                    == fills_all,
                spec_book_after(self.side_entries(opp_side), side, order.price, remaining as int)
                    == spec_book_after(old_opp, side, order.price, order.amount as int),
            ensures
                fills@ == fills_all,
                self.side_entries(opp_side) == spec_book_after(
                    old_opp,
                    side,
                    order.price,
                    order.amount as int,
                ),
                remaining == order.amount - sum_fills(fills_all),
            decreases old_opp.len() - fills@.len(),
        {
            let ghost k = fills@.len() as int;
            let ghost cur = self.side_entries(opp_side);
            if remaining == 0 {
                break;
            }
            let best = match self.book.best_opposite(order.side) {
                None => {
                    break;
                },
                Some(b) => b,
            };
            if !crossing(order.side, order.price, best.price) {
                break;
            }
            let fill = if remaining < best.remaining {
                remaining
            } else {
                best.remaining
            };
            let ghost m_spec = (Match { ordinal: best.ordinal, amount: fill, price: best.price });
            proof {
                assert(cur[0] == old_opp[k]);
                assert(spec_fills(cur, side, order.price, remaining as int) == seq![m_spec]
                    + spec_fills(cur.drop_first(), side, order.price, remaining - fill));
                assert(fills_all.take(k + 1) =~= fills@.push(m_spec));
                assert(fills@.push(m_spec).drop_last() =~= fills@);
            }
            let cost = match fill.checked_mul(best.price) {
                Some(c) => c,
                None => {
                    proof {
                        assert(fills_all.take(k) =~= fills@);
                        assert(!spec_settle_ok(old_acc, taker, side, old_opp, fills@.push(m_spec)));
                        if spec_settle_ok(old_acc, taker, side, old_opp, fills_all) {
                            crate::matching::lemma_settle_ok_prefix(
                                old_acc,
                                taker,
                                side,
                                old_opp,
                                fills_all,
                                k + 1,
                            );
                            assert(false);
                        }
                        assert(old(self).ledger_after(order, old(self).fills_for(order).take(k))
                            == self.accounts@);
                        assert(old(self).side_entries(side.spec_opposite()).skip(k)
                            == self.side_entries(opp_side));
                    }
                    return Err(AccountingError::Overflow);
                },
            };
            let (buyer, seller) = match order.side {
                Side::Buy => (&order.signer, &best.signer),
                Side::Sell => (&best.signer, &order.signer),
            };
            let ghost pre_acc = self.accounts@;
            match self.accounts.send(buyer, seller, cost) {
                Ok(()) => {},
                Err(e) => {
                    proof {
                        assert(fills_all.take(k) =~= fills@);
                        assert(spec_send(pre_acc, buyer@, seller@, cost) is Err);
                        assert(!spec_settle_ok(old_acc, taker, side, old_opp, fills@.push(m_spec)));
                        if spec_settle_ok(old_acc, taker, side, old_opp, fills_all) {
                            crate::matching::lemma_settle_ok_prefix(
                                old_acc,
                                taker,
                                side,
                                old_opp,
                                fills_all,
                                k + 1,
                            );
                            assert(false);
                        }
                        assert(old(self).ledger_after(order, old(self).fills_for(order).take(k))
                            == self.accounts@);
                        assert(old(self).side_entries(side.spec_opposite()).skip(k)
                            == self.side_entries(opp_side));
                    }
                    return Err(e);
                },
            }
            fills.push(Match { ordinal: best.ordinal, amount: fill, price: best.price });
            proof {
                assert(fills@.drop_last() =~= fills_all.take(k + 1).drop_last());
                assert(spec_settled(old_acc, taker, side, old_opp, fills@) == self.accounts@);
                assert(spec_settle_ok(old_acc, taker, side, old_opp, fills@));
            }
            if fill == best.remaining {
                self.book.reduce_or_remove(order.side.opposite(), fill);
                remaining = remaining - fill;
                proof {
                    assert(self.side_entries(opp_side) == cur.drop_first());
                    assert(cur.drop_first() =~= old_opp.skip(k + 1));
                    assert(fills@ + spec_fills(
                        self.side_entries(opp_side),
                        side,
                        order.price,
                        remaining as int,
                    ) =~= fills_all);
                    assert forall|i: int|
                        0 <= i < self.side_entries(opp_side).len() implies #[trigger] self
                        .side_entries(opp_side)[i].ordinal < self.next_ordinal by {
                        assert(self.side_entries(opp_side)[i] == cur[i + 1]);
                    }
                }
            } else {
                self.book.reduce_or_remove(order.side.opposite(), fill);
                remaining = 0;
                proof {
                    assert(spec_fills(cur.drop_first(), side, order.price, 0) =~= Seq::<
                        Match,
                    >::empty());
                    assert(fills@ =~= fills_all);
                    assert(self.side_entries(opp_side) == spec_book_after(
                        cur,
                        side,
                        order.price,
                        fill as int,
                    ));
                    assert forall|i: int|
                        0 <= i < self.side_entries(opp_side).len() implies #[trigger] self
                        .side_entries(opp_side)[i].ordinal < self.next_ordinal by {
                        if i > 0 {
                            assert(self.side_entries(opp_side)[i] == cur[i]);
                        }
                    }
                }
                break;
            }
        }
        if remaining > 0 {
            let entry = BookEntry {
                ordinal,
                price: order.price,
                remaining,
                side: order.side,
                signer: order.signer,
            };
            self.book.insert(entry);
            Ok(Receipt { ordinal, matches: fills })
        } else {
            Ok(Receipt { ordinal, matches: fills })
        }
    }
}

} // verus!
