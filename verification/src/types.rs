use vstd::prelude::*;

verus! {

/// Which side of the market an order stands on.
#[derive(Clone, Copy, Debug, PartialEq, Eq, Structural)]
pub enum Side {
    Buy,
    Sell,
}

impl Side {
    /// The side an order of this side is matched against.
    pub open spec fn spec_opposite(self) -> Side {
        match self {
            Side::Buy => Side::Sell,
            Side::Sell => Side::Buy,
        }
    }

    #[verifier::when_used_as_spec(spec_opposite)]
    pub fn opposite(self) -> (r: Side)
        ensures
            r == self.spec_opposite(),
    {
        match self {
            Side::Buy => Side::Sell,
            Side::Sell => Side::Buy,
        }
    }
}

/// A limit order as submitted by a signer.
#[derive(Debug)]
pub struct Order {
    /// Price per unit, in fixed-point currency units. Must be positive.
    pub price: u64,
    /// Quantity to trade. Must be positive.
    pub amount: u64,
    pub side: Side,
    /// Opaque identifier of the account placing the order.
    pub signer: String,
}

impl Order {
    /// A well-formed incoming order: positive price and positive amount.
    pub open spec fn valid(self) -> bool {
        self.price > 0 && self.amount > 0
    }
}

/// The record of one pairing between an incoming order and a resting order.
#[derive(Clone, Copy, Debug, PartialEq, Eq, Structural)]
pub struct Match {
    /// Ordinal of the resting (maker) order that was filled against.
    pub ordinal: u64,
    /// Quantity filled in this pairing.
    pub amount: u64,
    /// Price the fill executed at: the resting order's price.
    pub price: u64,
}

/// Returned from a successful order call.
#[derive(Debug)]
pub struct Receipt {
    /// Ordinal assigned to the accepted incoming order.
    pub ordinal: u64,
    /// The fills produced by this call, in the order they were made.
    pub matches: Vec<Match>,
}

/// A resting order on the book: an accepted order plus its ordinal and its
/// remaining (unfilled) quantity.
#[derive(Debug)]
pub struct BookEntry {
    /// Assigned at acceptance; defines time priority within a price level.
    pub ordinal: u64,
    pub price: u64,
    /// Unfilled quantity; always positive while the entry rests on the book.
    pub remaining: u64,
    pub side: Side,
    pub signer: String,
}

impl Clone for BookEntry {
    fn clone(&self) -> (r: Self)
        ensures
            r == *self,
    {
        BookEntry {
            ordinal: self.ordinal,
            price: self.price,
            remaining: self.remaining,
            side: self.side,
            signer: self.signer.clone(),
        }
    }
}

/// The crossing condition: a Buy matches resting prices at or below its own
/// price, a Sell matches resting prices at or above its own price.
pub open spec fn crosses(side: Side, price: u64, resting_price: u64) -> bool {
    match side {
        Side::Buy => resting_price <= price,
        Side::Sell => resting_price >= price,
    }
}

/// Executable mirror of [`crosses`].
#[verifier::when_used_as_spec(crosses)]
pub fn crossing(side: Side, price: u64, resting_price: u64) -> (r: bool)
    ensures
        r == crosses(side, price, resting_price),
{
    match side {
        Side::Buy => resting_price <= price,
        Side::Sell => resting_price >= price,
    }
}

} // verus!
