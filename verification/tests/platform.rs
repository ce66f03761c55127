use fintech_common::errors::AccountingError;
use fintech_common::trading_platform::TradingPlatform;
use fintech_common::types::{Order, Side};

fn buy(price: u64, amount: u64, signer: &str) -> Order {
    Order { price, amount, side: Side::Buy, signer: String::from(signer) }
}

fn sell(price: u64, amount: u64, signer: &str) -> Order {
    Order { price, amount, side: Side::Sell, signer: String::from(signer) }
}

#[test]
fn full_scenario() {
    // deposit, rejected withdrawal, transfer, a resting buy, then a partial
    // fill against it at the maker's price.
    let mut platform = TradingPlatform::new();
    let a = String::from("A");
    let b = String::from("B");

    assert_eq!(platform.deposit(&a, 100), Ok(()));
    assert_eq!(platform.balance_of(&a), Ok(100));

    assert_eq!(platform.withdraw(&a, 150), Err(AccountingError::InsufficientFunds));
    assert_eq!(platform.balance_of(&a), Ok(100));

    assert_eq!(platform.send(&a, &b, 40), Ok(()));
    assert_eq!(platform.balance_of(&a), Ok(60));
    assert_eq!(platform.balance_of(&b), Ok(40));

    let receipt = platform.order(buy(10, 5, "A")).unwrap();
    assert_eq!(receipt.ordinal, 1);
    assert!(receipt.matches.is_empty());
    let book = platform.orderbook();
    assert_eq!(book.len(), 1);
    assert_eq!(book[0].ordinal, 1);
    assert_eq!(book[0].price, 10);
    assert_eq!(book[0].remaining, 5);
    assert_eq!(book[0].side, Side::Buy);
    assert_eq!(book[0].signer, String::from("A"));

    let receipt = platform.order(sell(10, 3, "B")).unwrap();
    assert_eq!(receipt.ordinal, 2);
    assert_eq!(receipt.matches.len(), 1);
    assert_eq!(receipt.matches[0].ordinal, 1);
    assert_eq!(receipt.matches[0].amount, 3);
    assert_eq!(receipt.matches[0].price, 10);
    let book = platform.orderbook();
    assert_eq!(book.len(), 1);
    assert_eq!(book[0].ordinal, 1);
    assert_eq!(book[0].remaining, 2);
    assert_eq!(book[0].side, Side::Buy);

    // The maker (the resting buyer A) paid 3 * 10 to the taker B.
    assert_eq!(platform.balance_of(&a), Ok(30));
    assert_eq!(platform.balance_of(&b), Ok(70));
}

#[test]
fn invalid_orders_are_rejected() {
    let mut platform = TradingPlatform::new();
    assert!(matches!(platform.order(buy(0, 5, "A")), Err(AccountingError::InvalidOrder)));
    assert!(matches!(platform.order(sell(10, 0, "A")), Err(AccountingError::InvalidOrder)));
    assert!(platform.orderbook().is_empty());
}

#[test]
fn ordinals_strictly_increase() {
    let mut platform = TradingPlatform::new();
    let r1 = platform.order(buy(10, 5, "A")).unwrap();
    let r2 = platform.order(buy(11, 5, "B")).unwrap();
    // A rejected order consumes no acceptance.
    assert!(platform.order(buy(0, 5, "C")).is_err());
    let r3 = platform.order(sell(50, 2, "C")).unwrap();
    assert!(r1.ordinal < r2.ordinal);
    assert!(r2.ordinal < r3.ordinal);
}

#[test]
fn non_crossing_prices_do_not_match() {
    let mut platform = TradingPlatform::new();
    let receipt = platform.order(sell(10, 5, "maker")).unwrap();
    assert!(receipt.matches.is_empty());

    // A buy below the resting sell price must not match; it rests.
    let receipt = platform.order(buy(8, 4, "taker")).unwrap();
    assert!(receipt.matches.is_empty());
    let book = platform.orderbook();
    assert_eq!(book.len(), 2);

    // A buy above the resting sell price matches at the maker's price.
    let mut platform = TradingPlatform::new();
    let taker = String::from("taker");
    assert_eq!(platform.deposit(&taker, 100), Ok(()));
    platform.order(sell(10, 5, "maker")).unwrap();
    let receipt = platform.order(buy(12, 5, "taker")).unwrap();
    assert_eq!(receipt.matches.len(), 1);
    assert_eq!(receipt.matches[0].price, 10);
    assert_eq!(platform.balance_of(&taker), Ok(100 - 5 * 10));
    let maker = String::from("maker");
    assert_eq!(platform.balance_of(&maker), Ok(50));
}

#[test]
fn time_priority_at_equal_price() {
    let mut platform = TradingPlatform::new();
    let taker = String::from("taker");
    assert_eq!(platform.deposit(&taker, 1000), Ok(()));
    let first = platform.order(sell(10, 5, "early")).unwrap();
    let second = platform.order(sell(10, 5, "late")).unwrap();
    assert!(first.ordinal < second.ordinal);

    // The buy can cross both price levels but only needs one: the entry
    // with the lower ordinal is filled.
    let receipt = platform.order(buy(10, 5, "taker")).unwrap();
    assert_eq!(receipt.matches.len(), 1);
    assert_eq!(receipt.matches[0].ordinal, first.ordinal);
    let book = platform.orderbook();
    assert_eq!(book.len(), 1);
    assert_eq!(book[0].ordinal, second.ordinal);
}

#[test]
fn better_price_beats_time_priority() {
    let mut platform = TradingPlatform::new();
    let taker = String::from("taker");
    assert_eq!(platform.deposit(&taker, 1000), Ok(()));
    platform.order(sell(12, 5, "pricey")).unwrap();
    let cheap = platform.order(sell(9, 5, "cheap")).unwrap();
    let receipt = platform.order(buy(12, 5, "taker")).unwrap();
    // The lower sell price has priority even though it arrived later.
    assert_eq!(receipt.matches.len(), 1);
    assert_eq!(receipt.matches[0].ordinal, cheap.ordinal);
    assert_eq!(receipt.matches[0].price, 9);
}

#[test]
fn partial_fill_rests_the_remainder() {
    let mut platform = TradingPlatform::new();
    let taker = String::from("taker");
    assert_eq!(platform.deposit(&taker, 1000), Ok(()));
    platform.order(sell(10, 3, "maker")).unwrap();
    let receipt = platform.order(buy(10, 5, "taker")).unwrap();

    // Filled quantity never exceeds the incoming amount, and the shortfall
    // rests on the book under the incoming order's ordinal.
    let filled: u64 = receipt.matches.iter().map(|m| m.amount).sum();
    assert_eq!(filled, 3);
    let book = platform.orderbook();
    assert_eq!(book.len(), 1);
    assert_eq!(book[0].ordinal, receipt.ordinal);
    assert_eq!(book[0].side, Side::Buy);
    assert_eq!(book[0].remaining, 5 - filled);
}

#[test]
fn fills_walk_several_resting_orders() {
    let mut platform = TradingPlatform::new();
    let taker = String::from("taker");
    assert_eq!(platform.deposit(&taker, 1000), Ok(()));
    platform.order(sell(9, 2, "m1")).unwrap();
    platform.order(sell(10, 4, "m2")).unwrap();
    platform.order(sell(11, 4, "m3")).unwrap();
    let receipt = platform.order(buy(10, 5, "taker")).unwrap();
    assert_eq!(receipt.matches.len(), 2);
    assert_eq!(receipt.matches[0].price, 9);
    assert_eq!(receipt.matches[0].amount, 2);
    assert_eq!(receipt.matches[1].price, 10);
    assert_eq!(receipt.matches[1].amount, 3);
    assert_eq!(platform.balance_of(&taker), Ok(1000 - 2 * 9 - 3 * 10));
    // m2 keeps 1 unit resting; m3 was never crossed.
    let book = platform.orderbook();
    assert_eq!(book.len(), 2);
    assert_eq!(book[0].remaining, 1);
    assert_eq!(book[0].price, 10);
    assert_eq!(book[1].price, 11);
}

#[test]
fn settlement_failure_halts_and_keeps_earlier_fills() {
    let mut platform = TradingPlatform::new();
    let taker = String::from("taker");
    let m1 = String::from("m1");
    let m2 = String::from("m2");
    // Enough funds for the first pairing (cost 50) but not the second.
    assert_eq!(platform.deposit(&taker, 60), Ok(()));
    platform.order(sell(10, 5, "m1")).unwrap();
    platform.order(sell(10, 5, "m2")).unwrap();

    let result = platform.order(buy(10, 10, "taker"));
    assert!(matches!(result, Err(AccountingError::InsufficientFunds)));

    // The first pairing stays committed: m1 was paid and its entry is gone;
    // m2's entry still rests untouched, and no remainder was inserted.
    assert_eq!(platform.balance_of(&taker), Ok(10));
    assert_eq!(platform.balance_of(&m1), Ok(50));
    assert_eq!(platform.balance_of(&m2), Err(AccountingError::AccountNotFound));
    let book = platform.orderbook();
    assert_eq!(book.len(), 1);
    assert_eq!(book[0].signer, String::from("m2"));
    assert_eq!(book[0].remaining, 5);
}

#[test]
fn taker_without_an_account_cannot_settle() {
    let mut platform = TradingPlatform::new();
    platform.order(sell(10, 5, "maker")).unwrap();
    let result = platform.order(buy(10, 5, "stranger"));
    assert!(matches!(result, Err(AccountingError::AccountNotFound)));
    // Nothing was committed.
    let book = platform.orderbook();
    assert_eq!(book.len(), 1);
    assert_eq!(book[0].remaining, 5);
}

#[test]
fn fill_cost_past_the_representable_range_is_rejected() {
    let mut platform = TradingPlatform::new();
    let taker = String::from("taker");
    assert_eq!(platform.deposit(&taker, 1000), Ok(()));
    platform.order(sell(u64::MAX, 3, "maker")).unwrap();
    let result = platform.order(buy(u64::MAX, 2, "taker"));
    assert!(matches!(result, Err(AccountingError::Overflow)));
    assert_eq!(platform.balance_of(&taker), Ok(1000));
}

#[test]
fn snapshot_orders_buys_then_sells_by_priority() {
    let mut platform = TradingPlatform::new();
    platform.order(buy(8, 1, "b1")).unwrap();
    platform.order(buy(9, 1, "b2")).unwrap();
    platform.order(buy(9, 1, "b3")).unwrap();
    platform.order(sell(12, 1, "s1")).unwrap();
    platform.order(sell(11, 1, "s2")).unwrap();

    let book = platform.orderbook();
    assert_eq!(book.len(), 5);
    // Buys first: highest price, ties by arrival; then sells: lowest price.
    assert_eq!(book[0].signer, String::from("b2"));
    assert_eq!(book[1].signer, String::from("b3"));
    assert_eq!(book[2].signer, String::from("b1"));
    assert_eq!(book[3].signer, String::from("s2"));
    assert_eq!(book[4].signer, String::from("s1"));
}

#[test]
fn sell_against_an_empty_book_rests() {
    let mut platform = TradingPlatform::new();
    let receipt = platform.order(sell(7, 4, "maker")).unwrap();
    assert_eq!(receipt.ordinal, 1);
    assert!(receipt.matches.is_empty());
    let book = platform.orderbook();
    assert_eq!(book.len(), 1);
    assert_eq!(book[0].side, Side::Sell);
    assert_eq!(book[0].price, 7);
    assert_eq!(book[0].remaining, 4);
}

#[test]
fn reduced_front_entry_keeps_its_priority() {
    let mut platform = TradingPlatform::new();
    let taker = String::from("taker");
    assert_eq!(platform.deposit(&taker, 1000), Ok(()));
    let first = platform.order(sell(10, 5, "early")).unwrap();
    let second = platform.order(sell(10, 5, "late")).unwrap();

    // A first buy leaves the early sell partially filled; a second buy must
    // still hit the early sell before the late one.
    let r1 = platform.order(buy(10, 2, "taker")).unwrap();
    assert_eq!(r1.matches.len(), 1);
    assert_eq!(r1.matches[0].ordinal, first.ordinal);
    let r2 = platform.order(buy(10, 4, "taker")).unwrap();
    assert_eq!(r2.matches.len(), 2);
    assert_eq!(r2.matches[0].ordinal, first.ordinal);
    assert_eq!(r2.matches[0].amount, 3);
    assert_eq!(r2.matches[1].ordinal, second.ordinal);
    assert_eq!(r2.matches[1].amount, 1);
}

#[test]
fn self_trade_settles_as_a_no_op_transfer() {
    let mut platform = TradingPlatform::new();
    let solo = String::from("solo");
    assert_eq!(platform.deposit(&solo, 100), Ok(()));
    platform.order(sell(10, 2, "solo")).unwrap();
    let receipt = platform.order(buy(10, 2, "solo")).unwrap();
    assert_eq!(receipt.matches.len(), 1);
    assert_eq!(platform.balance_of(&solo), Ok(100));
    assert!(platform.orderbook().is_empty());
}
