use matching_engine::decimal::Decimal;
use matching_engine::orderbook::{BidOrAsk, Limit, Order, OrderBook, Price, SCALE};
use std::cmp::Ordering;

fn dec(whole: u64, num: u64, den: u64) -> Decimal {
    Decimal::new(whole, num, den)
}

#[test]
fn price_equality_ignores_input_precision() {
    let a = Price::new(dec(20, 5, 10));
    let b = Price::new(dec(20, 50000, 100000));
    assert_eq!(a, b);
    let c = Price::new(dec(20, 50001, 100000));
    assert_ne!(a, c);
}

#[test]
fn price_fields_hold_quantized_value() {
    let p = Price::new(dec(20, 5, 10));
    assert_eq!(p.integer, 20);
    assert_eq!(p.fractional, 50000);
    assert_eq!(SCALE, 100000);
}

#[test]
fn price_ordering_follows_decimal_ordering() {
    let low = Price::new(dec(20, 1, 10));
    let high = Price::new(dec(20, 2, 10));
    assert_eq!(low.partial_cmp(&high), Some(Ordering::Less));
    assert_eq!(high.partial_cmp(&low), Some(Ordering::Greater));
    assert_eq!(low.partial_cmp(&low), Some(Ordering::Equal));
    let whole = Price::new(dec(21, 0, 1));
    assert_eq!(high.partial_cmp(&whole), Some(Ordering::Less));
}

#[test]
fn price_rounds_fraction_half_up() {
    // 0.000004 rounds down, 0.000005 rounds up to one SCALEth.
    let down = Price::new(dec(1, 4, 1000000));
    assert_eq!((down.integer, down.fractional), (1, 0));
    let up = Price::new(dec(1, 5, 1000000));
    assert_eq!((up.integer, up.fractional), (1, 1));
}

#[test]
fn price_rounding_carries_into_integer() {
    // 1.999999 is nearer to 2 than to 1.99999, so the carry leaves a
    // well-formed fractional part.
    let p = Price::new(dec(1, 999999, 1000000));
    assert_eq!((p.integer, p.fractional), (2, 0));
}

#[test]
fn price_round_trips_through_decimal() {
    for d in [
        dec(0, 0, 1),
        dec(20, 5, 10),
        dec(24, 12, 100),
        dec(1, 5, 1000000),
        dec(300, 99999, 100000),
    ] {
        let p = Price::new(d);
        let back = Price::new(p.reconstruct());
        assert_eq!(p, back);
    }
}

#[test]
fn limit_starts_empty_and_keeps_arrival_order() {
    let mut level = Limit::new(Price::new(dec(10, 0, 1)));
    assert!(level.is_empty());
    level.add_order(Order::new(BidOrAsk::Bid, dec(1, 0, 1)));
    level.add_order(Order::new(BidOrAsk::Bid, dec(2, 0, 1)));
    assert!(!level.is_empty());
    assert_eq!(level.orders.len(), 2);
    assert_eq!(level.orders[0].size.whole, 1);
    assert_eq!(level.orders[1].size.whole, 2);
}

#[test]
fn limit_equality_and_order_follow_price() {
    let mut a = Limit::new(Price::new(dec(10, 0, 1)));
    let b = Limit::new(Price::new(dec(10, 0, 1)));
    let c = Limit::new(Price::new(dec(11, 0, 1)));
    a.add_order(Order::new(BidOrAsk::Bid, dec(5, 0, 1)));
    assert!(a == b);
    assert!(a != c);
    assert_eq!(a.partial_cmp(&c), Some(Ordering::Less));
    assert_eq!(c.partial_cmp(&a), Some(Ordering::Greater));
    assert_eq!(a.partial_cmp(&b), Some(Ordering::Equal));
}

#[test]
fn same_price_orders_aggregate_into_one_limit() {
    let mut book = OrderBook::new();
    book.add_order(dec(20, 5, 10), Order::new(BidOrAsk::Bid, dec(1, 0, 1)));
    book.add_order(dec(20, 5, 10), Order::new(BidOrAsk::Bid, dec(2, 0, 1)));
    assert_eq!(book.bids.len(), 1);
    assert_eq!(book.bids[0].orders.len(), 2);
    assert_eq!(book.bids[0].orders[0].size.whole, 1);
    assert_eq!(book.bids[0].orders[1].size.whole, 2);
}

#[test]
fn distinct_prices_make_distinct_limits() {
    let mut book = OrderBook::new();
    book.add_order(dec(20, 5, 10), Order::new(BidOrAsk::Bid, dec(1, 0, 1)));
    book.add_order(dec(21, 0, 1), Order::new(BidOrAsk::Bid, dec(2, 0, 1)));
    assert_eq!(book.bids.len(), 2);
    assert_eq!(book.bids[0].orders.len(), 1);
    assert_eq!(book.bids[1].orders.len(), 1);
}

#[test]
fn quantization_merges_nearby_prices_into_one_limit() {
    let mut book = OrderBook::new();
    // Both inputs round to the same five-digit price.
    book.add_order(dec(20, 500001, 10000000), Order::new(BidOrAsk::Bid, dec(1, 0, 1)));
    book.add_order(dec(20, 500004, 10000000), Order::new(BidOrAsk::Bid, dec(2, 0, 1)));
    assert_eq!(book.bids.len(), 1);
    assert_eq!(book.bids[0].orders.len(), 2);
}

#[test]
fn best_bid_is_minimum_of_inserted_bids() {
    let mut book = OrderBook::new();
    for d in [dec(22, 0, 1), dec(20, 5, 10), dec(21, 25, 100)] {
        book.add_order(d, Order::new(BidOrAsk::Bid, dec(1, 0, 1)));
        let best = book.best_bid().unwrap();
        assert!(book.bids.iter().all(|l| best <= l.price));
    }
    assert_eq!(book.best_bid(), Some(Price::new(dec(20, 5, 10))));
}

#[test]
fn best_ask_is_maximum_of_inserted_asks() {
    let mut book = OrderBook::new();
    for d in [dec(24, 1, 10), dec(24, 12, 100), dec(23, 9, 10)] {
        book.add_order(d, Order::new(BidOrAsk::Ask, dec(1, 0, 1)));
        let best = book.best_ask().unwrap();
        assert!(book.asks.iter().all(|l| best >= l.price));
    }
    assert_eq!(book.best_ask(), Some(Price::new(dec(24, 12, 100))));
}

#[test]
fn empty_book_has_no_best_prices() {
    let book = OrderBook::new();
    assert_eq!(book.best_bid(), None);
    assert_eq!(book.best_ask(), None);
}

#[test]
fn bids_never_affect_best_ask_and_vice_versa() {
    let mut book = OrderBook::new();
    book.add_order(dec(20, 5, 10), Order::new(BidOrAsk::Bid, dec(1, 0, 1)));
    book.add_order(dec(19, 0, 1), Order::new(BidOrAsk::Bid, dec(1, 0, 1)));
    assert_eq!(book.best_ask(), None);
    assert_eq!(book.asks.len(), 0);

    let mut other = OrderBook::new();
    other.add_order(dec(24, 1, 10), Order::new(BidOrAsk::Ask, dec(1, 0, 1)));
    other.add_order(dec(25, 0, 1), Order::new(BidOrAsk::Ask, dec(1, 0, 1)));
    assert_eq!(other.best_bid(), None);
    assert_eq!(other.bids.len(), 0);
}

#[test]
fn example_scenario_two_bids_two_asks() {
    let mut book = OrderBook::new();
    book.add_order(dec(20, 50000, 100000), Order::new(BidOrAsk::Bid, dec(20, 5, 10)));
    book.add_order(dec(20, 50000, 100000), Order::new(BidOrAsk::Bid, dec(20, 5, 10)));
    book.add_order(dec(24, 10000, 100000), Order::new(BidOrAsk::Ask, dec(24, 1, 10)));
    book.add_order(dec(24, 12000, 100000), Order::new(BidOrAsk::Ask, dec(300, 12, 100)));

    let best_bid = book.best_bid().unwrap();
    assert_eq!((best_bid.integer, best_bid.fractional), (20, 50000));
    let best_ask = book.best_ask().unwrap();
    assert_eq!((best_ask.integer, best_ask.fractional), (24, 12000));

    assert_eq!(book.bids.len(), 1);
    assert_eq!(book.bids[0].orders.len(), 2);
    assert_eq!(book.asks.len(), 2);
    assert_eq!(book.asks[0].price, Price::new(dec(24, 1, 10)));
    assert_eq!(book.asks[0].orders.len(), 1);
    assert_eq!(book.asks[1].price, Price::new(dec(24, 12, 100)));
    assert_eq!(book.asks[1].orders.len(), 1);
}
