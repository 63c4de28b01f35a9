use matching_engine::decimal::Decimal;
use matching_engine::engine::{MatchingEngine, PlaceOrderError, TradingPair};
use matching_engine::orderbook::{BidOrAsk, Order};

fn dec(whole: u64, num: u64, den: u64) -> Decimal {
    Decimal::new(whole, num, den)
}

fn btc_usd() -> TradingPair {
    TradingPair::new(String::from("BTC"), String::from("USD"))
}

#[test]
fn trading_pair_equality_is_by_components() {
    assert!(btc_usd() == btc_usd());
    let other = TradingPair::new(String::from("ETH"), String::from("USD"));
    assert!(btc_usd() != other);
}

#[test]
fn trading_pair_label_joins_base_and_quote() {
    assert_eq!(btc_usd().label(), "BTC_USD");
}

#[test]
fn placing_into_registered_market_succeeds() {
    let mut engine = MatchingEngine::new();
    engine.add_new_market(btc_usd());
    let placed = engine.place_limit_order(
        btc_usd(),
        dec(20, 5, 10),
        Order::new(BidOrAsk::Bid, dec(1, 0, 1)),
    );
    assert!(placed.is_ok());
    let book = engine.book(&btc_usd()).unwrap();
    let best = book.best_bid().unwrap();
    assert_eq!((best.integer, best.fractional), (20, 50000));
}

#[test]
fn unknown_market_is_rejected_without_side_effects() {
    let mut engine = MatchingEngine::new();
    engine.add_new_market(btc_usd());
    engine
        .place_limit_order(btc_usd(), dec(20, 5, 10), Order::new(BidOrAsk::Bid, dec(1, 0, 1)))
        .unwrap();

    let unknown = TradingPair::new(String::from("ETH"), String::from("USD"));
    let placed = engine.place_limit_order(
        unknown,
        dec(30, 0, 1),
        Order::new(BidOrAsk::Bid, dec(1, 0, 1)),
    );
    match placed {
        Err(PlaceOrderError::MarketNotFound(pair)) => {
            assert_eq!(pair.base, "ETH");
            assert_eq!(pair.quote, "USD");
        }
        _ => panic!("expected the unknown market to be reported"),
    }

    // The registered market's book is untouched.
    let book = engine.book(&btc_usd()).unwrap();
    assert_eq!(book.bids.len(), 1);
    assert_eq!(book.bids[0].orders.len(), 1);
    assert_eq!(book.asks.len(), 0);
}

#[test]
fn market_not_found_message_names_the_pair() {
    let mut engine = MatchingEngine::new();
    let unknown = TradingPair::new(String::from("ETH"), String::from("USD"));
    let placed = engine.place_limit_order(
        unknown,
        dec(30, 0, 1),
        Order::new(BidOrAsk::Bid, dec(1, 0, 1)),
    );
    match placed {
        Err(err) => assert_eq!(err.message(), "ETH_USD does not exist"),
        Ok(()) => panic!("expected an error"),
    }
}

#[test]
fn malformed_price_is_rejected_without_side_effects() {
    let mut engine = MatchingEngine::new();
    engine.add_new_market(btc_usd());
    let zero_den = Decimal { whole: 1, num: 0, den: 0 };
    let placed = engine.place_limit_order(
        btc_usd(),
        zero_den,
        Order::new(BidOrAsk::Bid, dec(1, 0, 1)),
    );
    assert!(matches!(placed, Err(PlaceOrderError::InvalidPrice)));
    let improper = Decimal { whole: 1, num: 7, den: 7 };
    let placed = engine.place_limit_order(
        btc_usd(),
        improper,
        Order::new(BidOrAsk::Bid, dec(1, 0, 1)),
    );
    assert!(matches!(placed, Err(PlaceOrderError::InvalidPrice)));
    let book = engine.book(&btc_usd()).unwrap();
    assert_eq!(book.bids.len(), 0);
    assert_eq!(book.asks.len(), 0);
}

#[test]
fn invalid_price_message_is_fixed() {
    assert_eq!(PlaceOrderError::InvalidPrice.message(), "invalid price");
}

#[test]
fn unregistered_engine_knows_no_books() {
    let engine = MatchingEngine::new();
    assert!(engine.book(&btc_usd()).is_none());
}

#[test]
fn reregistering_a_market_resets_its_book() {
    let mut engine = MatchingEngine::new();
    engine.add_new_market(btc_usd());
    engine
        .place_limit_order(btc_usd(), dec(20, 5, 10), Order::new(BidOrAsk::Bid, dec(1, 0, 1)))
        .unwrap();
    engine.add_new_market(btc_usd());
    let book = engine.book(&btc_usd()).unwrap();
    assert_eq!(book.bids.len(), 0);
    assert_eq!(book.asks.len(), 0);
    assert_eq!(engine.orderbook.len(), 1);
}
