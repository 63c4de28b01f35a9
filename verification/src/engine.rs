//! The market router: maps trading pairs to their order books.

use vstd::prelude::*;

verus! {

use crate::decimal::Decimal;
use crate::orderbook::{book_after_add, price_of, Order, OrderBook};
use vstd::string::StringExecFns;

/// A market key: orders are quoted in `quote` per unit of `base`.
#[derive(Debug)]
pub struct TradingPair {
    pub base: String,
    pub quote: String,
}

impl TradingPair {
    /// Two pairs name the same market when both components agree.
    pub open spec fn spec_eq(self, other: TradingPair) -> bool {
        self.base@ == other.base@ && self.quote@ == other.quote@
    }

    pub fn new(base: String, quote: String) -> (r: TradingPair)
        ensures
            r.base@ == base@,
            r.quote@ == quote@,
    {
        TradingPair { base, quote }
    }

}

impl PartialEq for TradingPair {
    fn eq(&self, other: &Self) -> (r: bool) {
        self.base == other.base && self.quote == other.quote
    }
}

impl vstd::std_specs::cmp::PartialEqSpecImpl for TradingPair {
    open spec fn obeys_eq_spec() -> bool {
        true
    }

    open spec fn eq_spec(&self, other: &Self) -> bool {
        self.spec_eq(*other)
    }
}

impl TradingPair {
    /// The market's display label, `<base>_<quote>`.
    pub fn label(&self) -> (r: String)
        ensures
            r@ == self.base@ + "_"@ + self.quote@,
    {
        let mut s = self.base.clone();
        s.append("_");
        s.append(self.quote.as_str());
        s
    }
}

/// Why an order could not be placed.
#[derive(Debug)]
pub enum PlaceOrderError {
    /// No market is registered under this pair.
    MarketNotFound(TradingPair),
    /// The price is not a well-formed decimal, or is too large to quantize.
    InvalidPrice,
}

impl PlaceOrderError {
    /// A human-readable description of the error.
    pub fn message(&self) -> (r: String)
        ensures
            (match self {
                PlaceOrderError::MarketNotFound(pair) => r@ == pair.base@ + "_"@ + pair.quote@
                    + " does not exist"@,
                PlaceOrderError::InvalidPrice => r@ == "invalid price"@,
            }),
    {
        match self {
            PlaceOrderError::MarketNotFound(pair) => pair.label().concat(" does not exist"),
            PlaceOrderError::InvalidPrice => String::from_str("invalid price"),
        }
    }
}

/// The market router: owns one order book per registered trading pair and
/// routes each order to its market's book.
#[derive(Debug)]
pub struct MatchingEngine {
    pub orderbook: Vec<(TradingPair, OrderBook)>,
}

impl MatchingEngine {
    /// The registered markets, in registration order.
    pub open spec fn spec_markets(self) -> Seq<(TradingPair, OrderBook)> {
        self.orderbook@
    }

    /// Market keys are pairwise distinct and every book is well formed.
    pub open spec fn wf(self) -> bool {
        &&& forall|i: int, j: int|
            #![trigger self.orderbook@[i], self.orderbook@[j]]
            0 <= i < j < self.orderbook@.len() ==> !self.orderbook@[i].0.spec_eq(
                self.orderbook@[j].0,
            )
        &&& forall|i: int|
            0 <= i < self.orderbook@.len() ==> (#[trigger] self.orderbook@[i]).1.wf()
    }

    /// Some market is registered under a key equal to `pair`.
    pub open spec fn spec_has_market(self, pair: TradingPair) -> bool {
        exists|i: int|
            0 <= i < self.orderbook@.len() && (#[trigger] self.orderbook@[i]).0.spec_eq(pair)
    }

    /// An engine with no markets.
    pub fn new() -> (r: MatchingEngine)
        ensures
            r.wf(),
            r.spec_markets().len() == 0,
    {
        MatchingEngine { orderbook: Vec::new() }
    }

    /// The index of the market registered under `pair`, if any.
    fn find_market(&self, pair: &TradingPair) -> (r: Option<usize>)
        ensures
            (match r {
                Some(i) => i < self.orderbook@.len() && self.orderbook@[i as int].0.spec_eq(*pair),
                None => !self.spec_has_market(*pair),
            }),
    {
        let mut i: usize = 0;
        while i < self.orderbook.len()
            invariant
                i <= self.orderbook@.len(),
                forall|j: int|
                    0 <= j < i ==> !(#[trigger] self.orderbook@[j]).0.spec_eq(*pair),
            decreases self.orderbook@.len() - i,
        {
            if self.orderbook[i].0 == *pair {
                return Some(i);
            }
            i = i + 1;
        }
        None
    }

    /// Registers a market under `pair` with an empty book. Re-registering an
    /// existing market resets its book to empty, keeping the stored key, as
    /// replacing a map entry would.
    pub fn add_new_market(&mut self, pair: TradingPair)
        requires
            old(self).wf(),
        ensures
            final(self).wf(),
            final(self).spec_has_market(pair),
            (if old(self).spec_has_market(pair) {
                exists|i: int|
                    {
                        &&& 0 <= i < old(self).orderbook@.len()
                        &&& (#[trigger] old(self).orderbook@[i]).0.spec_eq(pair)
                        &&& final(self).orderbook@.len() == old(self).orderbook@.len()
                        &&& final(self).orderbook@[i].0 == old(self).orderbook@[i].0
                        &&& final(self).orderbook@[i].1.spec_bids().len() == 0
                        &&& final(self).orderbook@[i].1.spec_asks().len() == 0
                        &&& forall|j: int|
                            0 <= j < old(self).orderbook@.len() && j != i
                                ==> final(self).orderbook@[j] == old(self).orderbook@[j]
                    }
            } else {
                &&& final(self).orderbook@.len() == old(self).orderbook@.len() + 1
                &&& final(self).orderbook@.subrange(0, old(self).orderbook@.len() as int) == old(
                    self,
                ).orderbook@
                &&& final(self).orderbook@.last().0 == pair
                &&& final(self).orderbook@.last().1.spec_bids().len() == 0
                &&& final(self).orderbook@.last().1.spec_asks().len() == 0
            }),
    {
        match self.find_market(&pair) {
            Some(i) => {
                let entry = &mut self.orderbook[i];
                entry.1 = OrderBook::new();
                proof {
                    assert(self.orderbook@[i as int].0.spec_eq(pair));
                }
            },
            None => {
                self.orderbook.push((pair, OrderBook::new()));
                proof {
                    assert(self.orderbook@.subrange(0, old(self).orderbook@.len() as int)
                        =~= old(self).orderbook@);
                    assert(self.orderbook@[old(self).orderbook@.len() as int].0.spec_eq(pair));
                }
            },
        }
    }

    /// Routes an order to the book registered under `trading_pair`: quantizes
    /// `price` and files the order there. Fails, changing nothing, when no
    /// such market exists or when the price cannot be quantized.
    pub fn place_limit_order(
        &mut self,
        trading_pair: TradingPair,
        price: Decimal,
        order: Order,
    ) -> (r: Result<(), PlaceOrderError>)
        requires
            old(self).wf(),
        ensures
            final(self).wf(),
            ({
                let known = old(self).spec_has_market(trading_pair);
                let price_ok = price.wf() && price.whole < u64::MAX;
                &&& (r is Ok <==> known && price_ok)
                &&& (!known ==> r == Result::<(), PlaceOrderError>::Err(
                    PlaceOrderError::MarketNotFound(trading_pair),
                ) && *final(self) == *old(self))
                &&& (known && !price_ok ==> r == Result::<(), PlaceOrderError>::Err(
                    PlaceOrderError::InvalidPrice,
                ) && *final(self) == *old(self))
                &&& (known && price_ok ==> exists|i: int|
                    {
                        &&& 0 <= i < old(self).orderbook@.len()
                        &&& (#[trigger] old(self).orderbook@[i]).0.spec_eq(trading_pair)
                        &&& final(self).orderbook@.len() == old(self).orderbook@.len()
                        &&& final(self).orderbook@[i].0 == old(self).orderbook@[i].0
                        &&& book_after_add(
                            old(self).orderbook@[i].1,
                            final(self).orderbook@[i].1,
                            price_of(price),
                            order,
                        )
                        &&& forall|j: int|
                            0 <= j < old(self).orderbook@.len() && j != i
                                ==> final(self).orderbook@[j] == old(self).orderbook@[j]
                    })
            }),
    {
        match self.find_market(&trading_pair) {
            None => Err(PlaceOrderError::MarketNotFound(trading_pair)),
            Some(i) => {
                if !price.is_well_formed() || price.whole == u64::MAX {
                    return Err(PlaceOrderError::InvalidPrice);
                }
                let entry = &mut self.orderbook[i];
                entry.1.add_order(price, order);
                Ok(())
            },
        }
    }

    /// The book registered under `pair`, if any.
    pub fn book(&self, pair: &TradingPair) -> (r: Option<&OrderBook>)
        requires
            self.wf(),
        ensures
            (match r {
                Some(book) => self.spec_has_market(*pair) && book.wf() && exists|i: int|
                    0 <= i < self.orderbook@.len() && (#[trigger] self.orderbook@[i]).0.spec_eq(
                        *pair,
                    ) && *book == self.orderbook@[i].1,
                None => !self.spec_has_market(*pair),
            }),
    {
        match self.find_market(pair) {
            Some(i) => Some(&self.orderbook[i].1),
            None => None,
        }
    }
}

} // verus!
