//! The order book: fixed-point prices, price levels (limits), and the
//! dual-sided book with best-price queries.

use vstd::prelude::*;

verus! {

use core::cmp::Ordering;
use crate::decimal::Decimal;
use vstd::std_specs::cmp::PartialOrdSpec;
use vstd::arithmetic::div_mod::{
    lemma_div_pos_is_pos,
    lemma_fundamental_div_mod,
    lemma_fundamental_div_mod_converse,
    lemma_hoist_over_denominator,
    lemma_multiply_divide_lt,
};

/// Process-wide price scale: prices carry five decimal digits.
///
/// A single constant, shared by every `Price`, so that two prices can always
/// be compared field by field.
pub const SCALE: u64 = 100000;

/// A price as a fixed-point number: `integer + fractional / SCALE`.
#[derive(Debug, Clone, Copy, PartialEq, Eq, Structural, Hash)]
pub struct Price {
    pub integer: u64,
    pub fractional: u64,
}

impl Price {
    /// The fractional part is a proper number of `SCALE`ths.
    pub open spec fn wf(self) -> bool {
        self.fractional < SCALE
    }

    /// The price as a whole number of `SCALE`ths of one currency unit.
    /// Two well-formed prices are equal exactly when their units agree.
    pub open spec fn units(self) -> int {
        self.integer * SCALE + self.fractional
    }

    /// The stored fixed-point value, as an exact decimal over `SCALE`.
    pub open spec fn spec_to_decimal(self) -> Decimal {
        Decimal { whole: self.integer, num: self.fractional, den: SCALE }
    }
}

/// The fractional part of `d`, rounded half-up to a number of `SCALE`ths.
pub open spec fn rounded_fractional(d: Decimal) -> int {
    (2 * d.num * SCALE + d.den) / (2 * d.den)
}

/// `d` rounded half-up to a whole number of `SCALE`ths of one unit.
pub open spec fn rounded_units(d: Decimal) -> int {
    d.whole * SCALE + rounded_fractional(d)
}

/// The price that quantizes `d`: the integer part of `d`, and its fractional
/// part rounded to the nearest `SCALE`th, carrying into the integer part when
/// the fraction rounds all the way up to one.
pub open spec fn price_of(d: Decimal) -> Price {
    if rounded_fractional(d) == SCALE {
        Price { integer: (d.whole + 1) as u64, fractional: 0 }
    } else {
        Price { integer: d.whole, fractional: rounded_fractional(d) as u64 }
    }
}

/// The rounded fractional part of a well-formed decimal lies in `0 ..= SCALE`.
pub proof fn lemma_rounded_fractional_bounds(d: Decimal)
    requires
        d.wf(),
    ensures
        0 <= rounded_fractional(d) <= SCALE,
{
    let x = 2 * d.num * SCALE + d.den;
    let den2 = 2 * d.den;
    lemma_div_pos_is_pos(x, den2);
    assert(x < den2 * (SCALE + 1)) by (nonlinear_arith)
        requires
            d.num < d.den,
            0 < d.den,
            x == 2 * d.num * SCALE + d.den,
            den2 == 2 * d.den,
    ;
    lemma_multiply_divide_lt(x, den2, SCALE + 1);
}

/// Rounding agrees with the units view: `price_of` and `rounded_units`
/// describe the same quantized value.
pub proof fn lemma_price_of_units(d: Decimal)
    requires
        d.wf(),
        d.whole < u64::MAX,
    ensures
        price_of(d).wf(),
        price_of(d).units() == rounded_units(d),
{
    lemma_rounded_fractional_bounds(d);
}

impl Price {
    /// Quantizes a well-formed decimal to the process-wide scale, truncating
    /// the integer part and rounding the fractional part half-up.
    pub fn new(price: Decimal) -> (p: Price)
        requires
            price.wf(),
            price.whole < u64::MAX,
        ensures
            p == price_of(price),
            p.wf(),
            p.units() == rounded_units(price),
    {
        proof {
            lemma_rounded_fractional_bounds(price);
        }
        let num = price.num as u128;
        let den = price.den as u128;
        let scale = SCALE as u128;
        let rounded = (2 * num * scale + den) / (2 * den);
        let fractional = rounded as u64;
        let p = if fractional == SCALE {
            Price { integer: price.whole + 1, fractional: 0 }
        } else {
            Price { integer: price.whole, fractional }
        };
        proof {
            lemma_price_of_units(price);
        }
        p
    }

    /// The stored value as an exact decimal: `integer + fractional / SCALE`.
    /// This round-trips exactly: see `lemma_price_round_trip`.
    pub fn reconstruct(&self) -> (d: Decimal)
        ensures
            d == self.spec_to_decimal(),
            self.wf() ==> d.wf(),
    {
        Decimal { whole: self.integer, num: self.fractional, den: SCALE }
    }

}

impl PartialOrd for Price {
    /// Lexicographic comparison: the integer parts first, then, when they
    /// tie, the fractional parts. Never unordered.
    fn partial_cmp(&self, other: &Self) -> (r: Option<Ordering>) {
        if self.integer < other.integer {
            Some(Ordering::Less)
        } else if self.integer > other.integer {
            Some(Ordering::Greater)
        } else if self.fractional < other.fractional {
            Some(Ordering::Less)
        } else if self.fractional > other.fractional {
            Some(Ordering::Greater)
        } else {
            Some(Ordering::Equal)
        }
    }
}

impl vstd::std_specs::cmp::PartialOrdSpecImpl for Price {
    open spec fn obeys_partial_cmp_spec() -> bool {
        true
    }

    open spec fn partial_cmp_spec(&self, other: &Self) -> Option<Ordering> {
        if self.integer < other.integer {
            Some(Ordering::Less)
        } else if self.integer > other.integer {
            Some(Ordering::Greater)
        } else if self.fractional < other.fractional {
            Some(Ordering::Less)
        } else if self.fractional > other.fractional {
            Some(Ordering::Greater)
        } else {
            Some(Ordering::Equal)
        }
    }
}

/// On well-formed prices the lexicographic comparison is exactly the order of
/// the fixed-point values, so `partial_cmp` is a total order on prices that
/// agrees with the quantized decimal values they encode.
pub proof fn lemma_price_cmp_is_units_order(a: Price, b: Price)
    requires
        a.wf(),
        b.wf(),
    ensures
        a.partial_cmp_spec(&b) == Some(Ordering::Less) <==> a.units() < b.units(),
        a.partial_cmp_spec(&b) == Some(Ordering::Equal) <==> a.units() == b.units(),
        a.partial_cmp_spec(&b) == Some(Ordering::Greater) <==> a.units() > b.units(),
        a.partial_cmp_spec(&b) == Some(Ordering::Equal) <==> a == b,
{
}

/// Quantization is monotone: of two well-formed decimals in value order, the
/// first quantizes to at most the units of the second. Together with
/// `lemma_price_cmp_is_units_order` this makes the price order consistent
/// with the underlying decimal order, up to the rounding granularity.
pub proof fn lemma_price_order_matches_decimal_order(a: Decimal, b: Decimal)
    requires
        a.wf(),
        b.wf(),
        a.le(b),
    ensures
        rounded_units(a) <= rounded_units(b),
{
    lemma_rounded_units_as_single_quotient(a);
    lemma_rounded_units_as_single_quotient(b);
    let xa = 2 * a.numerator() * SCALE + a.den;
    let da = 2 * a.den;
    let xb = 2 * b.numerator() * SCALE + b.den;
    let db = 2 * b.den;
    let q = xa / da;
    lemma_fundamental_div_mod(xa, da);
    assert(q * da <= xa);
    assert(q * db <= xb) by (nonlinear_arith)
        requires
            q * da <= xa,
            a.numerator() * b.den <= b.numerator() * a.den,
            a.numerator() >= 0,
            b.numerator() >= 0,
            0 < a.den,
            0 < b.den,
            xa == 2 * a.numerator() * SCALE + a.den,
            da == 2 * a.den,
            xb == 2 * b.numerator() * SCALE + b.den,
            db == 2 * b.den,
    ;
    assert(q <= xb / db) by {
        if q > xb / db {
            lemma_fundamental_div_mod(xb, db);
            assert(q * db > xb) by (nonlinear_arith)
                requires
                    q > xb / db,
                    xb == db * (xb / db) + xb % db,
                    0 <= xb % db < db,
                    0 < db,
            ;
        }
    }
}

/// `rounded_units` written over a single quotient: hoisting the whole part
/// into the dividend does not change the rounded value.
proof fn lemma_rounded_units_as_single_quotient(d: Decimal)
    requires
        d.wf(),
    ensures
        rounded_units(d) == (2 * d.numerator() * SCALE + d.den) / (2 * d.den),
        d.numerator() >= 0,
{
    let x = 2 * d.num * SCALE + d.den;
    let den2 = 2 * d.den;
    lemma_hoist_over_denominator(x, (d.whole * SCALE) as int, den2 as nat);
    assert(x + d.whole * SCALE * den2 == 2 * d.numerator() * SCALE + d.den) by (nonlinear_arith)
        requires
            x == 2 * d.num * SCALE + d.den,
            den2 == 2 * d.den,
            d.numerator() == d.whole * d.den + d.num,
    ;
}

/// Which side of the book an order rests on.
#[derive(Debug, Clone, Copy, PartialEq, Eq, Structural)]
pub enum BidOrAsk {
    Bid,
    Ask,
}

/// The side opposite to `s`.
pub open spec fn opposite(s: BidOrAsk) -> BidOrAsk {
    match s {
        BidOrAsk::Bid => BidOrAsk::Ask,
        BidOrAsk::Ask => BidOrAsk::Bid,
    }
}

/// A resting order: a quantity on one side of the book. Immutable once
/// created; the price it rests at lives in the limit that holds it.
#[derive(Debug, Clone, Copy)]
pub struct Order {
    pub size: Decimal,
    pub bid_or_ask: BidOrAsk,
}

impl Order {
    pub fn new(bid_or_ask: BidOrAsk, size: Decimal) -> (o: Order)
        ensures
            o.bid_or_ask == bid_or_ask,
            o.size == size,
    {
        Order { bid_or_ask, size }
    }
}

/// One price level: every resting order at one exact price, in arrival order.
#[derive(Debug)]
pub struct Limit {
    pub price: Price,
    pub orders: Vec<Order>,
}

impl Limit {
    /// A new, empty level at `price`.
    pub fn new(price: Price) -> (l: Limit)
        ensures
            l.price == price,
            l.orders@ == Seq::<Order>::empty(),
    {
        Limit { price, orders: Vec::new() }
    }

    /// Appends to the tail, so arrival order is time priority at this level.
    pub fn add_order(&mut self, order: Order)
        ensures
            final(self).price == old(self).price,
            final(self).orders@ == old(self).orders@.push(order),
    {
        self.orders.push(order);
    }

    pub fn is_empty(&self) -> (b: bool)
        ensures
            b == (self.orders@.len() == 0),
    {
        self.orders.is_empty()
    }
}

impl PartialEq for Limit {
    /// Two limits are equal exactly when their prices are: a level is
    /// identified by its price, not by the orders it happens to hold.
    fn eq(&self, other: &Self) -> (r: bool) {
        self.price == other.price
    }
}

impl vstd::std_specs::cmp::PartialEqSpecImpl for Limit {
    open spec fn obeys_eq_spec() -> bool {
        true
    }

    open spec fn eq_spec(&self, other: &Self) -> bool {
        self.price == other.price
    }
}

impl PartialOrd for Limit {
    /// Levels are ordered by their prices.
    fn partial_cmp(&self, other: &Self) -> (r: Option<Ordering>) {
        self.price.partial_cmp(&other.price)
    }
}

impl vstd::std_specs::cmp::PartialOrdSpecImpl for Limit {
    open spec fn obeys_partial_cmp_spec() -> bool {
        true
    }

    open spec fn partial_cmp_spec(&self, other: &Self) -> Option<Ordering> {
        PartialOrdSpec::partial_cmp_spec(&self.price, &other.price)
    }
}

/// One side of a book is well formed when its levels are strictly sorted by
/// price (so each price occurs at most once), every price is well formed, and
/// no level is empty.
pub open spec fn side_wf(s: Seq<Limit>) -> bool {
    &&& forall|i: int, j: int|
        #![trigger s[i].price, s[j].price]
        0 <= i < j < s.len() ==> s[i].price.units() < s[j].price.units()
    &&& forall|i: int| #![trigger s[i]]
        0 <= i < s.len() ==> s[i].price.wf() && s[i].orders@.len() > 0
}

/// Some level of `s` sits at exactly `u` units.
pub open spec fn has_price(s: Seq<Limit>, u: int) -> bool {
    exists|i: int| 0 <= i < s.len() && (#[trigger] s[i].price).units() == u
}

/// How one side changes when an order is added at price `p`: if a level
/// already sits at that price the order is appended to it and every other
/// level is untouched; otherwise a fresh level holding exactly that order is
/// spliced in, and the rest keep their relative order.
pub open spec fn side_after_add(pre: Seq<Limit>, post: Seq<Limit>, p: Price, o: Order) -> bool {
    if has_price(pre, p.units()) {
        &&& post.len() == pre.len()
        &&& exists|i: int|
            {
                &&& 0 <= i < pre.len()
                &&& (#[trigger] pre[i].price).units() == p.units()
                &&& post[i].price == pre[i].price
                &&& post[i].orders@ == pre[i].orders@.push(o)
                &&& forall|j: int| 0 <= j < pre.len() && j != i ==> post[j] == pre[j]
            }
    } else {
        &&& post.len() == pre.len() + 1
        &&& exists|i: int|
            {
                &&& 0 <= i <= pre.len()
                &&& (#[trigger] post[i].price) == p
                &&& post[i].orders@ =~= seq![o]
                &&& forall|j: int| 0 <= j < i ==> post[j] == pre[j]
                &&& forall|j: int| i <= j < pre.len() ==> post[j + 1] == pre[j]
            }
    }
}

/// Adding at price `p` makes `p` present and leaves every other price's
/// presence unchanged.
pub proof fn lemma_add_preserves_prices(pre: Seq<Limit>, post: Seq<Limit>, p: Price, o: Order)
    requires
        side_after_add(pre, post, p, o),
    ensures
        forall|u: int| has_price(post, u) <==> has_price(pre, u) || u == p.units(),
{
    assert forall|u: int| has_price(post, u) <==> has_price(pre, u) || u == p.units() by {
        if has_price(pre, p.units()) {
            let i = choose|i: int|
                {
                    &&& 0 <= i < pre.len()
                    &&& (#[trigger] pre[i].price).units() == p.units()
                    &&& post[i].price == pre[i].price
                    &&& post[i].orders@ == pre[i].orders@.push(o)
                    &&& forall|j: int| 0 <= j < pre.len() && j != i ==> post[j] == pre[j]
                };
            if has_price(post, u) {
                let k = choose|k: int| 0 <= k < post.len() && (#[trigger] post[k].price).units() == u;
                assert(pre[k].price.units() == u);
            }
            if has_price(pre, u) {
                let k = choose|k: int| 0 <= k < pre.len() && (#[trigger] pre[k].price).units() == u;
                assert(post[k].price.units() == u);
            }
        } else {
            let i = choose|i: int|
                {
                    &&& 0 <= i <= pre.len()
                    &&& (#[trigger] post[i].price) == p
                    &&& post[i].orders@ =~= seq![o]
                    &&& forall|j: int| 0 <= j < i ==> post[j] == pre[j]
                    &&& forall|j: int| i <= j < pre.len() ==> post[j + 1] == pre[j]
                };
            if has_price(post, u) {
                let k = choose|k: int| 0 <= k < post.len() && (#[trigger] post[k].price).units() == u;
                if k < i {
                    assert(pre[k].price.units() == u);
                } else if k > i {
                    assert(pre[k - 1].price.units() == u);
                }
            }
            if has_price(pre, u) {
                let k = choose|k: int| 0 <= k < pre.len() && (#[trigger] pre[k].price).units() == u;
                if k < i {
                    assert(post[k].price.units() == u);
                } else {
                    assert(post[k + 1].price.units() == u);
                }
            }
            if u == p.units() {
                assert(post[i].price.units() == u);
            }
        }
    }
}

/// Strict units order of two well-formed prices, decided field by field.
fn price_lt(a: &Price, b: &Price) -> (r: bool)
    requires
        a.wf(),
        b.wf(),
    ensures
        r == (a.units() < b.units()),
{
    a.integer < b.integer || (a.integer == b.integer && a.fractional < b.fractional)
}

/// Index of the first level of `side` whose price is at or above `p`, which
/// is where an order at `p` belongs.
fn lower_bound(side: &Vec<Limit>, p: &Price) -> (i: usize)
    requires
        side_wf(side@),
        p.wf(),
    ensures
        i <= side@.len(),
        forall|j: int| 0 <= j < i ==> side@[j].price.units() < p.units(),
        i < side@.len() ==> side@[i as int].price.units() >= p.units(),
{
    let mut i: usize = 0;
    while i < side.len()
        invariant
            side_wf(side@),
            p.wf(),
            i <= side@.len(),
            forall|j: int| 0 <= j < i ==> side@[j].price.units() < p.units(),
        decreases side@.len() - i,
    {
        let at = side[i].price;
        if !price_lt(&at, p) {
            return i;
        }
        i = i + 1;
    }
    i
}

/// Adds one order at price `p` to one side, keeping the side well formed.
fn add_to_side(side: &mut Vec<Limit>, p: Price, order: Order)
    requires
        side_wf(old(side)@),
        p.wf(),
    ensures
        side_wf(final(side)@),
        side_after_add(old(side)@, final(side)@, p, order),
{
    let ghost pre = side@;
    let i = lower_bound(side, &p);
    let mut at_price = false;
    if i < side.len() {
        at_price = side[i].price == p;
    }
    if at_price {
        let level = &mut side[i];
        level.add_order(order);
        proof {
            let ii = i as int;
            assert(pre[ii].price.units() == p.units());
            assert(side@[ii].orders@ == pre[ii].orders@.push(order));
            assert(forall|j: int| 0 <= j < pre.len() && j != ii ==> side@[j] == pre[j]);
        }
    } else {
        let mut level = Limit::new(p);
        level.add_order(order);
        side.insert(i, level);
        proof {
            let ii = i as int;
            // No level sat at `p.units()`: below `i` all are strictly lower,
            // and from `i` on all are strictly higher, since the level at `i`
            // is at least `p` but not equal to it.
            assert forall|j: int| 0 <= j < pre.len() implies pre[j].price.units() != p.units() by {
                if j >= ii {
                    assert(pre[ii].price.units() >= p.units());
                    if pre[ii].price.units() == p.units() {
                        assert(pre[ii].price == p);
                    }
                    if j > ii {
                        assert(pre[ii].price.units() < pre[j].price.units());
                    }
                }
            }
            assert(!has_price(pre, p.units()));
            assert(side@[ii].price == p);
            assert(side@[ii].orders@ =~= seq![order]);
            assert(forall|j: int| 0 <= j < ii ==> side@[j] == pre[j]);
            assert(forall|j: int| ii <= j < pre.len() ==> side@[j + 1] == pre[j]);
            assert forall|x: int, y: int|
                #![trigger side@[x].price, side@[y].price]
                0 <= x < y < side@.len() implies side@[x].price.units()
                < side@[y].price.units() by {
                if x < ii && y > ii {
                    assert(side@[x] == pre[x]);
                    assert(side@[y] == pre[y - 1]);
                    if y - 1 == ii {
                        assert(pre[ii].price.units() > p.units());
                    }
                }
            }
        }
    }
}

/// The minimum price present on a well-formed side is the price of its first
/// level.
proof fn lemma_first_is_min(s: Seq<Limit>)
    requires
        side_wf(s),
        s.len() > 0,
    ensures
        forall|i: int| 0 <= i < s.len() ==> s[0].price.units() <= (#[trigger] s[i].price).units(),
{
}

/// A dual-sided order book for one market. Each side holds its price levels
/// strictly sorted by price, so the one structure serves both as the exact
/// price index and as the priority order for best-price queries.
#[derive(Debug)]
pub struct OrderBook {
    pub bids: Vec<Limit>,
    pub asks: Vec<Limit>,
}

impl OrderBook {
    /// The levels of one side, lowest price first.
    pub open spec fn spec_side(self, s: BidOrAsk) -> Seq<Limit> {
        match s {
            BidOrAsk::Bid => self.bids@,
            BidOrAsk::Ask => self.asks@,
        }
    }

    pub open spec fn spec_bids(self) -> Seq<Limit> {
        self.bids@
    }

    pub open spec fn spec_asks(self) -> Seq<Limit> {
        self.asks@
    }

    /// Both sides are well formed.
    pub open spec fn wf(self) -> bool {
        side_wf(self.bids@) && side_wf(self.asks@)
    }
}

/// How a book changes when one order is added at price `p`: the order's own
/// side changes as `side_after_add` says, and the other side is untouched.
pub open spec fn book_after_add(pre: OrderBook, post: OrderBook, p: Price, o: Order) -> bool {
    &&& side_after_add(pre.spec_side(o.bid_or_ask), post.spec_side(o.bid_or_ask), p, o)
    &&& post.spec_side(opposite(o.bid_or_ask)) == pre.spec_side(opposite(o.bid_or_ask))
}

impl OrderBook {
    /// A book with both sides empty.
    pub fn new() -> (book: OrderBook)
        ensures
            book.wf(),
            book.spec_bids().len() == 0,
            book.spec_asks().len() == 0,
    {
        OrderBook { bids: Vec::new(), asks: Vec::new() }
    }

    /// Quantizes `price`, picks the side named by the order, and files the
    /// order under that price: into the existing level if one is there,
    /// otherwise into a fresh level at the sorted position.
    pub fn add_order(&mut self, price: Decimal, order: Order)
        requires
            old(self).wf(),
            price.wf(),
            price.whole < u64::MAX,
        ensures
            final(self).wf(),
            book_after_add(*old(self), *final(self), price_of(price), order),
    {
        let price_object = Price::new(price);
        match order.bid_or_ask {
            BidOrAsk::Bid => add_to_side(&mut self.bids, price_object, order),
            BidOrAsk::Ask => add_to_side(&mut self.asks, price_object, order),
        }
    }

    /// The lowest bid price present, or nothing when there are no bids.
    pub fn best_bid(&self) -> (r: Option<Price>)
        requires
            self.wf(),
        ensures
            r is Some <==> self.spec_bids().len() > 0,
            r matches Some(p) ==> has_price(self.spec_bids(), p.units()) && p.wf()
                && forall|i: int|
                0 <= i < self.spec_bids().len() ==> p.units()
                    <= #[trigger] self.spec_bids()[i].price.units(),
    {
        if self.bids.len() == 0 {
            None
        } else {
            proof {
                lemma_first_is_min(self.bids@);
            }
            Some(self.bids[0].price)
        }
    }

    /// The highest ask price present, or nothing when there are no asks.
    pub fn best_ask(&self) -> (r: Option<Price>)
        requires
            self.wf(),
        ensures
            r is Some <==> self.spec_asks().len() > 0,
            r matches Some(p) ==> has_price(self.spec_asks(), p.units()) && p.wf()
                && forall|i: int|
                0 <= i < self.spec_asks().len() ==> p.units()
                    >= #[trigger] self.spec_asks()[i].price.units(),
    {
        if self.asks.len() == 0 {
            None
        } else {
            Some(self.asks[self.asks.len() - 1].price)
        }
    }
}

/// On a well-formed side a price pins down its level: two levels with equal
/// units are the same level.
proof fn lemma_price_index_unique(s: Seq<Limit>, i: int, j: int)
    requires
        side_wf(s),
        0 <= i < s.len(),
        0 <= j < s.len(),
        s[i].price.units() == s[j].price.units(),
    ensures
        i == j,
{
}

/// Two orders arriving at one price on one side aggregate: where that price
/// had no level, the side ends up one level larger, and the new level holds
/// exactly the two orders in arrival order.
pub proof fn lemma_same_price_aggregates(
    pre: Seq<Limit>,
    mid: Seq<Limit>,
    post: Seq<Limit>,
    p: Price,
    o1: Order,
    o2: Order,
)
    requires
        side_wf(pre),
        side_wf(mid),
        !has_price(pre, p.units()),
        side_after_add(pre, mid, p, o1),
        side_after_add(mid, post, p, o2),
    ensures
        post.len() == pre.len() + 1,
        exists|i: int|
            0 <= i < post.len() && (#[trigger] post[i].price) == p && post[i].orders@ =~= seq![
                o1,
                o2,
            ],
{
    let i1 = choose|i: int|
        {
            &&& 0 <= i <= pre.len()
            &&& (#[trigger] mid[i].price) == p
            &&& mid[i].orders@ =~= seq![o1]
            &&& forall|j: int| 0 <= j < i ==> mid[j] == pre[j]
            &&& forall|j: int| i <= j < pre.len() ==> mid[j + 1] == pre[j]
        };
    assert(has_price(mid, p.units()));
    let i2 = choose|i: int|
        {
            &&& 0 <= i < mid.len()
            &&& (#[trigger] mid[i].price).units() == p.units()
            &&& post[i].price == mid[i].price
            &&& post[i].orders@ == mid[i].orders@.push(o2)
            &&& forall|j: int| 0 <= j < mid.len() && j != i ==> post[j] == mid[j]
        };
    lemma_price_index_unique(mid, i1, i2);
    assert(post[i1].orders@ =~= seq![o1, o2]);
}

/// Orders arriving at two distinct prices land in two distinct levels, each
/// holding exactly its own order.
pub proof fn lemma_distinct_prices_stay_distinct(
    pre: Seq<Limit>,
    mid: Seq<Limit>,
    post: Seq<Limit>,
    p1: Price,
    p2: Price,
    o1: Order,
    o2: Order,
)
    requires
        side_wf(pre),
        side_wf(mid),
        p1.units() != p2.units(),
        !has_price(pre, p1.units()),
        !has_price(pre, p2.units()),
        side_after_add(pre, mid, p1, o1),
        side_after_add(mid, post, p2, o2),
    ensures
        post.len() == pre.len() + 2,
        exists|i: int|
            0 <= i < post.len() && (#[trigger] post[i].price) == p1 && post[i].orders@ =~= seq![o1],
        exists|i: int|
            0 <= i < post.len() && (#[trigger] post[i].price) == p2 && post[i].orders@ =~= seq![o2],
{
    let i1 = choose|i: int|
        {
            &&& 0 <= i <= pre.len()
            &&& (#[trigger] mid[i].price) == p1
            &&& mid[i].orders@ =~= seq![o1]
            &&& forall|j: int| 0 <= j < i ==> mid[j] == pre[j]
            &&& forall|j: int| i <= j < pre.len() ==> mid[j + 1] == pre[j]
        };
    lemma_add_preserves_prices(pre, mid, p1, o1);
    assert(!has_price(mid, p2.units()));
    let i2 = choose|i: int|
        {
            &&& 0 <= i <= mid.len()
            &&& (#[trigger] post[i].price) == p2
            &&& post[i].orders@ =~= seq![o2]
            &&& forall|j: int| 0 <= j < i ==> post[j] == mid[j]
            &&& forall|j: int| i <= j < mid.len() ==> post[j + 1] == mid[j]
        };
    if i1 < i2 {
        assert(post[i1] == mid[i1]);
    } else {
        assert(post[i1 + 1] == mid[i1]);
    }
}

/// Quantizing the decimal a price reconstructs to gives back the same price:
/// the stored fixed-point value is stable under one round-trip.
pub proof fn lemma_price_round_trip(p: Price)
    requires
        p.wf(),
    ensures
        p.spec_to_decimal().wf(),
        price_of(p.spec_to_decimal()) == p,
{
    let d = p.spec_to_decimal();
    let x = 2 * d.num * SCALE + d.den;
    let den2 = 2 * d.den;
    assert(x == (p.fractional as int) * den2 + SCALE) by (nonlinear_arith)
        requires
            x == 2 * d.num * SCALE + d.den,
            den2 == 2 * d.den,
            d.num == p.fractional,
            d.den == SCALE,
    ;
    lemma_fundamental_div_mod_converse(x, den2, p.fractional as int, SCALE as int);
}

} // verus!
