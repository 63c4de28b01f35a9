//! Core of a limit-order matching venue: a fixed-point price type, price
//! levels that aggregate resting orders, a dual-sided order book with
//! best-price queries, and a router that maps trading pairs to books.

pub mod decimal;
pub mod engine;
pub mod orderbook;
