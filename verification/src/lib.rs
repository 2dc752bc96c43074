//! Risk evaluation and rebalancing for a small portfolio of monitored
//! holdings.
//!
//! Once per cycle the price and the sentiment score of every holding are
//! read through a cache ([`monitor`], [`database`]).  A holding whose price
//! is at or under its floor, or whose sentiment is under a threshold, is sold
//! in full; a holding that is worth more than its largest share of the
//! portfolio is trimmed back to it ([`risk`]).  Every sale is entered in an
//! append-only ledger, and the owner is told of the sales and of every change
//! since the previous cycle that is larger than its threshold ([`cycle`],
//! [`notification`]).
//!
//! Nothing in this crate reads a clock, a file or a network.  Time is a
//! count of seconds that the caller supplies, and what is to be read or sent
//! is handed out as a value for the caller to act on.
//!
//! Numbers are exact.  A price, a quantity, a score, a share or a
//! percentage is an unsigned count of millionths; the value of a position is
//! the product of a quantity and a price, a count of million-millionths
//! ([`fixed`]).  Every contract is stated over these integers, and every
//! comparison is made on the exact products.

pub mod config;
pub mod cycle;
pub mod database;
pub mod display;
pub mod errors;
pub mod exchange;
pub mod fixed;
pub mod monitor;
pub mod notification;
pub mod portfolio;
pub mod quote;
pub mod risk;
pub mod text;
