//! Trade-to-position aggregation.
//!
//! Given a collection of trade fills (in any order) for a set of instruments,
//! the library sorts them by identifier, replays them against one running
//! position per instrument, and produces realized profit-and-loss for every
//! closed position segment plus unrealized profit-and-loss for positions
//! still open at the end of the stream, valued against supplied mark prices.
//! Prices and sizes are signed fixed-point integers with 18 implied decimal
//! places; products of two such values carry 36.

pub mod aggregate;
pub mod fixed;
pub mod format;
pub mod laws;
pub mod parse;
pub mod sort;
pub mod types;
