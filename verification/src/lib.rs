//! Retirement decumulation simulator.
//!
//! Simulates drawing down a set of financial accounts over a bounded
//! retirement horizon and searches for the largest sustainable yearly
//! expense level.  All quantities (money, rates, ages) are fixed-point
//! values in micro-units: the integer `1_000_000` stands for `1.0`.

pub mod asset;
pub mod config;
pub mod fixed;
pub mod income;
pub mod market;
pub mod sim;
pub mod user;
