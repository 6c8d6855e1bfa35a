//! A fixed-point simulation of a laddered, self-rebalancing capital
//! allocation strategy.
//!
//! Every monetary quantity (cash, coin balances, prices) and every ratio is
//! held in fixed-point units of `1 / SCALE`: the value `12_345` stands for
//! `1.2345`. Ratios such as a target cash fraction of `0.8` are written
//! `8_000`. This keeps the whole simulation in machine integers, so the
//! arithmetic can be verified end to end: no operation overflows, holdings
//! never go negative, and trading never creates value out of thin air.

use vstd::prelude::*;

pub mod amm;
pub mod cost_average;

verus! {

/// Number of fixed-point units per whole unit (four decimal places).
pub const SCALE: u64 = 10_000;

/// Largest representable price of one coin, in fixed-point units.
pub const MAX_PRICE: u64 = 1_000_000_000_000;

/// Largest total value (cash plus coins at the position's own last price)
/// a single position may hold, in fixed-point cash units. Daily funding is
/// saturated at this bound, so every position stays within it.
pub const MAX_POSITION_VALUE: u64 = 1_000_000_000_000;

/// Largest coin balance a single position can accumulate. Buying is only
/// possible at prices of at least one fixed-point unit, so a position worth
/// at most `MAX_POSITION_VALUE` never holds more than
/// `MAX_POSITION_VALUE * SCALE` coin units.
pub const MAX_COINS: u64 = 10_000_000_000_000_000;

/// Largest budget that one round may supply, in fixed-point cash units.
pub const MAX_SUPPLY: u64 = 1_000_000_000_000;

/// Largest number of price ticks an allocator accepts over its lifetime.
pub const MAX_TICKS: usize = 1_000_000;

/// A list of executed purchases: `(price, coin units bought)`.
pub type BuyLogs = Vec<(u64, u64)>;

/// A list of executed sales: `(price, negated coin units sold)`.
pub type SellLogs = Vec<(u64, i64)>;

} // verus!
