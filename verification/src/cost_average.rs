//! The allocator contract shared by the ladder strategies and the baseline
//! dollar-cost-averaging strategies, plus the two trivial baselines.
//!
//! An allocator is driven tick by tick: a round budget is declared with
//! `set_supply`, each fixed-length round is opened with `start_new_round`,
//! one price is fed per tick with `feed_price`, and the cumulative invested
//! totals are read back with `get_invest_status`.

use vstd::prelude::*;

use crate::{MAX_PRICE, MAX_SUPPLY, SCALE};

pub mod amm_cost_average;
pub mod amm_cost_average_auto;

pub use amm_cost_average::AMMCostAverage;
pub use amm_cost_average_auto::AMMCostAverageAuto;

verus! {

/// Number of ticks in one funding round.
pub const DAYS_PER_ROUND: usize = 30;

/// The common allocator contract. Every implementation preserves its own
/// well-formedness invariant, accepts one price per tick while it still
/// has room to run (`can_feed`), and reports its cumulative
/// `(cash invested, coin units bought)` exactly.
pub trait CostAverageMethodTrait: Sized {
    /// Well-formedness of the allocator's state; constructors establish it
    /// and every method preserves it.
    spec fn wf(&self) -> bool;

    /// Whether the allocator can absorb one more price tick without
    /// exceeding its machine limits.
    spec fn can_feed(&self) -> bool;

    /// The cumulative `(cash invested, coin units bought)` since
    /// construction.
    spec fn invest_totals(&self) -> (u64, u128);

    /// Declares the total budget for the upcoming round; resets any
    /// round-scoped reserve.
    fn set_supply(&mut self, amount: u64)
        requires
            old(self).wf(),
            amount <= MAX_SUPPLY,
        ensures
            final(self).wf(),
    ;

    /// Signals the start of a funding round, which always spans exactly
    /// `DAYS_PER_ROUND` ticks.
    fn start_new_round(&mut self, ticks: usize)
        requires
            old(self).wf(),
            ticks == DAYS_PER_ROUND,
        ensures
            final(self).wf(),
    ;

    /// Advances simulated time by one tick with the observed price.
    fn feed_price(&mut self, price: u64)
        requires
            old(self).wf(),
            old(self).can_feed(),
            1 <= price,
            price <= MAX_PRICE,
        ensures
            final(self).wf(),
    ;

    /// Returns the cumulative invested totals since construction.
    fn get_invest_status(&self) -> (r: (u64, u128))
        requires
            self.wf(),
        ensures
            r == self.invest_totals(),
    ;
}

/// Baseline: invests the whole round budget at the first price of each
/// round and then idles until the next round starts.
#[derive(Default)]
pub struct DollarCostAverage {
    /// Budget of the current round, in fixed-point cash units.
    pub amount_round: u64,
    /// Total cash invested so far.
    pub total_cash: u64,
    /// Total coin units bought so far.
    pub total_coins: u128,
    /// `0` exactly when the next fed price opens a round.
    pub tick: i32,
}

impl CostAverageMethodTrait for DollarCostAverage {
    open spec fn wf(&self) -> bool {
        self.amount_round <= MAX_SUPPLY
    }

    open spec fn can_feed(&self) -> bool {
        &&& self.total_cash + MAX_SUPPLY <= u64::MAX
        &&& self.total_coins + MAX_SUPPLY * SCALE <= u128::MAX
    }

    open spec fn invest_totals(&self) -> (u64, u128) {
        (self.total_cash, self.total_coins)
    }

    fn set_supply(&mut self, amount: u64)
        ensures
            final(self).amount_round == amount,
            final(self).total_cash == old(self).total_cash,
            final(self).total_coins == old(self).total_coins,
            final(self).tick == old(self).tick,
    {
        self.amount_round = amount;
    }

    fn start_new_round(&mut self, _ticks: usize)
        ensures
            final(self).tick == 0,
            final(self).amount_round == old(self).amount_round,
            final(self).total_cash == old(self).total_cash,
            final(self).total_coins == old(self).total_coins,
    {
        self.tick = 0;
    }

    fn feed_price(&mut self, price: u64)
        ensures
            old(self).tick == 0 ==> final(self).total_cash == old(self).total_cash + old(
                self,
            ).amount_round && final(self).total_coins == old(self).total_coins + (old(
                self,
            ).amount_round as int) * (SCALE as int) / (price as int) && final(self).tick == -1,
            old(self).tick != 0 ==> *final(self) == *old(self),
            final(self).amount_round == old(self).amount_round,
    {
        if self.tick == 0 {
            self.total_cash = self.total_cash + self.amount_round;
            self.total_coins = self.total_coins + ((self.amount_round * SCALE / price) as u128);
            self.tick = -1;
        }
    }

    fn get_invest_status(&self) -> (r: (u64, u128)) {
        (self.total_cash, self.total_coins)
    }
}

/// Baseline: invests an equal share of the round budget at every tick.
#[derive(Default)]
pub struct DailyDollarCostAverage {
    /// Budget of the current round, in fixed-point cash units.
    pub amount_round: u64,
    /// Total cash invested so far.
    pub total_cash: u64,
    /// Total coin units bought so far.
    pub total_coins: u128,
    /// Length of the current round in ticks; zero until a round starts.
    pub ticks: u64,
}

impl CostAverageMethodTrait for DailyDollarCostAverage {
    open spec fn wf(&self) -> bool {
        self.amount_round <= MAX_SUPPLY
    }

    open spec fn can_feed(&self) -> bool {
        &&& 1 <= self.ticks
        &&& self.total_cash + MAX_SUPPLY <= u64::MAX
        &&& self.total_coins + MAX_SUPPLY * SCALE <= u128::MAX
    }

    open spec fn invest_totals(&self) -> (u64, u128) {
        (self.total_cash, self.total_coins)
    }

    fn set_supply(&mut self, amount: u64)
        ensures
            final(self).amount_round == amount,
            final(self).total_cash == old(self).total_cash,
            final(self).total_coins == old(self).total_coins,
            final(self).ticks == old(self).ticks,
    {
        self.amount_round = amount;
    }

    fn start_new_round(&mut self, ticks: usize)
        ensures
            final(self).ticks == ticks,
            final(self).amount_round == old(self).amount_round,
            final(self).total_cash == old(self).total_cash,
            final(self).total_coins == old(self).total_coins,
    {
        self.ticks = ticks as u64;
    }

    fn feed_price(&mut self, price: u64)
        ensures
            final(self).total_cash == old(self).total_cash + old(self).amount_round / old(
                self,
            ).ticks,
            final(self).total_coins == old(self).total_coins + ((old(self).amount_round / old(
                self,
            ).ticks) as int) * (SCALE as int) / (price as int),
            final(self).amount_round == old(self).amount_round,
            final(self).ticks == old(self).ticks,
    {
        let daily = self.amount_round / self.ticks;
        self.total_cash = self.total_cash + daily;
        self.total_coins = self.total_coins + ((daily * SCALE / price) as u128);
    }

    fn get_invest_status(&self) -> (r: (u64, u128)) {
        (self.total_cash, self.total_coins)
    }
}

} // verus!
