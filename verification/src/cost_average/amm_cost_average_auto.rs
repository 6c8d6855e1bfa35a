//! The adaptive ladder: the same lifecycle as the base ladder, but the
//! daily funding is corrected by a feedback term computed from the gap
//! between the cash that should have been invested by now and the cash
//! that actually converted into coins, plus a correction of the configured
//! use ratio against the realized over-investment ratio. The corrected
//! funding is clamped to `[0, MAX_POSITION_VALUE]` — in particular it is
//! never negative, however large the correction terms get.

use vstd::prelude::*;

use crate::amm::{buy_log_ints, AMMBuyBear};
use crate::cost_average::amm_cost_average::{
    amm_buy_rel,
    base_funding,
    lemma_sum_cash_nonnegative,
    lemma_sum_coins_nonnegative,
    lemma_sum_funding_prefix_bounds,
    lemma_sum_funding_prefix_push,
    lemma_sum_push,
    lemma_sum_update,
    sum_funding_prefix,
    sum_position_cash,
    sum_position_coins,
    trade_logs_from_top,
};
use crate::cost_average::{CostAverageMethodTrait, DAYS_PER_ROUND};
use crate::{BuyLogs, MAX_POSITION_VALUE, MAX_PRICE, MAX_SUPPLY, MAX_TICKS, SCALE};

verus! {

/// Signed division with truncation toward zero on a positive divisor, the
/// behaviour of the executable machine division.
pub open spec fn div_trunc(a: int, b: int) -> int {
    if a >= 0 {
        a / b
    } else {
        -((-a) / b)
    }
}

/// The realized over-investment ratio, in `1 / SCALE` units: the share of
/// the matured positions' funding that converted into coins, measured
/// against the share `1 - ratio` that the configuration expected; zero
/// when no cash was ever put in.
pub open spec fn over_invest_ratio(cash_put: int, returned: int, ratio: int) -> int {
    let s = SCALE as int;
    if cash_put > 0 {
        (cash_put - returned) * s * s / (cash_put * (s - ratio))
    } else {
        0
    }
}

/// The funding an adaptive ladder allocates on one tick. Before the first
/// position has matured this is the base funding. Afterwards two additive
/// corrections are applied — a catch-up term driven by the gap between the
/// expected spend to date and the realized investment, and a term
/// correcting the configured use ratio by the realized over-investment
/// ratio — and the result is clamped to `[0, MAX_POSITION_VALUE]`.
pub open spec fn adaptive_funding(
    amount_round: int,
    use_ratio: int,
    ratio: int,
    reinvest: int,
    tick: int,
    horizon: int,
    cash_put: int,
    returned: int,
) -> int {
    let s = SCALE as int;
    let basic = amount_round / (DAYS_PER_ROUND as int);
    let base = basic * use_ratio / (s - ratio);
    let over = over_invest_ratio(cash_put, returned, ratio);
    let raw = if tick <= horizon || cash_put <= 0 || over <= 0 {
        base
    } else {
        let invested = cash_put - returned;
        let expected = basic * (tick - horizon + 1);
        let difference = expected - invested;
        let catch_up = div_trunc(difference * reinvest, s);
        let ratio_fix = basic * (s * s * s / (over * use_ratio)) / s - basic;
        base + div_trunc((catch_up + ratio_fix) * use_ratio, s - ratio)
    };
    if raw < 0 {
        0
    } else if raw > MAX_POSITION_VALUE {
        MAX_POSITION_VALUE as int
    } else {
        raw
    }
}

/// The realized over-investment ratio is a fraction of the funding over a
/// positive leverage, so it stays within `[0, SCALE * SCALE]`.
pub proof fn lemma_over_invest_ratio_bounds(cash_put: int, returned: int, ratio: int)
    requires
        0 <= returned,
        returned <= cash_put,
        0 <= ratio < SCALE,
    ensures
        0 <= over_invest_ratio(cash_put, returned, ratio),
        over_invest_ratio(cash_put, returned, ratio) <= (SCALE as int) * (SCALE as int),
{
    let s = SCALE as int;
    if cash_put > 0 {
        let invested = cash_put - returned;
        let den = cash_put * (s - ratio);
        vstd::arithmetic::mul::lemma_mul_inequality(1, s - ratio, cash_put);
        vstd::arithmetic::mul::lemma_mul_is_commutative(cash_put, s - ratio);
        vstd::arithmetic::mul::lemma_mul_nonnegative(invested, s);
        vstd::arithmetic::mul::lemma_mul_nonnegative(invested * s, s);
        vstd::arithmetic::div_mod::lemma_div_is_ordered(0, invested * s * s, den);
        vstd::arithmetic::mul::lemma_mul_inequality(invested, cash_put, s * s);
        vstd::arithmetic::mul::lemma_mul_is_commutative(invested, s * s);
        vstd::arithmetic::mul::lemma_mul_is_commutative(cash_put, s * s);
        assert(invested * s * s == invested * (s * s)) by {
            vstd::arithmetic::mul::lemma_mul_is_associative(invested, s, s);
        }
        vstd::arithmetic::mul::lemma_mul_inequality(cash_put, den, s * s);
        vstd::arithmetic::div_mod::lemma_div_is_ordered(invested * s * s, den * (s * s), den);
        vstd::arithmetic::div_mod::lemma_div_multiples_vanish(s * s, den);
        vstd::arithmetic::mul::lemma_mul_is_commutative(den, s * s);
    }
}

/// Law: the adaptive funding is never negative (and never exceeds the
/// per-position cap), whatever the magnitude of the correction terms.
pub proof fn lemma_adaptive_funding_nonnegative(
    amount_round: int,
    use_ratio: int,
    ratio: int,
    reinvest: int,
    tick: int,
    horizon: int,
    cash_put: int,
    returned: int,
)
    ensures
        0 <= adaptive_funding(
            amount_round,
            use_ratio,
            ratio,
            reinvest,
            tick,
            horizon,
            cash_put,
            returned,
        ) <= MAX_POSITION_VALUE,
{
}

/// The adaptive ladder allocator.
pub struct AMMCostAverageAuto {
    /// Funding handed to the position created at each tick, in order.
    pub amm_put_cash: Vec<u64>,
    /// Total cash reclaimed from matured positions.
    pub total_amm_returned_cash: u64,
    /// Number of positions that have matured.
    pub finished_amms: usize,
    /// Reclaimed cash of the last matured position minus the daily budget.
    pub last_amm_uninvested: i128,
    /// Total cash converted into coins across all positions ever.
    pub cash_invested: u64,
    /// Total coin units bought across all positions ever.
    pub coins_invested: u128,
    /// Centrally held cash: accrued funding shortfalls plus reclaimed
    /// capital; can run negative when funding exceeds the daily budget.
    pub cash_reserve: i128,
    /// Fraction of leveraged funding expected to convert, in `1 / SCALE`.
    pub est_dca_cash_use_ratio: u64,
    /// Budget of the current round, in fixed-point cash units.
    pub amount_round: u64,
    /// Lifetime of each position, in ticks.
    pub amm_ticks_to_expire: usize,
    /// Number of prices fed so far.
    pub tick: usize,
    /// Target cash fraction of every position, in `1 / SCALE`.
    pub rebalance_cash_ratio: u64,
    /// Staircase step of every position, in `1 / SCALE`.
    pub rebalance_step_percentage: u64,
    /// The live positions, oldest first.
    pub amms: Vec<AMMBuyBear>,
    /// Every trade executed by any position, newest position first within
    /// each tick.
    pub buy_logs: BuyLogs,
    /// The price fed most recently.
    pub last_price: u64,
    /// Share of the past investment gap folded back into each day's
    /// funding, in `1 / SCALE` units.
    pub past_uninvested_reinvest_daily_percentage: u64,
}

impl AMMCostAverageAuto {
    /// Creates an idle adaptive ladder with the given configuration.
    pub fn new(
        est_dca_cash_use_ratio: u64,
        rebalance_cash_ratio: u64,
        rebalance_step_percentage: u64,
        amm_ticks_to_expire: usize,
        past_uninvested_reinvest_daily_percentage: u64,
    ) -> (r: Self)
        requires
            1 <= est_dca_cash_use_ratio,
            est_dca_cash_use_ratio <= SCALE,
            rebalance_cash_ratio < SCALE,
            rebalance_step_percentage <= SCALE,
            1 <= amm_ticks_to_expire,
            amm_ticks_to_expire <= MAX_TICKS,
            past_uninvested_reinvest_daily_percentage <= SCALE,
        ensures
            r.wf(),
            r.can_feed(),
            r.tick == 0,
            r.amms@.len() == 0,
            r.amm_put_cash@.len() == 0,
            r.buy_logs@.len() == 0,
            r.cash_invested == 0,
            r.coins_invested == 0,
            r.cash_reserve == 0,
            r.total_amm_returned_cash == 0,
            r.finished_amms == 0,
            r.amount_round == 0,
            r.est_dca_cash_use_ratio == est_dca_cash_use_ratio,
            r.rebalance_cash_ratio == rebalance_cash_ratio,
            r.rebalance_step_percentage == rebalance_step_percentage,
            r.amm_ticks_to_expire == amm_ticks_to_expire,
            r.past_uninvested_reinvest_daily_percentage
                == past_uninvested_reinvest_daily_percentage,
    {
        Self {
            amm_put_cash: Vec::new(),
            total_amm_returned_cash: 0,
            finished_amms: 0,
            last_amm_uninvested: 0,
            cash_invested: 0,
            coins_invested: 0,
            rebalance_cash_ratio,
            rebalance_step_percentage,
            est_dca_cash_use_ratio,
            amm_ticks_to_expire,
            tick: 0,
            cash_reserve: 0,
            amount_round: 0,
            amms: Vec::new(),
            buy_logs: Vec::new(),
            last_price: 0,
            past_uninvested_reinvest_daily_percentage,
        }
    }

    /// The daily share of the round budget.
    pub fn basic_cash_per_day(&self) -> (r: u64)
        ensures
            r == self.amount_round / (DAYS_PER_ROUND as u64),
    {
        self.amount_round / (DAYS_PER_ROUND as u64)
    }

    /// Cash not converted into coins yet: the central reserve plus the
    /// cash still held inside queued positions.
    #[verifier::loop_isolation(false)]
    pub fn cash_unused(&self) -> (r: i128)
        requires
            self.wf(),
        ensures
            r == self.cash_reserve + sum_position_cash(self.amms@),
    {
        let mut cash_unused: i128 = self.cash_reserve;
        let mut i: usize = 0;
        proof {
            assert(self.amms@.skip(0) =~= self.amms@);
        }
        while i < self.amms.len()
            invariant
                i <= self.amms@.len(),
                cash_unused == self.cash_reserve + sum_position_cash(self.amms@)
                    - sum_position_cash(self.amms@.skip(i as int)),
            decreases self.amms@.len() - i,
        {
            proof {
                assert(self.amms@.skip(i as int)[0] == self.amms@[i as int]);
                assert(self.amms@.skip(i as int).skip(1) =~= self.amms@.skip(i as int + 1));
                lemma_sum_cash_nonnegative(self.amms@.skip(i as int));
                lemma_sum_cash_nonnegative(self.amms@.skip(i as int + 1));
                lemma_auto_reserve_and_sums_bounded(self);
            }
            cash_unused = cash_unused + (self.amms[i].cash as i128);
            i = i + 1;
        }
        proof {
            assert(self.amms@.skip(self.amms@.len() as int) =~= Seq::<AMMBuyBear>::empty());
        }
        cash_unused
    }

    /// Utilization of the positions that have already matured:
    /// `(cash put in, cash converted into coins, average converted per
    /// position, realized over-investment ratio in 1 / SCALE units)`.
    /// Returns `None` until the first position has matured; the ratio is
    /// reported as zero when no cash was ever put in. The preconditions
    /// are the bookkeeping bounds of the ladder invariant, so the funding
    /// computation may call this while a tick is in progress.
    #[verifier::loop_isolation(false)]
    pub fn past_amm_cash_utilization(&self) -> (r: Option<(u64, u64, u64, u64)>)
        requires
            self.finished_amms <= self.amm_put_cash@.len(),
            self.amm_put_cash@.len() <= MAX_TICKS,
            forall|j: int|
                0 <= j < self.amm_put_cash@.len() ==> #[trigger] self.amm_put_cash@[j]
                    <= MAX_POSITION_VALUE,
            self.total_amm_returned_cash <= sum_funding_prefix(
                self.amm_put_cash@,
                self.finished_amms as int,
            ),
            self.rebalance_cash_ratio < SCALE,
            self.tick > self.amm_ticks_to_expire ==> self.finished_amms >= 1,
        ensures
            r.is_some() <==> self.tick > self.amm_ticks_to_expire,
            ({
                let cash_put = sum_funding_prefix(self.amm_put_cash@, self.finished_amms as int);
                let invested = cash_put - self.total_amm_returned_cash;
                let avg = invested / (self.finished_amms as int);
                let over = over_invest_ratio(
                    cash_put,
                    self.total_amm_returned_cash as int,
                    self.rebalance_cash_ratio as int,
                );
                self.tick > self.amm_ticks_to_expire ==> r == Some(
                    (cash_put as u64, invested as u64, avg as u64, over as u64),
                )
            }),
    {
        if self.tick <= self.amm_ticks_to_expire {
            return None;
        }
        let ghost f = self.finished_amms as int;
        proof {
            lemma_sum_funding_prefix_bounds(self.amm_put_cash@, f);
            vstd::arithmetic::mul::lemma_mul_inequality(
                f,
                MAX_TICKS as int,
                MAX_POSITION_VALUE as int,
            );
        }
        let mut cash_put: u64 = 0;
        let mut i: usize = 0;
        while i < self.finished_amms
            invariant
                i <= self.finished_amms,
                cash_put == sum_funding_prefix(self.amm_put_cash@, i as int),
            decreases self.finished_amms - i,
        {
            proof {
                lemma_sum_funding_prefix_bounds(self.amm_put_cash@, i as int);
                vstd::arithmetic::mul::lemma_mul_inequality(
                    i as int,
                    MAX_TICKS as int,
                    MAX_POSITION_VALUE as int,
                );
            }
            cash_put = cash_put + self.amm_put_cash[i];
            i = i + 1;
        }
        let invested = cash_put - self.total_amm_returned_cash;
        let average = invested / (self.finished_amms as u64);
        let over: u64 = if cash_put > 0 {
            proof {
                let s = SCALE as int;
                vstd::arithmetic::mul::lemma_mul_upper_bound(
                    invested as int,
                    (MAX_TICKS as int) * (MAX_POSITION_VALUE as int),
                    s,
                    s,
                );
                vstd::arithmetic::mul::lemma_mul_upper_bound(
                    (invested as int) * s,
                    (MAX_TICKS as int) * (MAX_POSITION_VALUE as int) * s,
                    s,
                    s,
                );
                vstd::arithmetic::mul::lemma_mul_upper_bound(
                    cash_put as int,
                    (MAX_TICKS as int) * (MAX_POSITION_VALUE as int),
                    s - (self.rebalance_cash_ratio as int),
                    s,
                );
                vstd::arithmetic::mul::lemma_mul_inequality(1, s - (
                self.rebalance_cash_ratio as int), cash_put as int);
                vstd::arithmetic::mul::lemma_mul_is_commutative(
                    cash_put as int,
                    s - (self.rebalance_cash_ratio as int),
                );
                vstd::arithmetic::mul::lemma_mul_inequality(invested as int, cash_put as int, s * s);
                vstd::arithmetic::mul::lemma_mul_is_commutative(invested as int, s * s);
                assert((invested as int) * s * s == (invested as int) * (s * s)) by {
                    vstd::arithmetic::mul::lemma_mul_is_associative(invested as int, s, s);
                }
                vstd::arithmetic::mul::lemma_mul_inequality(
                    cash_put as int,
                    (cash_put as int) * (s - (self.rebalance_cash_ratio as int)),
                    s * s,
                );
                vstd::arithmetic::div_mod::lemma_div_is_ordered(
                    (invested as int) * s * s,
                    ((cash_put as int) * (s - (self.rebalance_cash_ratio as int))) * (s * s),
                    (cash_put as int) * (s - (self.rebalance_cash_ratio as int)),
                );
                vstd::arithmetic::div_mod::lemma_div_multiples_vanish(
                    s * s,
                    (cash_put as int) * (s - (self.rebalance_cash_ratio as int)),
                );
                vstd::arithmetic::mul::lemma_mul_is_commutative(
                    (cash_put as int) * (s - (self.rebalance_cash_ratio as int)),
                    s * s,
                );
            }
            let num: u128 = (invested as u128) * (SCALE as u128) * (SCALE as u128);
            let den: u128 = (cash_put as u128) * ((SCALE - self.rebalance_cash_ratio) as u128);
            (num / den) as u64
        } else {
            0
        };
        Some((cash_put, invested, average, over))
    }

    /// Computes today's corrected funding, accrues the shortfall against
    /// the daily budget into the central reserve, and records the funding
    /// in the history.
    fn amm_cash_today(&mut self) -> (r: u64)
        requires
            old(self).amount_round <= MAX_SUPPLY,
            old(self).rebalance_cash_ratio < SCALE,
            1 <= old(self).est_dca_cash_use_ratio,
            old(self).est_dca_cash_use_ratio <= SCALE,
            old(self).past_uninvested_reinvest_daily_percentage <= SCALE,
            -4_000_000_000_000_000_000 <= old(self).cash_reserve,
            old(self).cash_reserve <= 4_000_000_000_000_000_000,
            old(self).finished_amms <= old(self).amm_put_cash@.len(),
            old(self).amm_put_cash@.len() <= MAX_TICKS,
            old(self).tick <= MAX_TICKS,
            old(self).amm_ticks_to_expire >= 1,
            forall|j: int|
                0 <= j < old(self).amm_put_cash@.len() ==> #[trigger] old(self).amm_put_cash@[j]
                    <= MAX_POSITION_VALUE,
            old(self).total_amm_returned_cash <= sum_funding_prefix(
                old(self).amm_put_cash@,
                old(self).finished_amms as int,
            ),
            old(self).tick > old(self).amm_ticks_to_expire ==> old(self).finished_amms >= 1,
        ensures
            r == adaptive_funding(
                old(self).amount_round as int,
                old(self).est_dca_cash_use_ratio as int,
                old(self).rebalance_cash_ratio as int,
                old(self).past_uninvested_reinvest_daily_percentage as int,
                old(self).tick as int,
                old(self).amm_ticks_to_expire as int,
                sum_funding_prefix(old(self).amm_put_cash@, old(self).finished_amms as int),
                old(self).total_amm_returned_cash as int,
            ),
            r <= MAX_POSITION_VALUE,
            final(self).amm_put_cash@ == old(self).amm_put_cash@.push(r),
            final(self).cash_reserve == old(self).cash_reserve + (old(self).amount_round / (
            DAYS_PER_ROUND as u64)) - r,
            final(self).total_amm_returned_cash == old(self).total_amm_returned_cash,
            final(self).finished_amms == old(self).finished_amms,
            final(self).last_amm_uninvested == old(self).last_amm_uninvested,
            final(self).cash_invested == old(self).cash_invested,
            final(self).coins_invested == old(self).coins_invested,
            final(self).est_dca_cash_use_ratio == old(self).est_dca_cash_use_ratio,
            final(self).amount_round == old(self).amount_round,
            final(self).amm_ticks_to_expire == old(self).amm_ticks_to_expire,
            final(self).tick == old(self).tick,
            final(self).rebalance_cash_ratio == old(self).rebalance_cash_ratio,
            final(self).rebalance_step_percentage == old(self).rebalance_step_percentage,
            final(self).amms == old(self).amms,
            final(self).buy_logs == old(self).buy_logs,
            final(self).last_price == old(self).last_price,
            final(self).past_uninvested_reinvest_daily_percentage == old(
                self,
            ).past_uninvested_reinvest_daily_percentage,
    {
        let basic = self.amount_round / (DAYS_PER_ROUND as u64);
        proof {
            vstd::arithmetic::mul::lemma_mul_upper_bound(
                basic as int,
                MAX_SUPPLY as int,
                self.est_dca_cash_use_ratio as int,
                SCALE as int,
            );
            vstd::arithmetic::div_mod::lemma_div_is_ordered(
                self.amount_round as int,
                MAX_SUPPLY as int,
                DAYS_PER_ROUND as int,
            );
            lemma_sum_funding_prefix_bounds(self.amm_put_cash@, self.finished_amms as int);
            vstd::arithmetic::mul::lemma_mul_inequality(
                self.finished_amms as int,
                MAX_TICKS as int,
                MAX_POSITION_VALUE as int,
            );
            lemma_over_invest_ratio_bounds(
                sum_funding_prefix(self.amm_put_cash@, self.finished_amms as int),
                self.total_amm_returned_cash as int,
                self.rebalance_cash_ratio as int,
            );
        }
        let raw_base = basic * self.est_dca_cash_use_ratio / (SCALE - self.rebalance_cash_ratio);
        let mut cash_day_i: i128 = raw_base as i128;

        if self.tick > self.amm_ticks_to_expire {
            let util = self.past_amm_cash_utilization();
            let quad = util.unwrap();
            let cash_put = quad.0;
            let invested = quad.1;
            let over = quad.3;
            if cash_put > 0 && over > 0 {
                let n = self.tick - self.amm_ticks_to_expire + 1;
                proof {
                    vstd::arithmetic::mul::lemma_mul_upper_bound(
                        basic as int,
                        MAX_SUPPLY as int,
                        n as int,
                        MAX_TICKS as int + 1,
                    );
                }
                let expected: i128 = (basic as i128) * (n as i128);
                let difference: i128 = expected - (invested as i128);
                let reinvest = self.past_uninvested_reinvest_daily_percentage;
                proof {
                    if difference >= 0 {
                        vstd::arithmetic::mul::lemma_mul_upper_bound(
                            difference as int,
                            5_000_000_000_000_000_000,
                            reinvest as int,
                            SCALE as int,
                        );
                        vstd::arithmetic::mul::lemma_mul_nonnegative(
                            difference as int,
                            reinvest as int,
                        );
                    } else {
                        vstd::arithmetic::mul::lemma_mul_upper_bound(
                            -(difference as int),
                            5_000_000_000_000_000_000,
                            reinvest as int,
                            SCALE as int,
                        );
                        vstd::arithmetic::mul::lemma_mul_nonnegative(
                            -(difference as int),
                            reinvest as int,
                        );
                        vstd::arithmetic::mul::lemma_mul_unary_negation(
                            difference as int,
                            reinvest as int,
                        );
                    }
                }
                let catch_up: i128 = if difference >= 0 {
                    (difference * (reinvest as i128)) / (SCALE as i128)
                } else {
                    -(((-difference) * (reinvest as i128)) / (SCALE as i128))
                };
                proof {
                    lemma_over_invest_ratio_bounds(
                        sum_funding_prefix(self.amm_put_cash@, self.finished_amms as int),
                        self.total_amm_returned_cash as int,
                        self.rebalance_cash_ratio as int,
                    );
                    vstd::arithmetic::mul::lemma_mul_upper_bound(
                        over as int,
                        (SCALE as int) * (SCALE as int),
                        self.est_dca_cash_use_ratio as int,
                        SCALE as int,
                    );
                    vstd::arithmetic::mul::lemma_mul_inequality(
                        1,
                        self.est_dca_cash_use_ratio as int,
                        over as int,
                    );
                    vstd::arithmetic::mul::lemma_mul_is_commutative(
                        over as int,
                        self.est_dca_cash_use_ratio as int,
                    );
                }
                let t_inv: u64 = SCALE * SCALE * SCALE / (over * self.est_dca_cash_use_ratio);
                proof {
                    vstd::arithmetic::div_mod::lemma_div_is_ordered_by_denominator(
                        (SCALE as int) * (SCALE as int) * (SCALE as int),
                        1,
                        (over as int) * (self.est_dca_cash_use_ratio as int),
                    );
                    vstd::arithmetic::mul::lemma_mul_upper_bound(
                        basic as int,
                        MAX_SUPPLY as int,
                        t_inv as int,
                        2_000_000_000_000,
                    );
                }
                let ratio_fix: i128 = ((basic as i128) * (t_inv as i128)) / (SCALE as i128) - (
                basic as i128);
                let adjust: i128 = catch_up + ratio_fix;
                let use_r = self.est_dca_cash_use_ratio;
                let lev = SCALE - self.rebalance_cash_ratio;
                proof {
                    if adjust >= 0 {
                        vstd::arithmetic::mul::lemma_mul_upper_bound(
                            adjust as int,
                            200_000_000_000_000_000_000_000,
                            use_r as int,
                            SCALE as int,
                        );
                        vstd::arithmetic::mul::lemma_mul_nonnegative(adjust as int, use_r as int);
                    } else {
                        vstd::arithmetic::mul::lemma_mul_upper_bound(
                            -(adjust as int),
                            200_000_000_000_000_000_000_000,
                            use_r as int,
                            SCALE as int,
                        );
                        vstd::arithmetic::mul::lemma_mul_nonnegative(-(adjust as int), use_r as int);
                        vstd::arithmetic::mul::lemma_mul_unary_negation(adjust as int, use_r as int);
                    }
                }
                let corr: i128 = if adjust >= 0 {
                    (adjust * (use_r as i128)) / (lev as i128)
                } else {
                    -(((-adjust) * (use_r as i128)) / (lev as i128))
                };
                cash_day_i = cash_day_i + corr;
            }
        }

        let cash_day: u64 = if cash_day_i < 0 {
            0
        } else if cash_day_i > (MAX_POSITION_VALUE as i128) {
            MAX_POSITION_VALUE
        } else {
            cash_day_i as u64
        };
        self.cash_reserve = self.cash_reserve + (basic as i128) - (cash_day as i128);
        self.amm_put_cash.push(cash_day);
        cash_day
    }
}

/// Under the adaptive ladder invariant, the queue sums and the reserve
/// stay below fixed machine bounds.
pub proof fn lemma_auto_reserve_and_sums_bounded(l: &AMMCostAverageAuto)
    requires
        l.wf(),
    ensures
        0 <= sum_position_cash(l.amms@),
        sum_position_cash(l.amms@) + l.cash_invested + l.total_amm_returned_cash <= (
        MAX_TICKS as int) * (MAX_POSITION_VALUE as int),
        0 <= sum_position_coins(l.amms@),
        -4_000_000_000_000_000_000 <= l.cash_reserve,
        l.cash_reserve <= 4_000_000_000_000_000_000,
{
    lemma_sum_cash_nonnegative(l.amms@);
    lemma_sum_coins_nonnegative(l.amms@);
    lemma_sum_funding_prefix_bounds(l.amm_put_cash@, l.tick as int);
    vstd::arithmetic::mul::lemma_mul_inequality(
        l.tick as int,
        MAX_TICKS as int,
        MAX_POSITION_VALUE as int,
    );
    vstd::arithmetic::mul::lemma_mul_inequality(
        l.tick as int,
        MAX_TICKS as int,
        3 * (MAX_POSITION_VALUE as int),
    );
    vstd::arithmetic::mul::lemma_mul_is_commutative(l.tick as int, 3 * (MAX_POSITION_VALUE as int));
    vstd::arithmetic::mul::lemma_mul_is_commutative(
        MAX_TICKS as int,
        3 * (MAX_POSITION_VALUE as int),
    );
    assert(3 * (MAX_POSITION_VALUE as int) * (l.tick as int) <= 3 * (MAX_POSITION_VALUE as int) * (
    MAX_TICKS as int));
}

impl CostAverageMethodTrait for AMMCostAverageAuto {
    /// The same shape as the base ladder's invariant: lifecycle counters,
    /// queue shape and exact cash conservation.
    open spec fn wf(&self) -> bool {
        let t = self.tick as int;
        let h = self.amm_ticks_to_expire as int;
        let f = self.finished_amms as int;
        &&& 1 <= h <= MAX_TICKS
        &&& t <= MAX_TICKS
        &&& self.amm_put_cash@.len() == t
        &&& f == (if t >= h {
            t - h
        } else {
            0
        })
        &&& self.amms@.len() == t - f
        &&& (forall|i: int| 0 <= i < self.amms@.len() ==> (#[trigger] self.amms@[i]).wf())
        &&& (forall|i: int|
            0 <= i < self.amms@.len() ==> (#[trigger] self.amms@[i]).tick_to_expire == f + i + h)
        &&& (forall|i: int|
            0 <= i < self.amms@.len() ==> (#[trigger] self.amms@[i]).rebalance_cash_ratio
                == self.rebalance_cash_ratio)
        &&& (forall|i: int|
            0 <= i < self.amms@.len() ==> (#[trigger] self.amms@[i]).rebalance_step_percentage
                == self.rebalance_step_percentage)
        &&& (forall|i: int|
            0 <= i < self.amms@.len() ==> (#[trigger] self.amms@[i]).cash
                <= self.amm_put_cash@[f + i])
        &&& (forall|j: int|
            0 <= j < self.amm_put_cash@.len() ==> #[trigger] self.amm_put_cash@[j]
                <= MAX_POSITION_VALUE)
        &&& self.cash_invested + sum_position_cash(self.amms@) + self.total_amm_returned_cash
            == sum_funding_prefix(self.amm_put_cash@, t)
        &&& self.total_amm_returned_cash <= sum_funding_prefix(self.amm_put_cash@, f)
        &&& self.coins_invested <= self.cash_invested * SCALE
        &&& self.rebalance_cash_ratio < SCALE
        &&& self.rebalance_step_percentage <= SCALE
        &&& 1 <= self.est_dca_cash_use_ratio <= SCALE
        &&& self.past_uninvested_reinvest_daily_percentage <= SCALE
        &&& self.amount_round <= MAX_SUPPLY
        &&& self.last_price <= MAX_PRICE
        &&& -(3 * (MAX_POSITION_VALUE as int) * t) <= self.cash_reserve
        &&& self.cash_reserve <= 3 * (MAX_POSITION_VALUE as int) * t
    }

    open spec fn can_feed(&self) -> bool {
        self.tick < MAX_TICKS
    }

    open spec fn invest_totals(&self) -> (u64, u128) {
        (self.cash_invested, self.coins_invested)
    }

    fn set_supply(&mut self, amount: u64)
        ensures
            final(self).amount_round == amount,
            final(self).cash_reserve == 0,
            *final(self) == (AMMCostAverageAuto {
                amount_round: amount,
                cash_reserve: 0,
                ..*old(self)
            }),
    {
        self.amount_round = amount;
        self.cash_reserve = 0;
        proof {
            let t = self.tick as int;
            assert(-(3 * (MAX_POSITION_VALUE as int) * t) <= self.cash_reserve);
            assert(self.cash_reserve <= 3 * (MAX_POSITION_VALUE as int) * t);
        }
    }

    fn start_new_round(&mut self, _ticks: usize)
        ensures
            *final(self) == *old(self),
    {
    }

    /// One tick, in order: reclaim the matured position at the front of
    /// the queue (at most one can be due per tick), fund and enqueue a new
    /// position at `price` with the feedback-corrected funding, run every
    /// queued position's rebalancing trade at `price` from the newest down
    /// to the oldest, then advance the tick.
    #[verifier::loop_isolation(false)]
    #[verifier::rlimit(100)]
    fn feed_price(&mut self, price: u64)
        ensures
            final(self).tick == old(self).tick + 1,
            final(self).last_price == price,
            final(self).amount_round == old(self).amount_round,
            final(self).est_dca_cash_use_ratio == old(self).est_dca_cash_use_ratio,
            final(self).rebalance_cash_ratio == old(self).rebalance_cash_ratio,
            final(self).rebalance_step_percentage == old(self).rebalance_step_percentage,
            final(self).amm_ticks_to_expire == old(self).amm_ticks_to_expire,
            final(self).past_uninvested_reinvest_daily_percentage == old(
                self,
            ).past_uninvested_reinvest_daily_percentage,
            final(self).can_feed() || final(self).tick == MAX_TICKS,
            ({
                let t = old(self).tick as int;
                let h = old(self).amm_ticks_to_expire as int;
                let popped: int = if t >= h {
                    1
                } else {
                    0
                };
                let reclaimed: int = if t >= h {
                    old(self).amms@[0].cash as int
                } else {
                    0
                };
                let f_mid = old(self).finished_amms + popped;
                let returned_mid = old(self).total_amm_returned_cash + reclaimed;
                let funding = adaptive_funding(
                    old(self).amount_round as int,
                    old(self).est_dca_cash_use_ratio as int,
                    old(self).rebalance_cash_ratio as int,
                    old(self).past_uninvested_reinvest_daily_percentage as int,
                    t,
                    h,
                    sum_funding_prefix(old(self).amm_put_cash@, f_mid as int),
                    returned_mid as int,
                );
                let basic = (old(self).amount_round / (DAYS_PER_ROUND as u64)) as int;
                let fresh = (AMMBuyBear {
                    last_price: price,
                    tick_to_expire: (t + h) as usize,
                    cash: funding as u64,
                    coins: 0u64,
                    rebalance_cash_ratio: old(self).rebalance_cash_ratio,
                    rebalance_step_percentage: old(self).rebalance_step_percentage,
                });
                let qmid = old(self).amms@.skip(popped).push(fresh);
                &&& final(self).finished_amms == f_mid
                &&& final(self).total_amm_returned_cash == returned_mid
                &&& final(self).amm_put_cash@ == old(self).amm_put_cash@.push(funding as u64)
                &&& final(self).cash_reserve == old(self).cash_reserve + reclaimed + basic
                    - funding
                &&& popped == 1 ==> final(self).last_amm_uninvested == reclaimed - basic
                &&& popped == 0 ==> final(self).last_amm_uninvested == old(
                    self,
                ).last_amm_uninvested
                &&& final(self).amms@.len() == qmid.len()
                &&& (forall|j: int|
                    0 <= j < qmid.len() ==> amm_buy_rel(
                        qmid[j],
                        #[trigger] final(self).amms@[j],
                        price,
                    ))
                &&& final(self).cash_invested == old(self).cash_invested + sum_position_cash(qmid)
                    - sum_position_cash(final(self).amms@)
                &&& final(self).coins_invested == old(self).coins_invested + sum_position_coins(
                    final(self).amms@,
                ) - sum_position_coins(qmid)
                &&& buy_log_ints(final(self).buy_logs@) == buy_log_ints(old(self).buy_logs@)
                    + trade_logs_from_top(qmid, price)
            }),
    {
        let ghost pre = *old(self);
        let ghost t0 = pre.tick as int;
        let ghost h0 = pre.amm_ticks_to_expire as int;
        let ghost popped0: int = if t0 >= h0 {
            1
        } else {
            0
        };
        let basic = self.basic_cash_per_day();
        proof {
            lemma_sum_funding_prefix_bounds(pre.amm_put_cash@, pre.finished_amms as int);
            lemma_sum_funding_prefix_bounds(pre.amm_put_cash@, pre.tick as int);
            vstd::arithmetic::mul::lemma_mul_inequality(
                pre.finished_amms as int,
                MAX_TICKS as int,
                MAX_POSITION_VALUE as int,
            );
            vstd::arithmetic::mul::lemma_mul_inequality(
                pre.tick as int,
                MAX_TICKS as int,
                MAX_POSITION_VALUE as int,
            );
            vstd::arithmetic::mul::lemma_mul_inequality(
                pre.tick as int,
                MAX_TICKS as int,
                3 * (MAX_POSITION_VALUE as int),
            );
            vstd::arithmetic::mul::lemma_mul_is_commutative(
                pre.tick as int,
                3 * (MAX_POSITION_VALUE as int),
            );
            vstd::arithmetic::mul::lemma_mul_is_commutative(
                MAX_TICKS as int,
                3 * (MAX_POSITION_VALUE as int),
            );
            assert(self.amms@ =~= pre.amms@.skip(0));
        }

        // Expiry pass: under the invariant the front position is the only
        // one that can be due, so this reclaims at most one.
        while self.amms.len() > 0 && self.tick >= self.amms[0].tick_to_expire
            invariant
                ({
                    let n = pre.amms@.len() - self.amms@.len();
                    &&& 0 <= n <= popped0
                    &&& self.amms@ == pre.amms@.skip(n)
                    &&& self.finished_amms == pre.finished_amms + n
                    &&& self.total_amm_returned_cash == pre.total_amm_returned_cash + (if n == 1 {
                        pre.amms@[0].cash as int
                    } else {
                        0
                    })
                    &&& self.cash_reserve == pre.cash_reserve + (if n == 1 {
                        pre.amms@[0].cash as int
                    } else {
                        0
                    })
                    &&& self.last_amm_uninvested == (if n == 1 {
                        pre.amms@[0].cash - basic
                    } else {
                        pre.last_amm_uninvested as int
                    })
                    &&& self.amm_put_cash == pre.amm_put_cash
                    &&& self.cash_invested == pre.cash_invested
                    &&& self.coins_invested == pre.coins_invested
                    &&& self.buy_logs == pre.buy_logs
                    &&& self.tick == pre.tick
                    &&& self.last_price == pre.last_price
                    &&& self.amount_round == pre.amount_round
                    &&& self.est_dca_cash_use_ratio == pre.est_dca_cash_use_ratio
                    &&& self.rebalance_cash_ratio == pre.rebalance_cash_ratio
                    &&& self.rebalance_step_percentage == pre.rebalance_step_percentage
                    &&& self.amm_ticks_to_expire == pre.amm_ticks_to_expire
                    &&& self.past_uninvested_reinvest_daily_percentage
                        == pre.past_uninvested_reinvest_daily_percentage
                }),
            decreases self.amms@.len(),
        {
            let ghost n_pre = pre.amms@.len() - self.amms@.len();
            proof {
                assert(self.amms@[0] == pre.amms@[n_pre]);
                if n_pre == popped0 {
                    assert(self.amms@[0].tick_to_expire == pre.finished_amms + n_pre + h0);
                    assert(false);
                }
                assert(n_pre == 0 && popped0 == 1);
                assert(self.amms@.skip(1) =~= pre.amms@.skip(1));
            }
            let front_cash = self.amms[0].cash;
            self.amms.remove(0);
            self.last_amm_uninvested = (front_cash as i128) - (basic as i128);
            self.total_amm_returned_cash = self.total_amm_returned_cash + front_cash;
            self.finished_amms = self.finished_amms + 1;
            self.cash_reserve = self.cash_reserve + (front_cash as i128);
            proof {
                assert(pre.amms@.remove(0) =~= pre.amms@.skip(1));
            }
        }

        proof {
            let n = pre.amms@.len() - self.amms@.len();
            if popped0 == 1 && n == 0 {
                assert(pre.amms@.len() == t0 - pre.finished_amms);
                assert(self.amms@[0].tick_to_expire == pre.finished_amms + h0);
                assert(false);
            }
            assert(n == popped0);
        }

        let funding = self.amm_cash_today();

        let new_amm = AMMBuyBear::new(
            funding,
            price,
            self.tick + self.amm_ticks_to_expire,
            self.rebalance_cash_ratio,
            self.rebalance_step_percentage,
        );
        self.amms.push(new_amm);

        let ghost mid = *self;
        let ghost qmid = mid.amms@;
        proof {
            assert(qmid =~= pre.amms@.skip(popped0).push(new_amm));
            lemma_sum_push(pre.amms@.skip(popped0), new_amm);
            lemma_sum_funding_prefix_push(pre.amm_put_cash@, funding, t0);
            assert(sum_funding_prefix(mid.amm_put_cash@, t0 + 1) == sum_funding_prefix(
                pre.amm_put_cash@,
                t0,
            ) + funding);
            if popped0 == 1 {
                assert(sum_position_cash(pre.amms@) == pre.amms@[0].cash + sum_position_cash(
                    pre.amms@.skip(1),
                ));
            }
            assert(mid.cash_invested + sum_position_cash(qmid) + mid.total_amm_returned_cash
                == sum_funding_prefix(mid.amm_put_cash@, t0 + 1));
            lemma_sum_cash_nonnegative(qmid);
            lemma_sum_coins_nonnegative(qmid);
            lemma_sum_funding_prefix_bounds(mid.amm_put_cash@, t0 + 1);
            vstd::arithmetic::mul::lemma_mul_inequality(
                t0 + 1,
                MAX_TICKS as int,
                MAX_POSITION_VALUE as int,
            );
            assert(forall|j: int|
                0 <= j < qmid.len() - 1 ==> qmid[j] == pre.amms@[popped0 + j]);
            assert(qmid[qmid.len() - 1] == new_amm);
            assert(forall|j: int| 0 <= j < qmid.len() ==> (#[trigger] qmid[j]).wf());
        }

        // Trade pass, newest position first, scanning the whole queue.
        let mut i = self.amms.len();
        proof {
            assert(qmid.subrange(0, qmid.len() as int) =~= qmid);
        }
        while i > 0
            invariant
                i <= qmid.len(),
                self.amms@.len() == qmid.len(),
                (forall|j: int| 0 <= j < i ==> #[trigger] self.amms@[j] == qmid[j]),
                (forall|j: int|
                    i <= j < qmid.len() ==> amm_buy_rel(qmid[j], #[trigger] self.amms@[j], price)),
                (forall|j: int|
                    i <= j < qmid.len() ==> (#[trigger] self.amms@[j]).cash <= qmid[j].cash),
                (forall|j: int| 0 <= j < qmid.len() ==> (#[trigger] self.amms@[j]).wf()),
                self.cash_invested == mid.cash_invested + sum_position_cash(qmid)
                    - sum_position_cash(self.amms@),
                self.coins_invested == mid.coins_invested + sum_position_coins(self.amms@)
                    - sum_position_coins(qmid),
                self.coins_invested <= self.cash_invested * SCALE,
                buy_log_ints(self.buy_logs@) + trade_logs_from_top(
                    qmid.subrange(0, i as int),
                    price,
                ) == buy_log_ints(mid.buy_logs@) + trade_logs_from_top(qmid, price),
                self.amm_put_cash == mid.amm_put_cash,
                self.finished_amms == mid.finished_amms,
                self.total_amm_returned_cash == mid.total_amm_returned_cash,
                self.cash_reserve == mid.cash_reserve,
                self.last_amm_uninvested == mid.last_amm_uninvested,
                self.tick == mid.tick,
                self.last_price == mid.last_price,
                self.amount_round == mid.amount_round,
                self.est_dca_cash_use_ratio == mid.est_dca_cash_use_ratio,
                self.rebalance_cash_ratio == mid.rebalance_cash_ratio,
                self.rebalance_step_percentage == mid.rebalance_step_percentage,
                self.amm_ticks_to_expire == mid.amm_ticks_to_expire,
                self.past_uninvested_reinvest_daily_percentage
                    == mid.past_uninvested_reinvest_daily_percentage,
            decreases i,
        {
            i = i - 1;
            let ghost q_pre = self.amms@;
            let ghost logs_pre = self.buy_logs@;
            let mut amm = self.amms[i];
            proof {
                assert(amm == qmid[i as int]);
                lemma_sum_cash_nonnegative(self.amms@);
                lemma_sum_coins_nonnegative(self.amms@);
            }
            let (c, k) = amm.buy(price, &mut self.buy_logs);
            self.amms[i] = amm;
            proof {
                lemma_sum_update(q_pre, i as int, amm);
                lemma_sum_cash_nonnegative(self.amms@);
                lemma_sum_coins_nonnegative(self.amms@);
            }
            self.cash_invested = self.cash_invested + c;
            self.coins_invested = self.coins_invested + (k as u128);
            proof {
                let sub_closed = qmid.subrange(0, i + 1);
                assert(sub_closed.last() == qmid[i as int]);
                assert(sub_closed.drop_last() =~= qmid.subrange(0, i as int));
                assert(trade_logs_from_top(sub_closed, price) == crate::cost_average::amm_cost_average::amm_buy_log(
                    qmid[i as int],
                    price,
                ) + trade_logs_from_top(qmid.subrange(0, i as int), price));
                assert(buy_log_ints(self.buy_logs@) =~= buy_log_ints(logs_pre)
                    + crate::cost_average::amm_cost_average::amm_buy_log(qmid[i as int], price));
                assert((buy_log_ints(logs_pre) + crate::cost_average::amm_cost_average::amm_buy_log(
                    qmid[i as int],
                    price,
                )) + trade_logs_from_top(qmid.subrange(0, i as int), price) =~= buy_log_ints(
                    logs_pre,
                ) + trade_logs_from_top(sub_closed, price));
            }
        }

        proof {
            assert(qmid.subrange(0, 0) =~= Seq::<AMMBuyBear>::empty());
            assert(trade_logs_from_top(qmid.subrange(0, 0), price) =~= Seq::<(int, int)>::empty());
            assert(buy_log_ints(self.buy_logs@) + Seq::<(int, int)>::empty() =~= buy_log_ints(
                self.buy_logs@,
            ));
            assert(buy_log_ints(self.buy_logs@) == buy_log_ints(pre.buy_logs@)
                + trade_logs_from_top(qmid, price));
        }

        self.tick = self.tick + 1;
        self.last_price = price;

        proof {
            let t1 = self.tick as int;
            let f1 = self.finished_amms as int;
            lemma_sum_cash_nonnegative(self.amms@);
            lemma_sum_funding_prefix_bounds(self.amm_put_cash@, f1);
            assert(self.amm_put_cash@.len() == t1);
            assert(f1 == (if t1 >= h0 {
                t1 - h0
            } else {
                0
            }));
            assert(self.amms@.len() == t1 - f1);
            assert(forall|j: int|
                0 <= j < qmid.len() - 1 ==> qmid[j] == pre.amms@[popped0 + j]);
            assert forall|j: int| 0 <= j < self.amms@.len() implies (
            #[trigger] self.amms@[j]).tick_to_expire == f1 + j + h0 by {
                assert(amm_buy_rel(qmid[j], self.amms@[j], price));
            }
            assert forall|j: int| 0 <= j < self.amms@.len() implies (
            #[trigger] self.amms@[j]).rebalance_cash_ratio == self.rebalance_cash_ratio && (
            self.amms@[j]).rebalance_step_percentage == self.rebalance_step_percentage by {
                assert(amm_buy_rel(qmid[j], self.amms@[j], price));
            }
            assert forall|j: int| 0 <= j < self.amms@.len() implies (#[trigger] self.amms@[j]).cash
                <= self.amm_put_cash@[f1 + j] by {
                assert(self.amms@[j].cash <= qmid[j].cash);
                if j < qmid.len() - 1 {
                    assert(pre.amms@[popped0 + j].cash <= pre.amm_put_cash@[pre.finished_amms
                        + popped0 + j]);
                    assert(self.amm_put_cash@[f1 + j] == pre.amm_put_cash@[f1 + j]);
                } else {
                    assert(self.amm_put_cash@[t1 - 1] == funding);
                }
            }
            lemma_sum_funding_prefix_push(pre.amm_put_cash@, funding, f1);
            vstd::arithmetic::div_mod::lemma_div_is_ordered(
                pre.amount_round as int,
                MAX_SUPPLY as int,
                DAYS_PER_ROUND as int,
            );
            vstd::arithmetic::mul::lemma_mul_is_distributive_add(
                3 * (MAX_POSITION_VALUE as int),
                t1 - 1,
                1,
            );
            assert(3 * (MAX_POSITION_VALUE as int) * t1 == 3 * (MAX_POSITION_VALUE as int) * (t1
                - 1) + 3 * (MAX_POSITION_VALUE as int));
            assert(self.cash_reserve <= 3 * (MAX_POSITION_VALUE as int) * t1);
            assert(-(3 * (MAX_POSITION_VALUE as int) * t1) <= self.cash_reserve);
            assert(self.wf());
        }
    }

    fn get_invest_status(&self) -> (r: (u64, u128)) {
        (self.cash_invested, self.coins_invested)
    }
}

} // verus!
