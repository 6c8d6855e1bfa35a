//! The base ladder: owns a FIFO queue of rebalancing positions, funds one
//! new position per tick out of the round budget, reclaims the cash of the
//! position that matures, and drives every queued position's rebalancing
//! trade on each price update.
//!
//! The well-formedness invariant ties the whole lifecycle together: the
//! number of matured positions is determined by the tick, the queue holds
//! exactly the unexpired positions in creation order, and cash is conserved
//! exactly — cash invested plus cash still queued plus cash reclaimed
//! equals the total funding ever put in.

use vstd::prelude::*;

use crate::amm::{buy_log_ints, buy_staircase, AMMBuyBear};
use crate::cost_average::{CostAverageMethodTrait, DAYS_PER_ROUND};
use crate::{BuyLogs, MAX_POSITION_VALUE, MAX_PRICE, MAX_SUPPLY, MAX_TICKS, SCALE};

verus! {

/// Total cash held across a queue of positions.
pub open spec fn sum_position_cash(q: Seq<AMMBuyBear>) -> int
    decreases q.len(),
{
    if q.len() == 0 {
        0
    } else {
        q[0].cash + sum_position_cash(q.skip(1))
    }
}

/// Total coin units held across a queue of positions.
pub open spec fn sum_position_coins(q: Seq<AMMBuyBear>) -> int
    decreases q.len(),
{
    if q.len() == 0 {
        0
    } else {
        q[0].coins + sum_position_coins(q.skip(1))
    }
}

/// Sum of the first `n` funding amounts.
pub open spec fn sum_funding_prefix(s: Seq<u64>, n: int) -> int
    decreases n,
{
    if n <= 0 {
        0
    } else {
        sum_funding_prefix(s, n - 1) + s[n - 1]
    }
}

/// Queue cash is a sum of unsigned amounts.
pub proof fn lemma_sum_cash_nonnegative(q: Seq<AMMBuyBear>)
    ensures
        sum_position_cash(q) >= 0,
    decreases q.len(),
{
    if q.len() > 0 {
        lemma_sum_cash_nonnegative(q.skip(1));
    }
}

/// Queue coins are a sum of unsigned amounts.
pub proof fn lemma_sum_coins_nonnegative(q: Seq<AMMBuyBear>)
    ensures
        sum_position_coins(q) >= 0,
    decreases q.len(),
{
    if q.len() > 0 {
        lemma_sum_coins_nonnegative(q.skip(1));
    }
}

/// Appending a position adds its holdings to the queue sums.
pub proof fn lemma_sum_push(q: Seq<AMMBuyBear>, a: AMMBuyBear)
    ensures
        sum_position_cash(q.push(a)) == sum_position_cash(q) + a.cash,
        sum_position_coins(q.push(a)) == sum_position_coins(q) + a.coins,
    decreases q.len(),
{
    if q.len() == 0 {
        assert(q.push(a)[0] == a);
        assert(q.push(a).skip(1) =~= Seq::<AMMBuyBear>::empty());
        assert(sum_position_cash(Seq::<AMMBuyBear>::empty()) == 0);
        assert(sum_position_coins(Seq::<AMMBuyBear>::empty()) == 0);
    } else {
        assert(q.push(a)[0] == q[0]);
        assert(q.push(a).skip(1) =~= q.skip(1).push(a));
        lemma_sum_push(q.skip(1), a);
    }
}

/// Replacing the position at index `i` shifts the queue sums by the
/// difference in its holdings.
pub proof fn lemma_sum_update(q: Seq<AMMBuyBear>, i: int, a: AMMBuyBear)
    requires
        0 <= i < q.len(),
    ensures
        sum_position_cash(q.update(i, a)) == sum_position_cash(q) - q[i].cash + a.cash,
        sum_position_coins(q.update(i, a)) == sum_position_coins(q) - q[i].coins + a.coins,
    decreases q.len(),
{
    if i == 0 {
        assert(q.update(0, a).skip(1) =~= q.skip(1));
    } else {
        assert(q.update(i, a).skip(1) =~= q.skip(1).update(i - 1, a));
        lemma_sum_update(q.skip(1), i - 1, a);
    }
}

/// A funding prefix sum only reads the first `n` entries, so appending
/// leaves it unchanged.
pub proof fn lemma_sum_funding_prefix_push(s: Seq<u64>, x: u64, n: int)
    requires
        0 <= n <= s.len(),
    ensures
        sum_funding_prefix(s.push(x), n) == sum_funding_prefix(s, n),
    decreases n,
{
    if n > 0 {
        lemma_sum_funding_prefix_push(s, x, n - 1);
    }
}

/// A funding prefix sum over entries capped at `MAX_POSITION_VALUE` is
/// non-negative and at most `n` times the cap.
pub proof fn lemma_sum_funding_prefix_bounds(s: Seq<u64>, n: int)
    requires
        0 <= n <= s.len(),
        forall|j: int| 0 <= j < s.len() ==> #[trigger] s[j] <= MAX_POSITION_VALUE,
    ensures
        0 <= sum_funding_prefix(s, n),
        sum_funding_prefix(s, n) <= n * (MAX_POSITION_VALUE as int),
    decreases n,
{
    if n > 0 {
        lemma_sum_funding_prefix_bounds(s, n - 1);
    }
}

/// The funding a base ladder allocates on one tick: the daily share of the
/// round budget, leveraged by the target cash ratio (`/ (1 - ratio)`) and
/// damped by the expected use fraction, saturated at the per-position cap.
pub open spec fn base_funding(amount_round: int, use_ratio: int, ratio: int) -> int {
    let basic = amount_round / (DAYS_PER_ROUND as int);
    let raw = basic * use_ratio / ((SCALE as int) - ratio);
    if raw > MAX_POSITION_VALUE {
        MAX_POSITION_VALUE as int
    } else {
        raw
    }
}

/// How one `trade` call at `price` relates a position state `pre` to the
/// state `post` it leaves behind: the buy staircase outcome with the
/// configuration untouched.
pub open spec fn amm_buy_rel(pre: AMMBuyBear, post: AMMBuyBear, price: u64) -> bool {
    let out = buy_staircase(
        pre.cash as int,
        pre.coins as int,
        pre.last_price as int,
        price as int,
        pre.rebalance_cash_ratio as int,
        pre.rebalance_step_percentage as int,
    );
    &&& post.cash == out.cash
    &&& post.coins == out.coins
    &&& post.last_price == out.price
    &&& post.tick_to_expire == pre.tick_to_expire
    &&& post.rebalance_cash_ratio == pre.rebalance_cash_ratio
    &&& post.rebalance_step_percentage == pre.rebalance_step_percentage
}

/// The trade log a position writes when trading at `price`.
pub open spec fn amm_buy_log(a: AMMBuyBear, price: u64) -> Seq<(int, int)> {
    buy_staircase(
        a.cash as int,
        a.coins as int,
        a.last_price as int,
        price as int,
        a.rebalance_cash_ratio as int,
        a.rebalance_step_percentage as int,
    ).log
}

/// The concatenated trade logs of one trade pass over the queue, which
/// visits positions from the newest down to the oldest.
pub open spec fn trade_logs_from_top(q: Seq<AMMBuyBear>, price: u64) -> Seq<(int, int)>
    decreases q.len(),
{
    if q.len() == 0 {
        Seq::empty()
    } else {
        amm_buy_log(q.last(), price) + trade_logs_from_top(q.drop_last(), price)
    }
}

/// The base ladder allocator.
pub struct AMMCostAverage {
    /// Funding handed to the position created at each tick, in order.
    pub amm_put_cash: Vec<u64>,
    /// Total cash reclaimed from matured positions.
    pub imaginary_total_amm_returned_cash: u64,
    /// Number of positions that have matured.
    pub finished_amms: usize,
    /// Reclaimed cash of the last matured position minus the daily budget.
    pub last_amm_uninvested: i128,
    /// Total cash converted into coins across all positions ever.
    pub cash_invested: u64,
    /// Total coin units bought across all positions ever.
    pub coins_invested: u128,
    /// Centrally held cash: accrued funding shortfalls plus reclaimed
    /// capital; can run negative when funding exceeds the daily budget.
    pub cash_reserve: i128,
    /// Fraction of leveraged funding expected to convert, in `1 / SCALE`.
    pub est_dca_cash_use_ratio: u64,
    /// Budget of the current round, in fixed-point cash units.
    pub amount_round: u64,
    /// Lifetime of each position, in ticks.
    pub imaginary_amm_ticks_to_expire: usize,
    /// Number of prices fed so far.
    pub tick: usize,
    /// Target cash fraction of every position, in `1 / SCALE`.
    pub rebalance_cash_ratio: u64,
    /// Staircase step of every position, in `1 / SCALE`.
    pub rebalance_step_percentage: u64,
    /// The live positions, oldest first.
    pub amms: Vec<AMMBuyBear>,
    /// Every trade executed by any position, newest position first within
    /// each tick.
    pub buy_logs: BuyLogs,
    /// The price fed most recently.
    pub last_price: u64,
}

impl AMMCostAverage {
    /// Creates an idle ladder with the given configuration.
    pub fn new(
        est_dca_cash_use_ratio: u64,
        rebalance_cash_ratio: u64,
        rebalance_step_percentage: u64,
        imaginary_amm_ticks_to_expire: usize,
    ) -> (r: Self)
        requires
            1 <= est_dca_cash_use_ratio,
            est_dca_cash_use_ratio <= SCALE,
            rebalance_cash_ratio < SCALE,
            rebalance_step_percentage <= SCALE,
            1 <= imaginary_amm_ticks_to_expire,
            imaginary_amm_ticks_to_expire <= MAX_TICKS,
        ensures
            r.wf(),
            r.can_feed(),
            r.tick == 0,
            r.amms@.len() == 0,
            r.amm_put_cash@.len() == 0,
            r.buy_logs@.len() == 0,
            r.cash_invested == 0,
            r.coins_invested == 0,
            r.cash_reserve == 0,
            r.imaginary_total_amm_returned_cash == 0,
            r.finished_amms == 0,
            r.amount_round == 0,
            r.est_dca_cash_use_ratio == est_dca_cash_use_ratio,
            r.rebalance_cash_ratio == rebalance_cash_ratio,
            r.rebalance_step_percentage == rebalance_step_percentage,
            r.imaginary_amm_ticks_to_expire == imaginary_amm_ticks_to_expire,
    {
        Self {
            amm_put_cash: Vec::new(),
            imaginary_total_amm_returned_cash: 0,
            finished_amms: 0,
            last_amm_uninvested: 0,
            cash_invested: 0,
            coins_invested: 0,
            rebalance_cash_ratio,
            rebalance_step_percentage,
            est_dca_cash_use_ratio,
            imaginary_amm_ticks_to_expire,
            tick: 0,
            cash_reserve: 0,
            amount_round: 0,
            amms: Vec::new(),
            buy_logs: Vec::new(),
            last_price: 0,
        }
    }

    /// The daily share of the round budget.
    pub fn basic_cash_per_day(&self) -> (r: u64)
        ensures
            r == self.amount_round / (DAYS_PER_ROUND as u64),
    {
        self.amount_round / (DAYS_PER_ROUND as u64)
    }

    /// Cash not converted into coins yet: the central reserve plus the
    /// cash still held inside queued positions.
    #[verifier::loop_isolation(false)]
    pub fn cash_unused(&self) -> (r: i128)
        requires
            self.wf(),
        ensures
            r == self.cash_reserve + sum_position_cash(self.amms@),
    {
        let mut cash_unused: i128 = self.cash_reserve;
        let mut i: usize = 0;
        proof {
            assert(self.amms@.skip(0) =~= self.amms@);
        }
        while i < self.amms.len()
            invariant
                i <= self.amms@.len(),
                cash_unused == self.cash_reserve + sum_position_cash(self.amms@) - sum_position_cash(
                    self.amms@.skip(i as int),
                ),
            decreases self.amms@.len() - i,
        {
            proof {
                assert(self.amms@.skip(i as int)[0] == self.amms@[i as int]);
                assert(self.amms@.skip(i as int).skip(1) =~= self.amms@.skip(i as int + 1));
                lemma_sum_cash_nonnegative(self.amms@.skip(i as int));
                lemma_sum_cash_nonnegative(self.amms@.skip(i as int + 1));
                lemma_ladder_reserve_and_sums_bounded(self);
            }
            cash_unused = cash_unused + (self.amms[i].cash as i128);
            i = i + 1;
        }
        proof {
            assert(self.amms@.skip(self.amms@.len() as int) =~= Seq::<AMMBuyBear>::empty());
        }
        cash_unused
    }

    /// Utilization of the positions that have already matured:
    /// `(cash put in, cash converted into coins, average converted per
    /// position, realized over-investment ratio in 1 / SCALE units)`.
    /// Returns `None` until the first position has matured; the ratio is
    /// reported as zero when no cash was ever put in.
    #[verifier::loop_isolation(false)]
    pub fn past_amm_cash_utilization(&self) -> (r: Option<(u64, u64, u64, u64)>)
        requires
            self.wf(),
        ensures
            r.is_some() <==> self.tick > self.imaginary_amm_ticks_to_expire,
            ({
                let cash_put = sum_funding_prefix(self.amm_put_cash@, self.finished_amms as int);
                let invested = cash_put - self.imaginary_total_amm_returned_cash;
                let avg = invested / (self.finished_amms as int);
                let over = if cash_put > 0 {
                    invested * (SCALE as int) * (SCALE as int) / (cash_put * ((SCALE as int) - (
                    self.rebalance_cash_ratio as int)))
                } else {
                    0
                };
                self.tick > self.imaginary_amm_ticks_to_expire ==> r == Some(
                    (cash_put as u64, invested as u64, avg as u64, over as u64),
                )
            }),
    {
        if self.tick <= self.imaginary_amm_ticks_to_expire {
            return None;
        }
        let ghost f = self.finished_amms as int;
        proof {
            lemma_sum_funding_prefix_bounds(self.amm_put_cash@, f);
            vstd::arithmetic::mul::lemma_mul_inequality(
                f,
                MAX_TICKS as int,
                MAX_POSITION_VALUE as int,
            );
        }
        let mut cash_put: u64 = 0;
        let mut i: usize = 0;
        while i < self.finished_amms
            invariant
                i <= self.finished_amms,
                cash_put == sum_funding_prefix(self.amm_put_cash@, i as int),
            decreases self.finished_amms - i,
        {
            proof {
                lemma_sum_funding_prefix_bounds(self.amm_put_cash@, i as int);
                vstd::arithmetic::mul::lemma_mul_inequality(
                    i as int,
                    MAX_TICKS as int,
                    MAX_POSITION_VALUE as int,
                );
            }
            cash_put = cash_put + self.amm_put_cash[i];
            i = i + 1;
        }
        let invested = cash_put - self.imaginary_total_amm_returned_cash;
        let average = invested / (self.finished_amms as u64);
        let over: u64 = if cash_put > 0 {
            proof {
                let s = SCALE as int;
                vstd::arithmetic::mul::lemma_mul_upper_bound(
                    invested as int,
                    (MAX_TICKS as int) * (MAX_POSITION_VALUE as int),
                    s,
                    s,
                );
                vstd::arithmetic::mul::lemma_mul_upper_bound(
                    (invested as int) * s,
                    (MAX_TICKS as int) * (MAX_POSITION_VALUE as int) * s,
                    s,
                    s,
                );
                vstd::arithmetic::mul::lemma_mul_upper_bound(
                    cash_put as int,
                    (MAX_TICKS as int) * (MAX_POSITION_VALUE as int),
                    s - (self.rebalance_cash_ratio as int),
                    s,
                );
                // The ratio itself never exceeds SCALE * SCALE.
                vstd::arithmetic::mul::lemma_mul_inequality(1, s - (
                self.rebalance_cash_ratio as int), cash_put as int);
                vstd::arithmetic::mul::lemma_mul_is_commutative(
                    cash_put as int,
                    s - (self.rebalance_cash_ratio as int),
                );
                vstd::arithmetic::mul::lemma_mul_inequality(invested as int, cash_put as int, s * s);
                vstd::arithmetic::mul::lemma_mul_is_commutative(invested as int, s * s);
                vstd::arithmetic::mul::lemma_mul_is_commutative(cash_put as int, s * s);
                assert((invested as int) * s * s == (invested as int) * (s * s)) by {
                    vstd::arithmetic::mul::lemma_mul_is_associative(invested as int, s, s);
                }
                vstd::arithmetic::mul::lemma_mul_inequality(
                    cash_put as int,
                    (cash_put as int) * (s - (self.rebalance_cash_ratio as int)),
                    s * s,
                );
                vstd::arithmetic::div_mod::lemma_div_is_ordered(
                    (invested as int) * s * s,
                    ((cash_put as int) * (s - (self.rebalance_cash_ratio as int))) * (s * s),
                    (cash_put as int) * (s - (self.rebalance_cash_ratio as int)),
                );
                vstd::arithmetic::div_mod::lemma_div_multiples_vanish(
                    s * s,
                    (cash_put as int) * (s - (self.rebalance_cash_ratio as int)),
                );
                vstd::arithmetic::mul::lemma_mul_is_commutative(
                    (cash_put as int) * (s - (self.rebalance_cash_ratio as int)),
                    s * s,
                );
            }
            let num: u128 = (invested as u128) * (SCALE as u128) * (SCALE as u128);
            let den: u128 = (cash_put as u128) * ((SCALE - self.rebalance_cash_ratio) as u128);
            (num / den) as u64
        } else {
            0
        };
        Some((cash_put, invested, average, over))
    }

    /// Computes today's funding, accrues the shortfall against the daily
    /// budget into the central reserve, and records the funding in the
    /// history.
    fn amm_cash_today(&mut self) -> (r: u64)
        requires
            old(self).amount_round <= MAX_SUPPLY,
            old(self).rebalance_cash_ratio < SCALE,
            old(self).est_dca_cash_use_ratio <= SCALE,
            -4_000_000_000_000_000_000 <= old(self).cash_reserve,
            old(self).cash_reserve <= 4_000_000_000_000_000_000,
            old(self).amm_put_cash@.len() < 100_000_000,
        ensures
            r == base_funding(
                old(self).amount_round as int,
                old(self).est_dca_cash_use_ratio as int,
                old(self).rebalance_cash_ratio as int,
            ),
            r <= MAX_POSITION_VALUE,
            final(self).amm_put_cash@ == old(self).amm_put_cash@.push(r),
            final(self).cash_reserve == old(self).cash_reserve + (old(self).amount_round / (
            DAYS_PER_ROUND as u64)) - r,
            final(self).imaginary_total_amm_returned_cash == old(
                self,
            ).imaginary_total_amm_returned_cash,
            final(self).finished_amms == old(self).finished_amms,
            final(self).last_amm_uninvested == old(self).last_amm_uninvested,
            final(self).cash_invested == old(self).cash_invested,
            final(self).coins_invested == old(self).coins_invested,
            final(self).est_dca_cash_use_ratio == old(self).est_dca_cash_use_ratio,
            final(self).amount_round == old(self).amount_round,
            final(self).imaginary_amm_ticks_to_expire == old(self).imaginary_amm_ticks_to_expire,
            final(self).tick == old(self).tick,
            final(self).rebalance_cash_ratio == old(self).rebalance_cash_ratio,
            final(self).rebalance_step_percentage == old(self).rebalance_step_percentage,
            final(self).amms == old(self).amms,
            final(self).buy_logs == old(self).buy_logs,
            final(self).last_price == old(self).last_price,
    {
        let basic = self.amount_round / (DAYS_PER_ROUND as u64);
        proof {
            vstd::arithmetic::mul::lemma_mul_upper_bound(
                basic as int,
                MAX_SUPPLY as int,
                self.est_dca_cash_use_ratio as int,
                SCALE as int,
            );
        }
        let raw = basic * self.est_dca_cash_use_ratio / (SCALE - self.rebalance_cash_ratio);
        let cash_day = if raw > MAX_POSITION_VALUE {
            MAX_POSITION_VALUE
        } else {
            raw
        };
        self.cash_reserve = self.cash_reserve + (basic as i128) - (cash_day as i128);
        self.amm_put_cash.push(cash_day);
        cash_day
    }
}

/// Under the ladder invariant, the queue cash sum, the reclaimed total and
/// the funding total all stay below fixed machine bounds, and the reserve
/// stays within its drift band.
pub proof fn lemma_ladder_reserve_and_sums_bounded(l: &AMMCostAverage)
    requires
        l.wf(),
    ensures
        0 <= sum_position_cash(l.amms@),
        sum_position_cash(l.amms@) + l.cash_invested + l.imaginary_total_amm_returned_cash
            <= (MAX_TICKS as int) * (MAX_POSITION_VALUE as int),
        0 <= sum_position_coins(l.amms@),
        -4_000_000_000_000_000_000 <= l.cash_reserve,
        l.cash_reserve <= 4_000_000_000_000_000_000,
{
    lemma_sum_cash_nonnegative(l.amms@);
    lemma_sum_coins_nonnegative(l.amms@);
    lemma_sum_funding_prefix_bounds(l.amm_put_cash@, l.tick as int);
    vstd::arithmetic::mul::lemma_mul_inequality(
        l.tick as int,
        MAX_TICKS as int,
        MAX_POSITION_VALUE as int,
    );
    vstd::arithmetic::mul::lemma_mul_inequality(
        l.tick as int,
        MAX_TICKS as int,
        3 * (MAX_POSITION_VALUE as int),
    );
    vstd::arithmetic::mul::lemma_mul_is_commutative(l.tick as int, 3 * (MAX_POSITION_VALUE as int));
    vstd::arithmetic::mul::lemma_mul_is_commutative(
        MAX_TICKS as int,
        3 * (MAX_POSITION_VALUE as int),
    );
    assert(3 * (MAX_POSITION_VALUE as int) * (l.tick as int) <= 3 * (MAX_POSITION_VALUE as int) * (
    MAX_TICKS as int));
}

impl CostAverageMethodTrait for AMMCostAverage {
    /// See the module documentation: lifecycle counters, queue shape and
    /// exact cash conservation.
    open spec fn wf(&self) -> bool {
        let t = self.tick as int;
        let h = self.imaginary_amm_ticks_to_expire as int;
        let f = self.finished_amms as int;
        &&& 1 <= h <= MAX_TICKS
        &&& t <= MAX_TICKS
        &&& self.amm_put_cash@.len() == t
        &&& f == (if t >= h {
            t - h
        } else {
            0
        })
        &&& self.amms@.len() == t - f
        &&& (forall|i: int| 0 <= i < self.amms@.len() ==> (#[trigger] self.amms@[i]).wf())
        &&& (forall|i: int|
            0 <= i < self.amms@.len() ==> (#[trigger] self.amms@[i]).tick_to_expire == f + i + h)
        &&& (forall|i: int|
            0 <= i < self.amms@.len() ==> (#[trigger] self.amms@[i]).rebalance_cash_ratio
                == self.rebalance_cash_ratio)
        &&& (forall|i: int|
            0 <= i < self.amms@.len() ==> (#[trigger] self.amms@[i]).rebalance_step_percentage
                == self.rebalance_step_percentage)
        &&& (forall|i: int|
            0 <= i < self.amms@.len() ==> (#[trigger] self.amms@[i]).cash
                <= self.amm_put_cash@[f + i])
        &&& (forall|j: int|
            0 <= j < self.amm_put_cash@.len() ==> #[trigger] self.amm_put_cash@[j]
                <= MAX_POSITION_VALUE)
        &&& self.cash_invested + sum_position_cash(self.amms@)
            + self.imaginary_total_amm_returned_cash == sum_funding_prefix(self.amm_put_cash@, t)
        &&& self.imaginary_total_amm_returned_cash <= sum_funding_prefix(self.amm_put_cash@, f)
        &&& self.coins_invested <= self.cash_invested * SCALE
        &&& self.rebalance_cash_ratio < SCALE
        &&& self.rebalance_step_percentage <= SCALE
        &&& 1 <= self.est_dca_cash_use_ratio <= SCALE
        &&& self.amount_round <= MAX_SUPPLY
        &&& self.last_price <= MAX_PRICE
        &&& -(3 * (MAX_POSITION_VALUE as int) * t) <= self.cash_reserve
        &&& self.cash_reserve <= 3 * (MAX_POSITION_VALUE as int) * t
    }

    open spec fn can_feed(&self) -> bool {
        self.tick < MAX_TICKS
    }

    open spec fn invest_totals(&self) -> (u64, u128) {
        (self.cash_invested, self.coins_invested)
    }

    fn set_supply(&mut self, amount: u64)
        ensures
            final(self).amount_round == amount,
            final(self).cash_reserve == 0,
            *final(self) == (AMMCostAverage { amount_round: amount, cash_reserve: 0, ..*old(self) }),
    {
        self.amount_round = amount;
        self.cash_reserve = 0;
        proof {
            let t = self.tick as int;
            assert(-(3 * (MAX_POSITION_VALUE as int) * t) <= self.cash_reserve);
            assert(self.cash_reserve <= 3 * (MAX_POSITION_VALUE as int) * t);
        }
    }

    fn start_new_round(&mut self, _ticks: usize)
        ensures
            *final(self) == *old(self),
    {
    }

    /// One tick, in order: reclaim the matured position at the front of
    /// the queue (at most one can be due per tick), fund and enqueue a new
    /// position at `price`, run every queued position's rebalancing trade
    /// at `price` from the newest down to the oldest, then advance the
    /// tick.
    #[verifier::loop_isolation(false)]
    #[verifier::rlimit(100)]
    fn feed_price(&mut self, price: u64)
        ensures
            final(self).tick == old(self).tick + 1,
            final(self).last_price == price,
            final(self).amount_round == old(self).amount_round,
            final(self).est_dca_cash_use_ratio == old(self).est_dca_cash_use_ratio,
            final(self).rebalance_cash_ratio == old(self).rebalance_cash_ratio,
            final(self).rebalance_step_percentage == old(self).rebalance_step_percentage,
            final(self).imaginary_amm_ticks_to_expire == old(self).imaginary_amm_ticks_to_expire,
            final(self).can_feed() || final(self).tick == MAX_TICKS,
            ({
                let t = old(self).tick as int;
                let h = old(self).imaginary_amm_ticks_to_expire as int;
                let popped: int = if t >= h {
                    1
                } else {
                    0
                };
                let reclaimed: int = if t >= h {
                    old(self).amms@[0].cash as int
                } else {
                    0
                };
                let funding = base_funding(
                    old(self).amount_round as int,
                    old(self).est_dca_cash_use_ratio as int,
                    old(self).rebalance_cash_ratio as int,
                );
                let basic = (old(self).amount_round / (DAYS_PER_ROUND as u64)) as int;
                let fresh = (AMMBuyBear {
                    last_price: price,
                    tick_to_expire: (t + h) as usize,
                    cash: funding as u64,
                    coins: 0u64,
                    rebalance_cash_ratio: old(self).rebalance_cash_ratio,
                    rebalance_step_percentage: old(self).rebalance_step_percentage,
                });
                let qmid = old(self).amms@.skip(popped).push(fresh);
                &&& final(self).finished_amms == old(self).finished_amms + popped
                &&& final(self).imaginary_total_amm_returned_cash == old(
                    self,
                ).imaginary_total_amm_returned_cash + reclaimed
                &&& final(self).amm_put_cash@ == old(self).amm_put_cash@.push(funding as u64)
                &&& final(self).cash_reserve == old(self).cash_reserve + reclaimed + basic
                    - funding
                &&& popped == 1 ==> final(self).last_amm_uninvested == reclaimed - basic
                &&& popped == 0 ==> final(self).last_amm_uninvested == old(
                    self,
                ).last_amm_uninvested
                &&& final(self).amms@.len() == qmid.len()
                &&& (forall|j: int|
                    0 <= j < qmid.len() ==> amm_buy_rel(
                        qmid[j],
                        #[trigger] final(self).amms@[j],
                        price,
                    ))
                &&& final(self).cash_invested == old(self).cash_invested + sum_position_cash(qmid)
                    - sum_position_cash(final(self).amms@)
                &&& final(self).coins_invested == old(self).coins_invested + sum_position_coins(
                    final(self).amms@,
                ) - sum_position_coins(qmid)
                &&& buy_log_ints(final(self).buy_logs@) == buy_log_ints(old(self).buy_logs@)
                    + trade_logs_from_top(qmid, price)
            }),
    {
        let ghost pre = *old(self);
        let ghost t0 = pre.tick as int;
        let ghost h0 = pre.imaginary_amm_ticks_to_expire as int;
        let ghost popped0: int = if t0 >= h0 {
            1
        } else {
            0
        };
        let basic = self.basic_cash_per_day();
        proof {
            lemma_sum_funding_prefix_bounds(pre.amm_put_cash@, pre.finished_amms as int);
            lemma_sum_funding_prefix_bounds(pre.amm_put_cash@, pre.tick as int);
            vstd::arithmetic::mul::lemma_mul_inequality(
                pre.finished_amms as int,
                MAX_TICKS as int,
                MAX_POSITION_VALUE as int,
            );
            vstd::arithmetic::mul::lemma_mul_inequality(
                pre.tick as int,
                MAX_TICKS as int,
                MAX_POSITION_VALUE as int,
            );
            assert(self.amms@ =~= pre.amms@.skip(0));
        }

        // Expiry pass: under the invariant the front position is the only
        // one that can be due, so this reclaims at most one.
        while self.amms.len() > 0 && self.tick >= self.amms[0].tick_to_expire
            invariant
                ({
                    let n = pre.amms@.len() - self.amms@.len();
                    &&& 0 <= n <= popped0
                    &&& self.amms@ == pre.amms@.skip(n)
                    &&& self.finished_amms == pre.finished_amms + n
                    &&& self.imaginary_total_amm_returned_cash == pre.imaginary_total_amm_returned_cash
                        + (if n == 1 {
                        pre.amms@[0].cash as int
                    } else {
                        0
                    })
                    &&& self.cash_reserve == pre.cash_reserve + (if n == 1 {
                        pre.amms@[0].cash as int
                    } else {
                        0
                    })
                    &&& self.last_amm_uninvested == (if n == 1 {
                        pre.amms@[0].cash - basic
                    } else {
                        pre.last_amm_uninvested as int
                    })
                    &&& self.amm_put_cash == pre.amm_put_cash
                    &&& self.cash_invested == pre.cash_invested
                    &&& self.coins_invested == pre.coins_invested
                    &&& self.buy_logs == pre.buy_logs
                    &&& self.tick == pre.tick
                    &&& self.last_price == pre.last_price
                    &&& self.amount_round == pre.amount_round
                    &&& self.est_dca_cash_use_ratio == pre.est_dca_cash_use_ratio
                    &&& self.rebalance_cash_ratio == pre.rebalance_cash_ratio
                    &&& self.rebalance_step_percentage == pre.rebalance_step_percentage
                    &&& self.finished_amms == pre.finished_amms + n
                    &&& self.imaginary_amm_ticks_to_expire == pre.imaginary_amm_ticks_to_expire
                }),
            decreases self.amms@.len(),
        {
            let ghost n_pre = pre.amms@.len() - self.amms@.len();
            proof {
                assert(self.amms@[0] == pre.amms@[n_pre]);
                if n_pre == popped0 {
                    // The next front position is not due yet, so the loop
                    // cannot be entered again.
                    assert(self.amms@[0].tick_to_expire == pre.finished_amms + n_pre + h0);
                    assert(false);
                }
                assert(n_pre == 0 && popped0 == 1);
                assert(self.amms@.skip(1) =~= pre.amms@.skip(1));
            }
            let front_cash = self.amms[0].cash;
            self.amms.remove(0);
            self.last_amm_uninvested = (front_cash as i128) - (basic as i128);
            self.imaginary_total_amm_returned_cash = self.imaginary_total_amm_returned_cash
                + front_cash;
            self.finished_amms = self.finished_amms + 1;
            self.cash_reserve = self.cash_reserve + (front_cash as i128);
            proof {
                assert(pre.amms@.remove(0) =~= pre.amms@.skip(1));
            }
        }

        proof {
            let n = pre.amms@.len() - self.amms@.len();
            if popped0 == 1 && n == 0 {
                // The front position is due, so the loop cannot have
                // stopped without reclaiming it.
                assert(pre.amms@.len() == t0 - pre.finished_amms);
                assert(self.amms@[0].tick_to_expire == pre.finished_amms + h0);
                assert(false);
            }
            assert(n == popped0);
        }

        let funding = self.amm_cash_today();

        let new_amm = AMMBuyBear::new(
            funding,
            price,
            self.tick + self.imaginary_amm_ticks_to_expire,
            self.rebalance_cash_ratio,
            self.rebalance_step_percentage,
        );
        self.amms.push(new_amm);

        let ghost mid = *self;
        let ghost qmid = mid.amms@;
        proof {
            assert(qmid =~= pre.amms@.skip(popped0).push(new_amm));
            // Conservation after reclamation, funding and enqueueing.
            lemma_sum_push(pre.amms@.skip(popped0), new_amm);
            lemma_sum_funding_prefix_push(pre.amm_put_cash@, funding, t0);
            assert(sum_funding_prefix(mid.amm_put_cash@, t0 + 1) == sum_funding_prefix(
                pre.amm_put_cash@,
                t0,
            ) + funding);
            if popped0 == 1 {
                assert(sum_position_cash(pre.amms@) == pre.amms@[0].cash + sum_position_cash(
                    pre.amms@.skip(1),
                ));
            }
            assert(mid.cash_invested + sum_position_cash(qmid)
                + mid.imaginary_total_amm_returned_cash == sum_funding_prefix(
                mid.amm_put_cash@,
                t0 + 1,
            ));
            lemma_sum_cash_nonnegative(qmid);
            lemma_sum_coins_nonnegative(qmid);
            lemma_sum_funding_prefix_bounds(mid.amm_put_cash@, t0 + 1);
            vstd::arithmetic::mul::lemma_mul_inequality(
                t0 + 1,
                MAX_TICKS as int,
                MAX_POSITION_VALUE as int,
            );
            // Every mid-queue position is well-formed with uniform
            // configuration.
            assert(forall|j: int|
                0 <= j < qmid.len() - 1 ==> qmid[j] == pre.amms@[popped0 + j]);
            assert(qmid[qmid.len() - 1] == new_amm);
            assert(forall|j: int| 0 <= j < qmid.len() ==> (#[trigger] qmid[j]).wf());
        }

        // Trade pass, newest position first, scanning the whole queue.
        let mut i = self.amms.len();
        proof {
            assert(qmid.subrange(0, qmid.len() as int) =~= qmid);
        }
        while i > 0
            invariant
                i <= qmid.len(),
                self.amms@.len() == qmid.len(),
                (forall|j: int| 0 <= j < i ==> #[trigger] self.amms@[j] == qmid[j]),
                (forall|j: int|
                    i <= j < qmid.len() ==> amm_buy_rel(qmid[j], #[trigger] self.amms@[j], price)),
                (forall|j: int|
                    i <= j < qmid.len() ==> (#[trigger] self.amms@[j]).cash <= qmid[j].cash),
                (forall|j: int| 0 <= j < qmid.len() ==> (#[trigger] self.amms@[j]).wf()),
                self.cash_invested == mid.cash_invested + sum_position_cash(qmid)
                    - sum_position_cash(self.amms@),
                self.coins_invested == mid.coins_invested + sum_position_coins(self.amms@)
                    - sum_position_coins(qmid),
                self.coins_invested <= self.cash_invested * SCALE,
                buy_log_ints(self.buy_logs@) + trade_logs_from_top(
                    qmid.subrange(0, i as int),
                    price,
                ) == buy_log_ints(mid.buy_logs@) + trade_logs_from_top(qmid, price),
                self.amm_put_cash == mid.amm_put_cash,
                self.finished_amms == mid.finished_amms,
                self.imaginary_total_amm_returned_cash == mid.imaginary_total_amm_returned_cash,
                self.cash_reserve == mid.cash_reserve,
                self.last_amm_uninvested == mid.last_amm_uninvested,
                self.tick == mid.tick,
                self.last_price == mid.last_price,
                self.amount_round == mid.amount_round,
                self.est_dca_cash_use_ratio == mid.est_dca_cash_use_ratio,
                self.rebalance_cash_ratio == mid.rebalance_cash_ratio,
                self.rebalance_step_percentage == mid.rebalance_step_percentage,
                self.imaginary_amm_ticks_to_expire == mid.imaginary_amm_ticks_to_expire,
            decreases i,
        {
            i = i - 1;
            let ghost q_pre = self.amms@;
            let ghost logs_pre = self.buy_logs@;
            let mut amm = self.amms[i];
            proof {
                assert(amm == qmid[i as int]);
                lemma_sum_cash_nonnegative(self.amms@);
                lemma_sum_coins_nonnegative(self.amms@);
            }
            let (c, k) = amm.buy(price, &mut self.buy_logs);
            self.amms[i] = amm;
            proof {
                lemma_sum_update(q_pre, i as int, amm);
                lemma_sum_cash_nonnegative(self.amms@);
                lemma_sum_coins_nonnegative(self.amms@);
            }
            self.cash_invested = self.cash_invested + c;
            self.coins_invested = self.coins_invested + (k as u128);
            proof {
                let sub_closed = qmid.subrange(0, i + 1);
                assert(sub_closed.last() == qmid[i as int]);
                assert(sub_closed.drop_last() =~= qmid.subrange(0, i as int));
                assert(trade_logs_from_top(sub_closed, price) == amm_buy_log(qmid[i as int], price)
                    + trade_logs_from_top(qmid.subrange(0, i as int), price));
                assert(buy_log_ints(self.buy_logs@) =~= buy_log_ints(logs_pre) + amm_buy_log(
                    qmid[i as int],
                    price,
                ));
                assert((buy_log_ints(logs_pre) + amm_buy_log(qmid[i as int], price))
                    + trade_logs_from_top(qmid.subrange(0, i as int), price) =~= buy_log_ints(
                    logs_pre,
                ) + trade_logs_from_top(sub_closed, price));
            }
        }

        proof {
            assert(qmid.subrange(0, 0) =~= Seq::<AMMBuyBear>::empty());
            assert(trade_logs_from_top(qmid.subrange(0, 0), price) =~= Seq::<(int, int)>::empty());
            assert(buy_log_ints(self.buy_logs@) + Seq::<(int, int)>::empty() =~= buy_log_ints(
                self.buy_logs@,
            ));
            assert(buy_log_ints(self.buy_logs@) == buy_log_ints(pre.buy_logs@)
                + trade_logs_from_top(qmid, price));
        }

        self.tick = self.tick + 1;
        self.last_price = price;

        proof {
            let t1 = self.tick as int;
            let f1 = self.finished_amms as int;
            lemma_sum_cash_nonnegative(self.amms@);
            lemma_sum_funding_prefix_bounds(self.amm_put_cash@, f1);
            assert(self.amm_put_cash@.len() == t1);
            assert(f1 == (if t1 >= h0 {
                t1 - h0
            } else {
                0
            }));
            assert(self.amms@.len() == t1 - f1);
            assert(forall|j: int|
                0 <= j < qmid.len() - 1 ==> qmid[j] == pre.amms@[popped0 + j]);
            assert forall|j: int| 0 <= j < self.amms@.len() implies (
            #[trigger] self.amms@[j]).tick_to_expire == f1 + j + h0 by {
                assert(amm_buy_rel(qmid[j], self.amms@[j], price));
            }
            assert forall|j: int| 0 <= j < self.amms@.len() implies (
            #[trigger] self.amms@[j]).rebalance_cash_ratio == self.rebalance_cash_ratio && (
            self.amms@[j]).rebalance_step_percentage == self.rebalance_step_percentage by {
                assert(amm_buy_rel(qmid[j], self.amms@[j], price));
            }
            assert forall|j: int| 0 <= j < self.amms@.len() implies (#[trigger] self.amms@[j]).cash
                <= self.amm_put_cash@[f1 + j] by {
                assert(self.amms@[j].cash <= qmid[j].cash);
                if j < qmid.len() - 1 {
                    assert(pre.amms@[popped0 + j].cash <= pre.amm_put_cash@[pre.finished_amms
                        + popped0 + j]);
                    assert(self.amm_put_cash@[f1 + j] == pre.amm_put_cash@[f1 + j]);
                } else {
                    assert(self.amm_put_cash@[t1 - 1] == base_funding(
                        pre.amount_round as int,
                        pre.est_dca_cash_use_ratio as int,
                        pre.rebalance_cash_ratio as int,
                    ));
                }
            }
            // Conservation and the reclaimed-cash bound carry to the new
            // tick.
            lemma_sum_funding_prefix_push(pre.amm_put_cash@, base_funding(
                pre.amount_round as int,
                pre.est_dca_cash_use_ratio as int,
                pre.rebalance_cash_ratio as int,
            ) as u64, f1);
            // The reserve stays in its widened drift band.
            vstd::arithmetic::div_mod::lemma_div_is_ordered(
                pre.amount_round as int,
                MAX_SUPPLY as int,
                DAYS_PER_ROUND as int,
            );
            vstd::arithmetic::mul::lemma_mul_is_distributive_add(
                3 * (MAX_POSITION_VALUE as int),
                t1 - 1,
                1,
            );
            assert(3 * (MAX_POSITION_VALUE as int) * t1 == 3 * (MAX_POSITION_VALUE as int) * (t1
                - 1) + 3 * (MAX_POSITION_VALUE as int));
            assert(self.cash_reserve <= 3 * (MAX_POSITION_VALUE as int) * t1);
            assert(-(3 * (MAX_POSITION_VALUE as int) * t1) <= self.cash_reserve);
            assert(self.wf());
        }
    }

    fn get_invest_status(&self) -> (r: (u64, u128)) {
        (self.cash_invested, self.coins_invested)
    }
}

} // verus!
