//! The single rebalancing unit: a fixed-horizon position that keeps a target
//! cash fraction by buying on price declines, and its liquidation
//! counterpart that sells into a rising market.
//!
//! Both algorithms walk a multiplicative price staircase: each step moves the
//! price by `price * step / SCALE` (at least one fixed-point unit, so the
//! walk always terminates). Their exact effect is captured by the recursive
//! spec functions [`buy_staircase`] and [`sell_staircase`], and the public
//! contracts say that the executable code computes precisely those outcomes.

use vstd::prelude::*;

use crate::{BuyLogs, SellLogs, MAX_COINS, MAX_POSITION_VALUE, MAX_PRICE, SCALE};

verus! {

use vstd::arithmetic::div_mod::{
    lemma_div_is_ordered,
    lemma_div_is_ordered_by_denominator,
    lemma_div_multiples_vanish,
    lemma_fundamental_div_mod,
};
use vstd::arithmetic::mul::{
    lemma_mul_inequality,
    lemma_mul_is_commutative,
    lemma_mul_is_distributive_sub,
    lemma_mul_nonnegative,
    lemma_mul_upper_bound,
};

/// One rebalancing capital unit with a fixed expiry tick.
///
/// `cash` and `coins` are unsigned fixed-point amounts, so holdings can
/// never go negative in any reachable state.
#[derive(Clone, Copy, Debug)]
pub struct AMMBuyBear {
    /// The price at which this position last transacted.
    pub last_price: u64,
    /// Absolute tick at or after which the position is reclaimed.
    pub tick_to_expire: usize,
    /// Cash held, in fixed-point cash units.
    pub cash: u64,
    /// Coins held, in fixed-point coin units.
    pub coins: u64,
    /// Target cash fraction of total value, in units of `1 / SCALE`.
    pub rebalance_cash_ratio: u64,
    /// Multiplicative staircase step, in units of `1 / SCALE`.
    pub rebalance_step_percentage: u64,
}

/// Total position value in units of `1 / (SCALE * SCALE)`: cash converted to
/// the finest grain plus the coins valued at price `p`.
pub open spec fn value_scaled(cash: int, coins: int, p: int) -> int {
    cash * (SCALE as int) + coins * p
}

/// The executable notion of total value at price `p`, in cash units:
/// `cash + coins * p / SCALE` with flooring division.
pub open spec fn position_total(cash: int, coins: int, p: int) -> int {
    cash + coins * p / (SCALE as int)
}

/// Cash surplus over the target cash fraction at price `p`; a positive
/// surplus is converted into coins.
pub open spec fn surplus(cash: int, coins: int, p: int, ratio: int) -> int {
    cash - position_total(cash, coins, p) * ratio / (SCALE as int)
}

/// Cash deficit below the target cash fraction at price `p`; a positive
/// deficit is covered by selling coins.
pub open spec fn deficit(cash: int, coins: int, p: int, ratio: int) -> int {
    position_total(cash, coins, p) * ratio / (SCALE as int) - cash
}

/// Magnitude of one staircase move from price `p`: `p * step / SCALE`,
/// floored, but never less than one fixed-point unit so the walk advances.
pub open spec fn price_step(p: int, step: int) -> int {
    if p * step / (SCALE as int) < 1 {
        1
    } else {
        p * step / (SCALE as int)
    }
}

/// Everything one descending buy staircase produces.
pub ghost struct TradeOutcome {
    /// Cash remaining afterwards.
    pub cash: int,
    /// Coins held afterwards.
    pub coins: int,
    /// The final stepped price (may undershoot the target price by up to
    /// one step).
    pub price: int,
    /// Total cash converted into coins.
    pub spent: int,
    /// Total coin units bought.
    pub bought: int,
    /// The executed trades, newest price first: `(price, coins bought)`.
    pub log: Seq<(int, int)>,
}

/// Everything one ascending sell staircase produces.
pub ghost struct SellOutcome {
    /// Cash held afterwards.
    pub cash: int,
    /// Coins remaining afterwards.
    pub coins: int,
    /// The final stepped price (may overshoot the target price by less than
    /// one step).
    pub price: int,
    /// The executed sales, lowest price first: `(price, negated coins sold)`.
    pub log: Seq<(int, int)>,
}

/// The descending buy staircase from price `p` down to `new_price`: at each
/// step price, a positive cash surplus over the target fraction buys
/// `surplus * SCALE / p` coin units, then the price falls by one step. The
/// walk stops once the price drops below `new_price`.
pub open spec fn buy_staircase(
    cash: int,
    coins: int,
    p: int,
    new_price: int,
    ratio: int,
    step: int,
) -> TradeOutcome
    decreases p,
        when 1 <= new_price && 0 <= p && 0 <= step && step <= SCALE
        via buy_staircase_decreases
{
    if p < new_price {
        TradeOutcome { cash, coins, price: p, spent: 0, bought: 0, log: Seq::empty() }
    } else {
        let b = surplus(cash, coins, p, ratio);
        if b > 0 {
            let delta = b * (SCALE as int) / p;
            let rest = buy_staircase(
                cash - b,
                coins + delta,
                p - price_step(p, step),
                new_price,
                ratio,
                step,
            );
            TradeOutcome {
                cash: rest.cash,
                coins: rest.coins,
                price: rest.price,
                spent: b + rest.spent,
                bought: delta + rest.bought,
                log: seq![(p, delta)] + rest.log,
            }
        } else {
            buy_staircase(cash, coins, p - price_step(p, step), new_price, ratio, step)
        }
    }
}

/// The ascending sell staircase from price `p` up to `finish`: at each step
/// price, a positive cash deficit below the target fraction is covered by
/// selling `ceil(deficit * SCALE / p)` coin units, then the price rises by
/// one step. The walk stops once the price reaches `finish`.
pub open spec fn sell_staircase(
    cash: int,
    coins: int,
    p: int,
    finish: int,
    ratio: int,
    step: int,
) -> SellOutcome
    decreases (if p < finish { finish - p } else { 0 }),
        when 1 <= p && 0 <= step && step <= SCALE
        via sell_staircase_decreases
{
    if p >= finish {
        SellOutcome { cash, coins, price: p, log: Seq::empty() }
    } else {
        let take = deficit(cash, coins, p, ratio);
        if take > 0 {
            let sold = (take * (SCALE as int) + p - 1) / p;
            let rest = sell_staircase(
                cash + take,
                coins - sold,
                p + price_step(p, step),
                finish,
                ratio,
                step,
            );
            SellOutcome {
                cash: rest.cash,
                coins: rest.coins,
                price: rest.price,
                log: seq![(p, -sold)] + rest.log,
            }
        } else {
            sell_staircase(cash, coins, p + price_step(p, step), finish, ratio, step)
        }
    }
}

/// Liquidates a cash/coin mix toward the target cash fraction as the price
/// ascends the staircase from `*start_price` to `finish_price`, selling the
/// cash deficit at every step price; a finish price at or below the start
/// price is a no-op. The holdings and the reached price are written back,
/// and each executed sale is appended to `sell_log` as
/// `(price, negated coin units sold)`. The exact outcome is
/// [`sell_staircase`] of the starting state.
#[verifier::loop_isolation(false)]
pub fn exit_insane_bull(
    cash_ratio: u64,
    start_cash: &mut u64,
    start_coins: &mut u64,
    rebalance_percent_steps: u64,
    start_price: &mut u64,
    finish_price: u64,
    sell_log: &mut SellLogs,
)
    requires
        cash_ratio <= SCALE,
        rebalance_percent_steps <= SCALE,
        1 <= *old(start_price),
        *old(start_price) <= MAX_PRICE,
        finish_price <= MAX_PRICE,
        *old(start_cash) <= MAX_POSITION_VALUE,
        *old(start_coins) <= MAX_COINS,
        (*old(start_coins)) * finish_price <= MAX_POSITION_VALUE * SCALE,
    ensures
        ({
            let out = sell_staircase(
                *old(start_cash) as int,
                *old(start_coins) as int,
                *old(start_price) as int,
                finish_price as int,
                cash_ratio as int,
                rebalance_percent_steps as int,
            );
            &&& *final(start_cash) == out.cash
            &&& *final(start_coins) == out.coins
            &&& *final(start_price) == out.price
            &&& sell_log_ints(final(sell_log)@) == sell_log_ints(old(sell_log)@) + out.log
        }),
        finish_price <= *old(start_price) ==> *final(start_cash) == *old(start_cash)
            && *final(start_coins) == *old(start_coins)
            && *final(start_price) == *old(start_price)
            && final(sell_log)@ == old(sell_log)@,
        *final(start_cash) >= *old(start_cash),
        *final(start_coins) <= *old(start_coins),
{
    let ghost c0 = *old(start_cash) as int;
    let ghost k0 = *old(start_coins) as int;
    let ghost p0 = *old(start_price) as int;
    let ghost fin = finish_price as int;
    let ghost rr = cash_ratio as int;
    let ghost ss = rebalance_percent_steps as int;
    let ghost full = sell_staircase(c0, k0, p0, fin, rr, ss);
    let ghost logs0 = sell_log@;
    let ghost len0 = sell_log@.len() as int;

    if finish_price <= *start_price {
        proof {
            assert(sell_log_ints(sell_log@) =~= sell_log_ints(sell_log@) + full.log);
        }
        return ;
    }

    let mut price: u64 = *start_price;
    let mut cash: u64 = *start_cash;
    let mut coins: u64 = *start_coins;

    while price < finish_price
        invariant
            1 <= price,
            cash >= c0,
            coins <= k0,
            value_scaled(cash as int, coins as int, price as int) <= value_scaled(
                c0,
                k0,
                price as int,
            ),
            sell_log@.len() >= len0,
            sell_log@.subrange(0, len0) == logs0,
            ({
                let cur = sell_staircase(cash as int, coins as int, price as int, fin, rr, ss);
                &&& full.cash == cur.cash
                &&& full.coins == cur.coins
                &&& full.price == cur.price
                &&& full.log == sell_log_ints(sell_log@).skip(len0) + cur.log
            }),
        decreases (if price < finish_price { fin - price } else { 0 }),
    {
        let ghost cash_pre = cash as int;
        let ghost coins_pre = coins as int;
        let ghost logs_pre = sell_log@;

        proof {
            lemma_mul_inequality(coins as int, k0, price as int);
            lemma_mul_upper_bound(k0, MAX_COINS as int, price as int, fin - 1);
            lemma_mul_upper_bound(k0, MAX_COINS as int, fin, MAX_PRICE as int);
            lemma_mul_inequality(price as int, fin, k0);
            lemma_mul_is_commutative(k0, price as int);
            lemma_mul_is_commutative(k0, fin);
            assert((coins as int) * (price as int) <= k0 * fin);
            assert((coins as int) * (price as int) <= MAX_POSITION_VALUE * (SCALE as int));
            lemma_mul_nonnegative(cash as int, SCALE as int);
            lemma_mul_nonnegative(c0, SCALE as int);
            lemma_mul_nonnegative(k0, price as int);
        }
        let coins_value_wide: u128 = (coins as u128) * (price as u128) / (SCALE as u128);
        proof {
            lemma_div_is_ordered(
                (coins as int) * (price as int),
                MAX_POSITION_VALUE * (SCALE as int),
                SCALE as int,
            );
        }
        let coins_value = coins_value_wide as u64;
        let total = cash + coins_value;
        proof {
            lemma_mul_upper_bound(total as int, 3 * MAX_POSITION_VALUE, cash_ratio as int, SCALE as int);
        }
        let target = total * cash_ratio / SCALE;
        let ghost take = deficit(cash_pre, coins_pre, price as int, rr);
        proof {
            assert(coins_value == coins_pre * (price as int) / (SCALE as int));
            assert(total == position_total(cash_pre, coins_pre, price as int));
        }

        if target > cash {
            let take_out = target - cash;
            proof {
                assert(take == take_out);
                // take_out <= coins_value, so the sale is covered by coins.
                lemma_mul_inequality(rr, SCALE as int, total as int);
                lemma_mul_is_commutative(total as int, rr);
                lemma_mul_is_commutative(total as int, SCALE as int);
                assert((total as int) * rr <= (total as int) * (SCALE as int));
                lemma_div_is_ordered(
                    (total as int) * rr,
                    (total as int) * (SCALE as int),
                    SCALE as int,
                );
                lemma_div_multiples_vanish(total as int, SCALE as int);
                assert(target <= total);
                assert(take_out <= coins_value);
            }
            let sold = (take_out * SCALE + price - 1) / price;
            proof {
                // sold = ceil(take_out * SCALE / price) covers the cash
                // raised: take_out * SCALE <= sold * price, with the
                // overshoot below one price quantum.
                lemma_fundamental_div_mod((take_out * SCALE + price - 1) as int, price as int);
                lemma_mul_is_commutative(price as int, sold as int);
                // sold <= coins.
                lemma_fundamental_div_mod(coins_pre * (price as int), SCALE as int);
                lemma_mul_inequality(
                    take_out as int,
                    coins_pre * (price as int) / (SCALE as int),
                    SCALE as int,
                );
                lemma_mul_is_commutative(coins_pre * (price as int) / (SCALE as int), SCALE as int);
                vstd::arithmetic::div_mod::lemma_div_multiples_vanish_fancy(
                    coins_pre,
                    (price - 1) as int,
                    price as int,
                );
                lemma_div_is_ordered(
                    (take_out * SCALE + price - 1) as int,
                    coins_pre * (price as int) + price - 1,
                    price as int,
                );
                lemma_mul_is_commutative(coins_pre, price as int);
                assert(sold <= coins);
                // Value at `price` does not increase.
                vstd::arithmetic::mul::lemma_mul_is_distributive_sub_other_way(
                    price as int,
                    coins_pre,
                    sold as int,
                );
            }
            cash = cash + take_out;
            coins = coins - sold;
            sell_log.push((price, -(sold as i64)));
            proof {
                assert(value_scaled(cash as int, coins as int, price as int) <= value_scaled(
                    cash_pre,
                    coins_pre,
                    price as int,
                ));
                assert(sell_log_ints(sell_log@).skip(len0) =~= sell_log_ints(logs_pre).skip(len0)
                    + seq![(price as int, -(sold as int))]);
                assert(sell_log@.subrange(0, len0) =~= logs_pre.subrange(0, len0));
            }
        }

        proof {
            lemma_mul_upper_bound(
                price as int,
                MAX_PRICE as int,
                rebalance_percent_steps as int,
                SCALE as int,
            );
            lemma_price_step_bounds(price as int, ss);
        }
        let step_raw = price * rebalance_percent_steps / SCALE;
        let inc = if step_raw == 0 {
            1
        } else {
            step_raw
        };
        proof {
            assert(inc == price_step(price as int, ss));
            // Raising the price raises both sides of the value bound, the
            // right-hand side at least as much since coins <= k0.
            vstd::arithmetic::mul::lemma_mul_is_distributive_add(coins as int, price as int, inc as int);
            vstd::arithmetic::mul::lemma_mul_is_distributive_add(k0, price as int, inc as int);
            lemma_mul_inequality(coins as int, k0, inc as int);
            lemma_mul_is_commutative(coins as int, inc as int);
            lemma_mul_is_commutative(k0, inc as int);
            // Relate the full staircase to the remaining one.
            let cur = sell_staircase(cash_pre, coins_pre, price as int, fin, rr, ss);
            let rest = sell_staircase(cash as int, coins as int, price as int + inc, fin, rr, ss);
            if take > 0 {
                assert(cur.log == seq![(price as int, -((take * (SCALE as int) + price - 1) / (
                price as int)))] + rest.log);
                assert(full.log =~= sell_log_ints(sell_log@).skip(len0) + rest.log);
            } else {
                assert(cur == rest);
            }
        }
        price = price + inc;
    }

    proof {
        let cur = sell_staircase(cash as int, coins as int, price as int, fin, rr, ss);
        assert(cur.log == Seq::<(int, int)>::empty());
        assert(full.log =~= sell_log_ints(sell_log@).skip(len0));
        assert(sell_log_ints(sell_log@) =~= sell_log_ints(logs0) + sell_log_ints(
            sell_log@,
        ).skip(len0)) by {
            assert forall|i: int| 0 <= i < sell_log@.len() implies sell_log_ints(sell_log@)[i] == (
            sell_log_ints(logs0) + sell_log_ints(sell_log@).skip(len0))[i] by {
                if i < len0 {
                    assert(sell_log@[i] == sell_log@.subrange(0, len0)[i]);
                }
            }
        }
    }

    *start_cash = cash;
    *start_price = price;
    *start_coins = coins;
}

/// One staircase move from a price of at least one unit stays within
/// `[1, p]`, so both staircases advance and never cross zero.
pub proof fn lemma_price_step_bounds(p: int, step: int)
    requires
        1 <= p,
        0 <= step,
        step <= SCALE,
    ensures
        1 <= price_step(p, step),
        price_step(p, step) <= p,
{
    vstd::arithmetic::mul::lemma_mul_inequality(step, SCALE as int, p);
    vstd::arithmetic::div_mod::lemma_div_is_ordered(p * step, p * (SCALE as int), SCALE as int);
    vstd::arithmetic::div_mod::lemma_div_multiples_vanish(p, SCALE as int);
    assert(p * (SCALE as int) == (SCALE as int) * p) by {
        vstd::arithmetic::mul::lemma_mul_is_commutative(p, SCALE as int);
    }
}

#[via_fn]
proof fn buy_staircase_decreases(
    cash: int,
    coins: int,
    p: int,
    new_price: int,
    ratio: int,
    step: int,
) {
    if p >= new_price {
        lemma_price_step_bounds(p, step);
    }
}

#[via_fn]
proof fn sell_staircase_decreases(
    cash: int,
    coins: int,
    p: int,
    finish: int,
    ratio: int,
    step: int,
) {
    if p < finish {
        lemma_price_step_bounds(p, step);
    }
}

/// Law: a position's holdings are non-negative at every tick; the unsigned
/// fixed-point representation carries this in every reachable state.
pub proof fn lemma_position_holdings_nonnegative(a: AMMBuyBear)
    ensures
        a.cash >= 0,
        a.coins >= 0,
{
}

/// Law: one buying step conserves value up to its rounding loss. When the
/// step at price `p` converts the cash surplus `b` into `b * SCALE / p`
/// coin units, the holdings valued at `p` never gain, and lose less than
/// one price quantum (`p` in the finest value grain) to the flooring.
pub proof fn lemma_trade_step_conserves_value(cash: int, coins: int, p: int, ratio: int)
    requires
        0 <= cash,
        0 <= coins,
        1 <= p,
        0 <= ratio,
    ensures
        ({
            let b = surplus(cash, coins, p, ratio);
            let delta = b * (SCALE as int) / p;
            b > 0 ==> value_scaled(cash - b, coins + delta, p) <= value_scaled(cash, coins, p)
                && value_scaled(cash, coins, p) - value_scaled(cash - b, coins + delta, p) < p
        }),
{
    let b = surplus(cash, coins, p, ratio);
    if b > 0 {
        let delta = b * (SCALE as int) / p;
        lemma_fundamental_div_mod(b * (SCALE as int), p);
        lemma_mul_is_commutative(p, delta);
        vstd::arithmetic::mul::lemma_mul_is_distributive_add_other_way(p, coins, delta);
    }
}

/// Law: one selling step conserves value up to its rounding loss. When the
/// step at price `p` covers the cash deficit `take` by selling
/// `ceil(take * SCALE / p)` coin units, the sale is covered by the coins
/// held, the holdings valued at `p` never gain, and lose less than one
/// price quantum to the ceiling.
pub proof fn lemma_sell_step_conserves_value(cash: int, coins: int, p: int, ratio: int)
    requires
        0 <= cash,
        0 <= coins,
        1 <= p,
        0 <= ratio,
        ratio <= SCALE,
    ensures
        ({
            let take = deficit(cash, coins, p, ratio);
            let sold = (take * (SCALE as int) + p - 1) / p;
            take > 0 ==> sold <= coins && value_scaled(cash + take, coins - sold, p)
                <= value_scaled(cash, coins, p) && value_scaled(cash, coins, p) - value_scaled(
                cash + take,
                coins - sold,
                p,
            ) < p
        }),
{
    let take = deficit(cash, coins, p, ratio);
    if take > 0 {
        let total = position_total(cash, coins, p);
        let sold = (take * (SCALE as int) + p - 1) / p;
        lemma_mul_nonnegative(coins, p);
        lemma_mul_inequality(ratio, SCALE as int, total);
        lemma_mul_is_commutative(total, ratio);
        lemma_mul_is_commutative(total, SCALE as int);
        lemma_div_is_ordered(total * ratio, total * (SCALE as int), SCALE as int);
        lemma_div_multiples_vanish(total, SCALE as int);
        // take * SCALE is covered by the coin value.
        lemma_fundamental_div_mod(coins * p, SCALE as int);
        lemma_mul_inequality(take, coins * p / (SCALE as int), SCALE as int);
        lemma_mul_is_commutative(coins * p / (SCALE as int), SCALE as int);
        vstd::arithmetic::div_mod::lemma_div_multiples_vanish_fancy(coins, p - 1, p);
        lemma_div_is_ordered(take * (SCALE as int) + p - 1, coins * p + p - 1, p);
        lemma_mul_is_commutative(coins, p);
        // The ceiling overshoots take * SCALE by less than p.
        lemma_fundamental_div_mod(take * (SCALE as int) + p - 1, p);
        lemma_mul_is_commutative(p, sold);
        vstd::arithmetic::mul::lemma_mul_is_distributive_sub_other_way(p, coins, sold);
    }
}

/// Law: a whole buy staircase never creates value and only moves cash into
/// coins: the cash spent and coins bought are exactly the changes in the
/// holdings, and the final holdings valued at the final stepped price are
/// worth at most the starting holdings valued at the starting price.
pub proof fn lemma_buy_staircase_properties(
    cash: int,
    coins: int,
    p: int,
    new_price: int,
    ratio: int,
    step: int,
)
    requires
        0 <= cash,
        0 <= coins,
        0 <= p,
        1 <= new_price,
        0 <= ratio,
        0 <= step,
        step <= SCALE,
    ensures
        ({
            let out = buy_staircase(cash, coins, p, new_price, ratio, step);
            &&& out.cash == cash - out.spent
            &&& out.coins == coins + out.bought
            &&& 0 <= out.spent <= cash
            &&& 0 <= out.bought
            &&& 0 <= out.price <= p
            &&& value_scaled(out.cash, out.coins, out.price) <= value_scaled(cash, coins, p)
        }),
    decreases p,
{
    if p >= new_price {
        let b = surplus(cash, coins, p, ratio);
        let total = position_total(cash, coins, p);
        lemma_mul_nonnegative(coins, p);
        lemma_mul_nonnegative(total, ratio);
        assert(total * ratio / (SCALE as int) >= 0) by {
            lemma_div_is_ordered(0, total * ratio, SCALE as int);
        }
        lemma_price_step_bounds(p, step);
        let p2 = p - price_step(p, step);
        if b > 0 {
            let delta = b * (SCALE as int) / p;
            lemma_trade_step_conserves_value(cash, coins, p, ratio);
            assert(delta >= 0) by {
                lemma_mul_nonnegative(b, SCALE as int);
                lemma_div_is_ordered(0, b * (SCALE as int), p);
            }
            lemma_buy_staircase_properties(cash - b, coins + delta, p2, new_price, ratio, step);
            let rest = buy_staircase(cash - b, coins + delta, p2, new_price, ratio, step);
            // Dropping the price from p to p2 cannot raise the coin value.
            lemma_mul_inequality(p2, p, coins + delta);
            lemma_mul_is_commutative(p2, coins + delta);
            lemma_mul_is_commutative(p, coins + delta);
        } else {
            lemma_buy_staircase_properties(cash, coins, p2, new_price, ratio, step);
            lemma_mul_inequality(p2, p, coins);
            lemma_mul_is_commutative(p2, coins);
            lemma_mul_is_commutative(p, coins);
        }
    }
}

/// Law: a whole sell staircase never creates value and only moves coins
/// into cash: cash never shrinks, coins never grow and never go negative,
/// and the final holdings valued at the final stepped price are worth at
/// most the starting holdings valued at that same price.
pub proof fn lemma_sell_staircase_properties(
    cash: int,
    coins: int,
    p: int,
    finish: int,
    ratio: int,
    step: int,
)
    requires
        0 <= cash,
        0 <= coins,
        1 <= p,
        0 <= ratio,
        ratio <= SCALE,
        0 <= step,
        step <= SCALE,
    ensures
        ({
            let out = sell_staircase(cash, coins, p, finish, ratio, step);
            &&& out.cash >= cash
            &&& 0 <= out.coins <= coins
            &&& out.price >= p
            &&& out.cash * (SCALE as int) + out.coins * out.price <= cash * (SCALE as int) + coins
                * out.price
        }),
    decreases (if p < finish { finish - p } else { 0 }),
{
    if p < finish {
        lemma_sell_step_conserves_value(cash, coins, p, ratio);
        lemma_price_step_bounds(p, step);
        let take = deficit(cash, coins, p, ratio);
        let p2 = p + price_step(p, step);
        if take > 0 {
            let sold = (take * (SCALE as int) + p - 1) / p;
            lemma_sell_staircase_properties(cash + take, coins - sold, p2, finish, ratio, step);
            let out = sell_staircase(cash + take, coins - sold, p2, finish, ratio, step);
            // The trade's value loss at price p only widens at the higher
            // final price, because the sold coins are worth more there.
            lemma_mul_nonnegative(sold, out.price - p);
            lemma_mul_is_distributive_sub(sold, out.price, p);
            lemma_mul_is_commutative(sold, p);
            lemma_mul_is_commutative(sold, out.price);
            vstd::arithmetic::mul::lemma_mul_is_distributive_sub_other_way(
                out.price,
                coins,
                sold,
            );
            lemma_fundamental_div_mod(take * (SCALE as int) + p - 1, p);
            lemma_mul_is_commutative(p, sold);
        } else {
            lemma_sell_staircase_properties(cash, coins, p2, finish, ratio, step);
        }
    }
}

/// Law: a position pays out at most once. After an expiry check that
/// reclaimed the holdings, every later check still reports the position
/// expired (the flag is not a one-shot signal) but its payout is `(0, 0)`.
pub proof fn lemma_expiry_pays_out_once(a: AMMBuyBear, t1: usize, t2: usize)
    requires
        expire_flag(a, t1),
    ensures
        expire_payout(after_expire(a, t1), t2) == (0u64, 0u64),
        t2 >= t1 ==> expire_flag(after_expire(a, t1), t2),
{
}

/// A staircase outcome with already-accumulated totals and log added in
/// front; used to relate a partially executed walk to the full one.
pub open spec fn outcome_with_acc(
    spent: int,
    bought: int,
    log: Seq<(int, int)>,
    t: TradeOutcome,
) -> TradeOutcome {
    TradeOutcome {
        cash: t.cash,
        coins: t.coins,
        price: t.price,
        spent: spent + t.spent,
        bought: bought + t.bought,
        log: log + t.log,
    }
}

/// The entries of an executable buy log as mathematical integer pairs.
pub open spec fn buy_log_ints(s: Seq<(u64, u64)>) -> Seq<(int, int)> {
    s.map_values(|e: (u64, u64)| (e.0 as int, e.1 as int))
}

/// The entries of an executable sell log as mathematical integer pairs.
pub open spec fn sell_log_ints(s: Seq<(u64, i64)>) -> Seq<(int, int)> {
    s.map_values(|e: (u64, i64)| (e.0 as int, e.1 as int))
}

/// Whether an expiry check at `tick` reclaims the position.
pub open spec fn expire_flag(a: AMMBuyBear, tick: usize) -> bool {
    tick >= a.tick_to_expire
}

/// What an expiry check at `tick` pays out.
pub open spec fn expire_payout(a: AMMBuyBear, tick: usize) -> (u64, u64) {
    if expire_flag(a, tick) {
        (a.cash, a.coins)
    } else {
        (0u64, 0u64)
    }
}

/// The position state after an expiry check at `tick`.
pub open spec fn after_expire(a: AMMBuyBear, tick: usize) -> AMMBuyBear {
    if expire_flag(a, tick) {
        AMMBuyBear { cash: 0u64, coins: 0u64, ..a }
    } else {
        a
    }
}

impl AMMBuyBear {
    /// Well-formedness: the configuration ratios are genuine fractions, the
    /// last price is representable, and the total value at the position's
    /// own last price fits the per-position cap. Constructors establish
    /// this and every method preserves it.
    pub open spec fn wf(&self) -> bool {
        &&& self.cash * (SCALE as int) + self.coins * (self.last_price as int) <= MAX_POSITION_VALUE
            * (SCALE as int)
        &&& self.coins <= MAX_COINS
        &&& self.last_price <= MAX_PRICE
        &&& self.rebalance_cash_ratio <= SCALE
        &&& self.rebalance_step_percentage <= SCALE
    }

    /// Creates a position funded entirely with cash at the given price.
    pub fn new(
        cash: u64,
        price: u64,
        tick_to_expire: usize,
        rebalance_cash_ratio: u64,
        rebalance_step_percentage: u64,
    ) -> (r: Self)
        requires
            cash <= MAX_POSITION_VALUE,
            1 <= price,
            price <= MAX_PRICE,
            rebalance_cash_ratio <= SCALE,
            rebalance_step_percentage <= SCALE,
        ensures
            r.wf(),
            r.last_price == price,
            r.tick_to_expire == tick_to_expire,
            r.cash == cash,
            r.coins == 0,
            r.rebalance_cash_ratio == rebalance_cash_ratio,
            r.rebalance_step_percentage == rebalance_step_percentage,
    {
        Self {
            last_price: price,
            cash,
            tick_to_expire,
            coins: 0,
            rebalance_cash_ratio,
            rebalance_step_percentage,
        }
    }

    /// Reclaims the position once its expiry tick has been reached: returns
    /// whether it expired together with the holdings paid out, zeroing the
    /// holdings on expiry. A position that already paid out stays expired
    /// but pays `(0, 0)` on every later call.
    pub fn check_expiration(&mut self, tick: usize) -> (r: (bool, u64, u64))
        ensures
            r.0 == expire_flag(*old(self), tick),
            (r.1, r.2) == expire_payout(*old(self), tick),
            *final(self) == after_expire(*old(self), tick),
            old(self).wf() ==> final(self).wf(),
    {
        let take_out;
        if tick >= self.tick_to_expire {
            take_out = (true, self.cash, self.coins);
            self.cash = 0;
            self.coins = 0;
        } else {
            take_out = (false, 0, 0);
        }

        take_out
    }

    /// Runs the descending rebalancing staircase from the last transacted
    /// price down to `new_price`, buying the cash surplus at every step
    /// price; a `new_price` above the last transacted price is a no-op
    /// that leaves the position untouched. Returns the totals
    /// `(cash spent, coins bought)` and appends each executed buy to
    /// `buy_logs`, newest price first. The exact outcome is
    /// [`buy_staircase`] of the starting state.
    #[verifier::loop_isolation(false)]
    pub fn buy(&mut self, new_price: u64, buy_logs: &mut BuyLogs) -> (r: (u64, u64))
        requires
            old(self).wf(),
            1 <= new_price,
        ensures
            final(self).wf(),
            ({
                let out = buy_staircase(
                    old(self).cash as int,
                    old(self).coins as int,
                    old(self).last_price as int,
                    new_price as int,
                    old(self).rebalance_cash_ratio as int,
                    old(self).rebalance_step_percentage as int,
                );
                &&& final(self).cash == out.cash
                &&& final(self).coins == out.coins
                &&& final(self).last_price == out.price
                &&& r.0 == out.spent
                &&& r.1 == out.bought
                &&& buy_log_ints(final(buy_logs)@) == buy_log_ints(old(buy_logs)@) + out.log
            }),
            new_price > old(self).last_price ==> *final(self) == *old(self) && final(buy_logs)@
                == old(buy_logs)@ && r == (0u64, 0u64),
            final(self).tick_to_expire == old(self).tick_to_expire,
            final(self).rebalance_cash_ratio == old(self).rebalance_cash_ratio,
            final(self).rebalance_step_percentage == old(self).rebalance_step_percentage,
            old(self).cash == final(self).cash + r.0,
            final(self).coins == old(self).coins + r.1,
            r.1 <= r.0 * SCALE,
            final(self).last_price <= old(self).last_price,
    {
        let ghost c0 = old(self).cash as int;
        let ghost k0 = old(self).coins as int;
        let ghost p0 = old(self).last_price as int;
        let ghost np = new_price as int;
        let ghost rr = old(self).rebalance_cash_ratio as int;
        let ghost ss = old(self).rebalance_step_percentage as int;
        let ghost full = buy_staircase(c0, k0, p0, np, rr, ss);
        let ghost logs0 = buy_logs@;
        let ghost len0 = buy_logs@.len() as int;

        let mut price = self.last_price;
        if new_price > price {
            proof {
                assert(buy_log_ints(buy_logs@) =~= buy_log_ints(buy_logs@) + full.log);
            }
            return (0, 0);
        }
        let mut cash_invested: u64 = 0;
        let mut coins_invested: u64 = 0;

        while price >= new_price
            invariant
                self.rebalance_cash_ratio == old(self).rebalance_cash_ratio,
                self.rebalance_step_percentage == old(self).rebalance_step_percentage,
                self.tick_to_expire == old(self).tick_to_expire,
                self.last_price == old(self).last_price,
                old(self).wf(),
                1 <= new_price,
                new_price <= old(self).last_price,
                price <= old(self).last_price,
                self.coins <= MAX_COINS,
                self.cash <= MAX_POSITION_VALUE,
                value_scaled(self.cash as int, self.coins as int, price as int) <= value_scaled(
                    c0,
                    k0,
                    p0,
                ),
                cash_invested == c0 - self.cash,
                coins_invested == self.coins - k0,
                coins_invested <= cash_invested * SCALE,
                buy_logs@.len() >= len0,
                buy_logs@.subrange(0, len0) == logs0,
                ({
                    let cur = buy_staircase(
                        self.cash as int,
                        self.coins as int,
                        price as int,
                        np,
                        rr,
                        ss,
                    );
                    &&& full.cash == cur.cash
                    &&& full.coins == cur.coins
                    &&& full.price == cur.price
                    &&& full.spent == cash_invested + cur.spent
                    &&& full.bought == coins_invested + cur.bought
                    &&& full.log == buy_log_ints(buy_logs@).skip(len0) + cur.log
                }),
            decreases price,
        {
            let ghost cash_pre = self.cash as int;
            let ghost coins_pre = self.coins as int;
            let ghost logs_pre = buy_logs@;

            proof {
                lemma_mul_upper_bound(
                    self.coins as int,
                    MAX_COINS as int,
                    price as int,
                    MAX_PRICE as int,
                );
                lemma_mul_nonnegative(self.cash as int, SCALE as int);
                assert(value_scaled(c0, k0, p0) <= MAX_POSITION_VALUE * (SCALE as int));
                assert((self.coins as int) * (price as int) <= MAX_POSITION_VALUE * (
                SCALE as int));
            }
            let coins_value_wide: u128 = (self.coins as u128) * (price as u128) / (SCALE as u128);
            proof {
                lemma_div_is_ordered(
                    (self.coins as int) * (price as int),
                    MAX_POSITION_VALUE * (SCALE as int),
                    SCALE as int,
                );
            }
            let coins_value = coins_value_wide as u64;
            let total = self.cash + coins_value;
            proof {
                lemma_mul_upper_bound(
                    total as int,
                    2 * MAX_POSITION_VALUE,
                    self.rebalance_cash_ratio as int,
                    SCALE as int,
                );
            }
            let target = total * self.rebalance_cash_ratio / SCALE;
            let ghost b = surplus(cash_pre, coins_pre, price as int, rr);
            proof {
                assert(coins_value == coins_pre * (price as int) / (SCALE as int));
                assert(total == position_total(cash_pre, coins_pre, price as int));
                assert(self.cash > target ==> b == cash_pre - target);
                assert(self.cash <= target ==> b <= 0);
            }

            if self.cash > target {
                let buy_amt = self.cash - target;
                let coins_delta = buy_amt * SCALE / price;
                proof {
                    // The division shorts the coins by less than one price
                    // quantum: buy_amt * SCALE == coins_delta * price + rem.
                    lemma_fundamental_div_mod((buy_amt * SCALE) as int, price as int);
                    lemma_div_is_ordered_by_denominator((buy_amt * SCALE) as int, 1, price as int);
                    lemma_mul_is_commutative(price as int, coins_delta as int);
                    vstd::arithmetic::mul::lemma_mul_is_distributive_add_other_way(
                        price as int,
                        coins_pre,
                        coins_delta as int,
                    );
                    // Value at `price` does not increase.
                    assert(value_scaled(
                        cash_pre - b,
                        coins_pre + coins_delta,
                        price as int,
                    ) <= value_scaled(cash_pre, coins_pre, price as int));
                    // The new coin balance stays under the cap.
                    lemma_mul_inequality(1, price as int, coins_pre + coins_delta);
                    lemma_mul_is_commutative(price as int, coins_pre + coins_delta);
                    lemma_mul_nonnegative(cash_pre - b, SCALE as int);
                    assert(coins_pre + coins_delta <= (coins_pre + coins_delta) * (price as int));
                    assert(coins_pre + coins_delta <= MAX_COINS);
                }
                self.cash = self.cash - buy_amt;
                self.coins = self.coins + coins_delta;
                cash_invested = cash_invested + buy_amt;
                coins_invested = coins_invested + coins_delta;
                buy_logs.push((price, coins_delta));
                proof {
                    assert(buy_log_ints(buy_logs@).skip(len0) =~= buy_log_ints(logs_pre).skip(len0)
                        + seq![(price as int, coins_delta as int)]);
                    assert(buy_logs@.subrange(0, len0) =~= logs_pre.subrange(0, len0));
                }
            }

            proof {
                lemma_mul_upper_bound(
                    price as int,
                    MAX_PRICE as int,
                    self.rebalance_step_percentage as int,
                    SCALE as int,
                );
                lemma_price_step_bounds(price as int, ss);
            }
            let step_raw = price * self.rebalance_step_percentage / SCALE;
            let dec = if step_raw == 0 {
                1
            } else {
                step_raw
            };
            proof {
                assert(dec == price_step(price as int, ss));
                // Dropping the price cannot raise the value of the coins.
                lemma_mul_is_distributive_sub(self.coins as int, price as int, dec as int);
                lemma_mul_nonnegative(self.coins as int, dec as int);
                // Relate the full staircase to the remaining one.
                let cur = buy_staircase(cash_pre, coins_pre, price as int, np, rr, ss);
                let rest = buy_staircase(
                    self.cash as int,
                    self.coins as int,
                    price as int - dec,
                    np,
                    rr,
                    ss,
                );
                if b > 0 {
                    assert(cur.log == seq![(price as int, (b * (SCALE as int) / (price as int)))]
                        + rest.log);
                    assert(full.log =~= buy_log_ints(buy_logs@).skip(len0) + rest.log);
                } else {
                    assert(cur == rest);
                }
            }
            price = price - dec;
        }

        proof {
            let cur = buy_staircase(self.cash as int, self.coins as int, price as int, np, rr, ss);
            assert(cur.log == Seq::<(int, int)>::empty());
            assert(full.log =~= buy_log_ints(buy_logs@).skip(len0));
            assert(buy_log_ints(buy_logs@) =~= buy_log_ints(logs0) + buy_log_ints(
                buy_logs@,
            ).skip(len0)) by {
                assert forall|i: int| 0 <= i < buy_logs@.len() implies buy_log_ints(buy_logs@)[i]
                    == (buy_log_ints(logs0) + buy_log_ints(buy_logs@).skip(len0))[i] by {
                    if i < len0 {
                        assert(buy_logs@[i] == buy_logs@.subrange(0, len0)[i]);
                    }
                }
            }
        }
        self.last_price = price;

        (cash_invested, coins_invested)
    }
}

} // verus!
