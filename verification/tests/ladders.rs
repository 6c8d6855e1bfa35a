//! Behaviour of the base ladder and the adaptive ladder: funding, expiry
//! bookkeeping, utilization and the falling-market scenario.

use amm_ladder::cost_average::{AMMCostAverage, AMMCostAverageAuto, CostAverageMethodTrait};

#[test]
fn base_ladder_first_tick_exact() {
    // use 0.75, target cash ratio 0.9, 0.5% steps, horizon 150; a round
    // budget of 2000.0000 gives a daily budget of 66.6666 and a leveraged
    // funding of 499.9995, of which a tenth converts at the first price.
    let mut l = AMMCostAverage::new(7_500, 9_000, 50, 150);
    l.set_supply(20_000_000);
    l.start_new_round(30);
    l.feed_price(100_000_000);

    assert_eq!(l.amm_put_cash, vec![4_999_995]);
    let (cash_invested, coins_invested) = l.get_invest_status();
    assert_eq!(cash_invested, 500_000);
    assert_eq!(coins_invested, 50);
    assert_eq!(l.cash_reserve, 666_666 - 4_999_995);
    assert_eq!(l.buy_logs, vec![(100_000_000, 50)]);
    assert_eq!(l.tick, 1);
    assert_eq!(l.amms.len(), 1);
    assert_eq!(l.amms[0].cash, 4_499_995);
    assert_eq!(l.amms[0].coins, 50);
}

#[test]
fn base_ladder_reclaims_matured_positions() {
    // Horizon 2 on a flat price: after four ticks the two oldest
    // positions have matured and returned their unconverted cash.
    let mut l = AMMCostAverage::new(7_500, 9_000, 50, 2);
    l.set_supply(30_000_000);
    l.start_new_round(30);
    for _ in 0..4 {
        l.feed_price(1_000_000);
    }
    assert_eq!(l.tick, 4);
    assert_eq!(l.finished_amms, 2);
    assert_eq!(l.imaginary_total_amm_returned_cash, 13_500_000);
    assert_eq!(l.amms.len(), 2);
    assert_eq!(l.amm_put_cash, vec![7_500_000; 4]);
    let (cash_invested, _) = l.get_invest_status();
    assert_eq!(cash_invested, 3_000_000);
    assert_eq!(l.cash_reserve, -12_500_000);
    // Conservation: invested + queued cash + returned == total funding.
    let queued: u64 = l.amms.iter().map(|a| a.cash).sum();
    let put: u64 = l.amm_put_cash.iter().sum();
    assert_eq!(cash_invested + queued + l.imaginary_total_amm_returned_cash, put);
}

#[test]
fn utilization_is_unavailable_before_first_expiry() {
    let mut l = AMMCostAverage::new(7_500, 9_000, 50, 2);
    l.set_supply(30_000_000);
    l.start_new_round(30);
    l.feed_price(1_000_000);
    l.feed_price(1_000_000);
    // tick == horizon: the first position has just matured inside the
    // second feed, but the utilization window opens only past it.
    assert!(l.past_amm_cash_utilization().is_none());
    l.feed_price(1_000_000);
    let (cash_put, invested, average, over) = l.past_amm_cash_utilization().unwrap();
    assert_eq!(cash_put, 7_500_000);
    assert_eq!(invested, 750_000);
    assert_eq!(average, 750_000);
    // Exactly a tenth converted against an expected share of 1 - 0.9, so
    // the realized over-investment ratio is exactly one.
    assert_eq!(over, 10_000);
}

#[test]
fn cash_unused_counts_reserve_and_queued_cash() {
    let mut l = AMMCostAverage::new(7_500, 9_000, 50, 150);
    l.set_supply(20_000_000);
    l.start_new_round(30);
    l.feed_price(100_000_000);
    let queued: i128 = l.amms.iter().map(|a| a.cash as i128).sum();
    assert_eq!(l.cash_unused(), l.cash_reserve + queued);
}

#[test]
fn falling_market_invests_every_tick() {
    // Target cash ratio 0.8, 0.5% steps, horizon 150, use ratio 0.817, a
    // 2000.0000 budget per 30-tick round, prices falling from 100.0000
    // toward 50.0000: coins appear at the first tick and the invested
    // cash grows strictly at every tick.
    let mut l = AMMCostAverage::new(8_170, 8_000, 50, 150);
    l.set_supply(20_000_000);
    let mut round_ticks: usize = 0;
    let mut previous_cash: u64 = 0;
    for i in 0..50u64 {
        if round_ticks == 0 {
            l.start_new_round(30);
        }
        round_ticks += 1;
        if round_ticks == 30 {
            round_ticks = 0;
        }
        l.feed_price(1_000_000 - 10_000 * i);
        let (cash_invested, coins_invested) = l.get_invest_status();
        assert!(cash_invested > previous_cash);
        assert!(coins_invested > 0);
        previous_cash = cash_invested;
    }
    let (cash_invested, coins_invested) = l.get_invest_status();
    assert_eq!(cash_invested, 35_024_924);
    assert_eq!(coins_invested, 494_660);
}

#[test]
fn adaptive_cash_unused_counts_reserve_and_queued_cash() {
    let mut auto = AMMCostAverageAuto::new(7_500, 9_000, 50, 2, 1_000);
    auto.set_supply(30_000_000);
    auto.start_new_round(30);
    for _ in 0..5 {
        auto.feed_price(1_000_000);
    }
    let queued: i128 = auto.amms.iter().map(|a| a.cash as i128).sum();
    assert_eq!(auto.cash_unused(), auto.cash_reserve + queued);
}

#[test]
fn adaptive_ladder_matches_base_before_horizon() {
    let mut base = AMMCostAverage::new(7_500, 9_000, 50, 2);
    let mut auto = AMMCostAverageAuto::new(7_500, 9_000, 50, 2, 1_000);
    base.set_supply(30_000_000);
    auto.set_supply(30_000_000);
    base.start_new_round(30);
    auto.start_new_round(30);
    for _ in 0..3 {
        base.feed_price(1_000_000);
        auto.feed_price(1_000_000);
    }
    assert_eq!(base.amm_put_cash, auto.amm_put_cash);
    assert_eq!(base.get_invest_status(), auto.get_invest_status());
}

#[test]
fn adaptive_funding_applies_feedback_after_horizon() {
    // Flat price, horizon 2, reinvest share 0.1: on the fourth tick the
    // catch-up and ratio-correction terms raise the funding from
    // 750.0000 to 1037.4750.
    let mut auto = AMMCostAverageAuto::new(7_500, 9_000, 50, 2, 1_000);
    auto.set_supply(30_000_000);
    auto.start_new_round(30);
    for _ in 0..5 {
        auto.feed_price(1_000_000);
    }
    assert_eq!(
        auto.amm_put_cash,
        vec![7_500_000, 7_500_000, 7_500_000, 10_374_750, 10_562_250]
    );
    assert_eq!(auto.finished_amms, 3);
    assert_eq!(auto.total_amm_returned_cash, 20_250_000);
    let (cash_invested, coins_invested) = auto.get_invest_status();
    assert_eq!(cash_invested, 4_343_700);
    assert_eq!(coins_invested, 43_436);
    assert_eq!(auto.cash_reserve, -18_187_000);
}

#[test]
fn adaptive_funding_is_clamped_at_zero() {
    // A collapsing market converts the whole leveraged funding, the
    // catch-up term goes strongly negative, and the computed funding is
    // floored at zero rather than turning negative.
    let mut auto = AMMCostAverageAuto::new(10_000, 9_000, 50, 2, 10_000);
    auto.set_supply(30_000_000);
    auto.start_new_round(30);
    let mut price: u64 = 1_000_000;
    for _ in 0..10 {
        auto.feed_price(price);
        price = price / 2;
    }
    assert_eq!(
        auto.amm_put_cash,
        vec![
            10_000_000,
            10_000_000,
            10_000_000,
            0,
            0,
            0,
            8_172_900,
            18_172_900,
            15_107_620,
            0,
        ]
    );
}
