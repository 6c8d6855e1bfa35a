//! Behaviour of the two baseline dollar-cost-averaging allocators.

use amm_ladder::cost_average::{CostAverageMethodTrait, DailyDollarCostAverage, DollarCostAverage};

#[test]
fn dollar_cost_average_invests_once_per_round() {
    let mut d = DollarCostAverage::default();
    d.set_supply(3_000_000);
    d.start_new_round(30);
    d.feed_price(1_000_000);
    d.feed_price(900_000);
    d.feed_price(800_000);
    let (cash, coins) = d.get_invest_status();
    assert_eq!(cash, 3_000_000);
    // 300.0000 cash at price 100.0000 buys 3.0000 coins.
    assert_eq!(coins, 30_000);

    d.start_new_round(30);
    d.feed_price(600_000);
    let (cash, coins) = d.get_invest_status();
    assert_eq!(cash, 6_000_000);
    assert_eq!(coins, 30_000 + 50_000);
}

#[test]
fn daily_dollar_cost_average_invests_every_tick() {
    let mut d = DailyDollarCostAverage::default();
    d.set_supply(3_000_000);
    d.start_new_round(30);
    d.feed_price(500_000);
    let (cash, coins) = d.get_invest_status();
    // One thirtieth of the budget per tick: 10.0000 at price 50.0000.
    assert_eq!(cash, 100_000);
    assert_eq!(coins, 2_000);
    d.feed_price(200_000);
    let (cash, coins) = d.get_invest_status();
    assert_eq!(cash, 200_000);
    assert_eq!(coins, 2_000 + 5_000);
}
