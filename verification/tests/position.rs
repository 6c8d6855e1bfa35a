//! Behaviour of a single rebalancing position: the descending buy
//! staircase, the monotonic-price no-op, the flat-price boundary step and
//! expiry.

use amm_ladder::amm::AMMBuyBear;

#[test]
fn new_position_holds_only_cash() {
    let p = AMMBuyBear::new(10_000_000, 1_000_000, 7, 8_000, 100);
    assert_eq!(p.cash, 10_000_000);
    assert_eq!(p.coins, 0);
    assert_eq!(p.last_price, 1_000_000);
    assert_eq!(p.rebalance_cash_ratio, 8_000);
    assert_eq!(p.rebalance_step_percentage, 100);
}

#[test]
fn buy_on_higher_price_is_a_no_op() {
    // A price above the last transacted price leaves everything untouched.
    let mut p = AMMBuyBear::new(10_000_000, 1_000_000, 7, 8_000, 100);
    let mut logs = Vec::new();
    let (spent, bought) = p.buy(1_000_001, &mut logs);
    assert_eq!((spent, bought), (0, 0));
    assert_eq!(p.cash, 10_000_000);
    assert_eq!(p.coins, 0);
    assert_eq!(p.last_price, 1_000_000);
    assert_eq!(logs.len(), 0);
}

#[test]
fn buy_walks_the_descending_staircase() {
    // 1000.0000 cash, target cash ratio 0.8, 1% steps, price falls from
    // 100.0000 to 97.0000: four step prices trade, the last stepped price
    // undershoots to 96.0597.
    let mut p = AMMBuyBear::new(10_000_000, 1_000_000, 7, 8_000, 100);
    let mut logs = Vec::new();
    let (spent, bought) = p.buy(970_000, &mut logs);
    assert_eq!(spent, 2_047_986);
    assert_eq!(bought, 20_488);
    assert_eq!(p.cash, 7_952_014);
    assert_eq!(p.coins, 20_488);
    assert_eq!(p.last_price, 960_597);
    assert_eq!(
        logs,
        vec![(1_000_000, 20_000), (990_000, 161), (980_100, 163), (970_299, 164)]
    );
}

#[test]
fn buy_never_creates_value() {
    // Value at the evaluation price never grows across a trade pass.
    let mut p = AMMBuyBear::new(10_000_000, 1_000_000, 7, 8_000, 100);
    let mut logs = Vec::new();
    let before: u128 = 10_000_000u128 * 10_000;
    p.buy(970_000, &mut logs);
    let after: u128 = (p.cash as u128) * 10_000 + (p.coins as u128) * (p.last_price as u128);
    assert!(after <= before);
}

#[test]
fn flat_price_executes_one_boundary_step_then_rests() {
    // Feeding the creation price once executes exactly the boundary step;
    // the stepped-down last price then makes the same price a no-op.
    let mut p = AMMBuyBear::new(10_000_000, 1_000_000, 7, 8_000, 100);
    let mut logs = Vec::new();
    let (spent, bought) = p.buy(1_000_000, &mut logs);
    assert_eq!((spent, bought), (2_000_000, 20_000));
    assert_eq!(p.cash, 8_000_000);
    assert_eq!(p.coins, 20_000);
    assert_eq!(p.last_price, 990_000);
    assert_eq!(logs, vec![(1_000_000, 20_000)]);

    let (spent2, bought2) = p.buy(1_000_000, &mut logs);
    assert_eq!((spent2, bought2), (0, 0));
    assert_eq!(p.cash, 8_000_000);
    assert_eq!(p.coins, 20_000);
    assert_eq!(p.last_price, 990_000);
    assert_eq!(logs.len(), 1);
}

#[test]
fn expiry_pays_out_exactly_once() {
    let mut p = AMMBuyBear::new(5_000_000, 1_000_000, 3, 8_000, 100);

    // Not due yet: nothing happens.
    let (expired, cash, coins) = p.check_expiration(2);
    assert_eq!((expired, cash, coins), (false, 0, 0));
    assert_eq!(p.cash, 5_000_000);

    // Due: the holdings are paid out and zeroed.
    let (expired, cash, coins) = p.check_expiration(3);
    assert_eq!((expired, cash, coins), (true, 5_000_000, 0));
    assert_eq!(p.cash, 0);
    assert_eq!(p.coins, 0);

    // Still reported expired afterwards, but the payout stays empty.
    let (expired, cash, coins) = p.check_expiration(9);
    assert_eq!((expired, cash, coins), (true, 0, 0));
}
