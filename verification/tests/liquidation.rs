//! Behaviour of the bull-exit liquidation staircase.

use amm_ladder::amm::exit_insane_bull;

#[test]
fn liquidate_is_a_no_op_on_non_rising_price() {
    let mut cash: u64 = 300_000_000;
    let mut coins: u64 = 90_000;
    let mut price: u64 = 100_000_000;
    let mut log = Vec::new();
    exit_insane_bull(2_500, &mut cash, &mut coins, 50, &mut price, 100_000_000, &mut log);
    assert_eq!(cash, 300_000_000);
    assert_eq!(coins, 90_000);
    assert_eq!(price, 100_000_000);
    assert_eq!(log.len(), 0);
}

#[test]
fn liquidate_toward_quarter_cash() {
    // 30000.0000 cash and 9.0000 coins, target cash fraction 0.25, 0.5%
    // steps, price rising from 10000.0000 to 10500.0000: nine sales, the
    // final stepped price overshooting to 10511.4009.
    let mut cash: u64 = 300_000_000;
    let mut coins: u64 = 90_000;
    let mut price: u64 = 100_000_000;
    let mut log = Vec::new();
    exit_insane_bull(2_500, &mut cash, &mut coins, 50, &mut price, 105_000_000, &mut log);

    assert_eq!(cash, 310_270_017);
    assert_eq!(coins, 88_995);
    assert_eq!(price, 105_114_009);
    assert_eq!(log.len(), 9);
    assert_eq!(log[0], (100_500_000, -112));

    // The remaining cash sits at the target fraction of the final total
    // value, within one discretization step's tolerance.
    let total: u128 = (cash as u128) + (coins as u128) * (price as u128) / 10_000;
    let target_cash = total * 2_500 / 10_000;
    let diff = if (cash as u128) > target_cash {
        cash as u128 - target_cash
    } else {
        target_cash - cash as u128
    };
    let one_step_tolerance = total * 50 / 10_000;
    assert!(log.len() > 0);
    assert!(diff <= one_step_tolerance);
}

#[test]
fn liquidate_sells_nothing_while_cash_is_above_target() {
    // With cash already far above the target fraction, the walk advances
    // without selling.
    let mut cash: u64 = 1_000_000;
    let mut coins: u64 = 100;
    let mut price: u64 = 1_000_000;
    let mut log = Vec::new();
    exit_insane_bull(2_500, &mut cash, &mut coins, 50, &mut price, 1_010_000, &mut log);
    assert_eq!(cash, 1_000_000);
    assert_eq!(coins, 100);
    assert!(price >= 1_010_000);
    assert_eq!(log.len(), 0);
}
