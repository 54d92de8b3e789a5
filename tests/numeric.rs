use stable_pool::amp_factor::AmpFactor;
use stable_pool::decimal::DecimalU64;
use stable_pool::equalizer::{from_equalized, from_equalized_down, from_equalized_up, to_equalized};
use stable_pool::error::PoolError;
use stable_pool::pool_fee::{fees_sum_below_one, PoolFee};
use stable_pool::stable_swap::{compute_depth, governance_mint_amount, proportional_share, remove_uniform};

fn dec(value: u64, decimals: u8) -> DecimalU64 {
    DecimalU64 { value, decimals }
}

#[test]
fn decimal_add_aligns_points() {
    assert_eq!(dec(15, 1).checked_add(&dec(25, 2)), Ok(dec(175, 2)));
    assert_eq!(dec(u64::MAX, 0).checked_add(&dec(1, 0)), Err(PoolError::NumericOverflow));
}

#[test]
fn decimal_sub_refuses_negatives() {
    assert_eq!(dec(3, 0).checked_sub(&dec(25, 1)), Ok(dec(5, 1)));
    assert_eq!(dec(1, 0).checked_sub(&dec(2, 0)), Err(PoolError::NumericOverflow));
}

#[test]
fn decimal_compare_and_trunc() {
    assert!(dec(1, 1).is_less_than(&dec(2, 1)));
    assert!(!dec(10, 1).is_less_than(&dec(1, 0)));
    assert!(dec(10, 1).is_same_as(&dec(1, 0)));
    assert_eq!(dec(12345, 2).trunc(), 123);
    assert_eq!(DecimalU64::new(1, 20), Err(PoolError::NumericOverflow));
}

#[test]
fn fee_must_stay_below_one() {
    assert_eq!(PoolFee::new(dec(1, 0)), Err(PoolError::InvalidFeeInput));
    assert!(PoolFee::new(dec(9999, 4)).is_ok());
    assert!(fees_sum_below_one(&dec(3, 4), &dec(1, 4)));
    assert!(!fees_sum_below_one(&dec(5, 1), &dec(50, 2)));
}

#[test]
fn amp_ramp_clamps_and_moves_monotonically() {
    let mut amp = AmpFactor::new(dec(100, 0)).unwrap();
    let day = 86_400;
    amp.set_target(1_000, dec(200, 0), 1_000 + 10 * day).unwrap();
    assert_eq!(amp.get(0), dec(100, 0));
    assert_eq!(amp.get(1_000), dec(100, 0));
    assert_eq!(amp.get(1_000 + 5 * day), dec(150, 0));
    assert_eq!(amp.get(1_000 + 10 * day), dec(200, 0));
    assert_eq!(amp.get(i64::MAX), dec(200, 0));
    let mut last = 0;
    for t in 0..=20 {
        let v = amp.get(1_000 + t * day / 2).value;
        assert!(v >= last);
        last = v;
    }
}

#[test]
fn amp_ramp_down_is_monotone_too() {
    let mut amp = AmpFactor::new(dec(1000, 0)).unwrap();
    amp.set_target(0, dec(100, 0), 90_000).unwrap();
    assert_eq!(amp.get(45_000), dec(550, 0));
    assert!(amp.get(30_000).value >= amp.get(60_000).value);
}

#[test]
fn depth_of_balanced_pool_is_its_sum() {
    assert_eq!(compute_depth(&vec![1_000_000, 1_000_000, 1_000_000], &dec(1000, 0)), Ok(3_000_000));
    assert_eq!(compute_depth(&vec![0, 0], &dec(10, 0)), Ok(0));
}

#[test]
fn depth_of_unbalanced_pool_is_below_its_sum() {
    let d = compute_depth(&vec![1_000_000, 100_000], &dec(10, 0)).unwrap();
    assert!(d < 1_100_000 && d > 900_000, "d = {}", d);
}

#[test]
fn governance_mint_is_its_share_of_the_gain() {
    // supply 1000, depth 1000 -> 1010: 10 units gained, a quarter to governance
    assert_eq!(governance_mint_amount(1000, 1000, 1000, 1010, 3, 1), Ok(2));
    assert_eq!(governance_mint_amount(1000, 1000, 1000, 1000, 3, 1), Ok(0));
    assert_eq!(governance_mint_amount(1000, 1000, 1000, 1010, 3, 0), Ok(0));
    assert_eq!(governance_mint_amount(1000, 1000, 1000, 1100, 1, 1), Ok(50));
}

#[test]
fn uniform_share_rounds_down() {
    assert_eq!(proportional_share(10, 1, 3), 3);
    assert_eq!(proportional_share(u128::MAX, 1, 2), u128::MAX / 2);
    let (outs, depth) = remove_uniform(1, &vec![10, 20, 31], 3, 100);
    assert_eq!(outs, vec![3, 6, 10]);
    assert_eq!(depth, 67);
}

#[test]
fn equalization_rounds_half_up() {
    assert_eq!(to_equalized(12, 3), 12_000);
    assert_eq!(from_equalized(12_499, 3), Ok(12));
    assert_eq!(from_equalized(12_500, 3), Ok(13));
    assert_eq!(from_equalized(u128::MAX, 0), Err(PoolError::NumericOverflow));
}

#[test]
fn decimal_mul_keeps_or_truncates_digits() {
    assert_eq!(dec(15, 1).checked_mul(&dec(25, 2)), Ok(dec(375, 3)));
    // 10^10 * 10^10 = 10^20 does not fit the mantissa: one digit goes
    let big = dec(10_000_000_000, 0);
    assert_eq!(big.checked_mul(&big), Err(PoolError::NumericOverflow));
    let r = dec(u64::MAX, 10).checked_mul(&dec(3, 0)).unwrap();
    assert_eq!(r, dec(u64::MAX / 10 * 3 + (u64::MAX % 10) * 3 / 10, 9));
}

#[test]
fn decimal_div_rounds_down_with_many_digits() {
    let third = dec(1, 0).checked_div(&dec(3, 0)).unwrap();
    assert_eq!(third, dec(3_333_333_333_333_333_333, 19));
    assert_eq!(dec(10, 0).checked_div(&dec(4, 0)).unwrap().trunc(), 2);
    assert_eq!(dec(1, 0).checked_div(&dec(0, 3)), Err(PoolError::DivByZero));
}

#[test]
fn decimal_normalization_strips_trailing_zeros() {
    assert_eq!(dec(1500, 3).normalized(), dec(15, 1));
    assert_eq!(dec(1000, 0).normalized(), dec(1000, 0));
    assert_eq!(dec(0, 5).normalized(), dec(0, 0));
    assert_eq!(dec(123, 2).normalized(), dec(123, 2));
}

#[test]
fn amp_retarget_accepts_targets_written_with_many_digits() {
    let day = 86_400;
    let mut amp = AmpFactor::new(dec(1000, 0)).unwrap();
    let target = dec(15_000_000_000_000_000_000, 17);
    assert_eq!(amp.set_target(1_000, target, 1_000 + day), Ok(()));
    assert_eq!(amp.initial_value, dec(1000, 0));
    assert_eq!(amp.target_value, target);
    assert_eq!(amp.get(1_000 + day), target);
    let mid = amp.get(1_000 + day / 2);
    assert!(mid.is_same_as(&dec(575, 0)), "{:?}", mid);

    let mut amp = AmpFactor::new(dec(10, 0)).unwrap();
    let fine = dec(18_446_744_073_709_551_615, 19);
    assert_eq!(amp.set_target(0, fine, day), Ok(()));
    let v = amp.get(day / 2);
    assert!(v.is_less_than(&dec(10, 0)) && dec(1, 0).is_less_than(&v), "{:?}", v);
    assert_eq!(amp.get(day), fine);
}

#[test]
fn user_amounts_round_in_the_pool_s_favour() {
    assert_eq!(from_equalized_down(12_999, 3), Ok(12));
    assert_eq!(from_equalized_up(12_001, 3), Ok(13));
    assert_eq!(from_equalized_up(12_000, 3), Ok(12));
}

#[test]
fn decimal_div_keeps_the_most_digits_that_fit() {
    assert_eq!(dec(10, 0).checked_div(&dec(3, 0)), Ok(dec(3_333_333_333_333_333_333, 18)));
    assert_eq!(dec(u64::MAX, 0).checked_div(&dec(1, 0)), Ok(dec(u64::MAX, 0)));
    assert_eq!(dec(u64::MAX, 0).checked_div(&dec(1, 1)), Err(PoolError::NumericOverflow));
    assert_eq!(dec(1, 19).checked_div(&dec(u64::MAX, 0)), Ok(dec(0, 19)));
    assert_eq!(dec(7, 2).checked_div(&dec(2, 1)), Ok(dec(3_500_000_000_000_000_000, 19)));
}
