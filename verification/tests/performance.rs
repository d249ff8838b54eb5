use portfolio_tracker::bignum::BigInt;
use portfolio_tracker::performance::{calculate_twr_from_periods, Fraction, SubPeriod};

fn big_to_f64(b: &BigInt) -> f64 {
    let mut v = 0.0f64;
    for limb in b.magnitude.iter().rev() {
        v = v * 18446744073709551616.0 + *limb as f64;
    }
    if b.negative {
        -v
    } else {
        v
    }
}

fn big_to_i128(b: &BigInt) -> i128 {
    let mut v: i128 = 0;
    for limb in b.magnitude.iter().rev() {
        v = v.checked_mul(1i128 << 64).expect("small") + *limb as i128;
    }
    if b.negative {
        -v
    } else {
        v
    }
}

fn digits(b: &BigInt) -> Vec<u64> {
    let mut d = b.magnitude.clone();
    while d.last() == Some(&0) {
        d.pop();
    }
    d
}

fn as_f64(f: &Fraction) -> f64 {
    big_to_f64(&f.numerator) / big_to_f64(&f.denominator)
}

fn twr(periods: &[SubPeriod]) -> f64 {
    as_f64(&calculate_twr_from_periods(periods))
}

#[test]
fn test_twr_calculation() {
    let periods = vec![
        SubPeriod { start_value: 100, end_value: 110, cash_flow: 0 },
        SubPeriod { start_value: 110, end_value: 99, cash_flow: 0 },
    ];
    let twr = twr(&periods);
    // (110/100 - 1) = 0.1, (99/110 - 1) = -0.1, TWR = 1.1 * 0.9 - 1 = -0.01
    assert!((twr - (-0.01)).abs() < 1e-9);
}

#[test]
fn test_twr_single_period_no_cash_flow() {
    let periods = vec![SubPeriod { start_value: 1000, end_value: 1100, cash_flow: 0 }];
    let twr = twr(&periods);
    assert!((twr - 0.10).abs() < 1e-9);
}

#[test]
fn test_twr_with_cash_flow() {
    // The second period grows only by the 500 deposited.
    let periods = vec![
        SubPeriod { start_value: 1000, end_value: 1100, cash_flow: 0 },
        SubPeriod { start_value: 1100, end_value: 1600, cash_flow: 500 },
    ];
    let twr = twr(&periods);
    // TWR = (1 + 0.10) * (1 + 0.0) - 1 = 0.10
    assert!((twr - 0.10).abs() < 1e-9);
}

#[test]
fn test_twr_with_loss() {
    let periods = vec![
        SubPeriod { start_value: 1000, end_value: 900, cash_flow: 0 },
        SubPeriod { start_value: 900, end_value: 810, cash_flow: 0 },
    ];
    let twr = twr(&periods);
    // (900/1000) * (810/900) - 1 = 0.9 * 0.9 - 1 = -0.19
    assert!((twr - (-0.19)).abs() < 1e-9);
}

#[test]
fn test_twr_empty_periods() {
    let twr = twr(&[]);
    // product of no factors is 1, so 1 - 1 = 0
    assert!((twr - 0.0).abs() < 1e-9);
}

#[test]
fn test_twr_zero_start_value_returns_zero() {
    let periods = vec![SubPeriod { start_value: 0, end_value: 100, cash_flow: 0 }];
    let twr = twr(&periods);
    // a period from nothing has return 0, so TWR = (1 + 0) - 1 = 0
    assert!((twr - 0.0).abs() < 1e-9);
}

#[test]
fn twr_is_exact() {
    let periods = vec![
        SubPeriod { start_value: 100, end_value: 110, cash_flow: 0 },
        SubPeriod { start_value: 110, end_value: 99, cash_flow: 0 },
    ];
    let f = calculate_twr_from_periods(&periods);
    assert_eq!(big_to_i128(&f.numerator), 10890 - 11000);
    assert_eq!(big_to_i128(&f.denominator), 11000);
}

#[test]
fn twr_chains_over_runs() {
    let a = vec![SubPeriod { start_value: 200, end_value: 260, cash_flow: 20 }];
    let b = vec![SubPeriod { start_value: 300, end_value: 270, cash_flow: -30 }];
    let both: Vec<SubPeriod> = a.iter().chain(b.iter()).copied().collect();
    let ga = 1.0 + twr(&a);
    let gb = 1.0 + twr(&b);
    assert!((1.0 + twr(&both) - ga * gb).abs() < 1e-12);
}

#[test]
fn twr_stays_exact_beyond_machine_integers() {
    // Each growth factor is 2^64 - 1 over 1, so the product is (2^64 - 1)^3.
    let big = SubPeriod { start_value: 1, end_value: i64::MAX, cash_flow: i64::MIN };
    let f = calculate_twr_from_periods(&[big, big, big]);
    // (2^64 - 1)^3 - 1 = (2^64 - 3) * 2^128 + 2 * 2^64 + (2^64 - 2)
    assert!(!f.numerator.negative);
    assert_eq!(digits(&f.numerator), vec![u64::MAX - 1, 2, u64::MAX - 2]);
    assert_eq!(big_to_i128(&f.denominator), 1);
    let g = calculate_twr_from_periods(&[big]);
    assert_eq!(digits(&g.numerator), vec![u64::MAX - 1]);
}

#[test]
fn twr_of_large_losses_is_negative() {
    let p = SubPeriod { start_value: i64::MAX, end_value: 1, cash_flow: 0 };
    let f = calculate_twr_from_periods(&[p, p]);
    // (1 * 1 - (2^63 - 1)^2) / (2^63 - 1)^2
    let d = (i64::MAX as i128) * (i64::MAX as i128);
    assert!(f.numerator.negative);
    assert_eq!(big_to_i128(&f.denominator), d);
    assert_eq!(big_to_i128(&f.numerator), 1 - d);
}

#[test]
fn period_return_values() {
    let p = SubPeriod { start_value: 1100, end_value: 1600, cash_flow: 500 };
    let f = p.period_return();
    assert_eq!((big_to_i128(&f.numerator), big_to_i128(&f.denominator)), (0, 1100));
    let q = SubPeriod { start_value: 0, end_value: 100, cash_flow: 0 };
    let f = q.period_return();
    assert_eq!((big_to_i128(&f.numerator), big_to_i128(&f.denominator)), (0, 1));
    let r = SubPeriod { start_value: 100, end_value: 90, cash_flow: 5 };
    let f = r.period_return();
    assert_eq!((big_to_i128(&f.numerator), big_to_i128(&f.denominator)), (-15, 100));
    let s = SubPeriod { start_value: i64::MIN, end_value: i64::MAX, cash_flow: i64::MIN };
    let f = s.period_return();
    assert_eq!(big_to_i128(&f.numerator), i64::MAX as i128 - 2 * (i64::MIN as i128));
}

#[test]
fn big_integers_subtract_across_signs() {
    let a = BigInt::from_i128(-5);
    let b = BigInt::from_i128(7);
    assert_eq!(big_to_i128(&a.sub(&b)), -12);
    assert_eq!(big_to_i128(&b.sub(&a)), 12);
    assert_eq!(big_to_i128(&a.sub(&BigInt::from_i128(-9))), 4);
    assert_eq!(big_to_i128(&BigInt::from_i128(i128::MIN).mul_small(-1).sub(&BigInt::from_i128(1))), i128::MAX);
}

#[test]
fn cash_flow_only_period_leaves_twr_unchanged() {
    let base = vec![SubPeriod { start_value: 100, end_value: 110, cash_flow: 0 }];
    let mut with_deposit = base.clone();
    with_deposit.push(SubPeriod { start_value: 1000, end_value: 1500, cash_flow: 500 });
    assert!((twr(&base) - twr(&with_deposit)).abs() < 1e-12);
    assert!((twr(&with_deposit) - 0.10).abs() < 1e-9);
}
