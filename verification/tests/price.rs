use finance_metrics::price::{
    percent_change_between, resolve, trend, PriceMetrics, PricePoint, Trend, PERCENT_SCALE,
};

fn history(prices: &[i64]) -> Vec<PricePoint> {
    let mut out = Vec::new();
    let mut timestamp = 1_700_000_000 + 60 * prices.len() as i64;
    for &price in prices {
        out.push(PricePoint { timestamp, price });
        timestamp -= 60;
    }
    out
}

#[test]
fn change_from_ninety_to_a_hundred_is_eleven_point_eleven_percent() {
    let metrics = resolve(&history(&[100, 90]));
    assert_eq!(metrics.last_price, Some(100));
    assert_eq!(metrics.change_pct, Some(1111));
    let pct = metrics.change_pct.unwrap() as f64 / 100.0;
    assert!((pct - (100.0 - 90.0) / 90.0 * 100.0).abs() < 0.005);
}

#[test]
fn change_does_not_depend_on_the_unit_of_the_prices() {
    assert_eq!(resolve(&history(&[10_000, 9_000])).change_pct, Some(1111));
    assert_eq!(resolve(&history(&[1_000_000, 900_000])).change_pct, Some(1111));
}

#[test]
fn zero_previous_price_gives_no_change() {
    for latest in [i64::MIN, -5, 0, 1, 100, i64::MAX] {
        let metrics = resolve(&history(&[latest, 0]));
        assert_eq!(metrics.last_price, Some(latest));
        assert_eq!(metrics.change_pct, None);
        assert_eq!(percent_change_between(latest, 0), None);
    }
}

#[test]
fn empty_history_gives_nothing() {
    let metrics = resolve(&Vec::new());
    assert_eq!(metrics, PriceMetrics { last_price: None, change_pct: None });
}

#[test]
fn single_point_gives_last_price_only() {
    let metrics = resolve(&history(&[4_250]));
    assert_eq!(metrics, PriceMetrics { last_price: Some(4_250), change_pct: None });
}

#[test]
fn only_the_first_two_points_are_consulted() {
    let two = resolve(&history(&[120, 100]));
    let many = resolve(&history(&[120, 100, 0, 7, -3]));
    assert_eq!(two, many);
    assert_eq!(many.change_pct, Some(2_000));
    assert_eq!(many.last_price, Some(120));
}

#[test]
fn timestamps_do_not_enter_the_metrics() {
    let a = vec![
        PricePoint { timestamp: 5, price: 50 },
        PricePoint { timestamp: 900, price: 40 },
    ];
    let b = vec![
        PricePoint { timestamp: -1, price: 50 },
        PricePoint { timestamp: -1, price: 40 },
    ];
    assert_eq!(resolve(&a), resolve(&b));
    assert_eq!(resolve(&a).change_pct, Some(2_500));
}

#[test]
fn falling_price_gives_negative_change() {
    assert_eq!(percent_change_between(90, 100), Some(-1_000));
    assert_eq!(percent_change_between(50, 100), Some(-5_000));
    assert_eq!(percent_change_between(0, 100), Some(-10_000));
}

#[test]
fn unchanged_price_gives_zero_change() {
    assert_eq!(percent_change_between(77, 77), Some(0));
    assert_eq!(percent_change_between(-77, -77), Some(0));
}

#[test]
fn doubling_is_a_hundred_percent() {
    assert_eq!(percent_change_between(200, 100), Some(PERCENT_SCALE));
}

#[test]
fn change_is_rounded_to_the_nearest_hundredth() {
    // 2/3 of a percent step: 66.666...% rounds up to 66.67%.
    assert_eq!(percent_change_between(5, 3), Some(6_667));
    // 1/3: 33.333...% rounds down.
    assert_eq!(percent_change_between(4, 3), Some(3_333));
    // -66.666...% rounds away from zero.
    assert_eq!(percent_change_between(1, 3), Some(-6_667));
    assert_eq!(percent_change_between(2, 3), Some(-3_333));
}

#[test]
fn a_change_half_way_between_two_hundredths_goes_away_from_zero() {
    // 1/80000 is 0.00125%: an eighth of a hundredth, rounds to 0.
    assert_eq!(percent_change_between(80_001, 80_000), Some(0));
    // 1/20000 is 0.005%: exactly half a hundredth.
    assert_eq!(percent_change_between(20_001, 20_000), Some(1));
    assert_eq!(percent_change_between(19_999, 20_000), Some(-1));
    // 3/20000 is 0.015%.
    assert_eq!(percent_change_between(20_003, 20_000), Some(2));
    assert_eq!(percent_change_between(19_997, 20_000), Some(-2));
}

#[test]
fn negative_previous_price_keeps_the_formula() {
    // (-90 - -100) / -100 * 100 = -10%
    assert_eq!(percent_change_between(-90, -100), Some(-1_000));
    // (100 - -100) / -100 * 100 = -200%
    assert_eq!(percent_change_between(100, -100), Some(-20_000));
    // (-100 - 100) / 100 * 100 = -200%
    assert_eq!(percent_change_between(-100, 100), Some(-20_000));
}

#[test]
fn extreme_prices_do_not_overflow() {
    let span = i64::MAX as i128 - i64::MIN as i128;
    assert_eq!(percent_change_between(i64::MAX, 1), Some((i64::MAX as i128 - 1) * 10_000));
    assert_eq!(percent_change_between(i64::MAX, -1), Some(-(i64::MAX as i128 + 1) * 10_000));
    assert_eq!(percent_change_between(i64::MIN, 1), Some((i64::MIN as i128 - 1) * 10_000));
    assert_eq!(percent_change_between(i64::MAX, i64::MIN), Some(-20_000));
    assert_eq!(
        percent_change_between(i64::MIN, i64::MAX),
        Some(-((span * 10_000 * 2 + i64::MAX as i128) / (2 * i64::MAX as i128)))
    );
}

#[test]
fn change_is_within_half_a_hundredth_of_the_exact_value() {
    let samples: [i64; 9] = [-1_000_003, -977, -12, -1, 1, 7, 360, 99_991, 123_456_789];
    for &previous in &samples {
        for &latest in &samples {
            let change = percent_change_between(latest, previous).unwrap();
            let exact_times_previous = (latest as i128 - previous as i128) * 10_000;
            let off = (change * previous as i128 - exact_times_previous).abs();
            assert!(2 * off <= (previous as i128).abs());
        }
    }
}

#[test]
fn trend_follows_the_sign_of_the_change() {
    assert_eq!(trend(Some(1)), Trend::Rising);
    assert_eq!(trend(Some(1_111)), Trend::Rising);
    assert_eq!(trend(Some(-1)), Trend::Falling);
    assert_eq!(trend(Some(i128::MIN)), Trend::Falling);
    assert_eq!(trend(Some(0)), Trend::Flat);
    assert_eq!(trend(None), Trend::Flat);
}
