use finance_metrics::display::{
    format_amount, format_change, format_decimal, format_price, format_quantity, format_rate,
    format_signed_decimal,
};

#[test]
fn two_decimals_of_hundredths() {
    assert_eq!(format_decimal(20_000, 2), "200.00");
    assert_eq!(format_decimal(5_000, 2), "50.00");
    assert_eq!(format_decimal(1_111, 2), "11.11");
    assert_eq!(format_decimal(105, 2), "1.05");
    assert_eq!(format_decimal(99, 2), "0.99");
    assert_eq!(format_decimal(7, 2), "0.07");
    assert_eq!(format_decimal(0, 2), "0.00");
}

#[test]
fn negative_values_carry_a_minus_sign() {
    assert_eq!(format_decimal(-1, 2), "-0.01");
    assert_eq!(format_decimal(-100, 2), "-1.00");
    assert_eq!(format_decimal(-25_000, 2), "-250.00");
}

#[test]
fn other_numbers_of_places() {
    assert_eq!(format_decimal(0, 0), "0");
    assert_eq!(format_decimal(-12, 0), "-12");
    assert_eq!(format_decimal(1_234_567_890, 0), "1234567890");
    assert_eq!(format_decimal(10_900, 4), "1.0900");
    assert_eq!(format_decimal(1_090_000, 6), "1.090000");
    assert_eq!(format_decimal(5, 1), "0.5");
    assert_eq!(format_decimal(12, 5), "0.00012");
    assert_eq!(format_decimal(-12, 5), "-0.00012");
}

#[test]
fn extreme_values_are_written_in_full() {
    assert_eq!(format_decimal(i128::MAX, 0), i128::MAX.to_string());
    assert_eq!(format_decimal(i128::MIN, 0), i128::MIN.to_string());
    assert_eq!(
        format_decimal(i128::MAX, 2),
        "1701411834604692317316873037158841057.27"
    );
    assert_eq!(
        format_decimal(i128::MIN, 2),
        "-1701411834604692317316873037158841057.28"
    );
    assert_eq!(
        format_decimal(i128::MAX, 39),
        "0.170141183460469231731687303715884105727"
    );
    let wide = format_decimal(1, 255);
    assert_eq!(wide.len(), 257);
    assert!(wide.starts_with("0.000"));
    assert!(wide.ends_with("0001"));
}

#[test]
fn agrees_with_the_standard_formatting_of_integers() {
    for value in [-1_000_001i128, -999, -10, -9, -1, 0, 1, 9, 10, 11, 99, 100, 101, 7_654_321] {
        assert_eq!(format_decimal(value, 0), value.to_string());
        let sign = if value < 0 { "-" } else { "" };
        let m = value.unsigned_abs();
        assert_eq!(format_decimal(value, 2), format!("{}{}.{:02}", sign, m / 100, m % 100));
        assert_eq!(format_decimal(value, 3), format!("{}{}.{:03}", sign, m / 1000, m % 1000));
    }
}

#[test]
fn signed_text_marks_what_is_not_negative_with_a_plus() {
    assert_eq!(format_signed_decimal(1_111, 2), "+11.11");
    assert_eq!(format_signed_decimal(0, 2), "+0.00");
    assert_eq!(format_signed_decimal(-1_111, 2), "-11.11");
    assert_eq!(format_signed_decimal(3, 0), "+3");
}

#[test]
fn change_is_shown_signed_with_a_percent_sign() {
    assert_eq!(format_change(Some(1_111)), "+11.11%");
    assert_eq!(format_change(Some(-5_000)), "-50.00%");
    assert_eq!(format_change(Some(0)), "+0.00%");
    assert_eq!(format_change(Some(5)), "+0.05%");
    assert_eq!(format_change(None), "-");
}

#[test]
fn price_is_shown_with_two_decimals() {
    assert_eq!(format_price(Some(4_250)), "42.50");
    assert_eq!(format_price(Some(-4_250)), "-42.50");
    assert_eq!(format_price(Some(0)), "0.00");
    assert_eq!(format_price(Some(i64::MAX)), "92233720368547758.07");
    assert_eq!(format_price(Some(i64::MIN)), "-92233720368547758.08");
    assert_eq!(format_price(None), "-");
}

#[test]
fn quantity_drops_the_decimals_of_a_whole_number() {
    assert_eq!(format_quantity(300), "3");
    assert_eq!(format_quantity(0), "0");
    assert_eq!(format_quantity(-1_200), "-12");
    assert_eq!(format_quantity(250), "2.50");
    assert_eq!(format_quantity(-250), "-2.50");
    assert_eq!(format_quantity(1), "0.01");
    assert_eq!(format_quantity(10), "0.10");
    assert_eq!(format_quantity(i128::MIN), "-1701411834604692317316873037158841057.28");
}

#[test]
fn rate_is_shown_with_four_decimals() {
    assert_eq!(format_rate(1_090_000), "1.0900");
    assert_eq!(format_rate(860_049), "0.8600");
    assert_eq!(format_rate(860_050), "0.8601");
    assert_eq!(format_rate(1), "0.0000");
    assert_eq!(format_rate(50), "0.0001");
    assert_eq!(format_rate(u64::MAX), "18446744073709.5516");
}

#[test]
fn amount_is_shown_beside_its_currency() {
    assert_eq!(format_amount(109, "USD"), "109.00 USD");
    assert_eq!(format_amount(0, "eur"), "0.00 eur");
    assert_eq!(format_amount(u64::MAX, ""), "18446744073709551615.00 ");
}
