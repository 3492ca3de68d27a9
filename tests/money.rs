use std::convert::TryFrom;

use dhandho::fixed::Rate;
use dhandho::money::{Money, MoneyError};
use dhandho::money_text::clean_up_after_zero;

#[test]
fn money_test_money_creation_from_f32() {
    assert_eq!(Money::try_from(100.0_f32 as i64).unwrap_or(Money(-1)), Money(100));
}

#[test]
fn money_test_money_creation_from_string() {
    assert_eq!(
        Money::try_from("100".to_string()).unwrap_or(Money(-1)),
        Money(100)
    )
}

#[test]
fn money_test_money_creation_from_smart_strings() {
    let tests = vec![
        ("1B".to_string(), 1000000000),
        ("1M".to_string(), 1000000),
        ("1K".to_string(), 1000),
        ("1.56K".to_string(), 1560),
        ("1.4M".to_string(), 1400000),
        ("232.46B".to_string(), 232460000000),
    ];

    for test in tests.iter() {
        let (input, expect) = test;
        assert_eq!(
            Money::try_from(input.clone()).unwrap_or(Money(-1)),
            Money(*expect)
        );
    }
}

#[test]
fn money_test_clean_up_every_number_after_zero() {
    let tests = vec![(1325000, 1325000), (1325053, 1325000)];

    for test in tests.iter() {
        let (input, expect) = test;
        assert_eq!(clean_up_after_zero(*input), *expect);
    }
}

#[test]
fn money_test_money_mul_floats() {
    let money = Money(100);

    assert_eq!(money.mul(Rate(10_650_000)), Money(1065))
}

#[test]
fn test_from_broken_string_should_return_0() {
    let money = Money::try_from("N/A".to_string()).unwrap();
    assert_eq!(money, Money(0));
}

#[test]
fn money_test_display_money_format() {
    let money = Money(1000);
    assert_eq!(money.to_string(), "1,000".to_string());
}

#[test]
fn display_groups_thousands_and_keeps_sign() {
    assert_eq!(Money(0).to_string(), "0");
    assert_eq!(Money(999).to_string(), "999");
    assert_eq!(Money(1_000_000).to_string(), "1,000,000");
    assert_eq!(Money(-100).to_string(), "-100");
    assert_eq!(Money(-1234567).to_string(), "-1,234,567");
    assert_eq!(Money(i64::MIN).to_string(), "-9,223,372,036,854,775,808");
}

#[test]
fn parse_reads_back_displayed_amounts() {
    for v in [0, 7, -7, 1000, -1000, 123_456_789, i64::MAX, i64::MIN, -100, 1_000_001] {
        let m = Money(v);
        assert_eq!(Money::parse(&m.to_string()), m);
    }
}

#[test]
fn parse_smart_suffixes() {
    assert_eq!(Money::parse("1K"), Money(1000));
    assert_eq!(Money::parse("1.56K"), Money(1560));
    assert_eq!(Money::parse("232.46B"), Money(232_460_000_000));
    assert_eq!(Money::parse("1,234"), Money(1234));
    assert_eq!(Money::parse("-2.5M"), Money(-2_500_000));
    assert_eq!(Money::parse("+12"), Money(12));
}

#[test]
fn parse_malformed_text_gives_zero() {
    assert_eq!(Money::parse(""), Money(0));
    assert_eq!(Money::parse("unparsable string"), Money(0));
    assert_eq!(Money::parse("unparsable.string"), Money(0));
    assert_eq!(Money::parse("."), Money(0));
    assert_eq!(Money::parse("1.2.3"), Money(0));
    assert_eq!(Money::parse("99999999999999999999"), Money(0));
}

#[test]
fn parse_decimal_truncates_and_cleans_up() {
    assert_eq!(Money::parse("1.23456K"), Money(1230));
    assert_eq!(Money::parse("0.5"), Money(0));
    assert_eq!(Money::parse("12.5"), Money(12));
    assert_eq!(Money::parse("99999999999999999999.5"), Money(9_223_372_000_000_000_000));
}

#[test]
fn clean_up_without_zero_keeps_three_digits() {
    assert_eq!(clean_up_after_zero(123456), 123000);
    assert_eq!(clean_up_after_zero(-123456), -123000);
    assert_eq!(clean_up_after_zero(0), 0);
    assert_eq!(clean_up_after_zero(5), 5);
    assert_eq!(clean_up_after_zero(-1325053), -1325000);
}

#[test]
fn scaling_rounds_half_away_from_zero_and_saturates() {
    assert_eq!(Money(15).mul(Rate(1_050_000)), Money(16));
    assert_eq!(Money(-15).mul(Rate(1_050_000)), Money(-16));
    assert_eq!(Money(i64::MAX).mul(Rate(2_000_000)), Money(i64::MAX));
    assert_eq!(Money(10).div(Rate(3_000_000)), Money(3));
    assert_eq!(Money(10).div(Rate(0)), Money(i64::MAX));
    assert_eq!(Money(-10).div(Rate(-4_000_000)), Money(3));
}

#[test]
fn ratio_and_sums() {
    assert_eq!(Money(1).ratio(Money(4)), Ok(Rate(250_000)));
    assert_eq!(Money(1).ratio(Money(0)), Err(MoneyError::DivisionByZero));
    assert_eq!(Money(2).add(Money(3)), Money(5));
    let mut m = Money(2);
    m.add_assign(Money(-5));
    assert_eq!(m, Money(-3));
}
