use dhandho::financial::{average, median, pv};
use dhandho::fixed::Rate;
use dhandho::money::Money;

#[test]
fn financial_test_present_value_formula() {
    let rate = Rate(100_000);
    let future_value = Money(10000);
    let periods = 10;

    assert_eq!(pv(rate, periods, future_value), Money(3855));
}

#[test]
fn present_value_over_zero_periods_is_the_amount() {
    for fv in [0, 1, -7, 10_000, i64::MAX, i64::MIN] {
        for rate in [-999_999, -500_000, 0, 150_000, 5_000_000] {
            assert_eq!(pv(Rate(rate), 0, Money(fv)), Money(fv));
        }
    }
}

#[test]
fn present_value_of_far_future_rounds_to_zero() {
    assert_eq!(pv(Rate(1_000_000), 200, Money(i64::MAX)), Money(0));
    assert_eq!(pv(Rate(150_000), 1, Money(115)), Money(100));
}

#[test]
fn average_rounds_the_mean() {
    assert_eq!(average(&vec![]), None);
    assert_eq!(average(&vec![Rate(1), Rate(2)]), Some(Rate(2)));
    assert_eq!(average(&vec![Rate(100_000), Rate(110_000), Rate(90_000)]), Some(Rate(100_000)));
    assert_eq!(average(&vec![Rate(i64::MIN), Rate(i64::MIN)]), Some(Rate(i64::MIN)));
}

#[test]
fn median_takes_the_lower_middle_value() {
    assert_eq!(median(&vec![]), None);
    assert_eq!(median(&vec![Rate(5)]), Some(Rate(5)));
    assert_eq!(median(&vec![Rate(3), Rate(1), Rate(2)]), Some(Rate(2)));
    assert_eq!(median(&vec![Rate(4), Rate(1), Rate(3), Rate(2)]), Some(Rate(2)));
    assert_eq!(median(&vec![Rate(7), Rate(7), Rate(-1)]), Some(Rate(7)));
}
