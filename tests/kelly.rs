use dhandho::fixed::Rate;
use dhandho::kelly::{wager, Kelly, KellyAssumption, KellyAssumptionBuilder, KellyError};
use dhandho::money::Money;

fn sample() -> Vec<KellyAssumption> {
    vec![
        KellyAssumption(Rate(800_000), Rate(21_000_000)),
        KellyAssumption(Rate(100_000), Rate(7_500_000)),
        KellyAssumption(Rate(100_000), Rate(-1_000_000)),
    ]
}

#[test]
fn kelly_builder_test_add_kelly_assumptions() {
    let expected = KellyAssumptionBuilder { assumptions: sample() };

    assert_eq!(KellyAssumptionBuilder::new().set(sample()), expected);
}

#[test]
fn kelly_builder_test_should_return_the_number_for_the_allocation() {
    let kelly = KellyAssumptionBuilder::new().set(sample());
    let r = kelly.compute().unwrap();
    assert!((r.0 as f64 / 1e6 - 0.8309524).abs() < 1e-6);
}

#[test]
fn kelly_test_add_kelly_assumptions() {
    let s = sample();
    let expected = KellyAssumptionBuilder { assumptions: sample() };

    assert_eq!(
        KellyAssumptionBuilder::new().add(s[0]).add(s[1]).add(s[2]),
        expected
    );
}

#[test]
fn kelly_test_should_return_the_number_for_the_allocation() {
    let s = sample();
    let kelly = KellyAssumptionBuilder::new().add(s[0]).add(s[1]).add(s[2]);
    assert_eq!(kelly.compute(), Ok(Rate(830_952)));
}

#[test]
fn kelly_edge_is_probability_times_payout() {
    let kelly = KellyAssumptionBuilder::new().set(sample());
    assert_eq!(kelly.get_edge(), Rate(17_450_000));
}

#[test]
fn kelly_errors() {
    assert_eq!(KellyAssumptionBuilder::new().compute(), Err(KellyError::NoAssumptions));
    let losing = KellyAssumptionBuilder::new().add(KellyAssumption(Rate(1_000_000), Rate(-1_000_000)));
    assert_eq!(losing.compute(), Err(KellyError::NoPositivePayout));
}

#[test]
fn kelly_reads_outcomes_from_text() {
    let k = Kelly { assumption: vec!["0.8,21.0".to_string(), "0.1,7.5".to_string(), "0.1,-1".to_string()] };
    assert_eq!(k.builder(), Some(KellyAssumptionBuilder { assumptions: sample() }));
    let bad = Kelly { assumption: vec!["0.8;21".to_string()] };
    assert_eq!(bad.builder(), None);
}

#[test]
fn kelly_takes_any_weights() {
    let b = KellyAssumptionBuilder::new().add(KellyAssumption(Rate(1_500_000), Rate(2_000_000)));
    assert_eq!(b.get_edge(), Rate(3_000_000));
    assert_eq!(b.compute(), Ok(Rate(1_500_000)));
}

#[test]
fn kelly_sums_exactly_before_saturating() {
    let m = Rate(i64::MAX);
    let huge = KellyAssumptionBuilder::new()
        .add(KellyAssumption(m, m))
        .add(KellyAssumption(m, m))
        .add(KellyAssumption(m, m));
    assert_eq!(huge.get_edge(), Rate(i64::MAX));
    assert_eq!(huge.compute(), Ok(Rate(i64::MAX)));
    let cancelling = KellyAssumptionBuilder::new()
        .add(KellyAssumption(m, m))
        .add(KellyAssumption(m, m))
        .add(KellyAssumption(m, Rate(-i64::MAX)))
        .add(KellyAssumption(m, Rate(-i64::MAX)));
    assert_eq!(cancelling.get_edge(), Rate(0));
    assert_eq!(cancelling.compute(), Ok(Rate(0)));
    let negative = KellyAssumptionBuilder::new()
        .add(KellyAssumption(Rate(i64::MIN), m))
        .add(KellyAssumption(Rate(i64::MIN), m));
    assert_eq!(negative.get_edge(), Rate(i64::MIN));
}

#[test]
fn stake_from_bankroll() {
    assert_eq!(wager(Money(1000), Rate(830_952), Rate(17_450_000)), Some((Money(831), Money(14_501))));
    assert_eq!(wager(Money(1000), Rate(500_000), Rate(0)), None);
    assert_eq!(wager(Money(1000), Rate(500_000), Rate(-1)), None);
}
