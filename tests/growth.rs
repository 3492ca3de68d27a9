use dhandho::fixed::Rate;
use dhandho::growth::{GrowthAssumption, GrowthAssumptionBuilder};
use dhandho::growth_rate::get_growth_rate;
use dhandho::cagr::{cagr, CagrError, MAX_UNITS};
use dhandho::money::Money;

fn rates(xs: &[i64]) -> Vec<Rate> {
    xs.iter().map(|x| Rate(*x)).collect()
}

#[test]
fn should_create_one_assumption_per_year_with_specified_increment() {
    let expected = GrowthAssumptionBuilder {
        assumptions: rates(&[150_000, 140_000, 130_000, 120_000, 110_000, 100_000]),
    };

    assert_eq!(
        GrowthAssumptionBuilder::new().add(GrowthAssumption(6, Rate(150_000), Some(Rate(-10_000)))),
        expected
    );
}

#[test]
fn should_create_one_assumption_per_year_with_specified_plus_increment() {
    let expected = GrowthAssumptionBuilder {
        assumptions: rates(&[150_000, 160_000, 170_000, 180_000, 190_000, 200_000]),
    };

    assert_eq!(
        GrowthAssumptionBuilder::new().add(GrowthAssumption(6, Rate(150_000), Some(Rate(10_000)))),
        expected
    );
}

#[test]
fn normalize_rounds_to_hundredths_each_year() {
    assert_eq!(
        GrowthAssumption(3, Rate(123_456), Some(Rate(4_999))).normalize(),
        rates(&[120_000, 120_000, 120_000])
    );
    assert_eq!(GrowthAssumption(2, Rate(125_000), None).normalize(), rates(&[130_000, 130_000]));
    assert_eq!(
        GrowthAssumption(2, Rate(-15_000), Some(Rate(-10_000))).normalize(),
        rates(&[-20_000, -30_000])
    );
}

#[test]
fn builder_concatenates_in_order() {
    let b = GrowthAssumptionBuilder::new()
        .add(GrowthAssumption(2, Rate(100_000), None))
        .add(GrowthAssumption(1, Rate(50_000), None));
    assert_eq!(b.assumptions, rates(&[100_000, 100_000, 50_000]));
}

#[test]
fn test_cagr_value_formula() {
    assert_eq!(cagr(Money(95), Money(80), 1), Ok(Rate(187_500)));
}

#[test]
fn cagr_over_five_periods() {
    let r = cagr(Money(15349), Money(10000), 5).unwrap();
    assert!((r.0 as f64 / 1e6 - 0.0895).abs() < 1e-4);
    assert_eq!(r, Rate(89_472));
}

#[test]
fn cagr_errors() {
    assert_eq!(cagr(Money(10), Money(0), 3), Err(CagrError::Undefined));
    assert_eq!(cagr(Money(10), Money(5), 0), Err(CagrError::Undefined));
    assert_eq!(cagr(Money(-10), Money(5), 2), Err(CagrError::Undefined));
    assert_eq!(cagr(Money(-20), Money(-5), 2), Ok(Rate(1_000_000)));
    assert_eq!(cagr(Money(0), Money(5), 2), Ok(Rate(-1_000_000)));
}

#[test]
fn cagr_over_many_periods_and_large_values() {
    assert_eq!(cagr(Money(2), Money(1), 10), Ok(Rate(71_773)));
    assert_eq!(cagr(Money(2000), Money(1000), 10), Ok(Rate(71_773)));
    assert_eq!(cagr(Money(i64::MAX), Money(1), 20), Ok(Rate(7_876_556)));
    assert_eq!(cagr(Money(1), Money(1), 1_000), Ok(Rate(0)));
    assert_eq!(cagr(Money(i64::MAX), Money(1), 1), Ok(Rate(MAX_UNITS)));
}

#[test]
fn test_growth_rate_scenarios() {
    let scenarios = vec![(
        vec![Money(1200), Money(1100), Money(1000), Money(900)],
        Rate(102_000),
    )];

    for scenario in scenarios {
        let (items, expected_rate) = scenario;
        assert_eq!(get_growth_rate(&items), Ok(expected_rate));
    }
}

#[test]
fn growth_rate_short_series_falls_back() {
    assert_eq!(get_growth_rate(&vec![Money(1200)]), Ok(Rate(50_000)));
    assert_eq!(get_growth_rate(&vec![Money(2), Money(1)]), Ok(Rate(50_000)));
}

#[test]
fn growth_rate_of_long_series() {
    let flat: Vec<Money> = vec![Money(10_000_000_000); 14];
    assert_eq!(get_growth_rate(&flat), Ok(Rate(0)));
    let doubling: Vec<Money> = (0..14).rev().map(|i| Money(10_000_000_000 << i)).collect();
    assert_eq!(get_growth_rate(&doubling), Ok(Rate(1_000_000)));
}

#[test]
fn growth_rate_errors() {
    assert_eq!(
        get_growth_rate(&vec![Money(1200), Money(0), Money(900)]),
        Err(CagrError::Undefined)
    );
    assert_eq!(
        get_growth_rate(&vec![Money(1200), Money(-5), Money(900)]),
        Err(CagrError::Undefined)
    );
}
