use dhandho::fixed::Rate;
use dhandho::growth::{GrowthAssumption, GrowthAssumptionBuilder};
use dhandho::intrinsic::{IntrinsicBuilder, Multiplier, Terminal, ValuationError};
use dhandho::money::Money;

fn ten_years_at_five() -> GrowthAssumptionBuilder {
    GrowthAssumptionBuilder::new().add(GrowthAssumption(10, Rate(50_000), None))
}

#[test]
fn intrinsic_builder_test_intrisic_builder() {
    let expected = IntrinsicBuilder {
        current_value: Some(Money(15)),
        rate: Rate(150_000),
        terminal: Terminal::Multiple(10),
        growth_assumptions: ten_years_at_five(),
        cash: Some(Money(10)),
        debt: None,
        probability_of_failure: None,
        shares_outstanding: None,
    };

    let builded = IntrinsicBuilder::new()
        .add_fcf(Money(15))
        .add_cash(Money(10))
        .add_rate(Rate(150_000))
        .add_growth_assumptions(ten_years_at_five())
        .add_multiplier(Multiplier::Standard);

    assert_eq!(expected, builded);
}

#[test]
fn intrinsic_test_intrisic_builder() {
    let expected = IntrinsicBuilder {
        current_value: Some(Money(15)),
        rate: Rate(150_000),
        terminal: Terminal::Multiple(10),
        growth_assumptions: ten_years_at_five(),
        cash: Some(Money(10)),
        debt: None,
        probability_of_failure: None,
        shares_outstanding: None,
    };

    let builded = IntrinsicBuilder::new()
        .add_fcf(Money(15))
        .add_rate(Rate(150_000))
        .add_cash(Money(10))
        .add_growth_assumptions(ten_years_at_five())
        .add_multiplier(Multiplier::Standard);

    assert_eq!(expected, builded);
}

#[test]
fn intrinsic_builder_test_compute_on_simple_example() {
    let intrisic = IntrinsicBuilder::new()
        .add_cash(Money(40))
        .add_fcf(Money(15))
        .add_rate(Rate(150_000))
        .add_multiplier(Multiplier::Outstanding)
        .add_growth_assumptions(ten_years_at_five());

    assert_eq!(intrisic.execute(), Ok(Money(231)));
}

#[test]
fn defaults_are_fifteen_percent_and_ten_years_at_five() {
    let b = IntrinsicBuilder::new();
    assert_eq!(b.rate, Rate(150_000));
    assert_eq!(b.terminal, Terminal::Multiple(10));
    assert_eq!(b.growth_assumptions.assumptions, vec![Rate(50_000); 10]);
    assert_eq!(b.current_value, None);
}

#[test]
fn execute_is_repeatable() {
    let b = IntrinsicBuilder::new().add_current_value(Money(1_000_000)).add_debt(Money(200_000));
    let first = b.clone().execute();
    let second = b.execute();
    assert_eq!(first, second);
    assert!(first.is_ok());
}

#[test]
fn adjustments_apply_in_order() {
    let base = IntrinsicBuilder::new()
        .add_current_value(Money(100))
        .add_growth_assumptions(GrowthAssumptionBuilder::new())
        .add_multiplier(Multiplier::Standard);
    assert_eq!(base.clone().execute(), Ok(Money(1000)));
    assert_eq!(base.clone().add_debt(Money(300)).add_cash(Money(100)).execute(), Ok(Money(800)));
    assert_eq!(
        base.clone().add_probability_of_failure(Rate(250_000)).execute(),
        Ok(Money(750))
    );
    assert_eq!(base.clone().add_shares_outstanding(3).execute(), Ok(Money(333)));
}

#[test]
fn perpetual_growth_terminal_value() {
    let b = IntrinsicBuilder::new()
        .add_current_value(Money(100))
        .add_rate(Rate(100_000))
        .add_terminal(Terminal::PerpetualGrowth)
        .add_growth_assumptions(
            GrowthAssumptionBuilder::new().add(GrowthAssumption(1, Rate(0), None)),
        );
    // year one: 100 / 1.1 = 91; terminal 100 / 0.1 = 1000, discounted 909
    assert_eq!(b.execute(), Ok(Money(1000)));
}

#[test]
fn growth_equal_to_rate_is_an_error() {
    let b = IntrinsicBuilder::new()
        .add_current_value(Money(100))
        .add_rate(Rate(50_000))
        .add_terminal(Terminal::PerpetualGrowth);
    assert_eq!(b.execute(), Err(ValuationError::TerminalGrowthNotBelowRate));
}

#[test]
fn valuation_errors() {
    assert_eq!(IntrinsicBuilder::new().execute(), Err(ValuationError::MissingBaseValue));
    let b = IntrinsicBuilder::new().add_current_value(Money(10));
    assert_eq!(b.clone().add_rate(Rate(-1_000_000)).execute(), Err(ValuationError::InvalidRate));
    assert_eq!(
        b.clone()
            .add_terminal(Terminal::PerpetualGrowth)
            .add_growth_assumptions(GrowthAssumptionBuilder::new())
            .execute(),
        Err(ValuationError::EmptyGrowth)
    );
    assert_eq!(
        b.clone().add_probability_of_failure(Rate(1_500_000)).execute(),
        Err(ValuationError::InvalidProbability)
    );
    assert_eq!(b.clone().add_shares_outstanding(0).execute(), Err(ValuationError::ZeroShares));
    assert_eq!(
        IntrinsicBuilder::new()
            .add_current_value(Money(i64::MAX))
            .add_cash(Money(i64::MAX))
            .execute(),
        Err(ValuationError::Overflow)
    );
}

#[test]
fn yearly_values_follow_each_year() {
    let b = IntrinsicBuilder::new()
        .add_current_value(Money(15))
        .add_rate(Rate(150_000))
        .add_growth_assumptions(
            GrowthAssumptionBuilder::new().add(GrowthAssumption(2, Rate(50_000), None)),
        );
    // 15 * 1.05 = 15.75 -> 16, 16 / 1.15 = 13.9 -> 14; 16 * 1.05 = 16.8 -> 17, 17 / 1.3225 = 12.85 -> 13
    assert_eq!(
        b.yearly_values(),
        vec![(Money(16), Money(14)), (Money(17), Money(13))]
    );
}

#[test]
fn core_builder_compute_on_simple_example() {
    let intrisic = IntrinsicBuilder::new()
        .add_current_value(Money(15))
        .add_rate(Rate(150_000))
        .add_terminal(Terminal::Multiple(15))
        .add_growth_assumptions(ten_years_at_five());

    assert_eq!(intrisic.execute(), Ok(Money(191)));
}

// The same inputs as the Money example above: with one rounding to whole units
// per year, the value is 231 (a float computation without those roundings
// gives 225).
#[test]
fn intrinsic_test_compute_on_simple_example() {
    let intrisic = IntrinsicBuilder::new()
        .add_cash(Money(40))
        .add_fcf(Money(15))
        .add_rate(Rate(150_000))
        .add_multiplier(Multiplier::Outstanding)
        .add_growth_assumptions(ten_years_at_five());

    assert_eq!(intrisic.execute(), Ok(Money(231)));
}
