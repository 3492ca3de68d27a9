use dhandho::fixed::Rate;
use dhandho::growth::GrowthAssumptionBuilder;
use dhandho::intrinsic::{IntrinsicBuilder, ValuationError};
use dhandho::money::Money;
use dhandho::cagr::CagrError;
use dhandho::service::{intrinsic_for, stats_from_fetched, stats_from_statements, Stats};
use dhandho::stats::{CashflowStatement, KeyStats};

#[test]
fn failed_fetches_count_as_zero() {
    let s = stats_from_fetched(None, None, None);
    assert_eq!(
        s,
        Stats {
            growth_analysis: Rate(0),
            free_cash_flow: Money(0),
            total_cash: Money(0),
            market_cap: Money(0)
        }
    );
    let s = stats_from_fetched(Some(Money(15)), Some(KeyStats::new(Money(40), Money(500))), Some(Rate(50_000)));
    assert_eq!(s.free_cash_flow, Money(15));
    assert_eq!(s.total_cash, Money(40));
    assert_eq!(s.market_cap, Money(500));
    assert_eq!(s.growth_analysis, Rate(50_000));
}

#[test]
fn company_is_valued_with_falling_later_growth() {
    let stats = Stats {
        growth_analysis: Rate(0),
        free_cash_flow: Money(100),
        total_cash: Money(7),
        market_cap: Money(0),
    };
    let i = intrinsic_for("ZERO".to_string(), stats).unwrap();
    assert_eq!(i.ticker, "ZERO");
    assert_eq!(i.ratio, None);
    let growth = GrowthAssumptionBuilder {
        assumptions: [0, 0, 0, 0, 0, 0, -10_000, -20_000, -30_000, -40_000]
            .iter()
            .map(|x| Rate(*x))
            .collect(),
    };
    let by_hand = IntrinsicBuilder::new()
        .add_fcf(Money(100))
        .add_cash(Money(7))
        .add_growth_assumptions(growth)
        .execute();
    assert_eq!(by_hand, Ok(i.intrinsic));
}

#[test]
fn ratio_compares_value_to_market_cap() {
    let stats = Stats {
        growth_analysis: Rate(50_000),
        free_cash_flow: Money(1_000_000),
        total_cash: Money(0),
        market_cap: Money(1_000_000),
    };
    let i = intrinsic_for("A".to_string(), stats).unwrap();
    let expected = (i.intrinsic.0 as i128 * 1_000_000 + 500_000) / 1_000_000 - 1_000_000;
    assert_eq!(i.ratio, Some(Rate(expected as i64)));
}

#[test]
fn company_valuation_errors_pass_through() {
    let stats = Stats {
        growth_analysis: Rate(0),
        free_cash_flow: Money(i64::MAX),
        total_cash: Money(i64::MAX),
        market_cap: Money(1),
    };
    assert_eq!(intrinsic_for("A".to_string(), stats), Err(ValuationError::Overflow));
}

#[test]
fn statistics_from_statements() {
    let st = |n: i64| CashflowStatement { net_income: n, depreciation: 0, capital_expenditures: 0 };
    let statements = vec![st(1200), st(1100), st(1000), st(900)];
    let s = stats_from_statements(&statements, Money(5), Money(7)).unwrap();
    assert_eq!(
        s,
        Stats {
            growth_analysis: Rate(102_000),
            free_cash_flow: Money(1200),
            total_cash: Money(5),
            market_cap: Money(7)
        }
    );
    let bad = vec![st(1200), st(0), st(900)];
    assert_eq!(stats_from_statements(&bad, Money(5), Money(7)), Err(CagrError::Undefined));
}
