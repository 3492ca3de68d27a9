use dhandho::fixed::Rate;
use dhandho::growth::{GrowthAssumption, GrowthAssumptionBuilder};
use dhandho::kelly::KellyAssumption;
use dhandho::money::Money;
use dhandho::stats::{cash_flow_from_cells, CashflowStatement, KeyStats, StatsProvider, Yahoo};

#[test]
fn rates_read_from_decimal_text() {
    assert_eq!(Rate::parse("0.15"), Some(Rate(150_000)));
    assert_eq!(Rate::parse("-0.01"), Some(Rate(-10_000)));
    assert_eq!(Rate::parse("21"), Some(Rate(21_000_000)));
    assert_eq!(Rate::parse("0.1234567"), Some(Rate(123_456)));
    assert_eq!(Rate::parse("abc"), None);
    assert_eq!(Rate::parse(""), None);
}

#[test]
fn growth_assumptions_read_from_text() {
    assert_eq!(
        GrowthAssumption::parse("5,0.05"),
        Some(GrowthAssumption(5, Rate(50_000), Some(Rate(0))))
    );
    assert_eq!(
        GrowthAssumption::parse("6,0.15,-0.01"),
        Some(GrowthAssumption(6, Rate(150_000), Some(Rate(-10_000))))
    );
    assert_eq!(GrowthAssumption::parse("300,0.05"), None);
    assert_eq!(GrowthAssumption::parse("0,0.05"), None);
    assert_eq!(GrowthAssumption::parse("5"), None);
    assert_eq!(GrowthAssumption::parse("5,x"), None);
}

#[test]
fn outcomes_read_from_text() {
    assert_eq!(
        KellyAssumption::parse("0.8,21.0"),
        Some(KellyAssumption(Rate(800_000), Rate(21_000_000)))
    );
    assert_eq!(KellyAssumption::parse("0.8"), None);
}

#[test]
fn provider_gathers_amounts_from_cells() {
    let cells = vec!["1,000".to_string(), "-".to_string(), "2.5K".to_string()];
    let p = StatsProvider::new("GPP".to_string()).gather(&cells);
    assert_eq!(p.ticker, "GPP");
    assert_eq!(p.free_cash_flows, Some(vec![Money(1000), Money(2500)]));
}

#[test]
fn statistics_records() {
    let k = KeyStats::new(Money(5), Money(7));
    assert_eq!(k.total_cash, Money(5));
    assert_eq!(k.market_cap, Money(7));
    assert_eq!(
        CashflowStatement { net_income: 100, depreciation: 20, capital_expenditures: -50 }
            .free_cashflow(),
        Money(70)
    );
    assert_eq!(
        CashflowStatement { net_income: i64::MAX, depreciation: 1, capital_expenditures: 0 }
            .free_cashflow(),
        Money(i64::MAX)
    );
    let y = Yahoo::new("AAPL".to_string());
    assert_eq!(y.ticker, "AAPL");
    assert_eq!(y.url, "https://finance.yahoo.com/quote");
}

#[test]
fn percentages_read_as_rates() {
    assert_eq!(Rate::parse_percent("12.50%"), Some(Rate(125_000)));
    assert_eq!(Rate::parse_percent("5%"), Some(Rate(50_000)));
    assert_eq!(Rate::parse_percent("-3.2%"), Some(Rate(-32_000)));
    assert_eq!(Rate::parse_percent("N/A"), None);
}

#[test]
fn growth_read_from_several_texts() {
    let texts = vec!["2,0.10".to_string(), "1,0.05,-0.01".to_string()];
    let b = GrowthAssumptionBuilder::from_texts(&texts).unwrap();
    assert_eq!(b.assumptions, vec![Rate(100_000), Rate(100_000), Rate(50_000)]);
    let bad = vec!["2,0.10".to_string(), "x".to_string()];
    assert_eq!(GrowthAssumptionBuilder::from_texts(&bad), None);
}

#[test]
fn cash_flow_table_is_in_thousands() {
    let cells = vec!["-".to_string(), "1,234".to_string(), "2,000".to_string()];
    assert_eq!(cash_flow_from_cells(&cells), Some(Money(1_234_000)));
    assert_eq!(cash_flow_from_cells(&vec!["-".to_string()]), None);
}
