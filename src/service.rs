use vstd::prelude::*;

use crate::fixed::{clamp64, clamp_i64, div_sat, Rate, RATE_SCALE};
use crate::growth::{normalize_spec, GrowthAssumption, GrowthAssumptionBuilder};
use crate::intrinsic::{
    valuation, IntrinsicBuilder, Terminal, ValuationError, ValuationInputs, DEFAULT_RATE,
    STANDARD_MULTIPLE,
};
use crate::money::Money;
use crate::cagr::CagrError;
use crate::growth_rate::{get_growth_rate, growth_rate_spec, MAX_SERIES};
use crate::stats::{free_cashflow_spec, CashflowStatement, KeyStats};

verus! {

/// Yearly change of the growth rate in the later five years: minus one point.
pub const LATER_INCREMENT: i64 = -10_000;

/// Figures gathered for one company.
#[derive(Clone, Copy, Debug, PartialEq, Eq, Structural)]
pub struct Stats {
    pub growth_analysis: Rate,
    pub free_cash_flow: Money,
    pub total_cash: Money,
    pub market_cap: Money,
}

/// The valuation of one company, with the figures it rests on.
#[derive(Clone, Debug, PartialEq, Eq)]
pub struct Intrinsic {
    pub ticker: String,
    pub total_cash: Money,
    pub free_cash_flow: Money,
    pub growth_analysis: Rate,
    pub market_cap: Money,
    pub intrinsic: Money,
    /// Intrinsic value over market capitalisation, minus one; none for a zero
    /// market capitalisation.
    pub ratio: Option<Rate>,
}

/// Growth of a company: five years at the analysts' rate, then five years
/// that start there and fall by one point a year.
pub open spec fn company_growth(analysis: Rate) -> Seq<Rate> {
    normalize_spec(GrowthAssumption(5, analysis, None)) + normalize_spec(
        GrowthAssumption(5, analysis, Some(Rate(LATER_INCREMENT))),
    )
}

/// The valuation inputs of a company: its free cash flow grown as above,
/// discounted at the default rate, with a standard multiple, plus its cash.
pub open spec fn company_inputs(s: Stats) -> ValuationInputs {
    ValuationInputs {
        current_value: Some(s.free_cash_flow),
        rate: Rate(DEFAULT_RATE),
        terminal: Terminal::Multiple(STANDARD_MULTIPLE),
        growth: company_growth(s.growth_analysis),
        cash: Some(s.total_cash),
        debt: None,
        probability_of_failure: None,
        shares_outstanding: None,
    }
}

/// Value over market capitalisation, minus one.
pub open spec fn premium_spec(value: Money, market_cap: Money) -> Option<Rate> {
    if market_cap.0 == 0 {
        None
    } else {
        let q = if market_cap.0 > 0 {
            div_sat(value.0 * RATE_SCALE, market_cap.0 as int)
        } else {
            div_sat(-value.0 * RATE_SCALE, -market_cap.0)
        };
        Some(Rate(clamp64(q - RATE_SCALE) as i64))
    }
}

/// The figures of a company from what each fetch returned; a failed fetch
/// counts as zero.
pub fn stats_from_fetched(
    cash_flow: Option<Money>,
    key_stats: Option<KeyStats>,
    analysis: Option<Rate>,
) -> (r: Stats)
    ensures
        r.free_cash_flow == (match cash_flow {
            Some(m) => m,
            None => Money(0),
        }),
        r.total_cash == (match key_stats {
            Some(k) => k.total_cash,
            None => Money(0),
        }),
        r.market_cap == (match key_stats {
            Some(k) => k.market_cap,
            None => Money(0),
        }),
        r.growth_analysis == (match analysis {
            Some(a) => a,
            None => Rate(0),
        }),
{
    let keys = match key_stats {
        Some(k) => k,
        None => KeyStats { total_cash: Money(0), market_cap: Money(0) },
    };
    Stats {
        growth_analysis: match analysis {
            Some(a) => a,
            None => Rate(0),
        },
        free_cash_flow: match cash_flow {
            Some(m) => m,
            None => Money(0),
        },
        total_cash: keys.total_cash,
        market_cap: keys.market_cap,
    }
}

/// Values a company from its figures.
pub fn intrinsic_for(ticker: String, stats: Stats) -> (r: Result<Intrinsic, ValuationError>)
    ensures
        r is Err <==> valuation(company_inputs(stats)) is Err,
        r is Err ==> r->Err_0 == valuation(company_inputs(stats))->Err_0,
        r is Ok ==> {
            let i = r->Ok_0;
            &&& i.ticker@ == ticker@
            &&& i.total_cash == stats.total_cash
            &&& i.free_cash_flow == stats.free_cash_flow
            &&& i.growth_analysis == stats.growth_analysis
            &&& i.market_cap == stats.market_cap
            &&& i.intrinsic == valuation(company_inputs(stats))->Ok_0
            &&& i.ratio == premium_spec(i.intrinsic, stats.market_cap)
        },
{
    let growth = GrowthAssumptionBuilder::new().add(
        GrowthAssumption(5, stats.growth_analysis, None),
    ).add(GrowthAssumption(5, stats.growth_analysis, Some(Rate(LATER_INCREMENT))));
    assert(growth.assumptions@ =~= company_growth(stats.growth_analysis));
    let builder = IntrinsicBuilder::new().add_cash(stats.total_cash).add_fcf(
        stats.free_cash_flow,
    ).add_growth_assumptions(growth);
    assert(builder@ == company_inputs(stats));
    let value = match builder.execute() {
        Ok(v) => v,
        Err(e) => {
            return Err(e);
        },
    };
    let ratio = match value.ratio(stats.market_cap) {
        Ok(q) => Some(Rate(clamp_i64(q.0 as i128 - RATE_SCALE as i128))),
        Err(_) => None,
    };
    Ok(
        Intrinsic {
            ticker,
            total_cash: stats.total_cash,
            free_cash_flow: stats.free_cash_flow,
            growth_analysis: stats.growth_analysis,
            market_cap: stats.market_cap,
            intrinsic: value,
            ratio,
        },
    )
}

/// Free cash flows of statements, in order.
pub open spec fn statement_flows(s: Seq<CashflowStatement>) -> Seq<Money> {
    Seq::new(s.len(), |i: int| Money(free_cashflow_spec(s[i]) as i64))
}

/// The figures of a company from its cash-flow statements, newest first: the
/// newest free cash flow and the growth rate estimated over all of them.
pub fn stats_from_statements(
    statements: &Vec<CashflowStatement>,
    total_cash: Money,
    market_cap: Money,
) -> (r: Result<Stats, CagrError>)
    requires
        1 <= statements@.len() <= MAX_SERIES,
    ensures
        r is Err <==> growth_rate_spec(statement_flows(statements@)) is Err,
        r is Err ==> r->Err_0 == growth_rate_spec(statement_flows(statements@))->Err_0,
        r is Ok ==> r->Ok_0 == (Stats {
            growth_analysis: growth_rate_spec(statement_flows(statements@))->Ok_0,
            free_cash_flow: statement_flows(statements@)[0],
            total_cash,
            market_cap,
        }),
{
    let mut flows: Vec<Money> = Vec::new();
    let mut i: usize = 0;
    while i < statements.len()
        invariant
            i <= statements@.len(),
            flows@ == statement_flows(statements@.subrange(0, i as int)),
        decreases statements@.len() - i,
    {
        flows.push(statements[i].free_cashflow());
        i = i + 1;
        assert(flows@ =~= statement_flows(statements@.subrange(0, i as int)));
    }
    assert(statements@.subrange(0, statements@.len() as int) =~= statements@);
    match get_growth_rate(&flows) {
        Ok(growth) => Ok(
            Stats {
                growth_analysis: growth,
                free_cash_flow: flows[0],
                total_cash,
                market_cap,
            },
        ),
        Err(e) => Err(e),
    }
}

} // verus!
