use vstd::prelude::*;

use crate::fixed::{clamp64, clamp_i64, scale_spec, Rate, RATE_SCALE};
use crate::money::Money;
use crate::money_text::parse_spec;

verus! {

/// Balance-sheet figures of a company.
#[derive(Clone, Copy, Debug, PartialEq, Eq, Structural)]
pub struct KeyStats {
    pub total_cash: Money,
    pub market_cap: Money,
}

impl KeyStats {
    pub fn new(total_cash: Money, mkt_cap: Money) -> (r: KeyStats)
        ensures
            r.total_cash == total_cash,
            r.market_cap == mkt_cap,
    {
        KeyStats { total_cash, market_cap: mkt_cap }
    }
}

/// One year of a cash-flow statement.
#[derive(Clone, Copy, Debug, PartialEq, Eq, Structural)]
pub struct CashflowStatement {
    pub net_income: i64,
    pub depreciation: i64,
    pub capital_expenditures: i64,
}

/// Net income plus depreciation plus capital expenditures (which are
/// negative), saturated to `i64`.
pub open spec fn free_cashflow_spec(s: CashflowStatement) -> int {
    clamp64(s.net_income + s.depreciation + s.capital_expenditures)
}

impl CashflowStatement {
    /// The free cash flow of the statement.
    pub fn free_cashflow(&self) -> (r: Money)
        ensures
            r.0 == free_cashflow_spec(*self),
    {
        Money(
            clamp_i64(
                self.net_income as i128 + self.depreciation as i128 + self.capital_expenditures as i128,
            ),
        )
    }
}

/// Cash-flow tables give amounts in thousands.
pub const TABLE_UNIT: i64 = 1000;

/// The amounts of the cells of a cash-flow table.
pub fn amounts_of_cells(cells: &Vec<String>) -> (r: Vec<Money>)
    ensures
        r@ == cell_amounts(cells@),
{
    let mut values: Vec<Money> = Vec::new();
    let mut i: usize = 0;
    while i < cells.len()
        invariant
            i <= cells@.len(),
            values@ == cell_amounts(cells@.subrange(0, i as int)),
        decreases cells@.len() - i,
    {
        assert(cells@.subrange(0, i as int + 1).drop_last() =~= cells@.subrange(0, i as int));
        let text: &str = cells[i].as_str();
        if text.unicode_len() > 1 {
            values.push(Money::parse(text));
        }
        i = i + 1;
    }
    assert(cells@.subrange(0, cells@.len() as int) =~= cells@);
    values
}

/// The latest free cash flow in a cash-flow table: its first amount, in
/// thousands, times a thousand; none for a table without amounts.
pub fn cash_flow_from_cells(cells: &Vec<String>) -> (r: Option<Money>)
    ensures
        r is None <==> cell_amounts(cells@).len() == 0,
        r is Some ==> r->Some_0.0 == scale_spec(
            cell_amounts(cells@)[0].0 as int,
            TABLE_UNIT * RATE_SCALE,
        ),
{
    let values = amounts_of_cells(cells);
    if values.len() == 0 {
        None
    } else {
        Some(values[0].mul(Rate(TABLE_UNIT * RATE_SCALE)))
    }
}

/// Where company figures are read from.
pub struct Yahoo {
    pub url: String,
    pub ticker: String,
}

impl Yahoo {
    pub fn new(ticker: String) -> (r: Yahoo)
        ensures
            r.url@ == "https://finance.yahoo.com/quote"@,
            r.ticker@ == ticker@,
    {
        Yahoo { url: "https://finance.yahoo.com/quote".to_owned(), ticker }
    }
}

/// The source of company statistics that reads them from a statistics API.
pub struct StatsRepoImpl {}

impl StatsRepoImpl {
    pub fn new() -> (r: StatsRepoImpl) {
        StatsRepoImpl {  }
    }
}

/// The free cash flows of a company, once gathered.
pub struct StatsProvider {
    pub ticker: String,
    pub free_cash_flows: Option<Vec<Money>>,
}

/// Amounts read from table cells, skipping cells of fewer than two characters.
pub open spec fn cell_amounts(cells: Seq<String>) -> Seq<Money>
    decreases cells.len(),
{
    if cells.len() == 0 {
        Seq::empty()
    } else if cells.last()@.len() > 1 {
        cell_amounts(cells.drop_last()).push(Money(parse_spec(cells.last()@) as i64))
    } else {
        cell_amounts(cells.drop_last())
    }
}

impl StatsProvider {
    pub fn new(ticker: String) -> (r: StatsProvider)
        ensures
            r.ticker@ == ticker@,
            r.free_cash_flows is None,
    {
        StatsProvider { ticker, free_cash_flows: None }
    }

    /// Records the free cash flows read from the cells of a cash-flow table.
    pub fn gather(self, cells: &Vec<String>) -> (r: StatsProvider)
        ensures
            r.ticker@ == self.ticker@,
            r.free_cash_flows is Some,
            r.free_cash_flows->Some_0@ == cell_amounts(cells@),
    {
        let values = amounts_of_cells(cells);
        StatsProvider { ticker: self.ticker, free_cash_flows: Some(values) }
    }
}

} // verus!
