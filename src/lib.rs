pub mod big;
pub mod cagr;
pub mod decimal;
pub mod financial;
pub mod fixed;
pub mod growth;
pub mod growth_rate;
pub mod intrinsic;
pub mod kelly;
pub mod money;
pub mod money_text;
pub mod rate_text;
pub mod service;
pub mod stats;
