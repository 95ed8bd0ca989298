//! Parameter records and checks of the embedding interface: the built-in strategy
//! choices and the checks made before any data is read.
use vstd::prelude::*;
use vstd::string::*;
use crate::error::BtError;
use crate::strategy::{TopkDropoutStrategy, TopkStrategy};
use crate::types::DealPrice;

verus! {

/// Data file paths (stock_bar and benchmark are required; wap is required when
/// `deal_price` is a window price vwapN / twapN).
#[derive(Debug, Clone)]
pub struct DataPaths {
    /// Daily stock bars, CSV or parquet (the trading calendar comes from it).
    pub stock_bar: String,
    /// Benchmark returns, CSV or parquet (required by the report).
    pub benchmark: String,
    /// Window price data, CSV or parquet; the window number follows `deal_price`.
    pub wap: Option<String>,
}

/// File names of the exported artifacts (relative to the output directory).
#[derive(Debug, Clone)]
pub struct ExportNames {
    pub hist_position: String,
    pub trades: String,
    pub report_data: String,
    pub report_plot: String,
}

impl Default for ExportNames {
    fn default() -> (r: ExportNames)
        ensures
            r.hist_position@ == "hist_position.csv"@,
            r.trades@ == "trades.csv"@,
            r.report_data@ == "report_data.csv"@,
            r.report_plot@ == "report_plot.html"@,
    {
        ExportNames {
            hist_position: String::from_str("hist_position.csv"),
            trades: String::from_str("trades.csv"),
            report_data: String::from_str("report_data.csv"),
            report_plot: String::from_str("report_plot.html"),
        }
    }
}

/// A built-in strategy with its parameters.
#[derive(Debug, Clone, Copy, PartialEq, Eq, Structural)]
pub enum StrategySpec {
    /// TopkDropout (parameters as for `TopkDropoutStrategy`).
    TopkDropout { top_n: usize, drop_n: usize, only_tradable: bool, forbid_st: bool },
    /// Topk (parameters as for `TopkStrategy`): hold the `top_n` best every day.
    Topk { top_n: usize, forbid_st: bool },
}

/// A built-in strategy ready to plan.
#[derive(Debug)]
pub enum BuiltinStrategy {
    TopkDropout(TopkDropoutStrategy),
    Topk(TopkStrategy),
}

impl StrategySpec {
    /// TopkDropout with `only_tradable` and `forbid_st` off.
    pub fn topk_dropout(top_n: usize, drop_n: usize) -> (r: StrategySpec)
        ensures
            r == (StrategySpec::TopkDropout { top_n, drop_n, only_tradable: false, forbid_st: false }),
    {
        StrategySpec::TopkDropout { top_n, drop_n, only_tradable: false, forbid_st: false }
    }

    /// Topk with `forbid_st` off.
    pub fn topk(top_n: usize) -> (r: StrategySpec)
        ensures
            r == (StrategySpec::Topk { top_n, forbid_st: false }),
    {
        StrategySpec::Topk { top_n, forbid_st: false }
    }

    /// The target holding count.
    pub open spec fn spec_top_n(self) -> usize {
        match self {
            StrategySpec::TopkDropout { top_n, .. } => top_n,
            StrategySpec::Topk { top_n, .. } => top_n,
        }
    }

    /// Builds the strategy; a `top_n` of 0 is an `InvalidParam` error whose
    /// message names `top_n`.
    pub fn instantiate(&self) -> (r: Result<BuiltinStrategy, BtError>)
        ensures
            r is Ok <==> self.spec_top_n() >= 1,
            r matches Err(e) ==> e matches BtError::InvalidParam(m) && m@ == top_n_error_text(),
            r matches Ok(s) ==> match (*self, s) {
                (
                    StrategySpec::TopkDropout { top_n, drop_n, only_tradable, forbid_st },
                    BuiltinStrategy::TopkDropout(d),
                ) => d.spec_top_n() == top_n && d.spec_drop_n() == drop_n && d.spec_only_tradable()
                    == only_tradable && d.spec_forbid_st() == forbid_st,
                (StrategySpec::Topk { top_n, forbid_st }, BuiltinStrategy::Topk(t)) => t.spec_top_n()
                    == top_n && t.spec_forbid_st() == forbid_st,
                _ => false,
            },
    {
        match *self {
            StrategySpec::TopkDropout { top_n, drop_n, only_tradable, forbid_st } => {
                if top_n < 1 {
                    return Err(BtError::InvalidParam(top_n_message()));
                }
                Ok(
                    BuiltinStrategy::TopkDropout(
                        TopkDropoutStrategy::new(top_n, drop_n).with_only_tradable(
                            only_tradable,
                        ).with_forbid_st(forbid_st),
                    ),
                )
            },
            StrategySpec::Topk { top_n, forbid_st } => {
                if top_n < 1 {
                    return Err(BtError::InvalidParam(top_n_message()));
                }
                Ok(BuiltinStrategy::Topk(TopkStrategy::new(top_n).with_forbid_st(forbid_st)))
            },
        }
    }
}

/// The message of a `top_n` of 0.
pub open spec fn top_n_error_text() -> Seq<char> {
    "top_n 须 >= 1，收到: 0"@
}

/// The message of a `top_n` of 0, as a string.
fn top_n_message() -> (r: String)
    ensures
        r@ == top_n_error_text(),
{
    String::from_str("top_n 须 >= 1，收到: 0")
}

/// The wap window a deal price reads, if it is a window price.
pub fn wap_window(deal_price: DealPrice) -> (r: Option<u8>)
    ensures
        match deal_price {
            DealPrice::Wap { window, .. } => r == Some(window),
            _ => r is None,
        },
{
    match deal_price {
        DealPrice::Wap { window, .. } => Some(window),
        _ => None,
    }
}

/// Before data paths are read: a window deal price needs a wap data path
/// (`InvalidParam` error otherwise); a wap path with another deal price is ignored.
pub fn check_wap_path(deal_price: DealPrice, paths: &DataPaths) -> (r: Result<(), BtError>)
    ensures
        r is Err <==> (deal_price is Wap && paths.wap is None),
        r matches Err(e) ==> e is InvalidParam,
{
    match deal_price {
        DealPrice::Wap { .. } => {
            if paths.wap.is_none() {
                return Err(BtError::InvalidParam(String::from_str("deal_price 为时段价时需要 wap 时段数据，请设置 DataPaths.wap")));
            }
            Ok(())
        },
        _ => Ok(()),
    }
}

} // verus!
