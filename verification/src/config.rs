//! Run configuration records and the checks made when a configuration is loaded.
//!
//! The numeric account and cost parameters are read and checked by the caller;
//! this module holds the textual settings and the rules over them.
use vstd::prelude::*;
use vstd::string::*;
use crate::api::StrategySpec;
use crate::error::{message_with, BtError};
use crate::text::str_eq;
use crate::types::{spec_deal_price_parse, BenchmarkName, DealPrice, ExcessMethod};

verus! {

/// Market data file paths (stock_bar and benchmark required; wap required when
/// deal_price is vwapN / twapN). `dir` names a directory searched for the files
/// by stem (stock_bar / benchmark / wap), explicit paths taking precedence.
#[derive(Debug, Clone)]
pub struct DataConfig {
    /// Data directory searched for stock_bar / benchmark (and wap when needed).
    pub dir: Option<String>,
    /// Daily stock bars, CSV / parquet.
    pub stock_bar: Option<String>,
    /// Benchmark returns, CSV / parquet.
    pub benchmark: Option<String>,
    /// Window price data (wap.csv / wap.parquet), required for vwapN / twapN.
    pub wap: Option<String>,
}

impl Default for DataConfig {
    fn default() -> (r: DataConfig)
        ensures
            r.dir is None && r.stock_bar is None && r.benchmark is None && r.wap is None,
    {
        DataConfig { dir: None, stock_bar: None, benchmark: None, wap: None }
    }
}

/// Backtest range: closed-open [start_date, end_date), aligned to trading days (both required).
#[derive(Debug, Clone)]
pub struct PeriodConfig {
    pub start_date: Option<String>,
    pub end_date: Option<String>,
}

impl Default for PeriodConfig {
    fn default() -> (r: PeriodConfig)
        ensures
            r.start_date is None && r.end_date is None,
    {
        PeriodConfig { start_date: None, end_date: None }
    }
}

/// Strategy parameters.
#[derive(Debug, Clone)]
pub struct StrategyConfig {
    /// Strategy name ("topk_dropout" / "topk").
    pub name: String,
    /// Target number of holdings.
    pub top_n: usize,
    /// Stocks planned to be sold on each rebalancing day (topk_dropout only).
    pub drop_n: usize,
    /// Restrict sell candidates to stocks tradable that day (topk_dropout only).
    pub only_tradable: bool,
    /// Do not buy ST stocks.
    pub forbid_st: bool,
}

impl Default for StrategyConfig {
    fn default() -> (r: StrategyConfig)
        ensures
            r.name@ == "topk_dropout"@,
            r.top_n == 100,
            r.drop_n == 100,
            !r.only_tradable,
            !r.forbid_st,
    {
        StrategyConfig {
            name: String::from_str("topk_dropout"),
            top_n: 100,
            drop_n: 100,
            only_tradable: false,
            forbid_st: false,
        }
    }
}

/// Report parameters.
#[derive(Debug, Clone)]
pub struct ReportConfig {
    /// Benchmark name.
    pub benchmark: String,
    /// Excess return method: arithmetic / geometric.
    pub excess_method: String,
}

impl Default for ReportConfig {
    fn default() -> (r: ReportConfig)
        ensures
            r.benchmark@ == "zz1000"@,
            r.excess_method@ == "arithmetic"@,
    {
        ReportConfig {
            benchmark: String::from_str("zz1000"),
            excess_method: String::from_str("arithmetic"),
        }
    }
}

/// Output artifact paths.
#[derive(Debug, Clone)]
pub struct OutputConfig {
    /// Output directory (created when missing).
    pub dir: String,
    pub hist_position: String,
    pub trades: String,
    pub report_data: String,
    pub report_plot: String,
}

impl Default for OutputConfig {
    fn default() -> (r: OutputConfig)
        ensures
            r.dir@ == "output"@,
            r.hist_position@ == "hist_position.csv"@,
            r.trades@ == "trades.csv"@,
            r.report_data@ == "report_data.csv"@,
            r.report_plot@ == "report_plot.html"@,
    {
        OutputConfig {
            dir: String::from_str("output"),
            hist_position: String::from_str("hist_position.csv"),
            trades: String::from_str("trades.csv"),
            report_data: String::from_str("report_data.csv"),
            report_plot: String::from_str("report_plot.html"),
        }
    }
}

/// A path or text setting that is given and not empty.
pub open spec fn given(o: Option<String>) -> bool {
    o matches Some(v) && v@.len() > 0
}

/// Whether an optional setting is given and not empty.
pub fn is_given(o: &Option<String>) -> (r: bool)
    ensures
        r == given(*o),
{
    match o {
        Some(v) => v.unicode_len() > 0,
        None => false,
    }
}

/// A field every configuration must set.
#[derive(Clone, Copy, PartialEq, Eq, Debug, Structural)]
pub enum RequiredField {
    Signal,
    StockBar,
    Benchmark,
    StartDate,
    EndDate,
}

impl RequiredField {
    /// The field's key in the configuration file.
    pub open spec fn spec_key(self) -> Seq<char> {
        match self {
            RequiredField::Signal => "signal"@,
            RequiredField::StockBar => "data.stock_bar"@,
            RequiredField::Benchmark => "data.benchmark"@,
            RequiredField::StartDate => "period.start_date"@,
            RequiredField::EndDate => "period.end_date"@,
        }
    }

    /// The field's key in the configuration file.
    pub fn key(&self) -> (r: &'static str)
        ensures
            r@ == self.spec_key(),
    {
        match self {
            RequiredField::Signal => "signal",
            RequiredField::StockBar => "data.stock_bar",
            RequiredField::Benchmark => "data.benchmark",
            RequiredField::StartDate => "period.start_date",
            RequiredField::EndDate => "period.end_date",
        }
    }
}

/// The first rule a configuration breaks.
#[derive(Clone, Copy, PartialEq, Eq, Debug, Structural)]
pub enum ConfigIssue {
    /// A required field is missing or empty.
    MissingField(RequiredField),
    /// `account.initial_cash` is not a positive number.
    InitialCash,
    /// `strategy.name` is neither `topk_dropout` nor `topk`.
    UnknownStrategy,
    /// `strategy.top_n` is 0.
    TopN,
    /// `exchange.deal_price` does not parse.
    DealPrice,
    /// A window deal price without `data.wap`.
    WapPathMissing,
    /// `data.wap` given while the deal price is not a window price.
    WapPathUnused,
    /// `report.benchmark` is not in the benchmark table.
    UnknownBenchmark,
    /// `report.excess_method` is neither `arithmetic` nor `geometric`.
    ExcessMethod,
}

/// What the configuration checks read: the textual settings, and whether the
/// initial cash is a positive finite number (the caller reads the number).
#[derive(Debug)]
pub struct ConfigSettings {
    pub signal: Option<String>,
    pub data: DataConfig,
    pub period: PeriodConfig,
    pub initial_cash_positive: bool,
    pub strategy: StrategyConfig,
    pub deal_price: String,
    pub report: ReportConfig,
}

/// The first rule broken by `c`, in the order the checks are made.
pub open spec fn spec_config_issue(c: ConfigSettings) -> Option<ConfigIssue> {
    if !given(c.signal) {
        Some(ConfigIssue::MissingField(RequiredField::Signal))
    } else if !given(c.data.stock_bar) {
        Some(ConfigIssue::MissingField(RequiredField::StockBar))
    } else if !given(c.data.benchmark) {
        Some(ConfigIssue::MissingField(RequiredField::Benchmark))
    } else if !given(c.period.start_date) {
        Some(ConfigIssue::MissingField(RequiredField::StartDate))
    } else if !given(c.period.end_date) {
        Some(ConfigIssue::MissingField(RequiredField::EndDate))
    } else if !c.initial_cash_positive {
        Some(ConfigIssue::InitialCash)
    } else if !(c.strategy.name@ == "topk_dropout"@ || c.strategy.name@ == "topk"@) {
        Some(ConfigIssue::UnknownStrategy)
    } else if c.strategy.top_n < 1 {
        Some(ConfigIssue::TopN)
    } else {
        match spec_deal_price_parse(c.deal_price@) {
            None => Some(ConfigIssue::DealPrice),
            Some(dp) => if (dp is Wap) && !given(c.data.wap) {
                Some(ConfigIssue::WapPathMissing)
            } else if !(dp is Wap) && given(c.data.wap) {
                Some(ConfigIssue::WapPathUnused)
            } else if forall|b: BenchmarkName| b.spec_name() != c.report.benchmark@ {
                Some(ConfigIssue::UnknownBenchmark)
            } else if c.report.excess_method@ != "arithmetic"@ && c.report.excess_method@
                != "geometric"@ {
                Some(ConfigIssue::ExcessMethod)
            } else {
                None
            },
        }
    }
}

/// A configuration that passes the checks converts to run parameters without
/// error: its strategy name, deal price, benchmark name and excess method all
/// parse, and `top_n` is at least 1.
pub proof fn law_valid_config_converts(c: ConfigSettings)
    requires
        spec_config_issue(c) is None,
    ensures
        c.strategy.name@ == "topk_dropout"@ || c.strategy.name@ == "topk"@,
        c.strategy.top_n >= 1,
        spec_deal_price_parse(c.deal_price@) is Some,
        exists|b: BenchmarkName| b.spec_name() == c.report.benchmark@,
        c.report.excess_method@ == "arithmetic"@ || c.report.excess_method@ == "geometric"@,
        given(c.signal) && given(c.data.stock_bar) && given(c.data.benchmark) && given(
            c.period.start_date,
        ) && given(c.period.end_date),
{
}

/// Only a window deal price (`vwapN` / `twapN`) needs `data.wap`: the missing
/// wap path is reported only for such a price.
pub proof fn law_wap_path_only_for_window_prices(c: ConfigSettings)
    ensures
        spec_config_issue(c) == Some(ConfigIssue::WapPathMissing) ==> !given(c.data.wap) && (
        spec_deal_price_parse(c.deal_price@) matches Some(DealPrice::Wap { .. })),
        c.deal_price@ == "open"@ || c.deal_price@ == "close"@ || c.deal_price@ == "vwap"@ ==> spec_config_issue(c)
            != Some(ConfigIssue::WapPathMissing),
{
}

/// A configuration passes the checks exactly when: the signal, stock_bar,
/// benchmark, start and end settings are given; the initial cash is positive;
/// the strategy is `topk_dropout` or `topk` with `top_n` at least 1; the deal
/// price is `open`, `close` or `vwap` without `data.wap`, or a window price with
/// it; the benchmark is in the mapping table; and the excess method is
/// `arithmetic` or `geometric`.
pub proof fn law_config_acceptance(c: ConfigSettings)
    ensures
        spec_config_issue(c) is None <==> {
            &&& given(c.signal) && given(c.data.stock_bar) && given(c.data.benchmark)
            &&& given(c.period.start_date) && given(c.period.end_date)
            &&& c.initial_cash_positive
            &&& (c.strategy.name@ == "topk_dropout"@ || c.strategy.name@ == "topk"@)
            &&& c.strategy.top_n >= 1
            &&& (((c.deal_price@ == "open"@ || c.deal_price@ == "close"@ || c.deal_price@ == "vwap"@) && !given(
                c.data.wap,
            )) || ((spec_deal_price_parse(c.deal_price@) matches Some(DealPrice::Wap { .. })) && given(
                c.data.wap,
            )))
            &&& exists|b: BenchmarkName| b.spec_name() == c.report.benchmark@
            &&& (c.report.excess_method@ == "arithmetic"@ || c.report.excess_method@ == "geometric"@)
        },
{
    reveal_strlit("open");
    reveal_strlit("close");
    reveal_strlit("vwap");
    reveal_strlit("twap");
    let s = c.deal_price@;
    if s == "open"@ || s == "close"@ || s == "vwap"@ {
        assert(!(spec_deal_price_parse(s) matches Some(DealPrice::Wap { .. })));
    }
}

/// Checks a configuration when it is loaded: the required fields, then the numeric
/// and enumerated parameters, so that a misspelt setting is reported before any
/// data is read.
pub fn validate_config(c: &ConfigSettings) -> (r: Result<(), ConfigIssue>)
    ensures
        r == match spec_config_issue(*c) {
            None => Ok::<(), ConfigIssue>(()),
            Some(i) => Err(i),
        },
{
    if !is_given(&c.signal) {
        return Err(ConfigIssue::MissingField(RequiredField::Signal));
    }
    if !is_given(&c.data.stock_bar) {
        return Err(ConfigIssue::MissingField(RequiredField::StockBar));
    }
    if !is_given(&c.data.benchmark) {
        return Err(ConfigIssue::MissingField(RequiredField::Benchmark));
    }
    if !is_given(&c.period.start_date) {
        return Err(ConfigIssue::MissingField(RequiredField::StartDate));
    }
    if !is_given(&c.period.end_date) {
        return Err(ConfigIssue::MissingField(RequiredField::EndDate));
    }
    if !c.initial_cash_positive {
        return Err(ConfigIssue::InitialCash);
    }
    if !(str_eq(c.strategy.name.as_str(), "topk_dropout") || str_eq(c.strategy.name.as_str(), "topk")) {
        return Err(ConfigIssue::UnknownStrategy);
    }
    if c.strategy.top_n < 1 {
        return Err(ConfigIssue::TopN);
    }
    let dp = match DealPrice::parse(c.deal_price.as_str()) {
        Ok(d) => d,
        Err(_) => {
            return Err(ConfigIssue::DealPrice);
        },
    };
    let is_wap = match dp {
        DealPrice::Wap { .. } => true,
        _ => false,
    };
    let wap_given = is_given(&c.data.wap);
    if is_wap && !wap_given {
        return Err(ConfigIssue::WapPathMissing);
    }
    if !is_wap && wap_given {
        return Err(ConfigIssue::WapPathUnused);
    }
    if BenchmarkName::from_name(c.report.benchmark.as_str()).is_none() {
        return Err(ConfigIssue::UnknownBenchmark);
    }
    if ExcessMethod::parse(c.report.excess_method.as_str()).is_err() {
        return Err(ConfigIssue::ExcessMethod);
    }
    Ok(())
}

/// What the shared-data check reads of one configuration (already validated).
#[derive(Debug)]
pub struct ShareSettings {
    pub stock_bar: String,
    pub benchmark: String,
    pub wap: Option<String>,
    pub deal_price: String,
    pub output: OutputConfig,
}

/// Which data path of two configurations differs.
#[derive(Clone, Copy, PartialEq, Eq, Debug, Structural)]
pub enum SharedField {
    StockBar,
    Benchmark,
}

/// The first conflict among configurations run together on one shared data load.
#[derive(Clone, Copy, PartialEq, Eq, Debug, Structural)]
pub enum ShareIssue {
    /// Configuration `config` names another stock_bar / benchmark file than the first.
    DataDiffers { field: SharedField, config: usize },
    /// Two configurations give different `data.wap` paths.
    WapDiffers { first: usize, other: usize },
    /// A deal price does not parse.
    DealPrice { config: usize },
    /// Two window-price configurations use different windows.
    WindowDiffers { first: usize, other: usize },
    /// Two configurations write their artifacts to the same files.
    OutputClash { first: usize, other: usize },
}

/// Two output settings name the same files.
pub open spec fn same_output(a: OutputConfig, b: OutputConfig) -> bool {
    &&& a.dir@ == b.dir@
    &&& a.hist_position@ == b.hist_position@
    &&& a.trades@ == b.trades@
    &&& a.report_data@ == b.report_data@
    &&& a.report_plot@ == b.report_plot@
}

/// First data-path difference from the first configuration, from position `i` on.
pub open spec fn data_issue_from(c: Seq<ShareSettings>, i: int) -> Option<ShareIssue>
    decreases c.len() - i,
{
    if i >= c.len() || i < 1 {
        None
    } else if c[i].stock_bar@ != c[0].stock_bar@ {
        Some(ShareIssue::DataDiffers { field: SharedField::StockBar, config: i as usize })
    } else if c[i].benchmark@ != c[0].benchmark@ {
        Some(ShareIssue::DataDiffers { field: SharedField::Benchmark, config: i as usize })
    } else {
        data_issue_from(c, i + 1)
    }
}

/// First wap-path or window conflict from position `i` on, given the first
/// configuration with a wap path and the first window price seen so far.
pub open spec fn wap_issue_from(
    c: Seq<ShareSettings>,
    i: int,
    wap_src: Option<int>,
    window_src: Option<(int, u8)>,
) -> Option<ShareIssue>
    decreases c.len() - i,
{
    if i >= c.len() || i < 0 {
        None
    } else {
        let wap_conflict = given(c[i].wap) && (wap_src matches Some(p0) && c[p0].wap->0@
            != c[i].wap->0@);
        if wap_conflict {
            Some(ShareIssue::WapDiffers { first: wap_src->0 as usize, other: i as usize })
        } else {
            let next_wap = if given(c[i].wap) && wap_src is None {
                Some(i)
            } else {
                wap_src
            };
            match spec_deal_price_parse(c[i].deal_price@) {
                None => Some(ShareIssue::DealPrice { config: i as usize }),
                Some(DealPrice::Wap { window, .. }) => match window_src {
                    Some((p0, w0)) => if w0 != window {
                        Some(ShareIssue::WindowDiffers { first: p0 as usize, other: i as usize })
                    } else {
                        wap_issue_from(c, i + 1, next_wap, window_src)
                    },
                    None => wap_issue_from(c, i + 1, next_wap, Some((i, window))),
                },
                Some(_) => wap_issue_from(c, i + 1, next_wap, window_src),
            }
        }
    }
}

/// First configuration, from position `i` on, whose output files an earlier one
/// already uses (with that earlier one).
pub open spec fn output_issue_from(c: Seq<ShareSettings>, i: int) -> Option<ShareIssue>
    decreases c.len() - i,
{
    if i >= c.len() || i < 0 {
        None
    } else if exists|j: int| 0 <= j < i && same_output(c[j].output, c[i].output) {
        let j = choose|j: int|
            0 <= j < i && same_output(c[j].output, c[i].output) && forall|k: int|
                0 <= k < j ==> !same_output(c[k].output, c[i].output);
        Some(ShareIssue::OutputClash { first: j as usize, other: i as usize })
    } else {
        output_issue_from(c, i + 1)
    }
}

/// The first conflict among the configurations, in the order the checks are made.
pub open spec fn spec_share_issue(c: Seq<ShareSettings>) -> Option<ShareIssue> {
    match data_issue_from(c, 1) {
        Some(x) => Some(x),
        None => match wap_issue_from(c, 0, None, None) {
            Some(x) => Some(x),
            None => if c.len() > 1 {
                output_issue_from(c, 0)
            } else {
                None
            },
        },
    }
}

fn string_opt_text_eq(a: &Option<String>, b: &Option<String>) -> (r: bool)
    requires
        a is Some,
        b is Some,
    ensures
        r == (a->0@ == b->0@),
{
    match (a, b) {
        (Some(x), Some(y)) => str_eq(x.as_str(), y.as_str()),
        _ => false,
    }
}

fn output_eq(a: &OutputConfig, b: &OutputConfig) -> (r: bool)
    ensures
        r == same_output(*a, *b),
{
    str_eq(a.dir.as_str(), b.dir.as_str()) && str_eq(a.hist_position.as_str(), b.hist_position.as_str())
        && str_eq(a.trades.as_str(), b.trades.as_str()) && str_eq(
        a.report_data.as_str(),
        b.report_data.as_str(),
    ) && str_eq(a.report_plot.as_str(), b.report_plot.as_str())
}

/// Checks that configurations can run on one shared load of the data: same
/// stock_bar and benchmark files, the same wap file among those that give one, the
/// same window among window-price configurations, and (with more than one
/// configuration) distinct output files.
pub fn check_shareable_data(configs: &Vec<ShareSettings>) -> (r: Result<(), ShareIssue>)
    ensures
        r == match spec_share_issue(configs@) {
            None => Ok::<(), ShareIssue>(()),
            Some(x) => Err(x),
        },
{
    let n = configs.len();
    let ghost c = configs@;
    // ---- data paths ----
    let mut i: usize = 1;
    while i < n
        invariant
            n == c.len(),
            c == configs@,
            1 <= i,
            i <= n || n == 0,
            data_issue_from(c, 1) == data_issue_from(c, i as int),
        decreases n - i,
    {
        if !str_eq(configs[i].stock_bar.as_str(), configs[0].stock_bar.as_str()) {
            return Err(ShareIssue::DataDiffers { field: SharedField::StockBar, config: i });
        }
        if !str_eq(configs[i].benchmark.as_str(), configs[0].benchmark.as_str()) {
            return Err(ShareIssue::DataDiffers { field: SharedField::Benchmark, config: i });
        }
        i += 1;
    }
    assert(data_issue_from(c, 1) is None);
    // ---- wap path and window ----
    let mut wap_src: Option<usize> = None;
    let mut window_src: Option<(usize, u8)> = None;
    let ghost mut gw: Option<int> = None;
    let ghost mut gwin: Option<(int, u8)> = None;
    let mut k: usize = 0;
    while k < n
        invariant
            n == c.len(),
            c == configs@,
            k <= n,
            data_issue_from(c, 1) is None,
            wap_issue_from(c, 0, None, None) == wap_issue_from(c, k as int, gw, gwin),
            wap_src matches Some(p) ==> gw == Some(p as int) && p < k && given(c[p as int].wap),
            wap_src is None ==> gw is None,
            window_src matches Some((p, w)) ==> gwin == Some((p as int, w)) && p < k,
            window_src is None ==> gwin is None,
        decreases n - k,
    {
        let wap_given = is_given(&configs[k].wap);
        if wap_given {
            match wap_src {
                Some(p0) => {
                    if !string_opt_text_eq(&configs[p0].wap, &configs[k].wap) {
                        return Err(ShareIssue::WapDiffers { first: p0, other: k });
                    }
                },
                None => {
                    wap_src = Some(k);
                    proof {
                        gw = Some(k as int);
                    }
                },
            }
        }
        match DealPrice::parse(configs[k].deal_price.as_str()) {
            Err(_) => {
                return Err(ShareIssue::DealPrice { config: k });
            },
            Ok(DealPrice::Wap { window, .. }) => {
                match window_src {
                    Some((p0, w0)) => {
                        if w0 != window {
                            return Err(ShareIssue::WindowDiffers { first: p0, other: k });
                        }
                    },
                    None => {
                        window_src = Some((k, window));
                        proof {
                            gwin = Some((k as int, window));
                        }
                    },
                }
            },
            Ok(_) => {},
        }
        k += 1;
    }
    // ---- output files ----
    if n > 1 {
        let mut i: usize = 0;
        while i < n
            invariant
                n == c.len(),
                c == configs@,
                i <= n,
                n > 1,
                data_issue_from(c, 1) is None,
                wap_issue_from(c, 0, None, None) is None,
                output_issue_from(c, 0) == output_issue_from(c, i as int),
            decreases n - i,
        {
            let mut j: usize = 0;
            while j < i
                invariant
                    j <= i < n,
                    n == c.len(),
                    c == configs@,
                    n > 1,
                    data_issue_from(c, 1) is None,
                    wap_issue_from(c, 0, None, None) is None,
                    output_issue_from(c, 0) == output_issue_from(c, i as int),
                    forall|q: int| 0 <= q < j ==> !same_output(c[q].output, c[i as int].output),
                decreases i - j,
            {
                if output_eq(&configs[j].output, &configs[i].output) {
                    proof {
                        assert(same_output(c[j as int].output, c[i as int].output));
                        assert(exists|w: int|
                            0 <= w < i && same_output(c[w].output, c[i as int].output) && forall|q: int|
                                0 <= q < w ==> !same_output(c[q].output, c[i as int].output));
                        let w = choose|w: int|
                            0 <= w < i && same_output(c[w].output, c[i as int].output) && forall|q: int|
                                0 <= q < w ==> !same_output(c[q].output, c[i as int].output);
                        if w < j {
                        } else if w > j {
                            assert(!same_output(c[j as int].output, c[i as int].output));
                        }
                        assert(w == j);
                        assert(exists|x: int| 0 <= x < i && same_output(c[x].output, c[i as int].output));
                        assert(output_issue_from(c, i as int) == Some(
                            ShareIssue::OutputClash { first: j, other: i },
                        ));
                        assert(spec_share_issue(c) == Some(ShareIssue::OutputClash { first: j, other: i }));
                    }
                    return Err(ShareIssue::OutputClash { first: j, other: i });
                }
                j += 1;
            }
            i += 1;
        }
    }
    Ok(())
}

/// The built-in strategy a strategy configuration names: `topk_dropout` or `topk`
/// with the configured parameters; any other name is an `InvalidParam` error.
pub fn strategy_spec(cfg: &StrategyConfig) -> (r: Result<StrategySpec, BtError>)
    ensures
        match r {
            Ok(spec) => (cfg.name@ == "topk_dropout"@ && spec == StrategySpec::TopkDropout {
                top_n: cfg.top_n,
                drop_n: cfg.drop_n,
                only_tradable: cfg.only_tradable,
                forbid_st: cfg.forbid_st,
            }) || (cfg.name@ == "topk"@ && spec == StrategySpec::Topk {
                top_n: cfg.top_n,
                forbid_st: cfg.forbid_st,
            }),
            Err(e) => e is InvalidParam && cfg.name@ != "topk_dropout"@ && cfg.name@ != "topk"@,
        },
{
    if str_eq(cfg.name.as_str(), "topk_dropout") {
        Ok(
            StrategySpec::TopkDropout {
                top_n: cfg.top_n,
                drop_n: cfg.drop_n,
                only_tradable: cfg.only_tradable,
                forbid_st: cfg.forbid_st,
            },
        )
    } else if str_eq(cfg.name.as_str(), "topk") {
        Ok(StrategySpec::Topk { top_n: cfg.top_n, forbid_st: cfg.forbid_st })
    } else {
        Err(BtError::InvalidParam(message_with("未知策略: ", cfg.name.as_str())))
    }
}

/// Which data files a `data.dir` directory must supply: the stock_bar and benchmark
/// files not given explicitly, and the wap file only for a window deal price (and
/// when not given explicitly). Without a (non-empty) directory nothing is searched.
pub fn files_to_discover(data: &DataConfig, deal_price: &str) -> (r: (bool, bool, bool))
    ensures
        r == (if !given(data.dir) {
            (false, false, false)
        } else {
            (
                !given(data.stock_bar),
                !given(data.benchmark),
                (spec_deal_price_parse(deal_price@) matches Some(DealPrice::Wap { .. })) && !given(
                    data.wap,
                ),
            )
        }),
{
    if !is_given(&data.dir) {
        return (false, false, false);
    }
    let wap_price = match DealPrice::parse(deal_price) {
        Ok(DealPrice::Wap { .. }) => true,
        _ => false,
    };
    (!is_given(&data.stock_bar), !is_given(&data.benchmark), wap_price && !is_given(&data.wap))
}

} // verus!
