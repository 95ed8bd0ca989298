use rust_bt::api::ExportNames;
use rust_bt::config::{DataConfig, OutputConfig, PeriodConfig, ReportConfig, StrategyConfig};
use rust_bt::data::wap::{required_columns, validate_window};
use rust_bt::exchange::rules::round_buy_lot;
use rust_bt::report::html::{push_trace, report_traces};

#[test]
fn default_records() {
    let n = ExportNames::default();
    assert_eq!(n.hist_position, "hist_position.csv");
    assert_eq!(n.report_plot, "report_plot.html");
    let o = OutputConfig::default();
    assert_eq!(o.dir, "output");
    assert_eq!(o.trades, "trades.csv");
    let s = StrategyConfig::default();
    assert_eq!(s.name, "topk_dropout");
    assert_eq!((s.top_n, s.drop_n, s.only_tradable, s.forbid_st), (100, 100, false, false));
    let r = ReportConfig::default();
    assert_eq!((r.benchmark.as_str(), r.excess_method.as_str()), ("zz1000", "arithmetic"));
    assert!(DataConfig::default().stock_bar.is_none());
    assert!(PeriodConfig::default().start_date.is_none());
}

#[test]
fn wap_columns_for_window() {
    let cols = required_columns(11);
    assert_eq!(
        cols,
        vec![
            "datetime",
            "instrument",
            "wap_11_vwap_buy",
            "wap_11_vwap_sell",
            "wap_11_twap_buy",
            "wap_11_twap_sell",
            "wap_11_buy_volume",
            "wap_11_sell_volume",
        ]
    );
    assert_eq!(required_columns(5)[2], "wap_5_vwap_buy");
    assert!(validate_window(0).is_err());
    assert!(validate_window(12).is_err());
    assert!(validate_window(1).is_ok());
}

#[test]
fn round_lot_main_board() {
    // the share count reaches the lot rule as whole shares (fractions are cut off first)
    assert_eq!(round_buy_lot(599.9f64 as u64, 600_000) as f64, 500.0);
    assert_eq!(round_buy_lot(100.0f64 as u64, 600_000) as f64, 100.0);
    assert_eq!(round_buy_lot(99.9f64 as u64, 600_000) as f64, 0.0);
    assert_eq!(round_buy_lot(0.0f64 as u64, 600_000) as f64, 0.0);
}

#[test]
fn round_lot_star_market() {
    assert_eq!(round_buy_lot(250.7f64 as u64, 688_981) as f64, 250.0);
    assert_eq!(round_buy_lot(200.0f64 as u64, 688_981) as f64, 200.0);
    assert_eq!(round_buy_lot(199.9f64 as u64, 689_009) as f64, 0.0);
    assert_eq!(round_buy_lot(1500.0f64 as u64, 688_001) as f64, 1500.0);
}

#[test]
fn trace_json() {
    let mut s = String::from("[");
    push_trace(&mut s, "turnover", "[\"T0\"]", "[0]", "x5", "y5", false);
    assert_eq!(
        s,
        "[{\"type\":\"scatter\",\"mode\":\"lines+markers\",\"name\":\"turnover\",\"x\":[\"T0\"],\"y\":[0],\"xaxis\":\"x5\",\"yaxis\":\"y5\"}"
    );
    let mut s = String::new();
    push_trace(&mut s, "mdd", "[]", "[]", "x2", "y2", true);
    assert!(s.contains("\"fill\":\"tozeroy\""));
}

#[test]
fn report_traces_assign_panels_and_fills() {
    let ys: Vec<String> = (0..10).map(|i| format!("[{i}]")).collect();
    let t = report_traces("[\"T0\"]", &ys);
    assert!(t.starts_with("[{\"type\":\"scatter\",\"mode\":\"lines+markers\",\"name\":\"cum bench\",\"x\":[\"T0\"],\"y\":[0],\"xaxis\":\"x\",\"yaxis\":\"y\"}"));
    assert!(t.ends_with("\"name\":\"cum ex return wo cost mdd\",\"x\":[\"T0\"],\"y\":[9],\"fill\":\"tozeroy\",\"xaxis\":\"x7\",\"yaxis\":\"y7\"}]"));
    // ten traces, four of them filled drawdowns, seven panels
    assert_eq!(t.matches("\"type\":\"scatter\"").count(), 10);
    assert_eq!(t.matches("tozeroy").count(), 4);
    assert!(t.contains("\"name\":\"turnover\",\"x\":[\"T0\"],\"y\":[7],\"xaxis\":\"x5\",\"yaxis\":\"y5\"}"));
    assert!(t.contains("\"name\":\"cum ex return w cost\",\"x\":[\"T0\"],\"y\":[6],\"xaxis\":\"x4\",\"yaxis\":\"y4\"}"));
}
