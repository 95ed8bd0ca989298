use rust_bt::api::{check_wap_path, wap_window, BuiltinStrategy, DataPaths, StrategySpec};
use rust_bt::config::{
    check_shareable_data, files_to_discover, strategy_spec, validate_config, ConfigIssue,
    ConfigSettings, DataConfig, OutputConfig, PeriodConfig, ReportConfig, RequiredField,
    ShareIssue, ShareSettings, SharedField, StrategyConfig,
};
use rust_bt::types::DealPrice;

fn minimal() -> ConfigSettings {
    ConfigSettings {
        signal: Some("tmp_data/pred.csv".to_string()),
        data: DataConfig {
            dir: None,
            stock_bar: Some("tmp_data/stock_bar.csv".to_string()),
            benchmark: Some("tmp_data/benchmark.csv".to_string()),
            wap: None,
        },
        period: PeriodConfig {
            start_date: Some("2026-01-01".to_string()),
            end_date: Some("2026-06-01".to_string()),
        },
        initial_cash_positive: true,
        strategy: StrategyConfig::default(),
        deal_price: "open".to_string(),
        report: ReportConfig::default(),
    }
}

#[test]
fn minimal_config_uses_defaults() {
    let cfg = minimal();
    assert_eq!(validate_config(&cfg), Ok(()));
    assert_eq!(cfg.signal.as_deref(), Some("tmp_data/pred.csv"));
    assert_eq!(cfg.period.start_date.as_deref(), Some("2026-01-01"));
    assert_eq!(cfg.strategy.name, "topk_dropout");
    assert_eq!(cfg.strategy.top_n, 100);
    assert_eq!(cfg.strategy.drop_n, 100);
    assert!(!cfg.strategy.only_tradable);
    assert!(!cfg.strategy.forbid_st);
    assert_eq!(cfg.deal_price, "open");
    assert_eq!(cfg.report.benchmark, "zz1000");
    assert_eq!(cfg.report.excess_method, "arithmetic");
    assert_eq!(OutputConfig::default().dir, "output");
}

#[test]
fn missing_required_field_errors_with_name() {
    let mut cfg = minimal();
    cfg.signal = None;
    match validate_config(&cfg) {
        Err(ConfigIssue::MissingField(f)) => assert!(f.key().contains("signal")),
        other => panic!("报错应含字段名: {other:?}"),
    }
    let mut cfg = minimal();
    cfg.data.benchmark = Some(String::new());
    assert_eq!(validate_config(&cfg), Err(ConfigIssue::MissingField(RequiredField::Benchmark)));
    assert_eq!(RequiredField::Benchmark.key(), "data.benchmark");
}

#[test]
fn full_config_overrides_defaults() {
    let mut cfg = minimal();
    cfg.data.wap = Some("w.parquet".to_string());
    cfg.strategy = StrategyConfig {
        name: "topk_dropout".to_string(),
        top_n: 50,
        drop_n: 5,
        only_tradable: true,
        forbid_st: true,
    };
    cfg.deal_price = "vwap11".to_string();
    cfg.report = ReportConfig { benchmark: "hs300".to_string(), excess_method: "geometric".to_string() };
    assert_eq!(validate_config(&cfg), Ok(()));
    assert_eq!(
        strategy_spec(&cfg.strategy).unwrap(),
        StrategySpec::TopkDropout { top_n: 50, drop_n: 5, only_tradable: true, forbid_st: true }
    );
}

#[test]
fn unknown_strategy_errors() {
    let mut cfg = minimal();
    cfg.strategy.name = "momentum".to_string();
    assert_eq!(validate_config(&cfg), Err(ConfigIssue::UnknownStrategy));
    let err = strategy_spec(&cfg.strategy).unwrap_err();
    assert!(err.message().contains("momentum"), "报错应含策略名: {err:?}");
}

#[test]
fn topk_strategy_maps_to_spec() {
    let mut cfg = minimal();
    cfg.strategy.name = "topk".to_string();
    cfg.strategy.top_n = 30;
    cfg.strategy.forbid_st = true;
    assert_eq!(validate_config(&cfg), Ok(()));
    match strategy_spec(&cfg.strategy).unwrap() {
        StrategySpec::Topk { top_n, forbid_st } => {
            assert_eq!(top_n, 30);
            assert!(forbid_st);
        }
        other => panic!("期望 StrategySpec::Topk，实际: {other:?}"),
    }
}

#[test]
fn invalid_initial_cash_errors() {
    let mut cfg = minimal();
    for bad in [0.0f64, -1000000.0, f64::NAN] {
        cfg.initial_cash_positive = bad.is_finite() && bad > 0.0;
        assert_eq!(validate_config(&cfg), Err(ConfigIssue::InitialCash));
    }
}

#[test]
fn top_n_zero_errors() {
    let mut cfg = minimal();
    cfg.strategy.top_n = 0;
    assert_eq!(validate_config(&cfg), Err(ConfigIssue::TopN));
}

#[test]
fn invalid_enum_params_error_at_load() {
    let mut cfg = minimal();
    cfg.report.benchmark = "csi300".to_string();
    assert_eq!(validate_config(&cfg), Err(ConfigIssue::UnknownBenchmark));
    let mut cfg = minimal();
    cfg.report.excess_method = "geo".to_string();
    assert_eq!(validate_config(&cfg), Err(ConfigIssue::ExcessMethod));
    let mut cfg = minimal();
    cfg.deal_price = "avg".to_string();
    assert_eq!(validate_config(&cfg), Err(ConfigIssue::DealPrice));
}

#[test]
fn wap_deal_price_requires_wap_path() {
    let mut cfg = minimal();
    cfg.deal_price = "vwap11".to_string();
    assert_eq!(validate_config(&cfg), Err(ConfigIssue::WapPathMissing));
    cfg.deal_price = "twap3".to_string();
    assert_eq!(validate_config(&cfg), Err(ConfigIssue::WapPathMissing));
}

#[test]
fn wap_path_only_with_wap_deal_price() {
    let mut cfg = minimal();
    cfg.data.wap = Some("w.parquet".to_string());
    assert_eq!(validate_config(&cfg), Err(ConfigIssue::WapPathUnused));
}

fn share(stock_bar: &str, wap: Option<&str>, deal_price: &str, dir: &str) -> ShareSettings {
    let mut output = OutputConfig::default();
    output.dir = dir.to_string();
    ShareSettings {
        stock_bar: stock_bar.to_string(),
        benchmark: "tmp_data/benchmark.csv".to_string(),
        wap: wap.map(|w| w.to_string()),
        deal_price: deal_price.to_string(),
        output,
    }
}

#[test]
fn shareable_data_check() {
    let a = || share("tmp_data/stock_bar.csv", None, "open", "output");
    // one configuration: no output clash even with default paths
    assert_eq!(check_shareable_data(&vec![a()]), Ok(()));
    // two configurations must write to different places
    assert_eq!(
        check_shareable_data(&vec![a(), a()]),
        Err(ShareIssue::OutputClash { first: 0, other: 1 })
    );
    let b_out = share("tmp_data/stock_bar.csv", None, "open", "output_b");
    assert_eq!(check_shareable_data(&vec![a(), b_out]), Ok(()));
    // window-price configurations
    let w1 = share("tmp_data/stock_bar.csv", Some("w.parquet"), "vwap11", "output");
    let w2 = share("tmp_data/stock_bar.csv", Some("w.parquet"), "vwap11", "output_w");
    assert_eq!(
        check_shareable_data(&vec![
            share("tmp_data/stock_bar.csv", Some("w.parquet"), "vwap11", "output"),
            share("tmp_data/stock_bar.csv", Some("w.parquet"), "vwap11", "output_w"),
        ]),
        Ok(())
    );
    // a different stock_bar file: reported with the configuration that differs
    let c = share("tmp_data/other.csv", None, "open", "output_c");
    assert_eq!(
        check_shareable_data(&vec![a(), c]),
        Err(ShareIssue::DataDiffers { field: SharedField::StockBar, config: 1 })
    );
    // different windows
    let w3 = share("tmp_data/stock_bar.csv", Some("w.parquet"), "vwap3", "output_3");
    assert_eq!(
        check_shareable_data(&vec![w1, w3]),
        Err(ShareIssue::WindowDiffers { first: 0, other: 1 })
    );
    // window and basic configurations may run together, with distinct outputs
    assert_eq!(check_shareable_data(&vec![a(), w2]), Ok(()));
    // different wap files
    let w4 = share("tmp_data/stock_bar.csv", Some("w2.parquet"), "vwap11", "output_4");
    let w5 = share("tmp_data/stock_bar.csv", Some("w.parquet"), "vwap11", "output_5");
    assert_eq!(
        check_shareable_data(&vec![w5, w4]),
        Err(ShareIssue::WapDiffers { first: 0, other: 1 })
    );
}

#[test]
fn data_dir_wap_on_demand() {
    let data = DataConfig { dir: Some("d".to_string()), stock_bar: None, benchmark: None, wap: None };
    // a basic deal price does not look for a wap file
    assert_eq!(files_to_discover(&data, "open"), (true, true, false));
    // a window price does
    assert_eq!(files_to_discover(&data, "vwap3"), (true, true, true));
    // explicit paths win
    let data = DataConfig {
        dir: Some("d".to_string()),
        stock_bar: Some("explicit/bar.csv".to_string()),
        benchmark: None,
        wap: None,
    };
    assert_eq!(files_to_discover(&data, "open"), (false, true, false));
    // no directory: nothing is searched
    assert_eq!(files_to_discover(&DataConfig::default(), "vwap3"), (false, false, false));
}

#[test]
fn zero_top_n_errors_before_data_load() {
    let err = StrategySpec::topk_dropout(0, 1).instantiate().unwrap_err();
    assert!(err.message().contains("top_n"), "{err:?}");
    assert_eq!(err.message(), "top_n 须 >= 1，收到: 0");
    assert!(StrategySpec::topk(0).instantiate().is_err());
    match StrategySpec::topk_dropout(10, 5).instantiate().unwrap() {
        BuiltinStrategy::TopkDropout(s) => {
            assert_eq!((s.top_n(), s.drop_n(), s.only_tradable(), s.forbid_st()), (10, 5, false, false))
        }
        other => panic!("{other:?}"),
    }
}

#[test]
fn wap_path_required_for_window_price() {
    let paths = DataPaths { stock_bar: "x.csv".to_string(), benchmark: "b.csv".to_string(), wap: None };
    let vwap11 = DealPrice::parse("vwap11").unwrap();
    assert!(check_wap_path(vwap11, &paths).is_err());
    assert!(check_wap_path(DealPrice::Open, &paths).is_ok());
    assert_eq!(wap_window(vwap11), Some(11));
    assert_eq!(wap_window(DealPrice::Close), None);
}
