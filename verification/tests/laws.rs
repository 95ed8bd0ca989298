use std::collections::HashSet;

use rust_bt::api::StrategySpec;
use rust_bt::config::{strategy_spec, validate_config, ConfigSettings, DataConfig, PeriodConfig, ReportConfig, StrategyConfig};
use rust_bt::error::BtError;
use rust_bt::exchange::market::wap_use;
use rust_bt::exchange::rules::round_buy_lot;
use rust_bt::order::group_orders;
use rust_bt::signal::SignalDay;
use rust_bt::strategy::common::select_top;
use rust_bt::strategy::{TopkDropoutStrategy, TopkStrategy};
use rust_bt::types::{DealPrice, StockFlags, TradableFlags};

fn signal(v: &[(&str, i64)]) -> SignalDay {
    SignalDay::from_pairs(v.iter().map(|(s, k)| (s.to_string(), Some(*k))).collect()).unwrap()
}

fn all_tradable(codes: &[u32]) -> TradableFlags {
    let mut codes = codes.to_vec();
    codes.sort();
    let n = codes.len();
    TradableFlags::new(codes, vec![StockFlags { buyable: true, sellable: true, is_st: false }; n]).unwrap()
}

#[test]
fn selection_does_not_depend_on_input_order() {
    let a = vec![(5, 7), (1, 7), (9, 3), (2, 8), (4, 7)];
    let mut b = a.clone();
    b.reverse();
    for k in 0..6 {
        assert_eq!(select_top(&a, k, true), select_top(&b, k, true));
        assert_eq!(select_top(&a, k, false), select_top(&b, k, false));
    }
    assert_eq!(select_top(&a, 3, true), vec![(2, 8), (1, 7), (4, 7)]);
}

#[test]
fn dropout_never_buys_what_it_sells_and_stays_within_top_n() {
    let sig = signal(&[("SH600001", 1), ("SH600002", 9), ("SH600003", 5), ("SH600004", 7), ("SH600005", 2)]);
    let t = all_tradable(&[600001, 600002, 600003, 600004, 600005]);
    let held = vec![600001, 600003, 600005];
    let plan = TopkDropoutStrategy::new(3, 2).plan(&sig, &held, &t);
    let sold: HashSet<u32> = plan.sells.iter().map(|x| x.0).collect();
    let bought: HashSet<u32> = plan.buys.iter().map(|x| x.0).collect();
    assert!(sold.is_disjoint(&bought));
    assert!(sold.iter().all(|c| held.contains(c)));
    assert!(bought.iter().all(|c| !held.contains(c)));
    assert!(held.len() - sold.len() + bought.len() <= 3);
    assert_eq!(plan.sells, vec![(600001, 1), (600005, 2)]);
    assert_eq!(plan.buys, vec![(600002, 9), (600004, 7)]);
}

#[test]
fn topk_holdings_become_the_target() {
    let sig = signal(&[("SH600001", 1), ("SH600002", 9), ("SH600003", 5), ("SH600004", 7)]);
    let t = all_tradable(&[600001, 600002, 600003, 600004]);
    let held = vec![600001, 600003];
    let plan = TopkStrategy::new(2).plan(&sig, &held, &t);
    let mut after: Vec<u32> = held.iter().copied().filter(|c| !plan.sells.contains(c)).collect();
    after.extend(plan.buys.iter().map(|x| x.0));
    after.sort();
    let mut target: Vec<u32> = plan.target.iter().map(|x| x.0).collect();
    target.sort();
    assert_eq!(after, target);
    assert_eq!(target, vec![600002, 600004]);
    assert!(plan.target.len() <= 2);
}

#[test]
fn lot_rounding_is_idempotent() {
    for (shares, code) in [(599u64, 600_000u32), (12_345, 1), (250, 688_981), (199, 689_009), (0, 300_750)] {
        let once = round_buy_lot(shares, code);
        assert_eq!(round_buy_lot(once, code), once);
        assert!(once <= shares);
    }
}

#[test]
fn merging_leaves_one_order_per_stock() {
    let codes = vec![3, 3, 1, 2, 1, 3];
    let g = group_orders(&codes);
    let distinct: HashSet<u32> = g.codes.iter().copied().collect();
    assert_eq!(distinct.len(), g.codes.len());
    assert_eq!(distinct, codes.iter().copied().collect());
}

#[test]
fn valid_configuration_converts() {
    let cfg = ConfigSettings {
        signal: Some("s.csv".to_string()),
        data: DataConfig {
            dir: None,
            stock_bar: Some("b.csv".to_string()),
            benchmark: Some("m.csv".to_string()),
            wap: None,
        },
        period: PeriodConfig {
            start_date: Some("2026-01-01".to_string()),
            end_date: Some("2026-03-01".to_string()),
        },
        initial_cash_positive: true,
        strategy: StrategyConfig { name: "topk".to_string(), ..StrategyConfig::default() },
        deal_price: "close".to_string(),
        report: ReportConfig::default(),
    };
    assert_eq!(validate_config(&cfg), Ok(()));
    assert_eq!(strategy_spec(&cfg.strategy).unwrap(), StrategySpec::Topk { top_n: 100, forbid_st: false });
    assert_eq!(DealPrice::parse(&cfg.deal_price).unwrap(), DealPrice::Close);
}

#[test]
fn wap_data_matches_the_window() {
    let vwap11 = DealPrice::parse("vwap11").unwrap();
    assert_eq!(wap_use(vwap11, Some(11)).unwrap(), true);
    assert!(matches!(wap_use(vwap11, Some(3)), Err(BtError::InvalidParam(_))));
    assert!(matches!(wap_use(vwap11, None), Err(BtError::InvalidParam(_))));
    // a basic deal price ignores wap data
    assert_eq!(wap_use(DealPrice::Open, Some(11)).unwrap(), false);
    assert_eq!(wap_use(DealPrice::Vwap, None).unwrap(), false);
}
