use std::collections::HashSet;

use rust_bt::backtest::{prepare_signals, signal_for_day};
use rust_bt::data::calendar::{parse_date, TradingCalendar};
use rust_bt::error::BtError;
use rust_bt::order::{group_orders, normalize_decision, revise_keep};
use rust_bt::signal::SignalDay;

fn day(s: &str) -> i32 {
    parse_date(s).unwrap()
}

fn signal(v: &[(&str, i64)]) -> SignalDay {
    SignalDay::from_pairs(v.iter().map(|(s, k)| (s.to_string(), Some(*k))).collect()).unwrap()
}

#[test]
fn buy_sell_conflict_rejected() {
    // one step buys and sells the same stock: a strategy error
    match normalize_decision(&vec![600_001], &vec![600_001]) {
        Err(BtError::InvalidDecision(m)) => assert!(m.contains("600001"), "{m}"),
        other => panic!("同股买卖冲突应报 InvalidDecision: {other:?}"),
    }
}

#[test]
fn duplicate_buys_merged() {
    // two buy orders for one stock become one (100 + 200 = 300 shares)
    let g = normalize_decision(&vec![], &vec![600_001, 600_001]).unwrap();
    assert_eq!(g.buys.codes, vec![600_001]);
    assert_eq!(g.buys.group_of, vec![0, 0]);
    let volumes = [100.0, 200.0];
    let mut merged = vec![0.0; g.buys.codes.len()];
    for (i, v) in volumes.iter().enumerate() {
        merged[g.buys.group_of[i]] += v;
    }
    assert_eq!(merged, vec![300.0]);
}

#[test]
fn grouping_keeps_first_occurrence_order() {
    let g = group_orders(&vec![5, 3, 5, 1, 3]);
    assert_eq!(g.codes, vec![5, 3, 1]);
    assert_eq!(g.group_of, vec![0, 1, 0, 2, 1]);
    let d = normalize_decision(&vec![7, 7], &vec![1, 2]).unwrap();
    assert_eq!(d.sells.codes, vec![7]);
    assert_eq!(d.buys.codes, vec![1, 2]);
}

#[test]
fn revise_renormalizes_on_truncation() {
    // two buys planned, target 1 and nothing held after the sales: keep one and
    // share the cash anew (100000 / 1 / price 10 = 10000 shares)
    assert_eq!(revise_keep(Some(1), 0, 2), (1, true));
}

#[test]
fn revise_no_truncation_keeps_volumes() {
    assert_eq!(revise_keep(Some(2), 0, 2), (2, false));
}

#[test]
fn revise_keep_cases() {
    // holdings already at the target: no purchase
    assert_eq!(revise_keep(Some(3), 3, 2), (0, false));
    assert_eq!(revise_keep(Some(3), 5, 2), (0, false));
    // more room than purchases
    assert_eq!(revise_keep(Some(10), 2, 3), (3, false));
    // no target: all kept
    assert_eq!(revise_keep(None, 7, 4), (4, false));
    // target 5, 3 held: 2 of 4 kept, cash shared again
    assert_eq!(revise_keep(Some(5), 3, 4), (2, true));
}

#[test]
fn signals_by_trading_day() {
    let cal = TradingCalendar::from_dates(vec![day("2026-01-05"), day("2026-01-06"), day("2026-01-07")]);
    let known: HashSet<u32> = [600_001, 600_002].into_iter().collect();
    let days = vec![
        // on a trading day
        (day("2026-01-05"), signal(&[("SH600001", 3), ("SH699999", 1)])),
        // not a trading day: dropped
        (day("2026-01-03"), signal(&[("SH600002", 1)])),
        // only stocks without market data: the day counts as without signal
        (day("2026-01-06"), signal(&[("SH699999", 2)])),
    ];
    let by_day = prepare_signals(&cal, &days, &known);
    assert_eq!(by_day.len(), 3);
    assert_eq!(by_day[0].as_ref().unwrap().entries(), &vec![(600_001, 3)]);
    assert!(by_day[1].is_none());
    assert!(by_day[2].is_none());
    // day 1 acts on day 0's signal; day 0 and day 2 have none to act on
    assert!(signal_for_day(&by_day, 0).is_none());
    assert_eq!(signal_for_day(&by_day, 1).unwrap().entries(), &vec![(600_001, 3)]);
    assert!(signal_for_day(&by_day, 2).is_none());
}
