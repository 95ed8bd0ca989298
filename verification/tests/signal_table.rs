use std::collections::HashSet;

use rust_bt::backtest::count_dropped_entries;
use rust_bt::data::calendar::{parse_date, TradingCalendar};
use rust_bt::error::BtError;
use rust_bt::signal::SignalDay;
use rust_bt::signal_table::signal_table;

fn strings(v: &[&str]) -> Vec<String> {
    v.iter().map(|s| s.to_string()).collect()
}

fn day(s: &str) -> i32 {
    parse_date(s).unwrap()
}

#[test]
fn table_splits_rows_into_ascending_days() {
    let dates = strings(&["2026-01-06", "2026-01-05", "2026-01-06", "2026-01-07", "2026-01-05"]);
    let insts = strings(&["SH600001", "SH600002", "SZ000001", "BJ832000", "SH600001"]);
    let scores = vec![Some(3), Some(2), None, Some(1), Some(5)];
    let days = signal_table(&dates, &insts, &scores).unwrap();
    // 2026-01-07 keeps no entry (not a stock code) and is omitted
    assert_eq!(days.len(), 2);
    assert_eq!(days[0].0, day("2026-01-05"));
    assert_eq!(days[0].1.entries(), &vec![(600_002, 2), (600_001, 5)]);
    assert_eq!(days[1].0, day("2026-01-06"));
    assert_eq!(days[1].1.entries(), &vec![(600_001, 3)]);
}

#[test]
fn table_names_first_repeated_pair_with_its_date() {
    // a repeat on 2026-01-06 comes first in file order; the one on 2026-01-05 later
    let dates = strings(&["2026-01-06", "2026-01-06", "2026-01-05", "2026-01-05"]);
    let insts = strings(&["SH600001", "SH600001", "SH600002", "SH600002"]);
    let scores = vec![Some(1); 4];
    let err = signal_table(&dates, &insts, &scores).unwrap_err();
    assert_eq!(err.message(), "pred 存在重复键 (datetime=2026-01-06, instrument=SH600001)");
    // a repeated text that is not a stock code is a repeat too, even without a score
    let err = signal_table(&strings(&["2026-1-5", "2026-01-05"]), &strings(&["BJ832000", "BJ832000"]), &vec![None, None])
        .unwrap_err();
    assert_eq!(err.message(), "pred 存在重复键 (datetime=2026-01-05, instrument=BJ832000)");
}

#[test]
fn table_rejects_a_bad_date_first() {
    let err = signal_table(&strings(&["2026-01-05", "x", "2026-01-05"]), &strings(&["SH600001"; 3]), &vec![Some(1); 3])
        .unwrap_err();
    assert!(matches!(err, BtError::Calendar(_)));
}

#[test]
fn dropped_entries_are_counted_on_trading_days() {
    let cal = TradingCalendar::from_dates(vec![day("2026-01-05"), day("2026-01-06")]);
    let known: HashSet<u32> = [600_001].into_iter().collect();
    let sd = |v: &[(&str, i64)]| {
        SignalDay::from_pairs(v.iter().map(|(s, k)| (s.to_string(), Some(*k))).collect()).unwrap()
    };
    let days = vec![
        (day("2026-01-05"), sd(&[("SH600001", 1), ("SH600002", 2), ("SH600003", 3)])),
        // not a trading day: its entries are not counted here
        (day("2026-01-04"), sd(&[("SH600002", 2)])),
        (day("2026-01-06"), sd(&[("SH600004", 2)])),
    ];
    assert_eq!(count_dropped_entries(&cal, &days, &known), 3);
}
