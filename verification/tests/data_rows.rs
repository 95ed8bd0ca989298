use rust_bt::data::benchmark::BenchmarkIndex;
use rust_bt::data::calendar::{parse_date, TradingCalendar};
use rust_bt::data::columns::first_missing;
use rust_bt::data::row_order::{parse_row_keys, sort_rows};
use rust_bt::data::stock_bar::{required_columns as bar_columns, StockBarIndex};
use rust_bt::data::wap::{required_columns as wap_columns, validate_window, WapIndex};
use rust_bt::error::BtError;

fn strings(v: &[&str]) -> Vec<String> {
    v.iter().map(|s| s.to_string()).collect()
}

fn day(s: &str) -> i32 {
    parse_date(s).unwrap()
}

#[test]
fn sort_rows_orders_by_date_then_code() {
    let keys = vec![(5, 600_001), (3, 7), (5, 1), (3, 600_000)];
    assert_eq!(sort_rows(&keys).unwrap(), vec![1, 3, 2, 0]);
    // a repeated key: reported on a row holding the smallest repeated key
    let keys = vec![(5, 1), (3, 2), (5, 1), (3, 2), (4, 0)];
    let p = sort_rows(&keys).unwrap_err();
    assert_eq!(keys[p], (3, 2));
    assert!(sort_rows(&vec![]).unwrap().is_empty());
}

#[test]
fn stock_bar_index_layout() {
    let dates = strings(&["2026-01-06", "2026-01-05", "2026-01-06", "2026-01-05", "2026-01-07"]);
    let insts = strings(&["SH600001", "SH600001", "SZ000001", "SZ300750", "SH600001"]);
    let ix = StockBarIndex::build(&dates, &insts).unwrap();
    assert_eq!(
        ix.calendar().dates(),
        &vec![day("2026-01-05"), day("2026-01-06"), day("2026-01-07")]
    );
    // day 0: SZ300750 (300750), SH600001; day 1: SZ000001 (1), SH600001; day 2: SH600001
    assert_eq!(ix.order(), &vec![3, 1, 2, 0, 4]);
    assert_eq!(ix.days(), &vec![0, 0, 1, 1, 2]);
    assert_eq!(ix.codes(), &vec![300_750, 600_001, 1, 600_001, 600_001]);
    assert_eq!(ix.day_offsets(), &vec![(0, 2), (2, 2), (4, 1)]);
}

#[test]
fn stock_bar_index_errors() {
    // repeated (datetime, instrument)
    let dates = strings(&["2026-01-05", "2026-01-05"]);
    let insts = strings(&["SH600001", "SH600001"]);
    match StockBarIndex::build(&dates, &insts) {
        Err(BtError::Validation(m)) => {
            assert!(m.contains("重复键"), "{m}");
            assert_eq!(m, "stock_bar 存在重复键 (datetime=2026-01-05, instrument=SH600001)");
        }
        other => panic!("expected a validation error, got {other:?}"),
    }
    // an instrument that is not a stock code
    let insts = strings(&["SH600001", "BJ430047"]);
    assert!(matches!(StockBarIndex::build(&dates, &insts), Err(BtError::Validation(_))));
    // a malformed date comes first
    let dates = strings(&["2026/01/05", "2026-01-05"]);
    assert!(matches!(StockBarIndex::build(&dates, &insts), Err(BtError::Calendar(_))));
    assert!(matches!(parse_row_keys(&dates, &insts), Err(BtError::Calendar(_))));
}

#[test]
fn stock_bar_required_columns() {
    let cols = bar_columns();
    assert_eq!(cols.len(), 15);
    assert_eq!(cols[0], "datetime");
    assert_eq!(cols[14], "vwap");
    assert!(!cols.contains(&"avg".to_string()));
    let mut present = cols.clone();
    assert_eq!(first_missing(&cols, &present), None);
    present.retain(|c| c != "factor" && c != "paused");
    assert_eq!(first_missing(&cols, &present).map(|i| cols[i].as_str()), Some("factor"));
}

#[test]
fn load_csv_sorted_and_validated() {
    // rows in a shuffled order: SZ000001 (code 1) < SH600001 (code 600001)
    let dates = strings(&["2026-01-05", "2026-01-05", "2026-01-06"]);
    let insts = strings(&["SH600001", "SZ000001", "SH600001"]);
    let ix = WapIndex::build(&dates, &insts).unwrap();
    let codes: Vec<u32> = ix.keys().iter().map(|k| k.1).collect();
    assert_eq!(codes, vec![1, 600_001, 600_001]);
    assert_eq!(ix.order(), &vec![1, 0, 2]);
    assert_eq!(ix.keys().len(), 3);
}

#[test]
fn invalid_window_errors() {
    assert!(validate_window(0).is_err());
    assert!(validate_window(12).is_err());
}

#[test]
fn duplicate_key_errors() {
    let dates = strings(&["2026-01-05", "2026-01-05"]);
    let insts = strings(&["SH600001", "SH600001"]);
    let err = WapIndex::build(&dates, &insts).unwrap_err();
    assert!(err.message().contains("重复键"), "{err:?}");
    assert_eq!(err.message(), "wap 数据存在重复键 (datetime=2026-01-05, instrument=SH600001)");
}

#[test]
fn missing_required_column_errors() {
    // the file holds the columns of window 11, the columns of window 5 are asked for
    let present = wap_columns(11);
    let wanted = wap_columns(5);
    let i = first_missing(&wanted, &present).unwrap();
    assert!(wanted[i].contains("wap_5"), "{}", wanted[i]);
}

#[test]
fn wap_rows_join_stock_bar_rows() {
    let bar = StockBarIndex::build(
        &strings(&["2026-01-05", "2026-01-05", "2026-01-06", "2026-01-06"]),
        &strings(&["SH600000", "SH600001", "SH600000", "SH600001"]),
    )
    .unwrap();
    // no wap row for SH600001 on 2026-01-06; a wap row off the calendar is ignored
    let wap = WapIndex::build(
        &strings(&["2026-01-06", "2026-01-05", "2026-01-04", "2026-01-05"]),
        &strings(&["SH600000", "SH600001", "SH600000", "SH600000"]),
    )
    .unwrap();
    let joined = wap.join(&bar);
    let keys = wap.keys();
    assert_eq!(joined.len(), 4);
    let found: Vec<Option<(i32, u32)>> = joined.iter().map(|j| j.map(|w| keys[w])).collect();
    assert_eq!(
        found,
        vec![
            Some((day("2026-01-05"), 600_000)),
            Some((day("2026-01-05"), 600_001)),
            Some((day("2026-01-06"), 600_000)),
            None
        ]
    );
}

#[test]
fn benchmark_rows_and_coverage() {
    let dates = strings(&["2026-01-05", "2026-01-05", "2026-01-06", "2026-01-04", "2026-01-07"]);
    let insts = strings(&["SH000852", "SH000300", "SH000852", "SH000852", "SH000300"]);
    let ix = BenchmarkIndex::build(&dates, &insts).unwrap();
    let cal = TradingCalendar::from_dates(vec![day("2026-01-05"), day("2026-01-06"), day("2026-01-07")]);
    let finite = vec![true; 5];
    // zz1000 covers days 0 and 1
    assert_eq!(ix.select(&cal, 0..2, "SH000852", &finite).unwrap(), vec![0, 2]);
    // but not day 2
    assert!(matches!(
        ix.select(&cal, 0..3, "SH000852", &finite),
        Err(BtError::BenchmarkCoverage(_))
    ));
    // an index that the file does not hold
    assert!(matches!(
        ix.select(&cal, 1..2, "CSI932000", &finite),
        Err(BtError::BenchmarkCoverage(_))
    ));
    // a value that is not finite on a covered day
    let mut bad = finite.clone();
    bad[2] = false;
    assert!(matches!(ix.select(&cal, 0..2, "SH000852", &bad), Err(BtError::Validation(_))));
    // repeated (datetime, instrument)
    let err = BenchmarkIndex::build(&strings(&["2026-01-05", "2026-01-05"]), &strings(&["CSIKC", "CSIKC"]))
        .unwrap_err();
    assert!(matches!(err, BtError::Validation(_)));
    assert!(matches!(
        BenchmarkIndex::build(&strings(&["x"]), &strings(&["CSIKC"])),
        Err(BtError::Calendar(_))
    ));
}

#[test]
fn duplicate_messages_print_the_parsed_date() {
    // dates that chrono reads without zero padding are printed as chrono prints them
    let err = StockBarIndex::build(&strings(&["2026-1-5", "2026-01-05"]), &strings(&["SH600001", "SH600001"]))
        .unwrap_err();
    assert_eq!(err.message(), "stock_bar 存在重复键 (datetime=2026-01-05, instrument=SH600001)");
    let err = BenchmarkIndex::build(&strings(&["2026-1-5", "2026-01-05"]), &strings(&["SH000852", "SH000852"]))
        .unwrap_err();
    assert_eq!(err.message(), "benchmark 存在重复键 (datetime=2026-01-05, instrument=SH000852)");
}

#[test]
fn benchmark_names_first_repeat_in_file_order() {
    // (d1, A), (d2, B), (d2, B), (d1, A): the third row is the first that repeats
    let err = BenchmarkIndex::build(
        &strings(&["2026-01-05", "2026-01-06", "2026-01-06", "2026-01-05"]),
        &strings(&["SH000852", "SH000300", "SH000300", "SH000852"]),
    )
    .unwrap_err();
    assert_eq!(err.message(), "benchmark 存在重复键 (datetime=2026-01-06, instrument=SH000300)");
}

#[test]
fn calendar_index_finds_each_date() {
    let cal = TradingCalendar::from_dates(vec![day("2026-01-07"), day("2026-01-05"), day("2026-01-06"), day("2026-01-05")]);
    assert_eq!(cal.len(), 3);
    assert_eq!(cal.day_idx(day("2026-01-05")), Some(0));
    assert_eq!(cal.day_idx(day("2026-01-07")), Some(2));
    assert_eq!(cal.day_idx(day("2026-01-08")), None);
    let copy = cal.clone();
    assert_eq!(copy.day_idx(day("2026-01-06")), Some(1));
}
