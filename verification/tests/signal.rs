use rust_bt::data::calendar::parse_date;
use rust_bt::signal::SignalDay;
use rust_bt::signal_table::signal_table;
use std::collections::HashSet;

fn pairs(v: &[(&str, Option<i64>)]) -> Vec<(String, Option<i64>)> {
    v.iter().map(|(s, k)| (s.to_string(), *k)).collect()
}

#[test]
fn signal_from_pairs_drops_invalid_and_errors_on_duplicate() {
    let day = SignalDay::from_pairs(pairs(&[
        ("SH600001", Some(1)),
        ("BJ832000", Some(2)),
        ("SH600002", None),
    ]))
    .unwrap();
    let codes: Vec<u32> = day.entries().iter().map(|e| e.0).collect();
    assert_eq!(codes, vec![600001]);

    let err = SignalDay::from_pairs(pairs(&[("SH600001", Some(1)), ("SH600001", Some(2))]));
    assert!(err.is_err());
    let err = err.unwrap_err();
    assert!(err.message().contains("SH600001"), "{err:?}");
}

#[test]
fn duplicate_message_names_first_repeated_instrument() {
    let err = SignalDay::from_pairs(pairs(&[
        ("SH600002", Some(1)),
        ("SZ000001", Some(1)),
        ("SZ000001", Some(2)),
        ("SH600002", Some(3)),
    ]))
    .unwrap_err();
    assert_eq!(err.message(), "pred 存在重复 instrument: SZ000001");
    let err = SignalDay::from_rows(pairs(&[
        ("BJ832000", Some(1)),
        ("SH600001", Some(1)),
        ("BJ832000", Some(2)),
    ]))
    .unwrap_err();
    assert_eq!(err.message(), "pred 存在重复 instrument: BJ832000");
}

#[test]
fn duplicate_with_dropped_score_still_errors() {
    let r = SignalDay::from_pairs(pairs(&[("SH600001", None), ("SH600001", Some(2))]));
    assert!(r.is_err());
    // invalid instruments are dropped before the duplicate check
    let r = SignalDay::from_pairs(pairs(&[("BJ832000", Some(1)), ("BJ832000", Some(2))]));
    assert!(r.unwrap().is_empty());
}

fn strings(v: &[&str]) -> Vec<String> {
    v.iter().map(|s| s.to_string()).collect()
}

fn day(s: &str) -> i32 {
    parse_date(s).unwrap()
}

#[test]
fn from_dataframe_parses_and_strips_ret() {
    // the table's datetime / instrument / score columns (scores by their order keys)
    let days = signal_table(
        &strings(&["2026-01-05", "2026-01-05", "2026-01-06"]),
        &strings(&["SH600001", "SH600002", "SH600001"]),
        &vec![Some(3), Some(2), Some(1)],
    )
    .unwrap();
    let d1 = &days.iter().find(|(d, _)| *d == day("2026-01-05")).unwrap().1;
    assert_eq!(d1.entries().iter().map(|e| e.0).collect::<Vec<u32>>(), vec![600001, 600002]);
    assert_eq!(d1.entries().iter().map(|e| e.1).collect::<Vec<i64>>(), vec![3, 2]);
    let d2 = &days.iter().find(|(d, _)| *d == day("2026-01-06")).unwrap().1;
    assert_eq!(d2.entries().iter().map(|e| e.0).collect::<Vec<u32>>(), vec![600001]);
    assert_eq!(days.len(), 2);
    // a single day's rows
    let one = SignalDay::from_rows(pairs(&[("SH600001", Some(1))])).unwrap();
    assert_eq!(one.len(), 1);
}

#[test]
fn from_dataframe_drops_invalid_and_errors_on_duplicate() {
    // an instrument that is not a stock code and a missing (NaN) score are dropped
    let days = signal_table(
        &strings(&["2026-01-05", "2026-01-05", "2026-01-05"]),
        &strings(&["SH600001", "BJ832000", "SH600002"]),
        &vec![Some(1), Some(2), None],
    )
    .unwrap();
    let d = &days.iter().find(|(d, _)| *d == day("2026-01-05")).unwrap().1;
    assert_eq!(d.entries().iter().map(|e| e.0).collect::<Vec<u32>>(), vec![600001]);
    // a repeated (datetime, instrument) pair is an error
    let err = signal_table(&strings(&["2026-01-05", "2026-01-05"]), &strings(&["SH600001", "SH600001"]), &vec![Some(1), Some(2)])
        .unwrap_err();
    assert!(err.message().contains("重复"), "{err:?}");
    // within one day's rows too, even for a text that is not a stock code
    let err = SignalDay::from_rows(pairs(&[("SH600001", Some(1)), ("SH600001", Some(2))])).unwrap_err();
    assert!(err.message().contains("重复"));
    assert!(SignalDay::from_rows(pairs(&[("BJ832000", Some(1)), ("BJ832000", Some(2))])).is_err());
}

#[test]
fn retain_codes_keeps_known_stocks() {
    let day = SignalDay::from_pairs(pairs(&[
        ("SH600001", Some(1)),
        ("SH600002", Some(2)),
        ("SH699999", Some(3)),
    ]))
    .unwrap();
    let known: HashSet<u32> = [600001, 600002].into_iter().collect();
    let (kept, dropped) = day.retain_codes(&known);
    assert_eq!(kept.entries().clone(), vec![(600001, 1), (600002, 2)]);
    assert_eq!(dropped, 1);
    let none: HashSet<u32> = HashSet::new();
    let (kept, dropped) = day.retain_codes(&none);
    assert!(kept.is_empty());
    assert_eq!(dropped, 3);
}
