use rust_bt::data::calendar::{parse_date, TradingCalendar};

fn cal() -> TradingCalendar {
    TradingCalendar::from_dates(vec![
        parse_date("2026-01-06").unwrap(),
        parse_date("2026-01-05").unwrap(),
        parse_date("2026-01-08").unwrap(),
        parse_date("2026-01-07").unwrap(),
        parse_date("2026-01-06").unwrap(),
    ])
}

#[test]
fn dedup_sort() {
    let c = cal();
    assert_eq!(c.len(), 4);
    assert_eq!(c.date(0), parse_date("2026-01-05").unwrap());
    assert_eq!(c.day_idx(parse_date("2026-01-08").unwrap()), Some(3));
}

#[test]
fn align_basic() {
    let c = cal();
    assert_eq!(c.align("2026-01-05", "2026-01-08").unwrap(), 0..3);
    assert_eq!(c.align("2026-01-04", "2026-01-09").unwrap(), 0..4);
    assert_eq!(c.align("2026-01-06", "2026-01-08").unwrap(), 1..3);
    assert!(c.align("2026-02-01", "2026-03-01").is_err());
    assert!(c.align("2026-01-08", "2026-01-05").is_err());
    assert!(c.align("2026-01-05", "2026-01-05").is_err());
    assert!(c.align("2026/01/05", "2026-01-08").is_err());
}

#[test]
fn date_numbers_follow_the_calendar() {
    // 1970-01-01 is day 719163 counted from 0001-01-01 = day 1
    assert_eq!(parse_date("1970-01-01").unwrap(), 719_163);
    assert_eq!(parse_date("2026-01-06").unwrap() - parse_date("2026-01-05").unwrap(), 1);
    assert!(parse_date("2026-02-30").is_err());
    assert!(parse_date("not a date").is_err());
    let c = cal();
    assert!(c.contains(parse_date("2026-01-07").unwrap()));
    assert!(!c.contains(parse_date("2026-01-09").unwrap()));
    assert_eq!(c.day_idx(parse_date("2026-01-09").unwrap()), None);
    assert!(!c.is_empty());
    assert!(TradingCalendar::from_dates(Vec::new()).is_empty());
}

#[test]
fn aligned_range_is_exactly_the_days_inside() {
    let c = cal();
    let start = parse_date("2026-01-06").unwrap();
    let end = parse_date("2026-01-07").unwrap();
    let r = c.align_days(start, end).unwrap();
    assert_eq!(r, 1..2);
    for i in 0..c.len() as u32 {
        let d = c.date(i);
        assert_eq!(r.contains(&i), start <= d && d < end);
    }
    let err = c.align_days(end, start).unwrap_err();
    assert!(matches!(err, rust_bt::error::BtError::Calendar(_)));
}
