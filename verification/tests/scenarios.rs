//! Day-by-day strategy scenarios on three stocks A (SH600001), B (SH600002) and
//! C (SZ000001, code 1), checked on the plans the strategies make.

use std::collections::HashSet;

use rust_bt::backtest::{prepare_signals, signal_for_day};
use rust_bt::data::calendar::{parse_date, TradingCalendar};
use rust_bt::signal::SignalDay;
use rust_bt::strategy::{TopkDropoutStrategy, TopkStrategy};
use rust_bt::types::{StockFlags, TradableFlags};

const A: u32 = 600_001;
const B: u32 = 600_002;
const C: u32 = 1;

fn signal(v: &[(&str, i64)]) -> SignalDay {
    SignalDay::from_pairs(v.iter().map(|(s, k)| (s.to_string(), Some(*k))).collect()).unwrap()
}

/// All three stocks tradable, except those listed as suspended.
fn market(suspended: &[u32]) -> TradableFlags {
    let codes = vec![C, A, B];
    let flags = codes
        .iter()
        .map(|c| {
            let open = !suspended.contains(c);
            StockFlags { buyable: open, sellable: open, is_st: false }
        })
        .collect();
    TradableFlags::new(codes, flags).unwrap()
}

#[test]
fn topk_plan_rebalance_keeps_overlap() {
    // first signal A=3 B=2 C=1 on an empty portfolio: buy A and B
    let first = TopkStrategy::new(2).plan(&signal(&[("SH600001", 3), ("SH600002", 2), ("SZ000001", 1)]), &vec![], &market(&[]));
    assert_eq!(first.target, vec![(A, 3), (B, 2)]);
    assert!(first.sells.is_empty());
    assert_eq!(first.buys, vec![(A, 3), (B, 2)]);
    // then A=1 B=2 C=3 holding A and B: target {C, B}; only A is sold and C bought, B stays
    let plan = TopkStrategy::new(2).plan(&signal(&[("SH600001", 1), ("SH600002", 2), ("SZ000001", 3)]), &vec![A, B], &market(&[]));
    assert_eq!(plan.target, vec![(C, 3), (B, 2)]);
    assert_eq!(plan.sells, vec![A]);
    assert_eq!(plan.buys, vec![(C, 3)]);
}

#[test]
fn topk_plan_differs_from_full_dropout() {
    // same day: Top-K keeps B, Top-K-dropout(2, 2) sells both holdings and can only buy C
    let sig = signal(&[("SH600001", 1), ("SH600002", 2), ("SZ000001", 3)]);
    let topk = TopkStrategy::new(2).plan(&sig, &vec![A, B], &market(&[]));
    assert_eq!(topk.sells, vec![A]);
    let dropout = TopkDropoutStrategy::new(2, 2).plan(&sig, &vec![A, B], &market(&[]));
    assert_eq!(dropout.sells, vec![(A, 1), (B, 2)]);
    assert_eq!(dropout.buys, vec![(C, 3)]);
}

#[test]
fn topk_plan_sells_unscored_holding() {
    // A has no score today: it is outside the target and sold; B stays, C is bought
    let plan = TopkStrategy::new(2).plan(&signal(&[("SH600002", 2), ("SZ000001", 3)]), &vec![A, B], &market(&[]));
    assert_eq!(plan.target, vec![(C, 3), (B, 2)]);
    assert_eq!(plan.sells, vec![A]);
    assert_eq!(plan.buys, vec![(C, 3)]);
}

#[test]
fn topk_plan_ignores_untradable_candidate() {
    // C scores best but is suspended and not held: it takes no place, nothing trades
    let sig = signal(&[("SZ000001", 3), ("SH600001", 2), ("SH600002", 1)]);
    let plan = TopkStrategy::new(2).plan(&sig, &vec![A, B], &market(&[C]));
    assert_eq!(plan.target, vec![(A, 2), (B, 1)]);
    assert!(plan.sells.is_empty());
    assert!(plan.buys.is_empty());
    // C trades again the next day: sell A, buy C
    let sig = signal(&[("SZ000001", 3), ("SH600002", 2), ("SH600001", 1)]);
    let plan = TopkStrategy::new(2).plan(&sig, &vec![A, B], &market(&[]));
    assert_eq!(plan.sells, vec![A]);
    assert_eq!(plan.buys, vec![(C, 3)]);
}

#[test]
fn topk_plan_keeps_suspended_holding_in_top_n() {
    // A is held and suspended but scored inside the top 2: it is kept, nothing trades
    let sig = signal(&[("SH600001", 3), ("SH600002", 2), ("SZ000001", 1)]);
    let plan = TopkStrategy::new(2).plan(&sig, &vec![A, B], &market(&[A]));
    assert_eq!(plan.target, vec![(A, 3), (B, 2)]);
    assert!(plan.sells.is_empty());
    assert!(plan.buys.is_empty());
    // after it resumes and falls out of the top 2 it is sold
    let sig = signal(&[("SZ000001", 3), ("SH600002", 2), ("SH600001", 1)]);
    let plan = TopkStrategy::new(2).plan(&sig, &vec![A, B], &market(&[]));
    assert_eq!(plan.sells, vec![A]);
    assert_eq!(plan.buys, vec![(C, 3)]);
}

#[test]
fn day_emptied_by_filtering_makes_no_decision() {
    // the day-2 signal names only a stock without market data: day 3 makes no decision
    let d: Vec<i32> = ["2026-01-05", "2026-01-06", "2026-01-07", "2026-01-08", "2026-01-09"]
        .iter()
        .map(|s| parse_date(s).unwrap())
        .collect();
    let cal = TradingCalendar::from_dates(d.clone());
    let known: HashSet<u32> = [A, B, C].into_iter().collect();
    let days = vec![
        (d[0], signal(&[("SH600001", 3), ("SH600002", 2), ("SZ000001", 1)])),
        (d[2], signal(&[("SH699999", 3)])),
    ];
    let by_day = prepare_signals(&cal, &days, &known);
    assert!(signal_for_day(&by_day, 0).is_none());
    assert_eq!(signal_for_day(&by_day, 1).unwrap().len(), 3);
    assert!(signal_for_day(&by_day, 2).is_none());
    assert!(signal_for_day(&by_day, 3).is_none());
    assert!(signal_for_day(&by_day, 4).is_none());
}
