use rust_bt::signal::SignalDay;
use rust_bt::strategy::common::{select_top, sort_codes};
use rust_bt::strategy::{TopkDropoutStrategy, TopkStrategy};
use rust_bt::types::{StockFlags, TradableFlags};

fn signal(v: &[(&str, i64)]) -> SignalDay {
    SignalDay::from_pairs(v.iter().map(|(s, k)| (s.to_string(), Some(*k))).collect()).unwrap()
}

fn flags(v: &[(u32, bool, bool, bool)]) -> TradableFlags {
    TradableFlags::new(
        v.iter().map(|x| x.0).collect(),
        v.iter()
            .map(|x| StockFlags { buyable: x.1, sellable: x.2, is_st: x.3 })
            .collect(),
    )
    .unwrap()
}

#[test]
fn tie_break_by_code() {
    // buy ranking: descending score, ties by smaller code; sell ranking ascending, ties by smaller code
    let buy = select_top(&vec![(300_750, 1), (600_000, 1), (6, 2)], 3, true);
    assert_eq!(buy, vec![(6, 2), (300_750, 1), (600_000, 1)]);
    let sell = select_top(&vec![(600_000, 1), (300_750, 1), (6, 0)], 3, false);
    assert_eq!(sell, vec![(6, 0), (300_750, 1), (600_000, 1)]);
}

#[test]
fn select_top_truncates_to_k() {
    let items = vec![(1, 5), (2, 9), (3, 7), (4, 9), (5, 1)];
    assert_eq!(select_top(&items, 2, true), vec![(2, 9), (4, 9)]);
    assert_eq!(select_top(&items, 0, true), vec![]);
    assert_eq!(select_top(&items, 2, false), vec![(5, 1), (1, 5)]);
    assert_eq!(sort_codes(&vec![600_001, 1, 300_750]), vec![1, 300_750, 600_001]);
}

#[test]
fn builders_keep_other_settings() {
    let s = TopkDropoutStrategy::new(10, 3).with_only_tradable(true).with_forbid_st(true);
    assert_eq!(s.top_n(), 10);
    assert_eq!(s.drop_n(), 3);
    assert!(s.only_tradable());
    assert!(s.forbid_st());
    let t = TopkStrategy::new(5).with_forbid_st(true);
    assert_eq!(t.top_n(), 5);
    assert!(t.forbid_st());
    assert!(!TopkStrategy::new(5).forbid_st());
}

#[test]
fn dropout_keeps_unscored_sells_worst_and_refills() {
    // held: A(600001), B(600002), C(000001 -> code 1); C has no score today
    let sig = signal(&[("SH600001", 3), ("SH600002", 1), ("SH600003", 5), ("SH600004", 4)]);
    let t = flags(&[
        (1, true, true, false),
        (600001, true, true, false),
        (600002, true, true, false),
        (600003, true, true, false),
        (600004, true, true, true),
    ]);
    let s = TopkDropoutStrategy::new(3, 1);
    let plan = s.plan(&sig, &vec![1, 600001, 600002], &t);
    // C is neither ranked nor sold; the worst scored holding goes
    assert_eq!(plan.sells, vec![(600002, 1)]);
    // kept 2 (A and C), so 1 buy: the best not-held buyable
    assert_eq!(plan.buys, vec![(600003, 5)]);
    // with room for two more, forbid_st keeps the ST stock out of purchases
    let plan = TopkDropoutStrategy::new(4, 1).plan(&sig, &vec![1, 600001, 600002], &t);
    assert_eq!(plan.buys, vec![(600003, 5), (600004, 4)]);
    let plan = TopkDropoutStrategy::new(4, 1).with_forbid_st(true).plan(&sig, &vec![1, 600001, 600002], &t);
    assert_eq!(plan.buys, vec![(600003, 5)]);
}

#[test]
fn dropout_initial_build_buys_top_n() {
    // empty portfolio: buy top_n at once, best first
    let sig = signal(&[("SH600001", 3), ("SH600002", 2), ("SZ000001", 1)]);
    let t = flags(&[(1, true, true, false), (600001, true, true, false), (600002, true, true, false)]);
    let plan = TopkDropoutStrategy::new(2, 1).plan(&sig, &vec![], &t);
    assert!(plan.sells.is_empty());
    assert_eq!(plan.buys, vec![(600001, 3), (600002, 2)]);
    // next signal A=1 B=2 C=3 with A and B held: sell A, buy C
    let sig = signal(&[("SH600001", 1), ("SH600002", 2), ("SZ000001", 3)]);
    let plan = TopkDropoutStrategy::new(2, 1).plan(&sig, &vec![600001, 600002], &t);
    assert_eq!(plan.sells, vec![(600001, 1)]);
    assert_eq!(plan.buys, vec![(1, 3)]);
}

#[test]
fn dropout_only_tradable_keeps_unsellable_holdings() {
    let sig = signal(&[("SH600001", 3), ("SH600002", 1), ("SH600003", 5)]);
    let t = flags(&[(600001, true, true, false), (600002, true, false, false), (600003, true, true, false)]);
    let s = TopkDropoutStrategy::new(2, 1).with_only_tradable(true);
    let plan = s.plan(&sig, &vec![600001, 600002], &t);
    // 600002 is worst but not sellable today: the worst sellable one goes instead
    assert_eq!(plan.sells, vec![(600001, 3)]);
    assert_eq!(plan.buys, vec![(600003, 5)]);
    // an over-full portfolio buys nothing
    let plan = TopkDropoutStrategy::new(1, 0).plan(&sig, &vec![600001, 600002], &t);
    assert!(plan.sells.is_empty());
    assert!(plan.buys.is_empty());
}

#[test]
fn topk_keeps_holdings_inside_top_n() {
    let sig = signal(&[("SH600001", 3), ("SH600002", 1), ("SH600003", 5), ("SH600004", 2)]);
    // 600001 held but suspended today: still ranked, kept
    let t = flags(&[
        (600001, false, false, false),
        (600002, true, true, false),
        (600003, true, true, false),
        (600004, false, true, false),
    ]);
    let plan = TopkStrategy::new(2).plan(&sig, &vec![600001, 600002, 7], &t);
    assert_eq!(plan.target, vec![(600003, 5), (600001, 3)]);
    assert_eq!(plan.sells, vec![7, 600002]);
    assert_eq!(plan.buys, vec![(600003, 5)]);
}

#[test]
fn tradable_flags_lookup() {
    let t = flags(&[(1, true, false, false), (5, false, true, true)]);
    assert_eq!(t.get(5), Some(StockFlags { buyable: false, sellable: true, is_st: true }));
    assert_eq!(t.get(3), None);
    assert!(TradableFlags::new(vec![5, 1], vec![StockFlags { buyable: true, sellable: true, is_st: false }; 2]).is_none());
    assert!(TradableFlags::new(vec![1], vec![]).is_none());
}
