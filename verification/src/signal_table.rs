//! A whole signal table, (datetime, instrument, score) rows in file order, split
//! into one `SignalDay` per date, ascending.
//!
//! Every date must parse (`Calendar` error at the first one that does not), and
//! no (datetime, instrument) pair may occur twice: the first row, in file order,
//! that repeats an earlier one is a `Validation` error naming it. The rows of a
//! date then become its `SignalDay` (instruments that are not stock codes and
//! rows without a score are dropped); a date left without entries is omitted.
use vstd::prelude::*;
use vstd::string::*;
use std::collections::HashMap;
use crate::data::calendar::{chrono_date_text, chrono_ymd_days, date_text, parse_date, DateNum};
use crate::data::row_order::{all_dates_parse, is_permutation, key_lt, sort_rows, strictly_sorted_rows, RowKey};
use crate::data::text_keys::{first_repeat, first_repeated_text_row, repeated_text_row, same_row_text, text_ids};
use crate::error::BtError;
use crate::signal::{names_unique, pairs_view, parsed_pairs, scored, SignalDay};
use crate::strategy::common::ScoreKey;

verus! {

broadcast use vstd::std_specs::hash::group_hash_axioms;

/// The message of a repeated (datetime, instrument) pair in a signal table.
pub open spec fn signal_duplicate_message(date: Seq<char>, instrument: Seq<char>) -> Seq<char> {
    "pred 存在重复键 (datetime="@ + date + ", instrument="@ + instrument + ")"@
}

/// The (instrument, score) rows among the first `n` whose date is `d`, in file order.
pub open spec fn rows_on(
    raw_dates: Seq<String>,
    raw_instruments: Seq<String>,
    scores: Seq<Option<ScoreKey>>,
    d: DateNum,
    n: int,
) -> Seq<(Seq<char>, Option<ScoreKey>)>
    decreases n,
{
    if n <= 0 {
        Seq::empty()
    } else {
        let rest = rows_on(raw_dates, raw_instruments, scores, d, n - 1);
        if chrono_ymd_days(raw_dates[n - 1]@) == Some(d) {
            rest.push((raw_instruments[n - 1]@, scores[n - 1]))
        } else {
            rest
        }
    }
}

/// Some row before `n` has date `d` and instrument text `text`.
pub open spec fn dated_text_before(raw_dates: Seq<String>, raw_instruments: Seq<String>, d: DateNum, n: int, text: Seq<char>) -> bool {
    exists|a: int| 0 <= a < n && chrono_ymd_days(raw_dates[a]@) == Some(d) && #[trigger] raw_instruments[a]@ == text
}

/// Every row of `rows_on(.., d, n)` is a row before `n` with date `d`.
proof fn lemma_rows_on_origin(
    raw_dates: Seq<String>,
    raw_instruments: Seq<String>,
    scores: Seq<Option<ScoreKey>>,
    d: DateNum,
    n: int,
)
    requires
        0 <= n <= raw_dates.len(),
        raw_dates.len() == raw_instruments.len(),
    ensures
        forall|t: int|
            0 <= t < rows_on(raw_dates, raw_instruments, scores, d, n).len() ==> dated_text_before(
                raw_dates,
                raw_instruments,
                d,
                n,
                (#[trigger] rows_on(raw_dates, raw_instruments, scores, d, n)[t]).0,
            ),
    decreases n,
{
    if n > 0 {
        lemma_rows_on_origin(raw_dates, raw_instruments, scores, d, n - 1);
        let rest = rows_on(raw_dates, raw_instruments, scores, d, n - 1);
        let cur = rows_on(raw_dates, raw_instruments, scores, d, n);
        assert forall|t: int| 0 <= t < cur.len() implies dated_text_before(
            raw_dates,
            raw_instruments,
            d,
            n,
            (#[trigger] cur[t]).0,
        ) by {
            if t < rest.len() {
                assert(cur[t] == rest[t]);
                assert(dated_text_before(raw_dates, raw_instruments, d, n - 1, rest[t].0));
                let a = choose|a: int|
                    0 <= a < n - 1 && chrono_ymd_days(raw_dates[a]@) == Some(d) && #[trigger] raw_instruments[a]@
                        == rest[t].0;
                assert(raw_instruments[a]@ == cur[t].0);
            } else {
                assert(chrono_ymd_days(raw_dates[n - 1]@) == Some(d));
                assert(cur[t].0 == raw_instruments[n - 1]@);
            }
        }
    }
}

/// Without a repeated (date, text) pair, the rows of one date have distinct texts.
proof fn lemma_rows_on_unique(
    raw_dates: Seq<String>,
    raw_instruments: Seq<String>,
    scores: Seq<Option<ScoreKey>>,
    d: DateNum,
    n: int,
)
    requires
        0 <= n <= raw_dates.len(),
        raw_dates.len() == raw_instruments.len(),
        forall|a: int, b: int| 0 <= a < b < n ==> !#[trigger] same_row_text(raw_dates, raw_instruments, a, b),
    ensures
        names_unique(rows_on(raw_dates, raw_instruments, scores, d, n)),
    decreases n,
{
    if n > 0 {
        lemma_rows_on_unique(raw_dates, raw_instruments, scores, d, n - 1);
        lemma_rows_on_origin(raw_dates, raw_instruments, scores, d, n - 1);
        let rest = rows_on(raw_dates, raw_instruments, scores, d, n - 1);
        let cur = rows_on(raw_dates, raw_instruments, scores, d, n);
        assert forall|x: int, y: int| 0 <= x < y < cur.len() implies cur[x].0 != cur[y].0 by {
            if y < rest.len() {
                assert(cur[x] == rest[x] && cur[y] == rest[y]);
            } else {
                assert(cur[x] == rest[x]);
                if cur[x].0 == cur[y].0 {
                    assert(dated_text_before(raw_dates, raw_instruments, d, n - 1, rest[x].0));
                    let a = choose|a: int|
                        0 <= a < n - 1 && chrono_ymd_days(raw_dates[a]@) == Some(d) && #[trigger] raw_instruments[a]@
                            == rest[x].0;
                    assert(chrono_ymd_days(raw_dates[n - 1]@) == Some(d));
                    assert(cur[y].0 == raw_instruments[n - 1]@);
                    assert(same_row_text(raw_dates, raw_instruments, a, n - 1));
                }
            }
        }
    }
}

/// `days` are the signal days of the table: dates ascending, each day the
/// `SignalDay` of its rows and not empty, and every date whose rows leave an
/// entry present.
pub open spec fn table_days(
    raw_dates: Seq<String>,
    raw_instruments: Seq<String>,
    scores: Seq<Option<ScoreKey>>,
    days: Seq<(DateNum, SignalDay)>,
) -> bool {
    let n = raw_dates.len() as int;
    &&& forall|a: int, b: int| 0 <= a < b < days.len() ==> (#[trigger] days[a]).0 < (#[trigger] days[b]).0
    &&& forall|k: int|
        0 <= k < days.len() ==> (#[trigger] days[k]).1@ == scored(
            parsed_pairs(rows_on(raw_dates, raw_instruments, scores, days[k].0, n)),
        ) && days[k].1@.len() > 0
    &&& forall|i: int|
        0 <= i < n && scored(
            parsed_pairs(rows_on(raw_dates, raw_instruments, scores, chrono_ymd_days(raw_dates[i]@).unwrap(), n)),
        ).len() > 0 ==> exists|k: int|
            0 <= k < days.len() && (#[trigger] days[k]).0 == chrono_ymd_days(raw_dates[i]@).unwrap()
}

/// The signal days of a table: the dates in ascending order, each with the
/// `SignalDay` of its rows; dates whose rows leave no entry are omitted.
#[verifier::rlimit(60)]
#[verifier::spinoff_prover]
pub fn signal_table(
    raw_dates: &Vec<String>,
    raw_instruments: &Vec<String>,
    scores: &Vec<Option<ScoreKey>>,
) -> (r: Result<Vec<(DateNum, SignalDay)>, BtError>)
    requires
        raw_dates@.len() == raw_instruments@.len() == scores@.len(),
        raw_dates@.len() < u32::MAX,
    ensures
        r is Ok <==> (all_dates_parse(raw_dates@) && !repeated_text_row(raw_dates@, raw_instruments@)),
        r matches Err(e) ==> if all_dates_parse(raw_dates@) {
            exists|p: int| {
                &&& #[trigger] first_repeated_text_row(raw_dates@, raw_instruments@, p)
                &&& e matches BtError::Validation(m) && m@ == signal_duplicate_message(
                    chrono_date_text(chrono_ymd_days(raw_dates@[p]@).unwrap()).unwrap(),
                    raw_instruments@[p]@,
                )
            }
        } else {
            e is Calendar
        },
        r matches Ok(days) ==> table_days(raw_dates@, raw_instruments@, scores@, days@),
{
    let n = raw_dates.len();
    // ---- dates ----
    let mut dates: Vec<DateNum> = Vec::new();
    let mut i: usize = 0;
    while i < n
        invariant
            n == raw_dates@.len(),
            i <= n,
            dates@.len() == i,
            forall|k: int| 0 <= k < i ==> chrono_ymd_days(raw_dates@[k]@) == Some(#[trigger] dates@[k]),
            forall|k: int| 0 <= k < i ==> chrono_date_text(#[trigger] dates@[k]) is Some,
        decreases n - i,
    {
        match parse_date(raw_dates[i].as_str()) {
            Ok(d) => dates.push(d),
            Err(e) => {
                proof {
                    assert(!(chrono_ymd_days(raw_dates@[i as int]@) is Some));
                }
                return Err(e);
            },
        }
        i += 1;
    }
    proof {
        assert forall|k: int| 0 <= k < raw_dates@.len() implies (#[trigger] chrono_ymd_days(
            raw_dates@[k]@,
        )) is Some by {
            assert(chrono_ymd_days(raw_dates@[k]@) == Some(dates@[k]));
        }
    }
    // ---- repeated (datetime, instrument), first in file order ----
    let ids = text_ids(raw_instruments);
    proof {
        assert forall|a: int, b: int| 0 <= a < n && 0 <= b < n implies (same_row_text(
            raw_dates@,
            raw_instruments@,
            a,
            b,
        ) <==> (#[trigger] dates@[a] == #[trigger] dates@[b] && ids@[a] == ids@[b])) by {
            assert(chrono_ymd_days(raw_dates@[a]@) == Some(dates@[a]));
            assert(chrono_ymd_days(raw_dates@[b]@) == Some(dates@[b]));
            assert(ids@[a] == ids@[b] <==> raw_instruments@[a]@ == raw_instruments@[b]@);
        }
    }
    match first_repeat(&dates, &ids) {
        None => {},
        Some(p) => {
            let mut m = String::from_str("pred 存在重复键 (datetime=");
            let dt = date_text(dates[p]);
            m.append(dt.as_str());
            m.append(", instrument=");
            m.append(raw_instruments[p].as_str());
            m.append(")");
            proof {
                let q = choose|q: int| 0 <= q < p && dates@[q] == dates@[p as int] && ids@[q] == ids@[p as int];
                assert(same_row_text(raw_dates@, raw_instruments@, q, p as int));
                assert forall|a: int, b: int| 0 <= a < b < p implies !#[trigger] same_row_text(
                    raw_dates@,
                    raw_instruments@,
                    a,
                    b,
                ) by {
                    assert(!(dates@[a] == dates@[b] && ids@[a] == ids@[b]));
                }
                assert(first_repeated_text_row(raw_dates@, raw_instruments@, p as int));
                assert(chrono_ymd_days(raw_dates@[p as int]@) == Some(dates@[p as int]));
            }
            return Err(BtError::Validation(m));
        },
    }
    proof {
        if repeated_text_row(raw_dates@, raw_instruments@) {
            let (a, b) = choose|a: int, b: int|
                0 <= a < b < raw_dates@.len() && #[trigger] same_row_text(raw_dates@, raw_instruments@, a, b);
            assert(dates@[a] == dates@[b] && ids@[a] == ids@[b]);
        }
    }
    // ---- rows grouped by date, groups in order of first appearance ----
    let ghost rd = raw_dates@;
    let ghost ri = raw_instruments@;
    let ghost sc = scores@;
    let mut group_of: HashMap<DateNum, usize> = HashMap::new();
    let mut group_dates: Vec<DateNum> = Vec::new();
    let mut groups: Vec<Vec<(String, Option<ScoreKey>)>> = Vec::new();
    let mut i: usize = 0;
    while i < n
        invariant
            n == rd.len() == ri.len() == sc.len() == dates@.len(),
            rd == raw_dates@,
            ri == raw_instruments@,
            sc == scores@,
            i <= n,
            forall|k: int| 0 <= k < n ==> chrono_ymd_days(rd[k]@) == Some(#[trigger] dates@[k]),
            group_dates@.len() == groups@.len() <= i,
            forall|d: DateNum| #[trigger] group_of@.contains_key(d) <==> exists|j: int| 0 <= j < i && dates@[j] == d,
            forall|d: DateNum| #[trigger] group_of@.contains_key(d) ==> group_of@[d] < groups@.len()
                && group_dates@[group_of@[d] as int] == d,
            forall|g: int| 0 <= g < groups@.len() ==> #[trigger] group_of@.contains_key(group_dates@[g])
                && group_of@[group_dates@[g]] == g,
            forall|g: int|
                0 <= g < groups@.len() ==> pairs_view((#[trigger] groups@[g])@) == rows_on(rd, ri, sc, group_dates@[g], i as int),
        decreases n - i,
    {
        let d = dates[i];
        let row = (raw_instruments[i].clone(), scores[i]);
        let ghost old_groups = groups@;
        let ghost old_dates = group_dates@;
        match group_of.get(&d) {
            Some(gr) => {
                let g = *gr;
                let mut rows: Vec<(String, Option<ScoreKey>)> = Vec::new();
                std::mem::swap(&mut rows, &mut groups[g]);
                rows.push(row);
                groups.set(g, rows);
                proof {
                    assert forall|h: int| 0 <= h < groups@.len() implies pairs_view((#[trigger] groups@[h])@) == rows_on(
                        rd,
                        ri,
                        sc,
                        group_dates@[h],
                        i + 1,
                    ) by {
                        if h == g {
                            assert(pairs_view(groups@[h]@) =~= pairs_view(old_groups[h]@).push((ri[i as int]@, sc[i as int])));
                        } else {
                            assert(groups@[h] == old_groups[h]);
                            assert(group_dates@[h] != d);
                        }
                    }
                }
            },
            None => {
                let g = groups.len();
                let mut rows: Vec<(String, Option<ScoreKey>)> = Vec::new();
                rows.push(row);
                groups.push(rows);
                group_dates.push(d);
                group_of.insert(d, g);
                proof {
                    assert forall|h: int| 0 <= h < groups@.len() implies pairs_view((#[trigger] groups@[h])@) == rows_on(
                        rd,
                        ri,
                        sc,
                        group_dates@[h],
                        i + 1,
                    ) by {
                        if h == g {
                            assert(rows_on(rd, ri, sc, d, i as int) =~= Seq::empty()) by {
                                lemma_rows_on_origin(rd, ri, sc, d, i as int);
                                if rows_on(rd, ri, sc, d, i as int).len() > 0 {
                                    let t0 = rows_on(rd, ri, sc, d, i as int)[0];
                                    assert(dated_text_before(rd, ri, d, i as int, t0.0));
                                    let a = choose|a: int|
                                        0 <= a < i && chrono_ymd_days(rd[a]@) == Some(d) && #[trigger] ri[a]@ == t0.0;
                                    assert(dates@[a] == d);
                                    assert(group_of@.contains_key(d));
                                }
                            }
                            assert(pairs_view(groups@[h]@) =~= seq![(ri[i as int]@, sc[i as int])]);
                        } else {
                            assert(groups@[h] == old_groups[h]);
                            assert(group_dates@[h] == old_dates[h]);
                            assert(group_dates@[h] != d);
                        }
                    }
                    assert forall|dd: DateNum| #[trigger] group_of@.contains_key(dd) implies exists|j: int|
                        0 <= j < i + 1 && dates@[j] == dd by {
                        if dd == d {
                            assert(dates@[i as int] == d);
                        }
                    }
                }
            },
        }
        proof {
            assert forall|d2: DateNum| (exists|j: int| 0 <= j < i + 1 && dates@[j] == d2) implies #[trigger] group_of@.contains_key(
                d2,
            ) by {
                let j = choose|j: int| 0 <= j < i + 1 && dates@[j] == d2;
                if j < i {
                    assert(exists|j2: int| 0 <= j2 < i && dates@[j2] == d2);
                }
            }
        }
        i += 1;
    }
    // ---- groups in ascending date order ----
    let ng = groups.len();
    let mut keys: Vec<RowKey> = Vec::new();
    let mut g: usize = 0;
    while g < ng
        invariant
            ng == groups@.len() == group_dates@.len(),
            ng <= n < u32::MAX,
            g <= ng,
            keys@.len() == g,
            forall|x: int| 0 <= x < g ==> #[trigger] keys@[x] == (group_dates@[x], x as u32),
        decreases ng - g,
    {
        keys.push((group_dates[g], g as u32));
        g += 1;
    }
    let order = match sort_rows(&keys) {
        Ok(o) => o,
        Err(p) => {
            proof {
                let q = choose|q: int| 0 <= q < keys@.len() && q != p && keys@[q] == keys@[p as int];
                assert(keys@[q] == (group_dates@[q], q as u32));
                assert(keys@[p as int] == (group_dates@[p as int], p as u32));
                assert(q == p as int);
            }
            return Ok(Vec::new());
        },
    };
    proof {
        assert forall|a: int, b: int| 0 <= a < ng && 0 <= b < ng && a != b implies #[trigger] group_dates@[a]
            != #[trigger] group_dates@[b] by {
            assert(group_of@.contains_key(group_dates@[a]));
            assert(group_of@.contains_key(group_dates@[b]));
            assert(group_of@[group_dates@[a]] == a);
            assert(group_of@[group_dates@[b]] == b);
        }
        assert(forall|a: int, b: int| 0 <= a < b < n ==> !#[trigger] same_row_text(rd, ri, a, b));
    }
    proof {
        assert forall|y: int| 0 <= y < ng implies pairs_view(groups@[#[trigger] order@[y] as int]@) == rows_on(
            rd,
            ri,
            sc,
            group_dates@[order@[y] as int],
            n as int,
        ) by {
            assert(order@.contains(order@[y]));
        }
    }
    let ghost covered = forall|i: int|
        #![trigger rd[i]]
        0 <= i < n ==> exists|y: int|
            0 <= y < ng && #[trigger] group_dates@[order@[y] as int] == chrono_ymd_days(rd[i]@).unwrap();
    proof {
        assert forall|i: int| #![trigger rd[i]] 0 <= i < n implies exists|y: int|
            0 <= y < ng && #[trigger] group_dates@[order@[y] as int] == chrono_ymd_days(rd[i]@).unwrap() by {
            let di = dates@[i];
            assert(chrono_ymd_days(rd[i]@) == Some(di));
            assert(group_of@.contains_key(di));
            let gi = group_of@[di];
            assert(order@.contains(gi as usize));
            let y = choose|y: int| 0 <= y < order@.len() && order@[y] == gi;
            assert(group_dates@[order@[y] as int] == di);
        }
    }
    let mut days: Vec<(DateNum, SignalDay)> = Vec::new();
    let mut k: usize = 0;
    while k < ng
        invariant
            ng == groups@.len() == group_dates@.len() == keys@.len() == order@.len(),
            n == rd.len() == ri.len() == sc.len() == dates@.len(),
            rd == raw_dates@,
            ri == raw_instruments@,
            sc == scores@,
            is_permutation(order@, ng as nat),
            strictly_sorted_rows(keys@, order@),
            forall|x: int| 0 <= x < ng ==> #[trigger] keys@[x] == (group_dates@[x], x as u32),
            forall|a: int, b: int| 0 <= a < ng && 0 <= b < ng && a != b ==> #[trigger] group_dates@[a]
                != #[trigger] group_dates@[b],
            forall|y: int|
                k <= y < ng ==> pairs_view(groups@[#[trigger] order@[y] as int]@) == rows_on(
                    rd,
                    ri,
                    sc,
                    group_dates@[order@[y] as int],
                    n as int,
                ),
            forall|a: int, b: int| 0 <= a < b < n ==> !#[trigger] same_row_text(rd, ri, a, b),
            k <= ng,
            forall|a: int, b: int| 0 <= a < b < days@.len() ==> (#[trigger] days@[a]).0 < (#[trigger] days@[b]).0,
            forall|x: int|
                0 <= x < days@.len() ==> exists|y: int|
                    0 <= y < k && (#[trigger] days@[x]).0 == group_dates@[order@[y] as int],
            forall|x: int|
                0 <= x < days@.len() ==> (#[trigger] days@[x]).1@ == scored(
                    parsed_pairs(rows_on(rd, ri, sc, days@[x].0, n as int)),
                ) && days@[x].1@.len() > 0,
            forall|y: int|
                0 <= y < k && scored(
                    parsed_pairs(rows_on(rd, ri, sc, group_dates@[#[trigger] order@[y] as int], n as int)),
                ).len() > 0 ==> exists|x: int| 0 <= x < days@.len() && (#[trigger] days@[x]).0 == group_dates@[order@[y] as int],
        decreases ng - k,
    {
        let g = order[k];
        assert(order@.contains(g));
        let d = group_dates[g];
        let ghost old_groups = groups@;
        let mut rows: Vec<(String, Option<ScoreKey>)> = Vec::new();
        std::mem::swap(&mut rows, &mut groups[g]);
        proof {
            lemma_rows_on_unique(rd, ri, sc, d, n as int);
            assert(pairs_view(rows@) == rows_on(rd, ri, sc, d, n as int));
            assert forall|y: int| k + 1 <= y < ng implies pairs_view(groups@[#[trigger] order@[y] as int]@) == rows_on(
                rd,
                ri,
                sc,
                group_dates@[order@[y] as int],
                n as int,
            ) by {
                assert(order@.contains(order@[y]));
                assert(order@[y] != order@[k as int]);
                assert(groups@.len() == old_groups.len());
                assert(groups@[order@[y] as int] == old_groups[order@[y] as int]);
            }
        }
        let ghost old_days = days@;
        match SignalDay::from_rows(rows) {
            Ok(day) => {
                if !day.is_empty() {
                    proof {
                        assert forall|x: int| 0 <= x < old_days.len() implies old_days[x].0 < d by {
                            let y = choose|y: int| 0 <= y < k && (#[trigger] old_days[x]).0 == group_dates@[order@[y] as int];
                            let gy = order@[y] as int;
                            let gk = order@[k as int] as int;
                            assert(key_lt(keys@[gy], keys@[gk]));
                            assert(order@[y] != order@[k as int]);
                            assert(0 <= gy < ng && 0 <= gk < ng) by {
                                assert(order@.contains(order@[y]));
                                assert(order@.contains(order@[k as int]));
                            }
                            assert(keys@[gy] == (group_dates@[gy], gy as u32));
                            assert(keys@[gk] == (group_dates@[gk], gk as u32));
                            assert(group_dates@[gy] != group_dates@[gk]);
                        }
                    }
                    days.push((d, day));
                }
            },
            Err(e) => {
                return Err(e);
            },
        }
        proof {
            assert forall|x: int| 0 <= x < days@.len() implies exists|y: int|
                0 <= y < k + 1 && (#[trigger] days@[x]).0 == group_dates@[order@[y] as int] by {
                if x < old_days.len() {
                    assert(days@[x] == old_days[x]);
                    let y = choose|y: int| 0 <= y < k && (#[trigger] old_days[x]).0 == group_dates@[order@[y] as int];
                } else {
                    assert(days@[x].0 == group_dates@[order@[k as int] as int]);
                }
            }
            assert forall|y: int|
                0 <= y < k + 1 && scored(
                    parsed_pairs(rows_on(rd, ri, sc, group_dates@[#[trigger] order@[y] as int], n as int)),
                ).len() > 0 implies exists|x: int| 0 <= x < days@.len() && (#[trigger] days@[x]).0 == group_dates@[order@[y] as int] by {
                if y < k {
                    let x = choose|x: int| 0 <= x < old_days.len() && (#[trigger] old_days[x]).0 == group_dates@[order@[y] as int];
                    assert(days@[x] == old_days[x]);
                } else {
                    assert(days@[old_days.len() as int].0 == d);
                }
            }
        }
        k += 1;
    }
    proof {
        let nn = n as int;
        assert forall|i: int|
            0 <= i < nn && scored(
                parsed_pairs(rows_on(raw_dates@, raw_instruments@, scores@, chrono_ymd_days(raw_dates@[i]@).unwrap(), nn)),
            ).len() > 0 implies exists|x: int|
                0 <= x < days@.len() && (#[trigger] days@[x]).0 == chrono_ymd_days(raw_dates@[i]@).unwrap() by {
            assert(covered);
            assert(rd[i] == raw_dates@[i]);
            let y = choose|y: int|
                0 <= y < ng && #[trigger] group_dates@[order@[y] as int] == chrono_ymd_days(rd[i]@).unwrap();
        }
        assert(forall|a: int, b: int| 0 <= a < b < days@.len() ==> (#[trigger] days@[a]).0 < (#[trigger] days@[b]).0);
        assert(forall|q: int|
            0 <= q < days@.len() ==> (#[trigger] days@[q]).1@ == scored(
                parsed_pairs(rows_on(raw_dates@, raw_instruments@, scores@, days@[q].0, nn)),
            ) && days@[q].1@.len() > 0);
        assert(table_days(raw_dates@, raw_instruments@, scores@, days@));
    }
    Ok(days)
}

} // verus!
