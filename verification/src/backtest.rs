//! Start-up checks of a backtest run on the signal, and the signal each trading
//! day acts on.
//!
//! A signal dated on day T is acted on at the next trading day T+1. Signal dates
//! that are not trading days are dropped, entries whose stock has no market data
//! are dropped, and a day left without entries counts as a day without signal
//! (the positions are then held unchanged, not sold off).
use vstd::prelude::*;
use std::collections::HashSet;
use crate::data::calendar::{ascending_dates, DateNum, TradingCalendar};
use crate::signal::{retained, SignalDay};
use crate::types::{Code, DayIdx};

verus! {

broadcast use vstd::std_specs::hash::group_hash_axioms;

/// No date occurs twice.
pub open spec fn distinct_dates(days: Seq<(DateNum, SignalDay)>) -> bool {
    forall|i: int, j: int| 0 <= i < j < days.len() ==> days[i].0 != days[j].0
}

/// The signal of each trading day after the start-up checks.
///
/// Entry `d` is `Some` exactly when the input has a signal dated on trading day
/// `d` that keeps at least one entry with market data; it holds those entries.
pub fn prepare_signals(
    calendar: &TradingCalendar,
    days: &Vec<(DateNum, SignalDay)>,
    known: &HashSet<Code>,
) -> (r: Vec<Option<SignalDay>>)
    requires
        distinct_dates(days@),
    ensures
        r@.len() == calendar@.len(),
        forall|d: int|
            0 <= d < calendar@.len() ==> match #[trigger] r@[d] {
                Some(s) => exists|i: int|
                    0 <= i < days@.len() && days@[i].0 == calendar@[d] && s@ == retained(
                        days@[i].1@,
                        known@,
                    ) && s@.len() > 0,
                None => forall|i: int|
                    0 <= i < days@.len() && days@[i].0 == calendar@[d] ==> retained(
                        #[trigger] days@[i].1@,
                        known@,
                    ).len() == 0,
            },
{
    let m = calendar.dates().len();
    let mut r: Vec<Option<SignalDay>> = Vec::new();
    let mut t: usize = 0;
    while t < m
        invariant
            t <= m,
            r@.len() == t,
            forall|d: int| 0 <= d < t ==> #[trigger] r@[d] is None,
        decreases m - t,
    {
        r.push(None);
        t += 1;
    }
    let mut i: usize = 0;
    while i < days.len()
        invariant
            m == calendar@.len(),
            ascending_dates(calendar@),
            r@.len() == m,
            i <= days@.len(),
            distinct_dates(days@),
            forall|d: int|
                0 <= d < m ==> match #[trigger] r@[d] {
                    Some(s) => exists|k: int|
                        0 <= k < i && days@[k].0 == calendar@[d] && s@ == retained(days@[k].1@, known@)
                            && s@.len() > 0,
                    None => forall|k: int|
                        0 <= k < i && days@[k].0 == calendar@[d] ==> retained(
                            #[trigger] days@[k].1@,
                            known@,
                        ).len() == 0,
                },
        decreases days.len() - i,
    {
        let date = days[i].0;
        match calendar.day_idx(date) {
            Some(d) => {
                let (kept, _dropped) = days[i].1.retain_codes(known);
                if !kept.is_empty() {
                    let ghost old_r = r@;
                    r.set(d as usize, Some(kept));
                    proof {
                        assert forall|dd: int| 0 <= dd < m implies match #[trigger] r@[dd] {
                            Some(s) => exists|k: int|
                                0 <= k < i + 1 && days@[k].0 == calendar@[dd] && s@ == retained(
                                    days@[k].1@,
                                    known@,
                                ) && s@.len() > 0,
                            None => forall|k: int|
                                0 <= k < i + 1 && days@[k].0 == calendar@[dd] ==> retained(
                                    #[trigger] days@[k].1@,
                                    known@,
                                ).len() == 0,
                        } by {
                            if dd != d {
                                assert(r@[dd] == old_r[dd]);
                                // entry i lies on day d, not on dd
                                if dd < d {
                                    assert(calendar@[dd] < calendar@[d as int]);
                                } else {
                                    assert(calendar@[d as int] < calendar@[dd]);
                                }
                            }
                        }
                    }
                } else {
                    proof {
                        assert forall|dd: int| 0 <= dd < m implies match #[trigger] r@[dd] {
                            Some(s) => exists|k: int|
                                0 <= k < i + 1 && days@[k].0 == calendar@[dd] && s@ == retained(
                                    days@[k].1@,
                                    known@,
                                ) && s@.len() > 0,
                            None => forall|k: int|
                                0 <= k < i + 1 && days@[k].0 == calendar@[dd] ==> retained(
                                    #[trigger] days@[k].1@,
                                    known@,
                                ).len() == 0,
                        } by {
                            if dd < d {
                                assert(calendar@[dd] < calendar@[d as int]);
                            } else if dd > d {
                                assert(calendar@[d as int] < calendar@[dd]);
                            }
                            if dd == d {
                                // no earlier entry has this date, so the day is still empty
                                if r@[dd] is Some {
                                    let k = choose|k: int|
                                        0 <= k < i && days@[k].0 == calendar@[dd] && r@[dd]->0@
                                            == retained(days@[k].1@, known@) && r@[dd]->0@.len() > 0;
                                    assert(days@[k].0 != days@[i as int].0);
                                }
                            }
                        }
                    }
                }
            },
            None => {},
        }
        i += 1;
    }
    r
}

/// How many signal entries dated on trading days have a stock without market data.
pub open spec fn dropped_entries(
    calendar: Seq<DateNum>,
    days: Seq<(DateNum, SignalDay)>,
    known: Set<Code>,
) -> nat
    decreases days.len(),
{
    if days.len() == 0 {
        0
    } else {
        let last = days.last();
        dropped_entries(calendar, days.drop_last(), known) + if calendar.contains(last.0) {
            (last.1@.len() - retained(last.1@, known).len()) as nat
        } else {
            0nat
        }
    }
}

/// The number of signal entries that `prepare_signals` drops for lack of market
/// data (held at `u64::MAX` should it be larger).
pub fn count_dropped_entries(
    calendar: &TradingCalendar,
    days: &Vec<(DateNum, SignalDay)>,
    known: &HashSet<Code>,
) -> (r: u64)
    ensures
        r == if dropped_entries(calendar@, days@, known@) > u64::MAX {
            u64::MAX as int
        } else {
            dropped_entries(calendar@, days@, known@) as int
        },
{
    let mut count: u64 = 0;
    let mut i: usize = 0;
    while i < days.len()
        invariant
            i <= days@.len(),
            count == if dropped_entries(calendar@, days@.take(i as int), known@) > u64::MAX {
                u64::MAX as int
            } else {
                dropped_entries(calendar@, days@.take(i as int), known@) as int
            },
        decreases days.len() - i,
    {
        assert(days@.take(i + 1).drop_last() =~= days@.take(i as int));
        assert(days@.take(i + 1).last() == days@[i as int]);
        if calendar.contains(days[i].0) {
            let (_kept, dropped) = days[i].1.retain_codes(known);
            count = count.saturating_add(dropped as u64);
        }
        i += 1;
    }
    assert(days@.take(days@.len() as int) =~= days@);
    count
}

/// The signal acted on at trading day `day`: that of the previous trading day,
/// if it has one (none on the first day of the calendar).
pub fn signal_for_day(by_day: &Vec<Option<SignalDay>>, day: DayIdx) -> (r: Option<&SignalDay>)
    requires
        day < by_day@.len(),
    ensures
        match r {
            Some(s) => day > 0 && by_day@[day - 1] == Some(*s),
            None => day == 0 || by_day@[day - 1] is None,
        },
{
    if day == 0 {
        None
    } else {
        match &by_day[(day - 1) as usize] {
            Some(s) => Some(s),
            None => None,
        }
    }
}

} // verus!
