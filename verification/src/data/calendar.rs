//! Trading calendar: the ascending distinct dates of the market data, the mapping
//! date <-> day index, and the alignment of a [start, end) range to trading days.
//!
//! A date is numbered by its day count in the proleptic Gregorian calendar
//! (0001-01-01 is day 1), so comparing numbers compares dates.
use vstd::prelude::*;
use vstd::string::*;
use std::collections::HashMap;
use std::ops::Range;
use crate::error::{message_with, BtError};
use crate::types::DayIdx;

verus! {

broadcast use vstd::std_specs::hash::group_hash_axioms;

/// A date, as its day number.
pub type DateNum = i32;

/// The day number of the date that `chrono` reads from `s` with the format
/// `%Y-%m-%d`, or `None` when `chrono` rejects the text.
pub uninterp spec fn chrono_ymd_days(s: Seq<char>) -> Option<i32>;

/// The text that `chrono` prints (`Display` of `NaiveDate`, `YYYY-MM-DD` for
/// years 0..=9999) for the date numbered `days`, or `None` when that number is
/// outside chrono's range of dates.
pub uninterp spec fn chrono_date_text(days: i32) -> Option<Seq<char>>;

/// Calls `chrono::NaiveDate::parse_from_str(s, "%Y-%m-%d")` and numbers the date
/// with `Datelike::num_days_from_ce`. The contract names the result; chrono's
/// format grammar is not restated here. A number chrono gives for one of its
/// dates is in its range, so the date can be printed again.
#[verifier::external_body]
fn chrono_parse_ymd(s: &str) -> (r: Option<DateNum>)
    ensures
        r == chrono_ymd_days(s@),
        r matches Some(n) ==> chrono_date_text(n) is Some,
{
    match chrono::NaiveDate::parse_from_str(s, "%Y-%m-%d") {
        Ok(d) => Some(chrono::Datelike::num_days_from_ce(&d)),
        Err(_) => None,
    }
}

/// Calls `chrono::NaiveDate::from_num_days_from_ce_opt(days)` and prints the
/// date with its `Display`; `None` when the number is outside chrono's range.
/// The contract names the printed text; chrono's calendar arithmetic is not
/// restated here.
#[verifier::external_body]
fn chrono_format_days(days: DateNum) -> (r: Option<String>)
    ensures
        match r {
            Some(t) => chrono_date_text(days) == Some(t@),
            None => chrono_date_text(days) is None,
        },
{
    match chrono::NaiveDate::from_num_days_from_ce_opt(days) {
        Some(d) => Some(d.to_string()),
        None => None,
    }
}

/// The `YYYY-MM-DD` text of a date that was read with `parse_date`.
pub(crate) fn date_text(days: DateNum) -> (r: String)
    requires
        chrono_date_text(days) is Some,
    ensures
        chrono_date_text(days) == Some(r@),
{
    match chrono_format_days(days) {
        Some(t) => t,
        None => String::new(),
    }
}

/// Parses a `YYYY-MM-DD` date; a text that is not such a date is a `Calendar` error.
pub fn parse_date(s: &str) -> (r: Result<DateNum, BtError>)
    ensures
        match r {
            Ok(d) => chrono_ymd_days(s@) == Some(d) && chrono_date_text(d) is Some,
            Err(e) => e is Calendar && chrono_ymd_days(s@) is None,
        },
{
    match chrono_parse_ymd(s) {
        Some(d) => Ok(d),
        None => Err(BtError::Calendar(message_with("日期须为 YYYY-MM-DD 格式，收到: ", s))),
    }
}

/// Dates in strictly increasing order.
pub open spec fn ascending_dates(s: Seq<DateNum>) -> bool {
    forall|i: int, j: int| 0 <= i < j < s.len() ==> s[i] < s[j]
}

/// How many of the dates lie before `x`.
pub open spec fn count_before(s: Seq<DateNum>, x: DateNum) -> nat
    decreases s.len(),
{
    if s.len() == 0 {
        0
    } else {
        count_before(s.drop_last(), x) + if s.last() < x {
            1nat
        } else {
            0nat
        }
    }
}

/// The day-index range of the trading days in [start, end): `None` when
/// `start >= end` or no trading day falls in the range.
pub open spec fn spec_align(dates: Seq<DateNum>, start: DateNum, end: DateNum) -> Option<(int, int)> {
    if start < end && exists|i: int| 0 <= i < dates.len() && start <= #[trigger] dates[i] < end {
        Some((count_before(dates, start) as int, count_before(dates, end) as int))
    } else {
        None
    }
}

/// In ascending dates, the split point between dates before `x` and the rest is
/// the count of dates before `x`.
proof fn lemma_count_before_split(s: Seq<DateNum>, x: DateNum, r: int)
    requires
        ascending_dates(s),
        0 <= r <= s.len(),
        forall|i: int| 0 <= i < r ==> s[i] < x,
        forall|i: int| r <= i < s.len() ==> s[i] >= x,
    ensures
        count_before(s, x) == r,
    decreases s.len(),
{
    if s.len() > 0 {
        let t = s.drop_last();
        assert(ascending_dates(t)) by {
            assert forall|i: int, j: int| 0 <= i < j < t.len() implies t[i] < t[j] by {
                assert(t[i] == s[i] && t[j] == s[j]);
            }
        }
        if r == s.len() {
            assert(s.last() < x);
            lemma_count_before_split(t, x, r - 1);
        } else {
            assert(s.last() >= x);
            lemma_count_before_split(t, x, r);
        }
    }
}

/// Number of leading dates below `x` (the insertion point of `x`).
fn lower_bound(v: &Vec<DateNum>, x: DateNum) -> (r: usize)
    requires
        ascending_dates(v@),
    ensures
        r <= v@.len(),
        forall|i: int| 0 <= i < r ==> v@[i] < x,
        forall|i: int| r <= i < v@.len() ==> v@[i] >= x,
{
    let mut lo: usize = 0;
    let mut hi: usize = v.len();
    while lo < hi
        invariant
            lo <= hi <= v@.len(),
            ascending_dates(v@),
            forall|i: int| 0 <= i < lo ==> v@[i] < x,
            forall|i: int| hi <= i < v@.len() ==> v@[i] >= x,
        decreases hi - lo,
    {
        let mid = lo + (hi - lo) / 2;
        if v[mid] < x {
            lo = mid + 1;
        } else {
            hi = mid;
        }
    }
    lo
}

/// `index` maps each of the dates to its position.
pub open spec fn index_matches(dates: Seq<DateNum>, index: Map<DateNum, DayIdx>) -> bool {
    &&& forall|d: DateNum| #[trigger] index.contains_key(d) <==> dates.contains(d)
    &&& forall|d: DateNum| #[trigger] index.contains_key(d) ==> index[d] < dates.len() && dates[index[d] as int] == d
}

/// The position of each date, for ascending distinct dates.
fn build_index(dates: &Vec<DateNum>) -> (m: HashMap<DateNum, DayIdx>)
    requires
        ascending_dates(dates@),
        dates@.len() <= u32::MAX,
    ensures
        index_matches(dates@, m@),
{
    let mut m: HashMap<DateNum, DayIdx> = HashMap::new();
    let mut i: usize = 0;
    while i < dates.len()
        invariant
            i <= dates@.len() <= u32::MAX,
            ascending_dates(dates@),
            forall|d: DateNum| #[trigger] m@.contains_key(d) <==> exists|j: int| 0 <= j < i && dates@[j] == d,
            forall|d: DateNum| #[trigger] m@.contains_key(d) ==> m@[d] < i && dates@[m@[d] as int] == d,
        decreases dates.len() - i,
    {
        let ghost old_m = m@;
        m.insert(dates[i], i as DayIdx);
        proof {
            assert forall|d: DateNum| #[trigger] m@.contains_key(d) <==> exists|j: int|
                0 <= j < i + 1 && dates@[j] == d by {
                if d == dates@[i as int] {
                    assert(dates@[i as int] == d);
                } else if exists|j: int| 0 <= j < i + 1 && dates@[j] == d {
                    let j = choose|j: int| 0 <= j < i + 1 && dates@[j] == d;
                    assert(j < i);
                    assert(old_m.contains_key(d));
                }
            }
        }
        i += 1;
    }
    proof {
        assert forall|d: DateNum| #[trigger] m@.contains_key(d) <==> dates@.contains(d) by {
            if dates@.contains(d) {
                let j = choose|j: int| 0 <= j < dates@.len() && dates@[j] == d;
                assert(exists|j2: int| 0 <= j2 < dates@.len() && dates@[j2] == d);
            }
        }
    }
    m
}

/// The trading calendar: the distinct dates of the market data, ascending, with
/// the position of each date.
#[derive(Debug)]
pub struct TradingCalendar {
    dates: Vec<DateNum>,
    index: HashMap<DateNum, DayIdx>,
}

impl View for TradingCalendar {
    type V = Seq<DateNum>;

    closed spec fn view(&self) -> Seq<DateNum> {
        self.dates@
    }
}

impl Clone for TradingCalendar {
    fn clone(&self) -> (r: TradingCalendar)
        ensures
            r@ == self@,
    {
        proof {
            use_type_invariant(self);
        }
        let mut dates: Vec<DateNum> = Vec::new();
        let mut i: usize = 0;
        while i < self.dates.len()
            invariant
                i <= self.dates@.len(),
                dates@ == self.dates@.take(i as int),
            decreases self.dates@.len() - i,
        {
            dates.push(self.dates[i]);
            i += 1;
            assert(dates@ =~= self.dates@.take(i as int));
        }
        assert(self.dates@.take(self.dates@.len() as int) =~= self.dates@);
        let index = self.index.clone();
        TradingCalendar { dates, index }
    }
}

impl TradingCalendar {
    #[verifier::type_invariant]
    spec fn inv(self) -> bool {
        &&& ascending_dates(self.dates@)
        &&& self.dates@.len() <= u32::MAX
        &&& index_matches(self.dates@, self.index@)
    }

    /// The dates are ascending and distinct, and every index fits a `DayIdx`.
    pub fn dates(&self) -> (r: &Vec<DateNum>)
        ensures
            r@ == self@,
            ascending_dates(r@),
            r@.len() <= u32::MAX,
    {
        proof {
            use_type_invariant(self);
        }
        &self.dates
    }

    /// Builds the calendar from dates in any order, repeats allowed: sorted, deduplicated.
    pub fn from_dates(dates: Vec<DateNum>) -> (r: TradingCalendar)
        requires
            dates@.len() <= u32::MAX,
        ensures
            ascending_dates(r@),
            forall|d: DateNum| #[trigger] r@.contains(d) <==> dates@.contains(d),
    {
        let mut out: Vec<DateNum> = Vec::new();
        let mut i: usize = 0;
        while i < dates.len()
            invariant
                i <= dates@.len(),
                dates@.len() <= u32::MAX,
                ascending_dates(out@),
                out@.len() <= i,
                forall|d: DateNum| #[trigger] out@.contains(d) <==> exists|j: int| 0 <= j < i && dates@[j] == d,
            decreases dates.len() - i,
        {
            let d = dates[i];
            let p = lower_bound(&out, d);
            let ghost before = out@;
            if p < out.len() && out[p] == d {
            } else {
                out.insert(p, d);
                proof {
                    assert forall|a: int, b: int| 0 <= a < b < out@.len() implies out@[a] < out@[b] by {
                        if b < p {
                        } else if a > p {
                            assert(out@[a] == before[a - 1] && out@[b] == before[b - 1]);
                        } else if a == p {
                            assert(out@[b] == before[b - 1]);
                            assert(before[b - 1] != d);
                        } else if b == p {
                        } else {
                            assert(out@[b] == before[b - 1]);
                        }
                    }
                }
            }
            proof {
                assert forall|x: DateNum| #[trigger] out@.contains(x) <==> exists|j: int|
                    0 <= j < i + 1 && dates@[j] == x by {
                    if x == d {
                        assert(dates@[i as int] == x);
                        if p < before.len() && before[p as int] == d {
                            assert(out@[p as int] == x);
                        } else {
                            assert(out@[p as int] == x);
                        }
                    } else {
                        if out@.contains(x) {
                            let q = choose|q: int| 0 <= q < out@.len() && out@[q] == x;
                            if !(p < before.len() && before[p as int] == d) {
                                if q < p {
                                    assert(before[q] == x);
                                } else {
                                    assert(q > p);
                                    assert(before[q - 1] == x);
                                }
                            }
                            assert(before.contains(x));
                        }
                        if before.contains(x) {
                            let q = choose|q: int| 0 <= q < before.len() && before[q] == x;
                            if !(p < before.len() && before[p as int] == d) {
                                if q < p {
                                    assert(out@[q] == x);
                                } else {
                                    assert(out@[q + 1] == x);
                                }
                            } else {
                                assert(out@[q] == x);
                            }
                        }
                    }
                }
            }
            i += 1;
        }
        proof {
            assert forall|d: DateNum| #[trigger] out@.contains(d) <==> dates@.contains(d) by {
                if dates@.contains(d) {
                    let j = choose|j: int| 0 <= j < dates@.len() && dates@[j] == d;
                }
            }
        }
        let index = build_index(&out);
        TradingCalendar { dates: out, index }
    }

    /// Aligns [start, end) to trading days: the first index is that of the first
    /// trading day on or after `start`, the end index is past the last trading day
    /// before `end`. `start >= end`, or no trading day in the range, is a `Calendar` error.
    pub fn align_days(&self, start: DateNum, end: DateNum) -> (r: Result<Range<DayIdx>, BtError>)
        ensures
            match r {
                Ok(range) => spec_align(self@, start, end) == Some(
                    (range.start as int, range.end as int),
                ),
                Err(e) => e is Calendar && spec_align(self@, start, end) is None,
            },
            r matches Ok(range) ==> range.start < range.end <= self@.len() && forall|i: int|
                0 <= i < self@.len() ==> (range.start <= i < range.end <==> start <= #[trigger] self@[i]
                    < end),
    {
        proof {
            use_type_invariant(self);
        }
        if start >= end {
            return Err(BtError::Calendar(String::from_str("回测区间非法：start_date >= end_date")));
        }
        let first = lower_bound(&self.dates, start);
        let past_end = lower_bound(&self.dates, end);
        let ghost v = self.dates@;
        proof {
            lemma_count_before_split(v, start, first as int);
            lemma_count_before_split(v, end, past_end as int);
        }
        if first >= past_end {
            proof {
                assert forall|i: int| 0 <= i < v.len() implies !(start <= #[trigger] v[i] < end) by {
                    if i >= first {
                        assert(i >= past_end);
                    }
                }
            }
            return Err(BtError::Calendar(String::from_str("回测区间内不含任何交易日")));
        }
        proof {
            assert(start <= v[first as int] < end);
        }
        Ok(Range { start: first as DayIdx, end: past_end as DayIdx })
    }

    /// Aligns the closed-open range [start, end) given as `YYYY-MM-DD` texts: a date
    /// that does not parse is a `Calendar` error, then as `align_days`.
    pub fn align(&self, start: &str, end: &str) -> (r: Result<Range<DayIdx>, BtError>)
        ensures
            match (chrono_ymd_days(start@), chrono_ymd_days(end@)) {
                (Some(s), Some(e)) => match r {
                    Ok(range) => spec_align(self@, s, e) == Some(
                        (range.start as int, range.end as int),
                    ),
                    Err(err) => err is Calendar && spec_align(self@, s, e) is None,
                },
                _ => r matches Err(err) && err is Calendar,
            },
    {
        let s = parse_date(start)?;
        let e = parse_date(end)?;
        self.align_days(s, e)
    }

    /// The date of a day index (the index must be within the calendar).
    pub fn date(&self, idx: DayIdx) -> (r: DateNum)
        requires
            idx < self@.len(),
        ensures
            r == self@[idx as int],
    {
        self.dates[idx as usize]
    }

    /// The day index of a date; `None` when it is not a trading day.
    pub fn day_idx(&self, d: DateNum) -> (r: Option<DayIdx>)
        ensures
            match r {
                Some(i) => i < self@.len() && self@[i as int] == d,
                None => !self@.contains(d),
            },
    {
        proof {
            use_type_invariant(self);
        }
        match self.index.get(&d) {
            Some(i) => Some(*i),
            None => None,
        }
    }

    /// Whether the date is a trading day.
    pub fn contains(&self, d: DateNum) -> (r: bool)
        ensures
            r == self@.contains(d),
    {
        match self.day_idx(d) {
            Some(i) => {
                assert(self@[i as int] == d);
                true
            },
            None => false,
        }
    }

    /// Number of trading days.
    pub fn len(&self) -> (r: usize)
        ensures
            r == self@.len(),
    {
        self.dates.len()
    }

    /// Whether the calendar has no trading day.
    pub fn is_empty(&self) -> (r: bool)
        ensures
            r == (self@.len() == 0),
    {
        self.dates.len() == 0
    }
}

} // verus!
