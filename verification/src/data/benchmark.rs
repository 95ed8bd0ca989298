//! Row layout of the benchmark data: a file may hold several indices, each row
//! is (datetime, instrument, return), and no (datetime, instrument) pair may
//! repeat. The report selects one index and needs a row for every trading day of
//! the backtest range.
//!
//! Index codes are kept as texts (they do not follow the stock code rules).
use vstd::prelude::*;
use vstd::string::*;
use std::collections::HashMap;
use std::ops::Range;
use crate::data::calendar::{chrono_date_text, chrono_ymd_days, date_text, parse_date, DateNum, TradingCalendar};
use crate::data::text_keys::{first_repeat, first_repeated_text_row, repeated_text_row, same_row_text};
use crate::data::row_order::all_dates_parse;
use crate::error::BtError;
use crate::text::{str_eq, string_eq};
use crate::types::DayIdx;

verus! {

broadcast use vstd::std_specs::hash::group_hash_axioms;

/// The message of a repeated (datetime, instrument) pair, naming the date as
/// chrono prints it and the instrument text.
pub open spec fn benchmark_duplicate_message(date: Seq<char>, instrument: Seq<char>) -> Seq<char> {
    "benchmark 存在重复键 (datetime="@ + date + ", instrument="@ + instrument + ")"@
}

/// The rows of the benchmark data, by date and index code.
#[derive(Debug)]
pub struct BenchmarkIndex {
    dates: Vec<DateNum>,
    names: Vec<String>,
    ids: Vec<u32>,
}

impl BenchmarkIndex {
    #[verifier::type_invariant]
    spec fn inv(self) -> bool {
        &&& self.dates@.len() == self.ids@.len()
        &&& forall|q: int| 0 <= q < self.ids@.len() ==> #[trigger] self.ids@[q] < self.names@.len()
        &&& forall|a: int, b: int|
            0 <= a < b < self.names@.len() ==> (#[trigger] self.names@[a])@ != (#[trigger] self.names@[b])@
        &&& forall|p: int, q: int|
            #![trigger self.ids@[p], self.ids@[q]]
            0 <= p < q < self.ids@.len() ==> !(self.dates@[p] == self.dates@[q] && self.ids@[p]
                == self.ids@[q])
    }

    /// The date of each row.
    pub closed spec fn spec_dates(self) -> Seq<DateNum> {
        self.dates@
    }

    /// The instrument text of row `q`.
    pub closed spec fn spec_instrument(self, q: int) -> Seq<char> {
        self.names@[self.ids@[q] as int]@
    }

    /// Reads the rows given by their date and instrument texts. A date that does
    /// not parse is a `Calendar` error; two rows with the same (datetime, instrument)
    /// are a `Validation` error.
    pub fn build(raw_dates: &Vec<String>, raw_instruments: &Vec<String>) -> (r: Result<
        BenchmarkIndex,
        BtError,
    >)
        requires
            raw_dates@.len() == raw_instruments@.len(),
            raw_dates@.len() < u32::MAX,
        ensures
            r is Ok <==> (all_dates_parse(raw_dates@) && !repeated_text_row(raw_dates@, raw_instruments@)),
            r matches Err(e) ==> if all_dates_parse(raw_dates@) {
                e is Validation
            } else {
                e is Calendar
            },
            r matches Err(e) ==> (all_dates_parse(raw_dates@) ==> exists|p: int| {
                &&& #[trigger] first_repeated_text_row(raw_dates@, raw_instruments@, p)
                &&& e matches BtError::Validation(m) && m@ == benchmark_duplicate_message(
                    chrono_date_text(chrono_ymd_days(raw_dates@[p]@).unwrap()).unwrap(),
                    raw_instruments@[p]@,
                )
            }),
            r matches Ok(ix) ==> {
                &&& ix.spec_dates().len() == raw_dates@.len()
                &&& forall|q: int|
                    0 <= q < raw_dates@.len() ==> chrono_ymd_days(raw_dates@[q]@) == Some(
                        #[trigger] ix.spec_dates()[q],
                    ) && ix.spec_instrument(q) == raw_instruments@[q]@
            },
    {
        let n = raw_dates.len();
        // ---- dates ----
        let mut dates: Vec<DateNum> = Vec::new();
        let mut i: usize = 0;
        while i < n
            invariant
                n == raw_dates@.len(),
                i <= n,
                dates@.len() == i,
                forall|k: int| 0 <= k < i ==> chrono_ymd_days(raw_dates@[k]@) == Some(#[trigger] dates@[k]),
                forall|k: int| 0 <= k < i ==> chrono_date_text(#[trigger] dates@[k]) is Some,
            decreases n - i,
        {
            match parse_date(raw_dates[i].as_str()) {
                Ok(d) => dates.push(d),
                Err(e) => {
                    proof {
                        assert(!(chrono_ymd_days(raw_dates@[i as int]@) is Some));
                    }
                    return Err(e);
                },
            }
            i += 1;
        }
        proof {
            assert forall|k: int| 0 <= k < raw_dates@.len() implies (#[trigger] chrono_ymd_days(
                raw_dates@[k]@,
            )) is Some by {
                assert(chrono_ymd_days(raw_dates@[k]@) == Some(dates@[k]));
            }
        }
        // ---- instrument texts -> ids ----
        let mut names: Vec<String> = Vec::new();
        let mut ids: Vec<u32> = Vec::new();
        let mut q: usize = 0;
        while q < n
            invariant
                n == raw_instruments@.len(),
                n < u32::MAX,
                q <= n,
                ids@.len() == q,
                names@.len() <= q,
                forall|k: int| 0 <= k < q ==> #[trigger] ids@[k] < names@.len() && names@[ids@[k] as int]@
                    == raw_instruments@[k]@,
                forall|a: int, b: int|
                    0 <= a < b < names@.len() ==> (#[trigger] names@[a])@ != (#[trigger] names@[b])@,
            decreases n - q,
        {
            let text = &raw_instruments[q];
            let mut j: usize = 0;
            while j < names.len() && !string_eq(&names[j], text)
                invariant
                    j <= names@.len(),
                    forall|b: int| 0 <= b < j ==> (#[trigger] names@[b])@ != text@,
                decreases names@.len() - j,
            {
                j += 1;
            }
            if j == names.len() {
                let ghost old_names = names@;
                names.push(text.clone());
                proof {
                    assert forall|a: int, b: int|
                        0 <= a < b < names@.len() implies (#[trigger] names@[a])@ != (#[trigger] names@[b])@ by {
                        if b == old_names.len() {
                            assert(names@[a] == old_names[a]);
                        } else {
                            assert(names@[a] == old_names[a] && names@[b] == old_names[b]);
                        }
                    }
                    assert forall|k: int| 0 <= k < q implies #[trigger] ids@[k] < names@.len()
                        && names@[ids@[k] as int]@ == raw_instruments@[k]@ by {
                        assert(names@[ids@[k] as int] == old_names[ids@[k] as int]);
                    }
                }
            }
            ids.push(j as u32);
            q += 1;
        }
        // ---- repeated (date, instrument), first in input order ----
        let mut wide: Vec<u64> = Vec::new();
        let mut k: usize = 0;
        while k < n
            invariant
                n == ids@.len(),
                k <= n,
                wide@.len() == k,
                forall|x: int| 0 <= x < k ==> #[trigger] wide@[x] == ids@[x] as u64,
            decreases n - k,
        {
            wide.push(ids[k] as u64);
            k += 1;
        }
        proof {
            // equal ids are equal texts
            assert forall|a: int, b: int| 0 <= a < n && 0 <= b < n implies (#[trigger] wide@[a] == #[trigger] wide@[b]
                <==> raw_instruments@[a]@ == raw_instruments@[b]@) by {
                assert(names@[ids@[a] as int]@ == raw_instruments@[a]@);
                assert(names@[ids@[b] as int]@ == raw_instruments@[b]@);
                if ids@[a] < ids@[b] {
                    assert(names@[ids@[a] as int]@ != names@[ids@[b] as int]@);
                } else if ids@[b] < ids@[a] {
                    assert(names@[ids@[b] as int]@ != names@[ids@[a] as int]@);
                }
            }
            assert forall|a: int, b: int| 0 <= a < n && 0 <= b < n implies (same_row_text(
                raw_dates@,
                raw_instruments@,
                a,
                b,
            ) <==> (#[trigger] dates@[a] == #[trigger] dates@[b] && wide@[a] == wide@[b])) by {
                assert(chrono_ymd_days(raw_dates@[a]@) == Some(dates@[a]));
                assert(chrono_ymd_days(raw_dates@[b]@) == Some(dates@[b]));
                assert(wide@[a] == wide@[b] <==> raw_instruments@[a]@ == raw_instruments@[b]@);
            }
        }
        match first_repeat(&dates, &wide) {
            None => {},
            Some(p) => {
                let mut m = String::from_str("benchmark 存在重复键 (datetime=");
                let dt = date_text(dates[p]);
                m.append(dt.as_str());
                m.append(", instrument=");
                m.append(raw_instruments[p].as_str());
                m.append(")");
                proof {
                    let q = choose|q: int| 0 <= q < p && dates@[q] == dates@[p as int] && wide@[q] == wide@[p as int];
                    assert(same_row_text(raw_dates@, raw_instruments@, q, p as int));
                    assert forall|a: int, b: int| 0 <= a < b < p implies !#[trigger] same_row_text(
                        raw_dates@,
                        raw_instruments@,
                        a,
                        b,
                    ) by {
                        assert(!(dates@[a] == dates@[b] && wide@[a] == wide@[b]));
                    }
                    assert(first_repeated_text_row(raw_dates@, raw_instruments@, p as int));
                    assert(chrono_ymd_days(raw_dates@[p as int]@) == Some(dates@[p as int]));
                }
                return Err(BtError::Validation(m));
            },
        }
        proof {
            if repeated_text_row(raw_dates@, raw_instruments@) {
                let (a, b) = choose|a: int, b: int|
                    0 <= a < b < raw_dates@.len() && #[trigger] same_row_text(raw_dates@, raw_instruments@, a, b);
                assert(dates@[a] == dates@[b] && wide@[a] == wide@[b]);
            }
        }
        let ix = BenchmarkIndex { dates, names, ids };
        Ok(ix)
    }

    /// For each trading day of `range`, the row of index `instrument` on that day.
    ///
    /// Days are checked in order; the first day without such a row is a
    /// `BenchmarkCoverage` error, and the first day whose row does not have a finite
    /// value (`finite[row]` false) is a `Validation` error.
    pub fn select(
        &self,
        calendar: &TradingCalendar,
        range: Range<DayIdx>,
        instrument: &str,
        finite: &Vec<bool>,
    ) -> (r: Result<Vec<usize>, BtError>)
        requires
            range.start <= range.end <= calendar@.len(),
            finite@.len() == self.spec_dates().len(),
        ensures
            r is Ok <==> forall|t: int|
                range.start <= t < range.end ==> #[trigger] self.day_ok(calendar@, instrument@, finite@, t),
            r matches Err(e) ==> exists|t: int|
                range.start <= t < range.end && !#[trigger] self.day_ok(calendar@, instrument@, finite@, t)
                    && (forall|u: int| range.start <= u < t ==> self.day_ok(calendar@, instrument@, finite@, u))
                    && (if self.day_row(calendar@, instrument@, t) is Some {
                    e is Validation
                } else {
                    e is BenchmarkCoverage
                }),
            r matches Ok(rows) ==> {
                &&& rows@.len() == range.end - range.start
                &&& forall|t: int|
                    0 <= t < rows@.len() ==> self.day_row(calendar@, instrument@, range.start + t)
                        == Some(#[trigger] rows@[t] as int)
            },
    {
        proof {
            use_type_invariant(self);
        }
        let n = self.dates.len();
        // position of the instrument among the names
        let mut j: usize = 0;
        while j < self.names.len() && !str_eq(self.names[j].as_str(), instrument)
            invariant
                j <= self.names@.len(),
                forall|b: int| 0 <= b < j ==> (#[trigger] self.names@[b])@ != instrument@,
            decreases self.names@.len() - j,
        {
            j += 1;
        }
        let found = j < self.names.len();
        // date -> row for the instrument's rows
        let mut by_date: HashMap<DateNum, usize> = HashMap::new();
        if found {
            let mut q: usize = 0;
            while q < n
                invariant
                    n == self.dates@.len() == self.ids@.len(),
                    j < self.names@.len(),
                    self.names@[j as int]@ == instrument@,
                    q <= n,
                    forall|p: int, p2: int|
                        #![trigger self.ids@[p], self.ids@[p2]]
                        0 <= p < p2 < self.ids@.len() ==> !(self.dates@[p] == self.dates@[p2] && self.ids@[p]
                            == self.ids@[p2]),
                    forall|d: DateNum| #[trigger] by_date@.contains_key(d) <==> exists|p: int|
                        0 <= p < q && self.dates@[p] == d && self.ids@[p] == j,
                    forall|d: DateNum| #[trigger] by_date@.contains_key(d) ==> {
                        let p = by_date@[d] as int;
                        0 <= p < q && self.dates@[p] == d && self.ids@[p] == j
                    },
                decreases n - q,
            {
                if self.ids[q] as usize == j {
                    by_date.insert(self.dates[q], q);
                    proof {
                        assert forall|d: DateNum| #[trigger] by_date@.contains_key(d) <==> exists|p: int|
                            0 <= p < q + 1 && self.dates@[p] == d && self.ids@[p] == j by {
                            if d == self.dates@[q as int] {
                                assert(self.dates@[q as int] == d && self.ids@[q as int] == j);
                            }
                        }
                    }
                } else {
                    proof {
                        assert forall|d: DateNum| #[trigger] by_date@.contains_key(d) <==> exists|p: int|
                            0 <= p < q + 1 && self.dates@[p] == d && self.ids@[p] == j by {
                            if exists|p: int| 0 <= p < q + 1 && self.dates@[p] == d && self.ids@[p] == j {
                                let p = choose|p: int| 0 <= p < q + 1 && self.dates@[p] == d && self.ids@[p] == j;
                                assert(p != q);
                            }
                        }
                    }
                }
                q += 1;
            }
        }
        let mut rows: Vec<usize> = Vec::new();
        let mut t: DayIdx = range.start;
        while t < range.end
            invariant
                range.start <= t <= range.end <= calendar@.len(),
                n == self.dates@.len() == self.ids@.len() == finite@.len(),
                found ==> j < self.names@.len() && self.names@[j as int]@ == instrument@,
                !found ==> forall|b: int| 0 <= b < self.names@.len() ==> (#[trigger] self.names@[b])@ != instrument@,
                forall|q: int| 0 <= q < self.ids@.len() ==> #[trigger] self.ids@[q] < self.names@.len(),
                forall|a: int, b: int|
                    0 <= a < b < self.names@.len() ==> (#[trigger] self.names@[a])@ != (#[trigger] self.names@[b])@,
                forall|p: int, p2: int|
                    #![trigger self.ids@[p], self.ids@[p2]]
                    0 <= p < p2 < self.ids@.len() ==> !(self.dates@[p] == self.dates@[p2] && self.ids@[p]
                        == self.ids@[p2]),
                found ==> forall|d: DateNum| #[trigger] by_date@.contains_key(d) <==> exists|p: int|
                    0 <= p < n && self.dates@[p] == d && self.ids@[p] == j,
                found ==> forall|d: DateNum| #[trigger] by_date@.contains_key(d) ==> {
                    let p = by_date@[d] as int;
                    0 <= p < n && self.dates@[p] == d && self.ids@[p] == j
                },
                rows@.len() == t - range.start,
                forall|u: int|
                    0 <= u < rows@.len() ==> self.day_row(calendar@, instrument@, range.start + u) == Some(
                        #[trigger] rows@[u] as int,
                    ),
                forall|u: int| range.start <= u < t ==> #[trigger] self.day_ok(calendar@, instrument@, finite@, u),
            decreases range.end - t,
        {
            let date = calendar.date(t);
            let row = if found {
                match by_date.get(&date) {
                    Some(p) => Some(*p),
                    None => None,
                }
            } else {
                None
            };
            proof {
                match row {
                    Some(p) => {
                        self.lemma_day_row_is(calendar@, instrument@, t as int, p as int);
                    },
                    None => {
                        assert forall|p: int| 0 <= p < n implies !(self.dates@[p] == calendar@[t as int]
                            && self.names@[self.ids@[p] as int]@ == instrument@) by {
                            if self.dates@[p] == calendar@[t as int] && self.names@[self.ids@[p] as int]@
                                == instrument@ {
                                if found {
                                    if self.ids@[p] != j {
                                        if self.ids@[p] < j {
                                            assert(self.names@[self.ids@[p] as int]@ != self.names@[j as int]@);
                                        } else {
                                            assert(self.names@[j as int]@ != self.names@[self.ids@[p] as int]@);
                                        }
                                    }
                                    assert(by_date@.contains_key(calendar@[t as int]));
                                } else {
                                    assert(self.names@[self.ids@[p] as int]@ != instrument@);
                                }
                            }
                        }
                        self.lemma_day_row_none(calendar@, instrument@, t as int);
                    },
                }
            }
            match row {
                Some(p) => {
                    if !finite[p] {
                        assert(!self.day_ok(calendar@, instrument@, finite@, t as int));
                        assert(self.day_row(calendar@, instrument@, t as int) is Some);
                        return Err(BtError::Validation(String::from_str("基准在回测区间内的交易日存在非法值（缺失/NaN/inf）")));
                    }
                    rows.push(p);
                },
                None => {
                    assert(!self.day_ok(calendar@, instrument@, finite@, t as int));
                    assert(self.day_row(calendar@, instrument@, t as int) is None);
                    return Err(BtError::BenchmarkCoverage(String::from_str("基准缺失回测区间内某交易日的数据")));
                },
            }
            t += 1;
        }
        Ok(rows)
    }

    /// The row of index `instrument` on trading day `t`, if there is one.
    pub closed spec fn day_row(self, calendar: Seq<DateNum>, instrument: Seq<char>, t: int) -> Option<int> {
        if exists|p: int|
            0 <= p < self.dates@.len() && self.dates@[p] == calendar[t] && self.names@[self.ids@[p] as int]@
                == instrument {
            Some(
                choose|p: int|
                    0 <= p < self.dates@.len() && self.dates@[p] == calendar[t] && self.names@[self.ids@[p] as int]@
                        == instrument,
            )
        } else {
            None
        }
    }

    /// Trading day `t` has a row of index `instrument` with a finite value.
    pub open spec fn day_ok(self, calendar: Seq<DateNum>, instrument: Seq<char>, finite: Seq<bool>, t: int) -> bool {
        match self.day_row(calendar, instrument, t) {
            Some(p) => finite[p],
            None => false,
        }
    }

    proof fn lemma_day_row_is(self, calendar: Seq<DateNum>, instrument: Seq<char>, t: int, p: int)
        requires
            self.inv(),
            0 <= p < self.dates@.len(),
            self.dates@[p] == calendar[t],
            self.names@[self.ids@[p] as int]@ == instrument,
        ensures
            self.day_row(calendar, instrument, t) == Some(p),
    {
        let c = choose|c: int|
            0 <= c < self.dates@.len() && self.dates@[c] == calendar[t] && self.names@[self.ids@[c] as int]@
                == instrument;
        if c != p {
            if self.ids@[c] != self.ids@[p] {
                if self.ids@[c] < self.ids@[p] {
                    assert(self.names@[self.ids@[c] as int]@ != self.names@[self.ids@[p] as int]@);
                } else {
                    assert(self.names@[self.ids@[p] as int]@ != self.names@[self.ids@[c] as int]@);
                }
            }
            if c < p {
                assert(!(self.dates@[c] == self.dates@[p] && self.ids@[c] == self.ids@[p]));
            } else {
                assert(!(self.dates@[p] == self.dates@[c] && self.ids@[p] == self.ids@[c]));
            }
        }
    }

    proof fn lemma_day_row_none(self, calendar: Seq<DateNum>, instrument: Seq<char>, t: int)
        requires
            forall|p: int|
                0 <= p < self.dates@.len() ==> !(self.dates@[p] == calendar[t] && self.names@[self.ids@[p] as int]@
                    == instrument),
        ensures
            self.day_row(calendar, instrument, t) is None,
    {
    }
}

} // verus!
