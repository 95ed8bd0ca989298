//! Row layout of the stock bar data: its required columns, and the index that
//! puts the rows in (day, code) order, rejects repeated (datetime, instrument)
//! keys and locates each trading day's rows.
//!
//! The numeric columns are carried by the caller, who permutes them with the
//! row order computed here.
use vstd::prelude::*;
use vstd::string::*;
use crate::data::calendar::{ascending_dates, chrono_date_text, date_text, DateNum, TradingCalendar};
use crate::data::row_order::{
    all_dates_parse, all_instruments_parse, has_duplicate_key, is_permutation, key_lt,
    parse_row_keys, row_keys, smallest_repeated_row, sort_rows, RowKey,
};
use crate::error::BtError;
use crate::types::{Code, DayIdx};

verus! {

/// The columns the stock bar data must have (`avg` duplicates `vwap` and is not read).
pub open spec fn spec_required_columns() -> Seq<Seq<char>> {
    seq![
        "datetime"@,
        "instrument"@,
        "open"@,
        "close"@,
        "low"@,
        "high"@,
        "volume"@,
        "money"@,
        "factor"@,
        "high_limit"@,
        "low_limit"@,
        "pre_close"@,
        "paused"@,
        "is_st"@,
        "vwap"@,
    ]
}

/// The stock bar data must have exactly the columns of its data format, each
/// named once: datetime, instrument, open, close, low, high, volume, money,
/// factor, high_limit, low_limit, pre_close, paused, is_st and vwap.
pub proof fn law_stock_bar_columns()
    ensures
        spec_required_columns() =~= seq![
            "datetime"@,
            "instrument"@,
            "open"@,
            "close"@,
            "low"@,
            "high"@,
            "volume"@,
            "money"@,
            "factor"@,
            "high_limit"@,
            "low_limit"@,
            "pre_close"@,
            "paused"@,
            "is_st"@,
            "vwap"@,
        ],
        spec_required_columns().no_duplicates(),
{
    reveal_strlit("datetime");
    reveal_strlit("instrument");
    reveal_strlit("open");
    reveal_strlit("close");
    reveal_strlit("low");
    reveal_strlit("high");
    reveal_strlit("volume");
    reveal_strlit("money");
    reveal_strlit("factor");
    reveal_strlit("high_limit");
    reveal_strlit("low_limit");
    reveal_strlit("pre_close");
    reveal_strlit("paused");
    reveal_strlit("is_st");
    reveal_strlit("vwap");
    let c = spec_required_columns();
    assert forall|i: int, j: int| 0 <= i < c.len() && 0 <= j < c.len() && i != j implies c[i] != c[j] by {
        if c[i] == c[j] {
            assert(c[i].len() == c[j].len());
            assert(c[i][0] == c[j][0]);
            assert(c[i][1] == c[j][1]);
            assert(c[i][c[i].len() - 1] == c[j][c[j].len() - 1]);
        }
    }
}

/// The columns the stock bar data must have.
pub fn required_columns() -> (r: Vec<String>)
    ensures
        r@.len() == 15,
        forall|i: int| 0 <= i < 15 ==> #[trigger] r@[i]@ == spec_required_columns()[i],
{
    let mut r: Vec<String> = Vec::new();
    r.push(String::from_str("datetime"));
    r.push(String::from_str("instrument"));
    r.push(String::from_str("open"));
    r.push(String::from_str("close"));
    r.push(String::from_str("low"));
    r.push(String::from_str("high"));
    r.push(String::from_str("volume"));
    r.push(String::from_str("money"));
    r.push(String::from_str("factor"));
    r.push(String::from_str("high_limit"));
    r.push(String::from_str("low_limit"));
    r.push(String::from_str("pre_close"));
    r.push(String::from_str("paused"));
    r.push(String::from_str("is_st"));
    r.push(String::from_str("vwap"));
    r
}

/// Layout of indexed rows: `calendar` is ascending; `order` lists each input row
/// once; the stored rows have strictly increasing (date, code) keys, where the
/// date of stored row `k` is `calendar[days[k]]`; and `day_offsets[d]` is the
/// (first row, number of rows) of trading day `d`.
pub open spec fn layout_ok(
    calendar: Seq<DateNum>,
    order: Seq<usize>,
    days: Seq<DayIdx>,
    codes: Seq<Code>,
    day_offsets: Seq<(u32, u32)>,
) -> bool {
    &&& ascending_dates(calendar)
    &&& calendar.len() <= u32::MAX
    &&& days.len() < u32::MAX
    &&& is_permutation(order, days.len())
    &&& codes.len() == days.len()
    &&& forall|k: int| 0 <= k < days.len() ==> #[trigger] days[k] < calendar.len()
    &&& forall|k1: int, k2: int|
        #![trigger days[k1], days[k2]]
        0 <= k1 < k2 < days.len() ==> key_lt(
            (calendar[days[k1] as int], codes[k1]),
            (calendar[days[k2] as int], codes[k2]),
        )
    &&& day_offsets.len() == calendar.len()
    &&& forall|d: int, k: int|
        #![trigger day_offsets[d], days[k]]
        0 <= d < calendar.len() && 0 <= k < days.len() ==> (day_offsets[d].0 <= k
            < day_offsets[d].0 + day_offsets[d].1 <==> days[k] == d)
}

/// The stock bar rows in (day, code) order with the trading calendar they span.
#[derive(Debug)]
pub struct StockBarIndex {
    calendar: TradingCalendar,
    order: Vec<usize>,
    days: Vec<DayIdx>,
    codes: Vec<Code>,
    day_offsets: Vec<(u32, u32)>,
}

/// The message of rows sharing a key, naming one of them by its date as chrono
/// prints it and its instrument text.
pub open spec fn duplicate_key_message(date: Seq<char>, instrument: Seq<char>) -> Seq<char> {
    "stock_bar 存在重复键 (datetime="@ + date + ", instrument="@ + instrument + ")"@
}

impl StockBarIndex {
    #[verifier::type_invariant]
    spec fn inv(self) -> bool {
        layout_ok(self.calendar@, self.order@, self.days@, self.codes@, self.day_offsets@)
    }

    pub closed spec fn spec_calendar(self) -> Seq<DateNum> {
        self.calendar@
    }

    pub closed spec fn spec_order(self) -> Seq<usize> {
        self.order@
    }

    pub closed spec fn spec_days(self) -> Seq<DayIdx> {
        self.days@
    }

    pub closed spec fn spec_codes(self) -> Seq<Code> {
        self.codes@
    }

    pub closed spec fn spec_day_offsets(self) -> Seq<(u32, u32)> {
        self.day_offsets@
    }

    /// The key of stored row `k`.
    pub open spec fn stored_key(self, k: int) -> RowKey {
        (self.spec_calendar()[self.spec_days()[k] as int], self.spec_codes()[k])
    }

    /// The trading calendar: the distinct dates of the rows.
    pub fn calendar(&self) -> (r: &TradingCalendar)
        ensures
            r@ == self.spec_calendar(),
            layout_ok(
                self.spec_calendar(),
                self.spec_order(),
                self.spec_days(),
                self.spec_codes(),
                self.spec_day_offsets(),
            ),
    {
        proof {
            use_type_invariant(self);
        }
        &self.calendar
    }

    /// For each stored row, the position of that row in the input.
    pub fn order(&self) -> (r: &Vec<usize>)
        ensures
            r@ == self.spec_order(),
            layout_ok(
                self.spec_calendar(),
                self.spec_order(),
                self.spec_days(),
                self.spec_codes(),
                self.spec_day_offsets(),
            ),
    {
        proof {
            use_type_invariant(self);
        }
        &self.order
    }

    /// The day index of each stored row.
    pub fn days(&self) -> (r: &Vec<DayIdx>)
        ensures
            r@ == self.spec_days(),
            layout_ok(
                self.spec_calendar(),
                self.spec_order(),
                self.spec_days(),
                self.spec_codes(),
                self.spec_day_offsets(),
            ),
    {
        proof {
            use_type_invariant(self);
        }
        &self.days
    }

    /// The stock code of each stored row.
    pub fn codes(&self) -> (r: &Vec<Code>)
        ensures
            r@ == self.spec_codes(),
            layout_ok(
                self.spec_calendar(),
                self.spec_order(),
                self.spec_days(),
                self.spec_codes(),
                self.spec_day_offsets(),
            ),
    {
        proof {
            use_type_invariant(self);
        }
        &self.codes
    }

    /// For each trading day, its first stored row and its number of rows.
    pub fn day_offsets(&self) -> (r: &Vec<(u32, u32)>)
        ensures
            r@ == self.spec_day_offsets(),
            layout_ok(
                self.spec_calendar(),
                self.spec_order(),
                self.spec_days(),
                self.spec_codes(),
                self.spec_day_offsets(),
            ),
    {
        proof {
            use_type_invariant(self);
        }
        &self.day_offsets
    }

    /// Indexes the rows given by their date and instrument texts.
    ///
    /// A date that does not parse is a `Calendar` error; then an instrument that is
    /// not a stock code is a `Validation` error; then two rows with the same
    /// (datetime, instrument) are a `Validation` error.
    pub fn build(raw_dates: &Vec<String>, raw_instruments: &Vec<String>) -> (r: Result<
        StockBarIndex,
        BtError,
    >)
        requires
            raw_dates@.len() == raw_instruments@.len(),
            raw_dates@.len() < u32::MAX,
        ensures
            r is Ok <==> (all_dates_parse(raw_dates@) && all_instruments_parse(raw_instruments@)
                && !has_duplicate_key(row_keys(raw_dates@, raw_instruments@))),
            r matches Err(e) ==> if all_dates_parse(raw_dates@) {
                e is Validation
            } else {
                e is Calendar
            },
            r matches Err(e) ==> (all_dates_parse(raw_dates@) && all_instruments_parse(raw_instruments@)
                ==> exists|p: int| {
                &&& #[trigger] smallest_repeated_row(row_keys(raw_dates@, raw_instruments@), p)
                &&& e matches BtError::Validation(m) && m@ == duplicate_key_message(
                    chrono_date_text(row_keys(raw_dates@, raw_instruments@)[p].0).unwrap(),
                    raw_instruments@[p]@,
                )
            }),
            r matches Ok(ix) ==> {
                let keys = row_keys(raw_dates@, raw_instruments@);
                &&& ix.spec_order().len() == keys.len()
                &&& forall|d: DateNum| #[trigger] ix.spec_calendar().contains(d) <==> exists|i: int|
                    0 <= i < keys.len() && keys[i].0 == d
                &&& forall|k: int|
                    0 <= k < keys.len() ==> #[trigger] ix.stored_key(k) == keys[ix.spec_order()[k] as int]
            },
    {
        let n = raw_dates.len();
        let ghost keys_spec = row_keys(raw_dates@, raw_instruments@);
        let keys = parse_row_keys(raw_dates, raw_instruments)?;
        let mut dates: Vec<DateNum> = Vec::new();
        let mut i: usize = 0;
        while i < n
            invariant
                n == keys@.len(),
                i <= n,
                dates@.len() == i,
                forall|k: int| 0 <= k < i ==> #[trigger] dates@[k] == keys@[k].0,
            decreases n - i,
        {
            dates.push(keys[i].0);
            i += 1;
        }
        // ---- order, repeated keys ----
        let order = match sort_rows(&keys) {
            Ok(o) => o,
            Err(p) => {
                let mut m = String::from_str("stock_bar 存在重复键 (datetime=");
                let dt = date_text(keys[p].0);
                m.append(dt.as_str());
                m.append(", instrument=");
                m.append(raw_instruments[p].as_str());
                m.append(")");
                assert(smallest_repeated_row(keys@, p as int));
                return Err(BtError::Validation(m));
            },
        };
        let calendar = TradingCalendar::from_dates(dates);
        let ghost cal = calendar@;
        proof {
            assert forall|d: DateNum| #[trigger] cal.contains(d) <==> exists|i: int|
                0 <= i < keys_spec.len() && keys_spec[i].0 == d by {
                if cal.contains(d) {
                    assert(dates@.contains(d));
                    let i = choose|i: int| 0 <= i < dates@.len() && dates@[i] == d;
                    assert(keys@[i].0 == d);
                }
                if exists|i: int| 0 <= i < keys_spec.len() && keys_spec[i].0 == d {
                    let i = choose|i: int| 0 <= i < keys_spec.len() && keys_spec[i].0 == d;
                    assert(keys@[i].0 == dates@[i]);
                    assert(dates@.contains(dates@[i]));
                }
            }
        }
        // ---- day index and code of each stored row ----
        let mut days: Vec<DayIdx> = Vec::new();
        let mut codes: Vec<Code> = Vec::new();
        let mut k: usize = 0;
        while k < n
            invariant
                n == keys@.len() == order@.len(),
                keys@ == keys_spec,
                cal == calendar@,
                ascending_dates(cal),
                is_permutation(order@, n as nat),
                forall|d: DateNum| #[trigger] cal.contains(d) <==> exists|i: int|
                    0 <= i < keys_spec.len() && keys_spec[i].0 == d,
                k <= n,
                days@.len() == k,
                codes@.len() == k,
                forall|q: int|
                    0 <= q < k ==> {
                        &&& #[trigger] days@[q] < cal.len()
                        &&& cal[days@[q] as int] == keys@[order@[q] as int].0
                        &&& codes@[q] == keys@[order@[q] as int].1
                    },
            decreases n - k,
        {
            let row = order[k];
            assert(order@.contains(row));
            let key = keys[row];
            proof {
                assert(cal.contains(key.0));
            }
            match calendar.day_idx(key.0) {
                Some(d) => {
                    days.push(d);
                    codes.push(key.1);
                },
                None => {
                    proof {
                        assert(false);
                    }
                },
            }
            k += 1;
        }
        let m = calendar.dates().len();
        proof {
            // keys increase along the stored rows
            assert forall|k1: int, k2: int|
                #![trigger days@[k1], days@[k2]]
                0 <= k1 < k2 < n implies key_lt(
                    (cal[days@[k1] as int], codes@[k1]),
                    (cal[days@[k2] as int], codes@[k2]),
                ) by {
                assert(key_lt(keys@[order@[k1] as int], keys@[order@[k2] as int]));
            }
        }
        let day_offsets = day_ranges(&days, m, Ghost(cal), Ghost(codes@));
        proof {
            // every trading day has a row
            assert forall|d: int| 0 <= d < m implies #[trigger] day_has_row(days@, d) by {
                assert(cal.contains(cal[d]));
                let i = choose|i: int| 0 <= i < keys_spec.len() && keys_spec[i].0 == cal[d];
                assert(order@.contains(i as usize));
                let k0 = choose|k0: int| 0 <= k0 < order@.len() && order@[k0] == i as usize;
                assert(cal[days@[k0] as int] == cal[d]);
                if days@[k0] < d {
                    assert(cal[days@[k0] as int] < cal[d]);
                } else if days@[k0] > d {
                    assert(cal[d] < cal[days@[k0] as int]);
                }
            }
            assert forall|d: int, q: int|
                #![trigger day_offsets@[d], days@[q]]
                0 <= d < m && 0 <= q < n implies (day_offsets@[d].0 <= q < day_offsets@[d].0
                    + day_offsets@[d].1 <==> days@[q] == d) by {
                assert(day_has_row(days@, d));
            }
        }
        Ok(StockBarIndex { calendar, order, days, codes, day_offsets })
    }
}

/// Some row lies on day `d`.
pub open spec fn day_has_row(days: Seq<DayIdx>, d: int) -> bool {
    exists|k0: int| 0 <= k0 < days.len() && days[k0] == d
}

/// The (first row, number of rows) of every day, for day indices that do not
/// decrease along the rows and cover every day.
fn day_ranges(days: &Vec<DayIdx>, m: usize, Ghost(cal): Ghost<Seq<DateNum>>, Ghost(codes): Ghost<Seq<Code>>) -> (r: Vec<(u32, u32)>)
    requires
        days@.len() < u32::MAX,
        cal.len() == m,
        m <= u32::MAX,
        ascending_dates(cal),
        codes.len() == days@.len(),
        forall|k: int| 0 <= k < days@.len() ==> #[trigger] days@[k] < m,
        forall|k1: int, k2: int|
            #![trigger days@[k1], days@[k2]]
            0 <= k1 < k2 < days@.len() ==> key_lt(
                (cal[days@[k1] as int], codes[k1]),
                (cal[days@[k2] as int], codes[k2]),
            ),
    ensures
        r@.len() == m,
        forall|d: int, k: int|
            #![trigger r@[d], days@[k]]
            0 <= d < m && 0 <= k < days@.len() && day_has_row(days@, d) ==> (r@[d].0 <= k < r@[d].0 + r@[d].1 <==> days@[k] == d),
{
    let n = days.len();
    // day indices are non-decreasing
    assert forall|k1: int, k2: int|
        #![trigger days@[k1], days@[k2]]
        0 <= k1 <= k2 < n implies days@[k1] <= days@[k2] by {
        if k1 < k2 {
            assert(key_lt((cal[days@[k1] as int], codes[k1]), (cal[days@[k2] as int], codes[k2])));
            if days@[k1] > days@[k2] {
                assert(cal[days@[k2] as int] < cal[days@[k1] as int]);
            }
        }
    }
    let mut r: Vec<(u32, u32)> = Vec::new();
    let mut t: usize = 0;
    while t < m
        invariant
            t <= m,
            r@.len() == t,
            forall|d: int| 0 <= d < t ==> #[trigger] r@[d] == (0u32, 0u32),
        decreases m - t,
    {
        r.push((0, 0));
        t += 1;
    }
    let mut start: usize = 0;
    let mut k: usize = 1;
    if n == 0 {
        return r;
    }
    while k <= n
        invariant
            n == days@.len(),
            n > 0,
            n < u32::MAX,
            r@.len() == m,
            forall|q: int| 0 <= q < n ==> #[trigger] days@[q] < m,
            forall|k1: int, k2: int|
                #![trigger days@[k1], days@[k2]]
                0 <= k1 <= k2 < n ==> days@[k1] <= days@[k2],
            0 <= start < k <= n + 1,
            k <= n ==> start < k,
            forall|q: int| start <= q < k && q < n ==> #[trigger] days@[q] == days@[start as int],
            0 < start < n ==> days@[start - 1] < days@[start as int],
            k > n ==> start == n,
            // days whose rows all lie before `start` have their range set
            forall|d: int, q: int|
                #![trigger r@[d], days@[q]]
                0 <= d < m && 0 <= q < n && (exists|k0: int| 0 <= k0 < start && days@[k0] == d)
                    ==> (r@[d].0 <= q < r@[d].0 + r@[d].1 <==> days@[q] == d),
        decreases n + 1 - k,
    {
        if k == n || days[k] != days[start] {
            let d = days[start];
            let ghost old_r = r@;
            r.set(d as usize, (start as u32, (k - start) as u32));
            proof {
                assert forall|dd: int, q: int|
                    #![trigger r@[dd], days@[q]]
                    0 <= dd < m && 0 <= q < n && (exists|k0: int| 0 <= k0 < k && days@[k0] == dd)
                        implies (r@[dd].0 <= q < r@[dd].0 + r@[dd].1 <==> days@[q] == dd) by {
                    let k0 = choose|k0: int| 0 <= k0 < k && days@[k0] == dd;
                    if dd == d {
                        assert(r@[dd] == (start as u32, (k - start) as u32));
                        if q < start {
                            if start > 0 {
                                assert(days@[q] <= days@[start - 1]);
                            }
                        } else if q >= k {
                            assert(days@[k as int] != days@[start as int]);
                            assert(days@[start as int] <= days@[k as int]);
                            assert(days@[k as int] <= days@[q]);
                        }
                    } else {
                        assert(r@[dd] == old_r[dd]);
                        if k0 >= start {
                            assert(days@[k0] == days@[start as int]);
                        }
                        assert(exists|k1: int| 0 <= k1 < start && days@[k1] == dd);
                    }
                }
            }
            start = k;
        }
        k += 1;
    }
    proof {
        assert forall|d: int, q: int|
            #![trigger r@[d], days@[q]]
            0 <= d < m && 0 <= q < n && day_has_row(days@, d)
                implies (r@[d].0 <= q < r@[d].0 + r@[d].1 <==> days@[q] == d) by {
            let k0 = choose|k0: int| 0 <= k0 < n && days@[k0] == d;
            assert(exists|k1: int| 0 <= k1 < start && days@[k1] == d);
        }
    }
    r
}

} // verus!
