//! Layout of the wap (window VWAP / TWAP) data: valid window numbers, the columns
//! read for a window, the (date, code) order of its rows, and the matching of
//! its rows to the stock bar rows.
use vstd::prelude::*;
use vstd::string::*;
use crate::data::row_order::{
    all_dates_parse, all_instruments_parse, has_duplicate_key, is_permutation, key_lt,
    parse_row_keys, row_keys, smallest_repeated_row, sort_rows, RowKey,
};
use crate::data::stock_bar::StockBarIndex;
use crate::error::BtError;
use crate::text::{decimal, push_decimal};
use crate::types::WAP_WINDOW_MAX;

verus! {

/// Checks a window number: 1..=11, otherwise an `InvalidParam` error.
pub fn validate_window(window: u8) -> (r: Result<(), BtError>)
    ensures
        r is Ok <==> 1 <= window <= WAP_WINDOW_MAX,
        r matches Err(e) ==> e is InvalidParam,
{
    if 1 <= window && window <= WAP_WINDOW_MAX {
        Ok(())
    } else {
        Err(BtError::InvalidParam(String::from_str("wap 时段号须在 1..=11")))
    }
}

/// `wap_{window}{suffix}`.
pub open spec fn wap_column(window: u8, suffix: Seq<char>) -> Seq<char> {
    "wap_"@ + decimal(window as nat) + suffix
}

/// The columns read for a window: datetime, instrument, then the directional
/// prices of both price families and the directional volumes.
pub open spec fn spec_required_columns(window: u8) -> Seq<Seq<char>> {
    seq![
        "datetime"@,
        "instrument"@,
        wap_column(window, "_vwap_buy"@),
        wap_column(window, "_vwap_sell"@),
        wap_column(window, "_twap_buy"@),
        wap_column(window, "_twap_sell"@),
        wap_column(window, "_buy_volume"@),
        wap_column(window, "_sell_volume"@),
    ]
}

/// The wap data of window `N` must have, besides datetime and instrument, the
/// columns `wap_N_vwap_buy`, `wap_N_vwap_sell`, `wap_N_twap_buy`,
/// `wap_N_twap_sell`, `wap_N_buy_volume` and `wap_N_sell_volume`, N written in
/// decimal.
pub proof fn law_wap_columns(window: u8)
    ensures
        spec_required_columns(window) =~= seq![
            "datetime"@,
            "instrument"@,
            "wap_"@ + decimal(window as nat) + "_vwap_buy"@,
            "wap_"@ + decimal(window as nat) + "_vwap_sell"@,
            "wap_"@ + decimal(window as nat) + "_twap_buy"@,
            "wap_"@ + decimal(window as nat) + "_twap_sell"@,
            "wap_"@ + decimal(window as nat) + "_buy_volume"@,
            "wap_"@ + decimal(window as nat) + "_sell_volume"@,
        ],
{
}

fn column_name(window: u8, suffix: &str) -> (r: String)
    ensures
        r@ == wap_column(window, suffix@),
{
    let mut s = String::from_str("wap_");
    push_decimal(&mut s, window as u32);
    s.append(suffix);
    s
}

/// The columns read for a window.
pub fn required_columns(window: u8) -> (r: Vec<String>)
    ensures
        r@.len() == 8,
        forall|i: int| 0 <= i < 8 ==> #[trigger] r@[i]@ == spec_required_columns(window)[i],
{
    let mut r: Vec<String> = Vec::new();
    r.push(String::from_str("datetime"));
    r.push(String::from_str("instrument"));
    r.push(column_name(window, "_vwap_buy"));
    r.push(column_name(window, "_vwap_sell"));
    r.push(column_name(window, "_twap_buy"));
    r.push(column_name(window, "_twap_sell"));
    r.push(column_name(window, "_buy_volume"));
    r.push(column_name(window, "_sell_volume"));
    r
}

/// Keys in strictly increasing (date, code) order.
pub open spec fn keys_increasing(keys: Seq<RowKey>) -> bool {
    forall|i: int, j: int| 0 <= i < j < keys.len() ==> key_lt(#[trigger] keys[i], #[trigger] keys[j])
}

/// The wap rows in (date, code) order.
#[derive(Debug)]
pub struct WapIndex {
    order: Vec<usize>,
    keys: Vec<RowKey>,
}

/// The message of rows sharing a key, naming one of them.
pub open spec fn duplicate_key_message(date: Seq<char>, instrument: Seq<char>) -> Seq<char> {
    "wap 数据存在重复键 (datetime="@ + date + ", instrument="@ + instrument + ")"@
}

impl WapIndex {
    #[verifier::type_invariant]
    spec fn inv(self) -> bool {
        &&& is_permutation(self.order@, self.keys@.len())
        &&& keys_increasing(self.keys@)
    }

    pub closed spec fn spec_order(self) -> Seq<usize> {
        self.order@
    }

    pub closed spec fn spec_keys(self) -> Seq<RowKey> {
        self.keys@
    }

    /// Orders the rows given by their date and instrument texts.
    ///
    /// A date that does not parse is a `Calendar` error; then an instrument that is
    /// not a stock code is a `Validation` error; then two rows with the same
    /// (datetime, instrument) are a `Validation` error.
    pub fn build(raw_dates: &Vec<String>, raw_instruments: &Vec<String>) -> (r: Result<
        WapIndex,
        BtError,
    >)
        requires
            raw_dates@.len() == raw_instruments@.len(),
        ensures
            r is Ok <==> (all_dates_parse(raw_dates@) && all_instruments_parse(raw_instruments@)
                && !has_duplicate_key(row_keys(raw_dates@, raw_instruments@))),
            r matches Err(e) ==> if all_dates_parse(raw_dates@) {
                e is Validation
            } else {
                e is Calendar
            },
            r matches Err(e) ==> (all_dates_parse(raw_dates@) && all_instruments_parse(raw_instruments@)
                ==> exists|p: int| {
                &&& #[trigger] smallest_repeated_row(row_keys(raw_dates@, raw_instruments@), p)
                &&& e matches BtError::Validation(m) && m@ == duplicate_key_message(
                    raw_dates@[p]@,
                    raw_instruments@[p]@,
                )
            }),
            r matches Ok(ix) ==> {
                let keys = row_keys(raw_dates@, raw_instruments@);
                &&& ix.spec_order().len() == keys.len()
                &&& ix.spec_keys().len() == keys.len()
                &&& forall|k: int|
                    0 <= k < keys.len() ==> #[trigger] ix.spec_keys()[k] == keys[ix.spec_order()[k] as int]
            },
    {
        let keys = parse_row_keys(raw_dates, raw_instruments)?;
        let order = match sort_rows(&keys) {
            Ok(o) => o,
            Err(p) => {
                let mut m = String::from_str("wap 数据存在重复键 (datetime=");
                m.append(raw_dates[p].as_str());
                m.append(", instrument=");
                m.append(raw_instruments[p].as_str());
                m.append(")");
                assert(smallest_repeated_row(keys@, p as int));
                return Err(BtError::Validation(m));
            },
        };
        let n = order.len();
        let mut sorted: Vec<RowKey> = Vec::new();
        let mut k: usize = 0;
        while k < n
            invariant
                n == order@.len() == keys@.len(),
                is_permutation(order@, n as nat),
                k <= n,
                sorted@.len() == k,
                forall|q: int| 0 <= q < k ==> #[trigger] sorted@[q] == keys@[order@[q] as int],
            decreases n - k,
        {
            let row = order[k];
            assert(order@.contains(row));
            sorted.push(keys[row]);
            k += 1;
        }
        proof {
            assert forall|i: int, j: int| 0 <= i < j < sorted@.len() implies key_lt(
                #[trigger] sorted@[i],
                #[trigger] sorted@[j],
            ) by {
                assert(key_lt(keys@[order@[i] as int], keys@[order@[j] as int]));
            }
        }
        Ok(WapIndex { order, keys: sorted })
    }

    /// For each stored row, the position of that row in the input.
    pub fn order(&self) -> (r: &Vec<usize>)
        ensures
            r@ == self.spec_order(),
            is_permutation(r@, self.spec_keys().len()),
    {
        proof {
            use_type_invariant(self);
        }
        &self.order
    }

    /// The key of each stored row, strictly increasing.
    pub fn keys(&self) -> (r: &Vec<RowKey>)
        ensures
            r@ == self.spec_keys(),
            keys_increasing(r@),
    {
        proof {
            use_type_invariant(self);
        }
        &self.keys
    }

    /// For each stock bar row (in stored order), the stored wap row with the same
    /// (date, code) key, or `None` when the wap data has no such row.
    pub fn join(&self, bar: &StockBarIndex) -> (r: Vec<Option<usize>>)
        ensures
            r@.len() == bar.spec_days().len(),
            forall|k: int|
                0 <= k < r@.len() ==> match #[trigger] r@[k] {
                    Some(j) => j < self.spec_keys().len() && self.spec_keys()[j as int]
                        == bar.stored_key(k),
                    None => forall|j: int|
                        0 <= j < self.spec_keys().len() ==> self.spec_keys()[j] != bar.stored_key(k),
                },
    {
        proof {
            use_type_invariant(self);
        }
        let cal = bar.calendar();
        let days = bar.days();
        let codes = bar.codes();
        let n = days.len();
        let wk = &self.keys;
        let ghost bk = Seq::new(n as nat, |k: int| bar.stored_key(k));
        let mut r: Vec<Option<usize>> = Vec::new();
        let mut w: usize = 0;
        let mut k: usize = 0;
        while k < n
            invariant
                n == days@.len() == codes@.len(),
                days@ == bar.spec_days(),
                codes@ == bar.spec_codes(),
                cal@ == bar.spec_calendar(),
                forall|q: int| 0 <= q < n ==> #[trigger] days@[q] < cal@.len(),
                forall|k1: int, k2: int|
                    #![trigger days@[k1], days@[k2]]
                    0 <= k1 < k2 < n ==> key_lt(
                        (cal@[days@[k1] as int], codes@[k1]),
                        (cal@[days@[k2] as int], codes@[k2]),
                    ),
                wk@ == self.spec_keys(),
                keys_increasing(wk@),
                k <= n,
                w <= wk@.len(),
                r@.len() == k,
                // every wap row before w is below the key of bar row k
                forall|j: int| 0 <= j < w && k < n ==> key_lt(#[trigger] wk@[j], (cal@[days@[k as int] as int], codes@[k as int])),
                forall|q: int|
                    0 <= q < k ==> match #[trigger] r@[q] {
                        Some(j) => j < wk@.len() && wk@[j as int] == (cal@[days@[q] as int], codes@[q]),
                        None => forall|j: int|
                            0 <= j < wk@.len() ==> wk@[j] != (cal@[days@[q] as int], codes@[q]),
                    },
            decreases n - k,
        {
            let key = (cal.date(days[k]), codes[k]);
            while w < wk.len() && (wk[w].0 < key.0 || (wk[w].0 == key.0 && wk[w].1 < key.1))
                invariant
                    w <= wk@.len(),
                    forall|j: int| 0 <= j < w ==> key_lt(#[trigger] wk@[j], key),
                decreases wk@.len() - w,
            {
                w += 1;
            }
            if w < wk.len() && wk[w].0 == key.0 && wk[w].1 == key.1 {
                r.push(Some(w));
            } else {
                proof {
                    assert forall|j: int| 0 <= j < wk@.len() implies wk@[j] != key by {
                        if j > w {
                            assert(key_lt(wk@[w as int], wk@[j]));
                        }
                    }
                }
                r.push(None);
            }
            proof {
                if k + 1 < n {
                    let next = (cal@[days@[k + 1] as int], codes@[k + 1]);
                    assert(key_lt(key, next));
                    assert forall|j: int| 0 <= j < w implies key_lt(#[trigger] wk@[j], next) by {
                        assert(key_lt(wk@[j], key));
                    }
                }
            }
            k += 1;
        }
        r
    }
}

} // verus!
