//! Row keys of the market data and their ordering: rows are stored in
//! (date, code) order, and no two rows may share a key.
use vstd::prelude::*;
use crate::data::calendar::{chrono_date_text, chrono_ymd_days, parse_date, DateNum};
use crate::error::BtError;
use crate::types::{parse_instrument, spec_parse_instrument, Code};

verus! {

/// The key of a market-data row: its date and stock code.
pub type RowKey = (DateNum, Code);

/// `a` comes strictly before `b`: by date, then by code.
pub open spec fn key_lt(a: RowKey, b: RowKey) -> bool {
    a.0 < b.0 || (a.0 == b.0 && a.1 < b.1)
}

/// `a` comes before `b` or equals it.
pub open spec fn key_le(a: RowKey, b: RowKey) -> bool {
    key_lt(a, b) || a == b
}

/// The rows listed in `order` have non-decreasing keys.
pub open spec fn sorted_rows(keys: Seq<RowKey>, order: Seq<usize>) -> bool {
    forall|i: int, j: int|
        #![trigger order[i], order[j]]
        0 <= i < j < order.len() ==> key_le(keys[order[i] as int], keys[order[j] as int])
}

/// The rows listed in `order` have strictly increasing keys.
pub open spec fn strictly_sorted_rows(keys: Seq<RowKey>, order: Seq<usize>) -> bool {
    forall|i: int, j: int|
        #![trigger order[i], order[j]]
        0 <= i < j < order.len() ==> key_lt(keys[order[i] as int], keys[order[j] as int])
}

/// `order` lists every row index below `n` exactly once.
pub open spec fn is_permutation(order: Seq<usize>, n: nat) -> bool {
    &&& order.len() == n
    &&& order.no_duplicates()
    &&& forall|x: usize| #[trigger] order.contains(x) <==> x < n
}

/// Two different rows share a key.
pub open spec fn has_duplicate_key(keys: Seq<RowKey>) -> bool {
    exists|p: int, q: int| 0 <= p < keys.len() && 0 <= q < keys.len() && p != q && keys[p] == keys[q]
}

/// Row `p` holds a repeated key, and no repeated key is smaller than it.
pub open spec fn smallest_repeated_row(keys: Seq<RowKey>, p: int) -> bool {
    &&& 0 <= p < keys.len()
    &&& exists|q: int| 0 <= q < keys.len() && q != p && keys[q] == keys[p]
    &&& forall|q1: int, q2: int|
        0 <= q1 < keys.len() && 0 <= q2 < keys.len() && q1 != q2 && keys[q1] == keys[q2] ==> key_le(
            keys[p],
            #[trigger] keys[q1],
        ) && keys[q1] == #[trigger] keys[q2]
}

proof fn lemma_push_contains(s: Seq<usize>, x: usize, y: usize)
    ensures
        s.push(x).contains(y) <==> (s.contains(y) || y == x),
{
    if s.push(x).contains(y) {
        let k = choose|k: int| 0 <= k < s.push(x).len() && s.push(x)[k] == y;
        if k < s.len() {
            assert(s[k] == y);
        }
    }
    if s.contains(y) {
        let k = choose|k: int| 0 <= k < s.len() && s[k] == y;
        assert(s.push(x)[k] == y);
    }
    if y == x {
        assert(s.push(x)[s.len() as int] == y);
    }
}

/// Merges two key-sorted, disjoint index lists into one.
fn merge(keys: &Vec<RowKey>, a: Vec<usize>, b: Vec<usize>) -> (r: Vec<usize>)
    requires
        sorted_rows(keys@, a@),
        sorted_rows(keys@, b@),
        a@.no_duplicates(),
        b@.no_duplicates(),
        forall|x: usize| #[trigger] a@.contains(x) ==> !b@.contains(x),
        forall|i: int| 0 <= i < a@.len() ==> #[trigger] a@[i] < keys@.len(),
        forall|i: int| 0 <= i < b@.len() ==> #[trigger] b@[i] < keys@.len(),
    ensures
        r@.len() == a@.len() + b@.len(),
        sorted_rows(keys@, r@),
        r@.no_duplicates(),
        forall|x: usize| #[trigger] r@.contains(x) <==> (a@.contains(x) || b@.contains(x)),
{
    let mut r: Vec<usize> = Vec::new();
    let mut i: usize = 0;
    let mut j: usize = 0;
    while i < a.len() || j < b.len()
        invariant
            i <= a@.len(),
            j <= b@.len(),
            r@.len() == i + j,
            sorted_rows(keys@, a@),
            sorted_rows(keys@, b@),
            a@.no_duplicates(),
            b@.no_duplicates(),
            forall|x: usize| #[trigger] a@.contains(x) ==> !b@.contains(x),
            forall|k: int| 0 <= k < a@.len() ==> #[trigger] a@[k] < keys@.len(),
            forall|k: int| 0 <= k < b@.len() ==> #[trigger] b@[k] < keys@.len(),
            sorted_rows(keys@, r@),
            r@.no_duplicates(),
            forall|x: usize| #[trigger]
                r@.contains(x) <==> (a@.take(i as int).contains(x) || b@.take(j as int).contains(x)),
            forall|k: int, p: int|
                #![trigger r@[k], a@[p]]
                0 <= k < r@.len() && i <= p < a@.len() ==> key_le(
                    keys@[r@[k] as int],
                    keys@[a@[p] as int],
                ),
            forall|k: int, q: int|
                #![trigger r@[k], b@[q]]
                0 <= k < r@.len() && j <= q < b@.len() ==> key_le(
                    keys@[r@[k] as int],
                    keys@[b@[q] as int],
                ),
        decreases a@.len() + b@.len() - i - j,
    {
        let take_a = if i < a.len() && j < b.len() {
            let ka = keys[a[i]];
            let kb = keys[b[j]];
            ka.0 < kb.0 || (ka.0 == kb.0 && ka.1 <= kb.1)
        } else {
            i < a.len()
        };
        let ghost old_r = r@;
        if take_a {
            let x = a[i];
            proof {
                // x is new: it is not in a[..i] (no duplicates in a), nor in b
                if old_r.contains(x) {
                    if a@.take(i as int).contains(x) {
                        let p = choose|p: int| 0 <= p < i && a@.take(i as int)[p] == x;
                        assert(a@[p] == a@[i as int]);
                    } else {
                        let q = choose|q: int| 0 <= q < j && b@.take(j as int)[q] == x;
                        assert(a@.contains(x));
                        assert(b@.contains(b@[q]));
                    }
                }
            }
            r.push(x);
            i += 1;
            proof {
                assert forall|k: int, p: int|
                    #![trigger r@[k], a@[p]]
                    0 <= k < r@.len() && i <= p < a@.len() implies key_le(
                        keys@[r@[k] as int],
                        keys@[a@[p] as int],
                    ) by {
                    if k < old_r.len() {
                        assert(r@[k] == old_r[k]);
                    } else {
                        assert(r@[k] == a@[i - 1]);
                    }
                }
                assert forall|k: int, q: int|
                    #![trigger r@[k], b@[q]]
                    0 <= k < r@.len() && j <= q < b@.len() implies key_le(
                        keys@[r@[k] as int],
                        keys@[b@[q] as int],
                    ) by {
                    if k < old_r.len() {
                        assert(r@[k] == old_r[k]);
                    } else {
                        assert(r@[k] == a@[i - 1]);
                        assert(key_le(keys@[b@[j as int] as int], keys@[b@[q] as int]) || q == j);
                    }
                }
            }
        } else {
            let x = b[j];
            proof {
                if old_r.contains(x) {
                    if b@.take(j as int).contains(x) {
                        let q = choose|q: int| 0 <= q < j && b@.take(j as int)[q] == x;
                        assert(b@[q] == b@[j as int]);
                    } else {
                        let p = choose|p: int| 0 <= p < i && a@.take(i as int)[p] == x;
                        assert(a@.contains(a@[p]));
                        assert(b@.contains(x));
                    }
                }
            }
            r.push(x);
            j += 1;
            proof {
                assert forall|k: int, p: int|
                    #![trigger r@[k], a@[p]]
                    0 <= k < r@.len() && i <= p < a@.len() implies key_le(
                        keys@[r@[k] as int],
                        keys@[a@[p] as int],
                    ) by {
                    if k < old_r.len() {
                        assert(r@[k] == old_r[k]);
                    } else {
                        assert(r@[k] == b@[j - 1]);
                        assert(key_le(keys@[a@[i as int] as int], keys@[a@[p] as int]) || p == i);
                    }
                }
                assert forall|k: int, q: int|
                    #![trigger r@[k], b@[q]]
                    0 <= k < r@.len() && j <= q < b@.len() implies key_le(
                        keys@[r@[k] as int],
                        keys@[b@[q] as int],
                    ) by {
                    if k < old_r.len() {
                        assert(r@[k] == old_r[k]);
                    } else {
                        assert(r@[k] == b@[j - 1]);
                    }
                }
            }
        }
        proof {
            assert forall|x: usize| #[trigger] r@.contains(x) <==> (a@.take(i as int).contains(x)
                || b@.take(j as int).contains(x)) by {
                if take_a {
                    assert(r@ =~= old_r.push(a@[i - 1]));
                    assert(a@.take(i as int) =~= a@.take(i - 1).push(a@[i - 1]));
                    lemma_push_contains(old_r, a@[i - 1], x);
                    lemma_push_contains(a@.take(i - 1), a@[i - 1], x);
                } else {
                    assert(r@ =~= old_r.push(b@[j - 1]));
                    assert(b@.take(j as int) =~= b@.take(j - 1).push(b@[j - 1]));
                    lemma_push_contains(old_r, b@[j - 1], x);
                    lemma_push_contains(b@.take(j - 1), b@[j - 1], x);
                }
            }
            assert(sorted_rows(keys@, r@)) by {
                assert forall|k1: int, k2: int|
                    #![trigger r@[k1], r@[k2]]
                    0 <= k1 < k2 < r@.len() implies key_le(
                        keys@[r@[k1] as int],
                        keys@[r@[k2] as int],
                    ) by {
                    if k2 < old_r.len() {
                        assert(r@[k1] == old_r[k1] && r@[k2] == old_r[k2]);
                    } else if take_a {
                        assert(r@[k1] == old_r[k1]);
                        assert(r@[k2] == a@[i - 1]);
                    } else {
                        assert(r@[k1] == old_r[k1]);
                        assert(r@[k2] == b@[j - 1]);
                    }
                }
            }
        }
    }
    proof {
        assert(a@.take(a@.len() as int) =~= a@);
        assert(b@.take(b@.len() as int) =~= b@);
    }
    r
}

/// The row indices `lo..hi` in key order.
fn sort_range(keys: &Vec<RowKey>, lo: usize, hi: usize) -> (r: Vec<usize>)
    requires
        lo <= hi <= keys@.len(),
    ensures
        r@.len() == hi - lo,
        sorted_rows(keys@, r@),
        r@.no_duplicates(),
        forall|x: usize| #[trigger] r@.contains(x) <==> lo <= x < hi,
    decreases hi - lo,
{
    if hi - lo <= 1 {
        let mut r: Vec<usize> = Vec::new();
        if hi > lo {
            r.push(lo);
        }
        proof {
            assert forall|x: usize| #[trigger] r@.contains(x) <==> lo <= x < hi by {
                if r@.contains(x) {
                    let k = choose|k: int| 0 <= k < r@.len() && r@[k] == x;
                }
                if lo <= x < hi {
                    assert(r@[0] == x);
                }
            }
        }
        r
    } else {
        let mid = lo + (hi - lo) / 2;
        let a = sort_range(keys, lo, mid);
        let b = sort_range(keys, mid, hi);
        proof {
            assert forall|k: int| 0 <= k < a@.len() implies #[trigger] a@[k] < keys@.len() by {
                assert(a@.contains(a@[k]));
            }
            assert forall|k: int| 0 <= k < b@.len() implies #[trigger] b@[k] < keys@.len() by {
                assert(b@.contains(b@[k]));
            }
        }
        merge(keys, a, b)
    }
}

/// Orders the rows by key. Returns the row order when every key is distinct;
/// otherwise the index of a row whose key another row shares, taken among the
/// rows with the smallest shared key.
pub fn sort_rows(keys: &Vec<RowKey>) -> (r: Result<Vec<usize>, usize>)
    ensures
        match r {
            Ok(order) => {
                &&& is_permutation(order@, keys@.len())
                &&& strictly_sorted_rows(keys@, order@)
                &&& !has_duplicate_key(keys@)
            },
            Err(p) => {
                &&& p < keys@.len()
                &&& exists|q: int| 0 <= q < keys@.len() && q != p && keys@[q] == keys@[p as int]
                &&& forall|q1: int, q2: int|
                    0 <= q1 < keys@.len() && 0 <= q2 < keys@.len() && q1 != q2 && keys@[q1]
                        == keys@[q2] ==> key_le(keys@[p as int], #[trigger] keys@[q1])
                        && keys@[q1] == #[trigger] keys@[q2]
            },
        },
{
    let order = sort_range(keys, 0, keys.len());
    let n = order.len();
    let mut i: usize = 0;
    while n > 0 && i < n - 1
        invariant
            n == order@.len() == keys@.len(),
            sorted_rows(keys@, order@),
            order@.no_duplicates(),
            forall|x: usize| #[trigger] order@.contains(x) <==> x < n,
            i < n || n == 0,
            forall|m: int|
                0 <= m < i ==> key_lt(keys@[order@[m] as int], keys@[#[trigger] order@[m + 1] as int]),
        decreases n - i,
    {
        let p = order[i];
        let q = order[i + 1];
        assert(order@.contains(p) && order@.contains(q));
        let kp = keys[p];
        let kq = keys[q];
        if kp.0 == kq.0 && kp.1 == kq.1 {
            proof {
                assert(order@[i as int] != order@[i + 1]);
                assert(keys@[q as int] == keys@[p as int]);
                assert forall|q1: int, q2: int|
                    0 <= q1 < keys@.len() && 0 <= q2 < keys@.len() && q1 != q2 && keys@[q1]
                        == keys@[q2] implies key_le(keys@[p as int], #[trigger] keys@[q1])
                    && keys@[q1] == #[trigger] keys@[q2] by {
                    assert(order@.contains(q1 as usize) && order@.contains(q2 as usize));
                    let a = choose|a: int| 0 <= a < n && order@[a] == q1 as usize;
                    let b = choose|b: int| 0 <= b < n && order@[b] == q2 as usize;
                    let lo = if a < b { a } else { b };
                    let hi = if a < b { b } else { a };
                    if lo < i {
                        // keys strictly increase from lo to lo + 1, so the key at hi differs
                        assert(key_lt(keys@[order@[lo] as int], keys@[order@[lo + 1] as int]));
                        if lo + 1 < hi {
                            assert(key_le(keys@[order@[lo + 1] as int], keys@[order@[hi] as int]));
                        }
                        assert(false);
                    }
                    if lo > i {
                        assert(key_le(keys@[order@[i as int] as int], keys@[order@[lo] as int]));
                    }
                }
            }
            return Err(p);
        }
        i += 1;
    }
    proof {
        assert(strictly_sorted_rows(keys@, order@)) by {
            assert forall|a: int, b: int|
                #![trigger order@[a], order@[b]]
                0 <= a < b < order@.len() implies key_lt(
                    keys@[order@[a] as int],
                    keys@[order@[b] as int],
                ) by {
                assert(key_lt(keys@[order@[a] as int], keys@[order@[a + 1] as int]));
                if a + 1 < b {
                    assert(key_le(keys@[order@[a + 1] as int], keys@[order@[b] as int]));
                }
            }
        }
        assert(!has_duplicate_key(keys@)) by {
            if has_duplicate_key(keys@) {
                let (p, q) = choose|p: int, q: int|
                    0 <= p < keys@.len() && 0 <= q < keys@.len() && p != q && keys@[p] == keys@[q];
                assert(order@.contains(p as usize) && order@.contains(q as usize));
                let a = choose|a: int| 0 <= a < n && order@[a] == p as usize;
                let b = choose|b: int| 0 <= b < n && order@[b] == q as usize;
                if a < b {
                    assert(key_lt(keys@[order@[a] as int], keys@[order@[b] as int]));
                } else {
                    assert(key_lt(keys@[order@[b] as int], keys@[order@[a] as int]));
                }
            }
        }
    }
    Ok(order)
}

/// Every date text parses.
pub open spec fn all_dates_parse(raw: Seq<String>) -> bool {
    forall|i: int| 0 <= i < raw.len() ==> (#[trigger] chrono_ymd_days(raw[i]@)) is Some
}

/// Every instrument text is a stock code.
pub open spec fn all_instruments_parse(raw: Seq<String>) -> bool {
    forall|i: int| 0 <= i < raw.len() ==> (#[trigger] spec_parse_instrument(raw[i]@)) is Some
}

/// The (date, code) key of every row (meaningful when every date and instrument parses).
pub open spec fn row_keys(raw_dates: Seq<String>, raw_instruments: Seq<String>) -> Seq<RowKey> {
    Seq::new(
        raw_dates.len(),
        |i: int|
            (
                chrono_ymd_days(raw_dates[i]@).unwrap(),
                spec_parse_instrument(raw_instruments[i]@).unwrap(),
            ),
    )
}

/// Parses the date and instrument texts of every row into its (date, code) key:
/// a date that does not parse is a `Calendar` error, then an instrument that is
/// not a stock code is a `Validation` error (the first offending row in each case).
pub fn parse_row_keys(raw_dates: &Vec<String>, raw_instruments: &Vec<String>) -> (r: Result<
    Vec<RowKey>,
    BtError,
>)
    requires
        raw_dates@.len() == raw_instruments@.len(),
    ensures
        r is Ok <==> (all_dates_parse(raw_dates@) && all_instruments_parse(raw_instruments@)),
        r matches Err(e) ==> if all_dates_parse(raw_dates@) {
            e is Validation
        } else {
            e is Calendar
        },
        r matches Ok(keys) ==> keys@ == row_keys(raw_dates@, raw_instruments@),
        r matches Ok(keys) ==> forall|k: int| 0 <= k < keys@.len() ==> chrono_date_text((#[trigger] keys@[k]).0) is Some,
{
    let n = raw_dates.len();
    let ghost keys_spec = row_keys(raw_dates@, raw_instruments@);
    let mut dates: Vec<DateNum> = Vec::new();
    let mut i: usize = 0;
    while i < n
        invariant
            n == raw_dates@.len(),
            i <= n,
            dates@.len() == i,
            forall|k: int| 0 <= k < i ==> chrono_ymd_days(raw_dates@[k]@) == Some(#[trigger] dates@[k]),
            forall|k: int| 0 <= k < i ==> chrono_date_text(#[trigger] dates@[k]) is Some,
        decreases n - i,
    {
        match parse_date(raw_dates[i].as_str()) {
            Ok(d) => dates.push(d),
            Err(e) => {
                proof {
                    assert(!(chrono_ymd_days(raw_dates@[i as int]@) is Some));
                }
                return Err(e);
            },
        }
        i += 1;
    }
    let mut keys: Vec<RowKey> = Vec::new();
    let mut j: usize = 0;
    while j < n
        invariant
            n == raw_dates@.len() == raw_instruments@.len() == dates@.len(),
            j <= n,
            keys@.len() == j,
            forall|k: int| 0 <= k < n ==> chrono_ymd_days(raw_dates@[k]@) == Some(#[trigger] dates@[k]),
            forall|k: int| 0 <= k < n ==> chrono_date_text(#[trigger] dates@[k]) is Some,
            forall|k: int|
                0 <= k < j ==> #[trigger] keys@[k] == (dates@[k], spec_parse_instrument(raw_instruments@[k]@).unwrap())
                    && spec_parse_instrument(raw_instruments@[k]@) is Some,
        decreases n - j,
    {
        match parse_instrument(raw_instruments[j].as_str()) {
            Ok(c) => keys.push((dates[j], c)),
            Err(e) => {
                proof {
                    assert(all_dates_parse(raw_dates@)) by {
                        assert forall|k: int| 0 <= k < raw_dates@.len() implies (#[trigger] chrono_ymd_days(
                            raw_dates@[k]@,
                        )) is Some by {
                            assert(chrono_ymd_days(raw_dates@[k]@) == Some(dates@[k]));
                        }
                    }
                    assert(!(spec_parse_instrument(raw_instruments@[j as int]@) is Some));
                }
                return Err(e);
            },
        }
        j += 1;
    }
    proof {
        assert forall|k: int| 0 <= k < raw_dates@.len() implies (#[trigger] chrono_ymd_days(
            raw_dates@[k]@,
        )) is Some by {
            assert(chrono_ymd_days(raw_dates@[k]@) == Some(dates@[k]));
        }
        assert forall|k: int| 0 <= k < raw_instruments@.len() implies (#[trigger] spec_parse_instrument(
            raw_instruments@[k]@,
        )) is Some by {
            assert(keys@[k] == keys@[k]);
        }
        assert(keys@ =~= keys_spec) by {
            assert forall|k: int| 0 <= k < n implies keys@[k] == keys_spec[k] by {
                assert(keys@[k] == keys@[k]);
                assert(chrono_ymd_days(raw_dates@[k]@) == Some(dates@[k]));
            }
        }
    }
    Ok(keys)
}

} // verus!
