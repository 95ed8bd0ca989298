//! Rows keyed by their date and their instrument *text* (benchmark indices and
//! signal rows, whose instruments need not be stock codes): the first row, in
//! input order, whose key repeats an earlier row's.
use vstd::prelude::*;
use std::collections::HashSet;
use crate::data::calendar::{chrono_ymd_days, DateNum};
use crate::signal::lemma_parse_instrument_injective;
use crate::text::string_eq;
use crate::types::{parse_instrument, spec_parse_instrument};

verus! {

broadcast use vstd::std_specs::hash::group_hash_axioms;

/// Rows `a` and `b` have the same date and the same instrument text.
pub open spec fn same_row_text(raw_dates: Seq<String>, raw_instruments: Seq<String>, a: int, b: int) -> bool {
    chrono_ymd_days(raw_dates[a]@) == chrono_ymd_days(raw_dates[b]@) && raw_instruments[a]@
        == raw_instruments[b]@
}

/// Two rows have the same date and the same instrument text.
pub open spec fn repeated_text_row(raw_dates: Seq<String>, raw_instruments: Seq<String>) -> bool {
    exists|a: int, b: int| 0 <= a < b < raw_dates.len() && #[trigger] same_row_text(raw_dates, raw_instruments, a, b)
}

/// Row `p` is the first row, in input order, whose date and instrument text repeat
/// those of an earlier row.
pub open spec fn first_repeated_text_row(raw_dates: Seq<String>, raw_instruments: Seq<String>, p: int) -> bool {
    &&& 0 <= p < raw_dates.len()
    &&& exists|q: int| 0 <= q < p && #[trigger] same_row_text(raw_dates, raw_instruments, q, p)
    &&& forall|a: int, b: int| 0 <= a < b < p ==> !#[trigger] same_row_text(raw_dates, raw_instruments, a, b)
}

/// A number for each text: two rows get the same number exactly when their
/// texts are equal. Stock codes number themselves; other texts are numbered
/// from 2^32 in order of first appearance.
pub fn text_ids(raw: &Vec<String>) -> (r: Vec<u64>)
    requires
        raw@.len() < u32::MAX,
    ensures
        r@.len() == raw@.len(),
        forall|a: int, b: int|
            0 <= a < raw@.len() && 0 <= b < raw@.len() ==> (#[trigger] r@[a] == #[trigger] r@[b]
                <==> raw@[a]@ == raw@[b]@),
{
    let n = raw.len();
    let mut names: Vec<usize> = Vec::new();
    let mut ids: Vec<u64> = Vec::new();
    let mut i: usize = 0;
    while i < n
        invariant
            n == raw@.len() < u32::MAX,
            i <= n,
            ids@.len() == i,
            names@.len() <= i,
            forall|j: int|
                0 <= j < names@.len() ==> #[trigger] names@[j] < i && spec_parse_instrument(
                    raw@[names@[j] as int]@,
                ) is None,
            forall|a: int, b: int|
                0 <= a < b < names@.len() ==> raw@[#[trigger] names@[a] as int]@ != raw@[#[trigger] names@[b] as int]@,
            forall|k: int|
                0 <= k < i ==> match spec_parse_instrument(raw@[k]@) {
                    Some(c) => #[trigger] ids@[k] == c as u64,
                    None => ids@[k] >= 0x1_0000_0000 && ids@[k] - 0x1_0000_0000 < names@.len()
                        && raw@[names@[ids@[k] - 0x1_0000_0000] as int]@ == raw@[k]@,
                },
        decreases n - i,
    {
        match parse_instrument(raw[i].as_str()) {
            Ok(c) => {
                ids.push(c as u64);
            },
            Err(_) => {
                let mut j: usize = 0;
                while j < names.len() && !string_eq(&raw[names[j]], &raw[i])
                    invariant
                        n == raw@.len(),
                        i < n,
                        j <= names@.len(),
                        forall|x: int| 0 <= x < names@.len() ==> #[trigger] names@[x] < i,
                        forall|x: int| 0 <= x < j ==> raw@[#[trigger] names@[x] as int]@ != raw@[i as int]@,
                    decreases names@.len() - j,
                {
                    j += 1;
                }
                if j == names.len() {
                    let ghost old_names = names@;
                    names.push(i);
                    proof {
                        assert forall|a: int, b: int| 0 <= a < b < names@.len() implies raw@[
                            #[trigger] names@[a] as int]@ != raw@[#[trigger] names@[b] as int]@ by {
                            if b == old_names.len() {
                                assert(names@[a] == old_names[a]);
                            } else {
                                assert(names@[a] == old_names[a] && names@[b] == old_names[b]);
                            }
                        }
                        assert forall|x: int| 0 <= x < old_names.len() implies names@[x] == old_names[x] by {}
                    }
                }
                ids.push(0x1_0000_0000u64 + j as u64);
            },
        }
        i += 1;
    }
    proof {
        assert forall|a: int, b: int|
            0 <= a < raw@.len() && 0 <= b < raw@.len() implies (#[trigger] ids@[a] == #[trigger] ids@[b]
                <==> raw@[a]@ == raw@[b]@) by {
            match (spec_parse_instrument(raw@[a]@), spec_parse_instrument(raw@[b]@)) {
                (Some(ca), Some(cb)) => {
                    if ca == cb {
                        lemma_parse_instrument_injective(raw@[a]@, raw@[b]@);
                    }
                },
                (None, None) => {
                    let ja = ids@[a] - 0x1_0000_0000;
                    let jb = ids@[b] - 0x1_0000_0000;
                    if ja < jb {
                        assert(raw@[names@[ja] as int]@ != raw@[names@[jb] as int]@);
                    } else if jb < ja {
                        assert(raw@[names@[jb] as int]@ != raw@[names@[ja] as int]@);
                    }
                },
                _ => {},
            }
        }
    }
    ids
}

/// The number a (date, id) key is stored under: distinct keys, distinct numbers.
pub open spec fn pack_key(date: DateNum, id: u64) -> int {
    (date + 0x8000_0000) * 0x1_0000_0000_0000_0000 + id
}

proof fn lemma_pack_key_injective(d1: DateNum, i1: u64, d2: DateNum, i2: u64)
    requires
        pack_key(d1, i1) == pack_key(d2, i2),
    ensures
        d1 == d2 && i1 == i2,
{
    let x1: int = d1 + 0x8000_0000;
    let x2: int = d2 + 0x8000_0000;
    let m: int = 0x1_0000_0000_0000_0000;
    if x1 < x2 {
        assert(x1 * m + m <= x2 * m) by (nonlinear_arith)
            requires
                x1 < x2,
                m > 0,
        ;
    } else if x2 < x1 {
        assert(x2 * m + m <= x1 * m) by (nonlinear_arith)
            requires
                x2 < x1,
                m > 0,
        ;
    }
}

/// The first row, in input order, whose (date, id) repeats an earlier row's.
pub fn first_repeat(dates: &Vec<DateNum>, ids: &Vec<u64>) -> (r: Option<usize>)
    requires
        dates@.len() == ids@.len(),
    ensures
        match r {
            Some(p) => {
                &&& p < dates@.len()
                &&& exists|q: int| 0 <= q < p && dates@[q] == dates@[p as int] && ids@[q] == ids@[p as int]
                &&& forall|a: int, b: int|
                    0 <= a < b < p ==> !(#[trigger] dates@[a] == #[trigger] dates@[b] && ids@[a] == ids@[b])
            },
            None => forall|a: int, b: int|
                0 <= a < b < dates@.len() ==> !(#[trigger] dates@[a] == #[trigger] dates@[b] && ids@[a]
                    == ids@[b]),
        },
{
    let n = dates.len();
    let mut seen: HashSet<u128> = HashSet::new();
    let mut i: usize = 0;
    while i < n
        invariant
            n == dates@.len() == ids@.len(),
            i <= n,
            forall|k: u128| #[trigger] seen@.contains(k) <==> exists|j: int|
                0 <= j < i && pack_key(dates@[j], ids@[j]) == k,
            forall|a: int, b: int|
                0 <= a < b < i ==> !(#[trigger] dates@[a] == #[trigger] dates@[b] && ids@[a] == ids@[b]),
        decreases n - i,
    {
        let d = dates[i];
        let id = ids[i];
        assert(0 <= d + 0x8000_0000 < 0x1_0000_0000);
        assert(0 <= pack_key(d, id) < 0x1_0000_0000_0000_0000_0000_0000) by (nonlinear_arith)
            requires
                0 <= d + 0x8000_0000 < 0x1_0000_0000,
                pack_key(d, id) == (d + 0x8000_0000) * 0x1_0000_0000_0000_0000 + id,
                0 <= id < 0x1_0000_0000_0000_0000,
        ;
        let key: u128 = ((d as i64 + 0x8000_0000i64) as u128) * 0x1_0000_0000_0000_0000u128 + id as u128;
        assert(key == pack_key(d, id));
        if seen.contains(&key) {
            proof {
                let j = choose|j: int| 0 <= j < i && pack_key(dates@[j], ids@[j]) == key;
                lemma_pack_key_injective(dates@[j], ids@[j], d, id);
            }
            return Some(i);
        }
        let ghost old_seen = seen@;
        seen.insert(key);
        proof {
            assert forall|a: int, b: int| 0 <= a < b < i + 1 implies !(#[trigger] dates@[a] == #[trigger] dates@[b]
                && ids@[a] == ids@[b]) by {
                if b == i && dates@[a] == dates@[b] && ids@[a] == ids@[b] {
                    assert(pack_key(dates@[a], ids@[a]) == key);
                    assert(old_seen.contains(key));
                }
            }
            assert forall|k: u128| #[trigger] seen@.contains(k) implies exists|j: int|
                0 <= j < i + 1 && pack_key(dates@[j], ids@[j]) == k by {
                if k == key {
                    assert(pack_key(dates@[i as int], ids@[i as int]) == k);
                }
            }
        }
        i += 1;
    }
    None
}

} // verus!
