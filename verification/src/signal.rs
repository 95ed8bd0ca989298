//! One day of signals: (code, score key) pairs with distinct codes, built from
//! `(instrument, score)` pairs with the validation rules of the signal loaders.
//!
//! A score is represented by its key (see `strategy::common`); `None` stands for a
//! score that the loader must drop (missing / NaN, or not finite where required).
use vstd::prelude::*;
use vstd::string::*;
use std::collections::HashSet;
use crate::error::{message_with, BtError};
use crate::strategy::common::{distinct_codes, Ranked, ScoreKey};
use crate::text::string_eq;
use crate::types::{parse_instrument, spec_format_instrument, spec_parse_instrument, Code};

verus! {

broadcast use vstd::std_specs::hash::group_hash_axioms;

/// The view of `(instrument, score)` input pairs.
pub open spec fn pairs_view(p: Seq<(String, Option<ScoreKey>)>) -> Seq<(Seq<char>, Option<ScoreKey>)> {
    p.map_values(|x: (String, Option<ScoreKey>)| (x.0@, x.1))
}

/// The pairs whose instrument parses, with their codes, in input order.
pub open spec fn parsed_pairs(p: Seq<(Seq<char>, Option<ScoreKey>)>) -> Seq<(Code, Option<ScoreKey>)>
    decreases p.len(),
{
    if p.len() == 0 {
        Seq::empty()
    } else {
        let rest = parsed_pairs(p.drop_last());
        match spec_parse_instrument(p.last().0) {
            Some(c) => rest.push((c, p.last().1)),
            None => rest,
        }
    }
}

/// The pairs that carry a score key, in input order.
pub open spec fn scored(p: Seq<(Code, Option<ScoreKey>)>) -> Seq<Ranked>
    decreases p.len(),
{
    if p.len() == 0 {
        Seq::empty()
    } else {
        let rest = scored(p.drop_last());
        match p.last().1 {
            Some(k) => rest.push((p.last().0, k)),
            None => rest,
        }
    }
}

/// No code occurs twice among the parsed pairs.
pub open spec fn codes_unique(p: Seq<(Code, Option<ScoreKey>)>) -> bool {
    forall|i: int, j: int| 0 <= i < j < p.len() ==> p[i].0 != p[j].0
}

/// No instrument text occurs twice.
pub open spec fn names_unique(p: Seq<(Seq<char>, Option<ScoreKey>)>) -> bool {
    forall|i: int, j: int| 0 <= i < j < p.len() ==> p[i].0 != p[j].0
}

/// The message of a repeated instrument, before the instrument's text.
pub open spec fn duplicate_text() -> Seq<char> {
    "pred 存在重复 instrument: "@
}

/// Pair `k` is the first whose parsed code repeats the code of an earlier parsed pair.
pub open spec fn first_repeated_code(p: Seq<(Seq<char>, Option<ScoreKey>)>, k: int) -> bool {
    &&& 0 <= k < p.len()
    &&& codes_unique(parsed_pairs(p.take(k)))
    &&& spec_parse_instrument(p[k].0) matches Some(c) && exists|j: int|
        0 <= j < parsed_pairs(p.take(k)).len() && (#[trigger] parsed_pairs(p.take(k))[j]).0 == c
}

/// Row `k` is the first whose instrument text repeats an earlier row's.
pub open spec fn first_repeated_name(p: Seq<(Seq<char>, Option<ScoreKey>)>, k: int) -> bool {
    &&& 0 <= k < p.len()
    &&& names_unique(p.take(k))
    &&& exists|j: int| 0 <= j < k && #[trigger] p[j].0 == p[k].0
}

/// The entries whose code is in `known`, in order.
pub open spec fn retained(s: Seq<Ranked>, known: Set<Code>) -> Seq<Ranked>
    decreases s.len(),
{
    if s.len() == 0 {
        Seq::empty()
    } else {
        let rest = retained(s.drop_last(), known);
        if known.contains(s.last().0) {
            rest.push(s.last())
        } else {
            rest
        }
    }
}

/// Two instruments that parse to the same code are the same text.
pub proof fn lemma_parse_instrument_injective(a: Seq<char>, b: Seq<char>)
    requires
        spec_parse_instrument(a) is Some,
        spec_parse_instrument(a) == spec_parse_instrument(b),
    ensures
        a == b,
{
    crate::types::law_parse_then_format_instrument(a);
    crate::types::law_parse_then_format_instrument(b);
}

/// Parsing a prefix of the pairs yields a prefix of the parsed pairs.
proof fn lemma_parsed_prefix(p: Seq<(Seq<char>, Option<ScoreKey>)>, i: int)
    requires
        0 <= i <= p.len(),
    ensures
        parsed_pairs(p.take(i)).len() <= parsed_pairs(p).len(),
        forall|j: int|
            0 <= j < parsed_pairs(p.take(i)).len() ==> #[trigger] parsed_pairs(p.take(i))[j]
                == parsed_pairs(p)[j],
    decreases p.len() - i,
{
    if i == p.len() {
        assert(p.take(i) =~= p);
    } else {
        let q = p.drop_last();
        assert(q.take(i) =~= p.take(i));
        lemma_parsed_prefix(q, i);
    }
}

/// Every parsed pair comes from an input pair with the same score.
proof fn lemma_parsed_from(p: Seq<(Seq<char>, Option<ScoreKey>)>)
    ensures
        forall|j: int|
            0 <= j < parsed_pairs(p).len() ==> exists|i: int|
                0 <= i < p.len() && spec_parse_instrument(p[i].0) == Some(
                    (#[trigger] parsed_pairs(p)[j]).0,
                ) && p[i].1 == parsed_pairs(p)[j].1,
    decreases p.len(),
{
    if p.len() > 0 {
        let q = p.drop_last();
        lemma_parsed_from(q);
        assert forall|j: int| 0 <= j < parsed_pairs(p).len() implies exists|i: int|
            0 <= i < p.len() && spec_parse_instrument(p[i].0) == Some(
                (#[trigger] parsed_pairs(p)[j]).0,
            ) && p[i].1 == parsed_pairs(p)[j].1 by {
            if j < parsed_pairs(q).len() {
                let i = choose|i: int|
                    0 <= i < q.len() && spec_parse_instrument(q[i].0) == Some(
                        (#[trigger] parsed_pairs(q)[j]).0,
                    ) && q[i].1 == parsed_pairs(q)[j].1;
                assert(p[i] == q[i]);
            } else {
                assert(p[p.len() - 1] == p.last());
            }
        }
    }
}

/// With unique codes, the scored pairs have distinct codes, each from a parsed pair.
proof fn lemma_scored_distinct(p: Seq<(Code, Option<ScoreKey>)>)
    requires
        codes_unique(p),
    ensures
        distinct_codes(scored(p)),
        forall|j: int|
            0 <= j < scored(p).len() ==> exists|i: int|
                0 <= i < p.len() && p[i].0 == (#[trigger] scored(p)[j]).0,
    decreases p.len(),
{
    if p.len() > 0 {
        let q = p.drop_last();
        assert(codes_unique(q)) by {
            assert forall|i: int, j: int| 0 <= i < j < q.len() implies q[i].0 != q[j].0 by {
                assert(q[i] == p[i] && q[j] == p[j]);
            }
        }
        lemma_scored_distinct(q);
        let s = scored(p);
        assert forall|j: int| 0 <= j < s.len() implies exists|i: int|
            0 <= i < p.len() && p[i].0 == (#[trigger] s[j]).0 by {
            if j < scored(q).len() {
                let i = choose|i: int| 0 <= i < q.len() && q[i].0 == (#[trigger] scored(q)[j]).0;
                assert(p[i] == q[i]);
            } else {
                assert(p[p.len() - 1] == p.last());
            }
        }
        assert(distinct_codes(s)) by {
            assert forall|a: int, b: int| 0 <= a < b < s.len() implies s[a].0 != s[b].0 by {
                if b >= scored(q).len() {
                    let i = choose|i: int| 0 <= i < q.len() && q[i].0 == (#[trigger] scored(q)[a]).0;
                    assert(p[i] == q[i]);
                    assert(s[b].0 == p.last().0);
                    assert(p[p.len() - 1] == p.last());
                }
            }
        }
    }
}

/// One day of signals: distinct codes with their score keys, unordered (strategies rank them).
#[derive(Debug)]
pub struct SignalDay {
    entries: Vec<Ranked>,
}

impl View for SignalDay {
    type V = Seq<Ranked>;

    closed spec fn view(&self) -> Seq<Ranked> {
        self.entries@
    }
}

impl Clone for SignalDay {
    fn clone(&self) -> (r: SignalDay)
        ensures
            r@ == self@,
    {
        proof {
            use_type_invariant(self);
        }
        let mut entries: Vec<Ranked> = Vec::new();
        let mut i: usize = 0;
        while i < self.entries.len()
            invariant
                i <= self.entries@.len(),
                entries@ == self.entries@.take(i as int),
            decreases self.entries@.len() - i,
        {
            entries.push(self.entries[i]);
            i += 1;
            assert(entries@ =~= self.entries@.take(i as int));
        }
        assert(self.entries@.take(self.entries@.len() as int) =~= self.entries@);
        SignalDay { entries }
    }
}

impl SignalDay {
    #[verifier::type_invariant]
    spec fn inv(self) -> bool {
        distinct_codes(self.entries@)
    }

    /// The (code, score key) entries; codes are distinct.
    pub fn entries(&self) -> (r: &Vec<Ranked>)
        ensures
            r@ == self@,
            distinct_codes(r@),
    {
        proof {
            use_type_invariant(self);
        }
        &self.entries
    }

    /// Number of entries.
    pub fn len(&self) -> (r: usize)
        ensures
            r == self@.len(),
    {
        self.entries.len()
    }

    /// Whether the day has no entries.
    pub fn is_empty(&self) -> (r: bool)
        ensures
            r == (self@.len() == 0),
    {
        self.entries.len() == 0
    }

    /// Builds a day from `(instrument, score)` pairs (signals generated in memory).
    ///
    /// Instruments that do not parse are dropped; a code that occurs twice among the
    /// parsed pairs is a `Validation` error (even when one of its scores is dropped);
    /// pairs without a usable score (`None`: not finite) are dropped.
    pub fn from_pairs(pairs: Vec<(String, Option<ScoreKey>)>) -> (r: Result<SignalDay, BtError>)
        ensures
            match r {
                Ok(day) => codes_unique(parsed_pairs(pairs_view(pairs@))) && day@ == scored(
                    parsed_pairs(pairs_view(pairs@)),
                ),
                Err(e) => !codes_unique(parsed_pairs(pairs_view(pairs@))) && exists|k: int| {
                    &&& #[trigger] first_repeated_code(pairs_view(pairs@), k)
                    &&& e matches BtError::Validation(m) && m@ == duplicate_text() + pairs_view(pairs@)[k].0
                },
            },
    {
        let ghost pv = pairs_view(pairs@);
        let mut seen: HashSet<Code> = HashSet::new();
        let mut out: Vec<Ranked> = Vec::new();
        let mut i: usize = 0;
        while i < pairs.len()
            invariant
                i <= pairs@.len(),
                pv == pairs_view(pairs@),
                pv.len() == pairs@.len(),
                codes_unique(parsed_pairs(pv.take(i as int))),
                forall|c: Code|
                    seen@.contains(c) <==> exists|j: int|
                        0 <= j < parsed_pairs(pv.take(i as int)).len() && (#[trigger] parsed_pairs(
                            pv.take(i as int),
                        )[j]).0 == c,
                out@ == scored(parsed_pairs(pv.take(i as int))),
            decreases pairs.len() - i,
        {
            let ghost pre = pv.take(i as int);
            let ghost prev = parsed_pairs(pre);
            assert(pv.take(i + 1) =~= pre.push(pv[i as int]));
            assert(pv.take(i + 1).drop_last() =~= pre);
            let name = &pairs[i].0;
            let key = pairs[i].1;
            assert(pv[i as int] == (name@, key));
            match parse_instrument(name.as_str()) {
                Err(_) => {},
                Ok(code) => {
                    if seen.contains(&code) {
                        proof {
                            let j = choose|j: int| 0 <= j < prev.len() && (#[trigger] prev[j]).0 == code;
                            let now = parsed_pairs(pv.take(i + 1));
                            assert(now == prev.push((code, key)));
                            assert(now[j].0 == now[prev.len() as int].0);
                            lemma_parsed_prefix(pv, i + 1);
                            assert(pv.take(pv.len() as int) =~= pv);
                            let all = parsed_pairs(pv);
                            assert(all[j] == now[j]);
                            assert(all[prev.len() as int] == now[prev.len() as int]);
                            assert(prev[j].0 == code);
                            assert(first_repeated_code(pv, i as int));
                        }
                        return Err(BtError::Validation(message_with("pred 存在重复 instrument: ", name.as_str())));
                    }
                    seen.insert(code);
                    match key {
                        Some(k) => out.push((code, k)),
                        None => {},
                    }
                    proof {
                        let now = parsed_pairs(pv.take(i + 1));
                        assert(now == prev.push((code, key)));
                        assert(now.drop_last() =~= prev);
                        assert forall|c: Code| seen@.contains(c) <==> exists|j: int|
                            0 <= j < now.len() && (#[trigger] now[j]).0 == c by {
                            if c == code {
                                assert(now[prev.len() as int].0 == c);
                            } else if seen@.contains(c) {
                                let j = choose|j: int| 0 <= j < prev.len() && (#[trigger] prev[j]).0 == c;
                                assert(now[j] == prev[j]);
                            } else {
                                if exists|j: int| 0 <= j < now.len() && (#[trigger] now[j]).0 == c {
                                    let j = choose|j: int| 0 <= j < now.len() && (#[trigger] now[j]).0 == c;
                                    assert(j < prev.len());
                                    assert(now[j] == prev[j]);
                                }
                            }
                        }
                        assert forall|a: int, b: int| 0 <= a < b < now.len() implies now[a].0 != now[b].0 by {
                            if b == prev.len() {
                                assert(now[a] == prev[a]);
                            } else {
                                assert(now[a] == prev[a] && now[b] == prev[b]);
                            }
                        }
                    }
                },
            }
            i += 1;
        }
        assert(pv.take(pairs.len() as int) =~= pv);
        proof {
            lemma_scored_distinct(parsed_pairs(pv));
        }
        Ok(SignalDay { entries: out })
    }

    /// Builds a day from the rows of a signal table for one date.
    ///
    /// An instrument text that occurs twice is a `Validation` error (checked before
    /// anything is dropped); rows without a score (`None`: missing / NaN) and rows
    /// whose instrument does not parse are dropped.
    pub fn from_rows(rows: Vec<(String, Option<ScoreKey>)>) -> (r: Result<SignalDay, BtError>)
        ensures
            match r {
                Ok(day) => names_unique(pairs_view(rows@)) && day@ == scored(
                    parsed_pairs(pairs_view(rows@)),
                ),
                Err(e) => !names_unique(pairs_view(rows@)) && exists|k: int| {
                    &&& #[trigger] first_repeated_name(pairs_view(rows@), k)
                    &&& e matches BtError::Validation(m) && m@ == duplicate_text() + pairs_view(rows@)[k].0
                },
            },
    {
        let ghost pv = pairs_view(rows@);
        let mut seen: HashSet<Code> = HashSet::new();
        let mut unparsed: Vec<usize> = Vec::new();
        let mut out: Vec<Ranked> = Vec::new();
        let mut i: usize = 0;
        while i < rows.len()
            invariant
                i <= rows@.len(),
                pv == pairs_view(rows@),
                pv.len() == rows@.len(),
                names_unique(pv.take(i as int)),
                forall|c: Code|
                    seen@.contains(c) <==> exists|j: int|
                        0 <= j < i && spec_parse_instrument(#[trigger] pv[j].0) == Some(c),
                forall|q: int| 0 <= q < unparsed@.len() ==> unparsed@[q] < i && spec_parse_instrument(
                    pv[#[trigger] unparsed@[q] as int].0,
                ) is None,
                forall|j: int|
                    0 <= j < i && spec_parse_instrument(#[trigger] pv[j].0) is None ==> exists|q: int|
                        0 <= q < unparsed@.len() && unparsed@[q] == j,
                codes_unique(parsed_pairs(pv.take(i as int))),
                forall|j: int|
                    0 <= j < parsed_pairs(pv.take(i as int)).len() ==> exists|a: int|
                        0 <= a < i && spec_parse_instrument(pv[a].0) == Some(
                            (#[trigger] parsed_pairs(pv.take(i as int))[j]).0,
                        ),
                out@ == scored(parsed_pairs(pv.take(i as int))),
            decreases rows.len() - i,
        {
            let ghost pre = pv.take(i as int);
            let ghost prev = parsed_pairs(pre);
            assert(pv.take(i + 1) =~= pre.push(pv[i as int]));
            assert(pv.take(i + 1).drop_last() =~= pre);
            let name = &rows[i].0;
            let key = rows[i].1;
            assert(pv[i as int] == (name@, key));
            match parse_instrument(name.as_str()) {
                Ok(code) => {
                    if seen.contains(&code) {
                        proof {
                            let j = choose|j: int|
                                0 <= j < i && spec_parse_instrument(#[trigger] pv[j].0) == Some(code);
                            lemma_parse_instrument_injective(pv[j].0, name@);
                            assert(!names_unique(pv));
                            assert(pv[j].0 == pv[i as int].0);
                            assert(first_repeated_name(pv, i as int));
                        }
                        return Err(BtError::Validation(message_with("pred 存在重复 instrument: ", name.as_str())));
                    }
                    proof {
                        let nt = pv.take(i + 1);
                        assert forall|a: int, b: int| 0 <= a < b < i + 1 implies nt[a].0 != nt[b].0 by {
                            if b == i {
                                if pv[a].0 == name@ {
                                    assert(spec_parse_instrument(pv[a].0) == Some(code));
                                    assert(seen@.contains(code));
                                }
                            } else {
                                assert(pre[a] == pv[a] && pre[b] == pv[b]);
                            }
                        }
                        let now = parsed_pairs(pv.take(i + 1));
                        assert(now == prev.push((code, key)));
                        assert(now.drop_last() =~= prev);
                        assert forall|a: int, b: int| 0 <= a < b < now.len() implies now[a].0 != now[b].0 by {
                            if b == prev.len() {
                                assert(now[a] == prev[a]);
                                let x = choose|x: int| 0 <= x < i && spec_parse_instrument(pv[x].0) == Some(
                                    (#[trigger] prev[a]).0,
                                );
                                if now[a].0 == code {
                                    assert(seen@.contains(code));
                                }
                            } else {
                                assert(now[a] == prev[a] && now[b] == prev[b]);
                            }
                        }
                        assert forall|j: int| 0 <= j < now.len() implies exists|a: int|
                            0 <= a < i + 1 && spec_parse_instrument(pv[a].0) == Some(
                                (#[trigger] now[j]).0,
                            ) by {
                            if j < prev.len() {
                                assert(now[j] == prev[j]);
                                let a = choose|a: int| 0 <= a < i && spec_parse_instrument(pv[a].0) == Some(
                                    (#[trigger] prev[j]).0,
                                );
                            } else {
                                assert(spec_parse_instrument(pv[i as int].0) == Some(now[j].0));
                            }
                        }
                    }
                    seen.insert(code);
                    match key {
                        Some(k) => out.push((code, k)),
                        None => {},
                    }
                    proof {
                        assert forall|j: int|
                            0 <= j < i + 1 && spec_parse_instrument(#[trigger] pv[j].0) is None implies exists|q: int|
                                0 <= q < unparsed@.len() && unparsed@[q] == j by {
                            assert(j != i);
                        }
                    }
                },
                Err(_) => {
                    let mut q: usize = 0;
                    while q < unparsed.len()
                        invariant
                            q <= unparsed@.len(),
                            i < rows@.len(),
                            pv == pairs_view(rows@),
                            pv.len() == rows@.len(),
                            name@ == pv[i as int].0,
                            names_unique(pv.take(i as int)),
                            forall|x: int| 0 <= x < unparsed@.len() ==> unparsed@[x] < i,
                            forall|x: int| 0 <= x < q ==> pv[unparsed@[x] as int].0 != name@,
                        decreases unparsed.len() - q,
                    {
                        let j = unparsed[q];
                        assert(pv[j as int] == (rows@[j as int].0@, rows@[j as int].1));
                        if string_eq(&rows[j].0, name) {
                            assert(!names_unique(pv));
                            assert(pv[j as int].0 == pv[i as int].0);
                            assert(first_repeated_name(pv, i as int));
                            return Err(BtError::Validation(message_with("pred 存在重复 instrument: ", name.as_str())));
                        }
                        q += 1;
                    }
                    proof {
                        let nt = pv.take(i + 1);
                        assert forall|a: int, b: int| 0 <= a < b < i + 1 implies nt[a].0 != nt[b].0 by {
                            if b == i {
                                if pv[a].0 == name@ {
                                    assert(spec_parse_instrument(pv[a].0) is None);
                                    let x = choose|x: int| 0 <= x < unparsed@.len() && unparsed@[x] == a;
                                }
                            } else {
                                assert(pre[a] == pv[a] && pre[b] == pv[b]);
                            }
                        }
                        let now = parsed_pairs(pv.take(i + 1));
                        assert(now == prev);
                    }
                    let ghost old_unparsed = unparsed@;
                    unparsed.push(i);
                    proof {
                        assert forall|j: int|
                            0 <= j < i + 1 && spec_parse_instrument(#[trigger] pv[j].0) is None implies exists|q: int|
                                0 <= q < unparsed@.len() && unparsed@[q] == j by {
                            if j == i {
                                assert(unparsed@[old_unparsed.len() as int] == j);
                            } else {
                                let q = choose|q: int| 0 <= q < old_unparsed.len() && old_unparsed[q] == j;
                                assert(unparsed@[q] == j);
                            }
                        }
                    }
                },
            }
            i += 1;
        }
        assert(pv.take(rows.len() as int) =~= pv);
        proof {
            lemma_scored_distinct(parsed_pairs(pv));
        }
        Ok(SignalDay { entries: out })
    }

    /// Keeps the entries whose code is in `known` (stocks with market data) and
    /// reports how many were dropped.
    pub fn retain_codes(&self, known: &HashSet<Code>) -> (r: (SignalDay, usize))
        ensures
            r.0@ == retained(self@, known@),
            r.1 == self@.len() - r.0@.len(),
    {
        proof {
            use_type_invariant(self);
        }
        let mut out: Vec<Ranked> = Vec::new();
        let mut i: usize = 0;
        while i < self.entries.len()
            invariant
                i <= self.entries@.len(),
                distinct_codes(self.entries@),
                out@ == retained(self.entries@.take(i as int), known@),
                out@.len() <= i,
                distinct_codes(out@),
                forall|j: int| 0 <= j < out@.len() ==> exists|a: int|
                    0 <= a < i && self.entries@[a] == #[trigger] out@[j],
            decreases self.entries.len() - i,
        {
            let e = self.entries[i];
            let ghost before = out@;
            let ghost pre = self.entries@.take(i as int);
            assert(self.entries@.take(i + 1) =~= pre.push(e));
            assert(self.entries@.take(i + 1).drop_last() =~= pre);
            if known.contains(&e.0) {
                proof {
                    assert forall|j: int| 0 <= j < out@.len() implies (#[trigger] out@[j]).0 != e.0 by {
                        let a = choose|a: int| 0 <= a < i && self.entries@[a] == #[trigger] out@[j];
                    }
                }
                out.push(e);
            }
            proof {
                assert forall|j: int| 0 <= j < out@.len() implies exists|a: int|
                    0 <= a < i + 1 && self.entries@[a] == #[trigger] out@[j] by {
                    if j < out@.len() - 1 || !known@.contains(e.0) {
                        assert(out@[j] == before[j]);
                        let a = choose|a: int| 0 <= a < i && self.entries@[a] == #[trigger] before[j];
                    }
                }
            }
            i += 1;
        }
        assert(self.entries@.take(self.entries@.len() as int) =~= self.entries@);
        let dropped = self.entries.len() - out.len();
        (SignalDay { entries: out }, dropped)
    }
}

} // verus!
