//! Reusable ranking rules of the strategies: a strict total order on
//! (code, score key) pairs and the selection of the first `k` items in that order.
//!
//! A score key is an integer that orders exactly as the score does: the caller
//! maps each finite score to a key with `a < b <==> key(a) < key(b)` and
//! `a == b <==> key(a) == key(b)`. Ties are broken by code, smaller first.
use vstd::prelude::*;
use std::collections::{HashMap, HashSet};
use crate::types::{strictly_increasing, Code};

verus! {

broadcast use vstd::std_specs::hash::group_hash_axioms;

/// Integer standing for a score, ordered as the score is.
pub type ScoreKey = i64;

/// A stock with its score key.
pub type Ranked = (Code, ScoreKey);

/// `a` comes before `b`: by score (descending or ascending), ties by smaller code.
pub open spec fn ranks_before(a: Ranked, b: Ranked, descending: bool) -> bool {
    if a.1 == b.1 {
        a.0 < b.0
    } else if descending {
        a.1 > b.1
    } else {
        a.1 < b.1
    }
}

/// No code occurs twice.
pub open spec fn distinct_codes(s: Seq<Ranked>) -> bool {
    forall|i: int, j: int| 0 <= i < j < s.len() ==> s[i].0 != s[j].0
}

/// The sequence is in strictly increasing rank order.
pub open spec fn sorted_by(s: Seq<Ranked>, descending: bool) -> bool {
    forall|i: int, j: int| 0 <= i < j < s.len() ==> ranks_before(s[i], s[j], descending)
}

/// The smaller of two naturals.
pub open spec fn min_nat(a: nat, b: nat) -> nat {
    if a < b {
        a
    } else {
        b
    }
}

/// `r` holds the first `k` items of `items` in rank order, in that order
/// (all of them when there are no more than `k`).
pub open spec fn is_top_k(r: Seq<Ranked>, items: Seq<Ranked>, k: nat, descending: bool) -> bool {
    &&& sorted_by(r, descending)
    &&& r.len() == min_nat(items.len(), k)
    &&& forall|i: int| 0 <= i < r.len() ==> items.contains(#[trigger] r[i])
    &&& items.len() <= k ==> forall|j: int| 0 <= j < items.len() ==> r.contains(#[trigger] items[j])
    &&& forall|i: int, j: int|
        0 <= i < r.len() && 0 <= j < items.len() && !r.contains(#[trigger] items[j])
            ==> ranks_before(#[trigger] r[i], items[j], descending)
}

/// Exact comparison of the rank order.
pub fn rank_before(a: Ranked, b: Ranked, descending: bool) -> (r: bool)
    ensures
        r == ranks_before(a, b, descending),
{
    if a.1 == b.1 {
        a.0 < b.0
    } else if descending {
        a.1 > b.1
    } else {
        a.1 < b.1
    }
}

/// Inserting a new item at its rank position (and dropping the item pushed past
/// `k`) keeps the buffer the first `k` of the items seen so far.
proof fn lemma_insert_top_k(
    b: Seq<Ranked>,
    prefix: Seq<Ranked>,
    x: Ranked,
    p: int,
    k: nat,
    descending: bool,
)
    requires
        is_top_k(b, prefix, k, descending),
        forall|j: int| 0 <= j < prefix.len() ==> (#[trigger] prefix[j]).0 != x.0,
        0 <= p <= b.len(),
        forall|q: int| 0 <= q < p ==> ranks_before(#[trigger] b[q], x, descending),
        forall|q: int| p <= q < b.len() ==> ranks_before(x, #[trigger] b[q], descending),
    ensures
        p >= k ==> is_top_k(b, prefix.push(x), k, descending),
        p < k ==> is_top_k(
            if b.insert(p, x).len() > k {
                b.insert(p, x).drop_last()
            } else {
                b.insert(p, x)
            },
            prefix.push(x),
            k,
            descending,
        ),
{
    let np = prefix.push(x);
    assert forall|j: int| 0 <= j < prefix.len() implies np[j] == prefix[j] by {}
    assert(np[prefix.len() as int] == x);
    // x is not in the buffer: every buffered item comes from the prefix.
    assert(!b.contains(x)) by {
        if b.contains(x) {
            let q = choose|q: int| 0 <= q < b.len() && b[q] == x;
            assert(prefix.contains(b[q]));
        }
    }
    if p >= k {
        assert(b.len() == k);
        assert(p == b.len());
        assert(prefix.len() >= k);
        assert forall|i: int| 0 <= i < b.len() implies np.contains(#[trigger] b[i]) by {
            let j = choose|j: int| 0 <= j < prefix.len() && prefix[j] == b[i];
            assert(np[j] == b[i]);
        }
        assert forall|i: int, j: int|
            0 <= i < b.len() && 0 <= j < np.len() && !b.contains(#[trigger] np[j])
                implies ranks_before(#[trigger] b[i], np[j], descending) by {
            if j < prefix.len() {
                assert(np[j] == prefix[j]);
            }
        }
    } else {
        let nb = b.insert(p, x);
        assert(nb.len() == b.len() + 1);
        assert forall|q: int| 0 <= q < nb.len() implies #[trigger] nb[q] == (if q < p {
            b[q]
        } else if q == p {
            x
        } else {
            b[q - 1]
        }) by {}
        assert(sorted_by(nb, descending)) by {
            assert forall|i: int, j: int| 0 <= i < j < nb.len() implies ranks_before(
                nb[i],
                nb[j],
                descending,
            ) by {
                if i < p && j > p {
                    assert(ranks_before(b[i], x, descending));
                    assert(ranks_before(x, b[j - 1], descending));
                } else if i < p && j < p {
                } else if i == p {
                } else if j == p {
                } else {
                }
            }
        }
        let r = if nb.len() > k {
            nb.drop_last()
        } else {
            nb
        };
        assert forall|q: int| 0 <= q < r.len() implies r[q] == nb[q] by {}
        assert(sorted_by(r, descending)) by {
            assert forall|i: int, j: int| 0 <= i < j < r.len() implies ranks_before(
                r[i],
                r[j],
                descending,
            ) by {
                assert(r[i] == nb[i] && r[j] == nb[j]);
            }
        }
        // r is x plus buffered items
        assert forall|i: int| 0 <= i < r.len() implies np.contains(#[trigger] r[i]) by {
            if i == p {
                assert(np[prefix.len() as int] == r[i]);
            } else {
                let q = if i < p {
                    i
                } else {
                    i - 1
                };
                assert(r[i] == b[q]);
                assert(prefix.contains(b[q]));
                let j = choose|j: int| 0 <= j < prefix.len() && prefix[j] == b[q];
                assert(np[j] == r[i]);
            }
        }
        // items of b that stay in r
        assert forall|q: int| 0 <= q < b.len() && (nb.len() <= k || q < b.len() - 1) implies r.contains(
            #[trigger] b[q],
        ) by {
            if q < p {
                assert(r[q] == b[q]);
            } else {
                assert(r[q + 1] == b[q]);
            }
        }
        assert(r.contains(x)) by {
            assert(r[p] == x);
        }
        if np.len() <= k {
            assert(prefix.len() < k);
            assert(b.len() == prefix.len());
            assert(nb.len() <= k);
            assert forall|j: int| 0 <= j < np.len() implies r.contains(#[trigger] np[j]) by {
                if j < prefix.len() {
                    assert(np[j] == prefix[j]);
                    assert(b.contains(prefix[j]));
                    let q = choose|q: int| 0 <= q < b.len() && b[q] == prefix[j];
                }
            }
        }
        assert forall|i: int, j: int|
            0 <= i < r.len() && 0 <= j < np.len() && !r.contains(#[trigger] np[j])
                implies ranks_before(#[trigger] r[i], np[j], descending) by {
            let z = np[j];
            if j == prefix.len() {
                assert(z == x);
            } else {
                assert(z == prefix[j]);
                if b.contains(z) {
                    // z is the item pushed out: the last of nb
                    let q = choose|q: int| 0 <= q < b.len() && b[q] == z;
                    assert(nb.len() > k);
                    assert(q == b.len() - 1);
                    assert(nb[nb.len() - 1] == z);
                    assert(r[i] == nb[i]);
                } else {
                    // z was already outside the buffer: it ranks after every buffered item,
                    // and after x, which ranks before b[p].
                    assert(prefix.len() > k);
                    assert(b.len() == k);
                    if i == p {
                        assert(p < b.len());
                        assert(ranks_before(x, b[p], descending));
                        assert(ranks_before(b[p], z, descending));
                    } else {
                        let q = if i < p {
                            i
                        } else {
                            i - 1
                        };
                        assert(r[i] == b[q]);
                        assert(ranks_before(b[q], z, descending));
                    }
                }
            }
        }
    }
}

/// The first `k` items in rank order, in that order (all of them when fewer).
pub fn select_top(items: &Vec<Ranked>, k: usize, descending: bool) -> (r: Vec<Ranked>)
    requires
        distinct_codes(items@),
    ensures
        is_top_k(r@, items@, k as nat, descending),
{
    let mut buf: Vec<Ranked> = Vec::new();
    let mut i: usize = 0;
    assert(items@.take(0) =~= Seq::<Ranked>::empty());
    while i < items.len()
        invariant
            i <= items.len(),
            distinct_codes(items@),
            is_top_k(buf@, items@.take(i as int), k as nat, descending),
        decreases items.len() - i,
    {
        let x = items[i];
        let ghost prefix = items@.take(i as int);
        assert(items@.take(i + 1) =~= prefix.push(x));
        let mut p: usize = 0;
        while p < buf.len() && rank_before(buf[p], x, descending)
            invariant
                p <= buf.len(),
                forall|q: int| 0 <= q < p ==> ranks_before(#[trigger] buf@[q], x, descending),
            decreases buf.len() - p,
        {
            p += 1;
        }
        proof {
            assert forall|j: int| 0 <= j < prefix.len() implies (#[trigger] prefix[j]).0 != x.0 by {
                assert(prefix[j] == items@[j]);
            }
            if p < buf.len() {
                assert(!ranks_before(buf@[p as int], x, descending));
                assert(prefix.contains(buf@[p as int]));
                assert(buf@[p as int].0 != x.0);
                assert(ranks_before(x, buf@[p as int], descending));
                assert forall|q: int| p <= q < buf@.len() implies ranks_before(
                    x,
                    #[trigger] buf@[q],
                    descending,
                ) by {
                    if q > p {
                        assert(ranks_before(buf@[p as int], buf@[q], descending));
                    }
                }
            }
            lemma_insert_top_k(buf@, prefix, x, p as int, k as nat, descending);
        }
        if p < k {
            buf.insert(p, x);
            if buf.len() > k {
                buf.pop();
            }
        }
        i += 1;
    }
    assert(items@.take(items.len() as int) =~= items@);
    buf
}

/// The score key of a code among the entries, if it has one.
pub open spec fn score_of(sig: Seq<Ranked>, c: Code) -> Option<ScoreKey> {
    if exists|i: int| 0 <= i < sig.len() && sig[i].0 == c {
        Some(sig[choose|i: int| 0 <= i < sig.len() && sig[i].0 == c].1)
    } else {
        None
    }
}

/// With distinct codes, the entry at `i` gives the score key of its code.
pub proof fn lemma_score_of_entry(sig: Seq<Ranked>, i: int)
    requires
        distinct_codes(sig),
        0 <= i < sig.len(),
    ensures
        score_of(sig, sig[i].0) == Some(sig[i].1),
{
    let j = choose|j: int| 0 <= j < sig.len() && sig[j].0 == sig[i].0;
    if j != i {
        if j < i {
            assert(sig[j].0 != sig[i].0);
        } else {
            assert(sig[i].0 != sig[j].0);
        }
    }
}

/// Lookup table from code to score key (the entries have distinct codes).
pub fn score_map(entries: &Vec<Ranked>) -> (m: HashMap<Code, ScoreKey>)
    requires
        distinct_codes(entries@),
    ensures
        forall|c: Code| #[trigger] m@.contains_key(c) <==> score_of(entries@, c) is Some,
        forall|c: Code| #[trigger] m@.contains_key(c) ==> Some(m@[c]) == score_of(entries@, c),
{
    let mut m: HashMap<Code, ScoreKey> = HashMap::new();
    let mut i: usize = 0;
    while i < entries.len()
        invariant
            i <= entries@.len(),
            distinct_codes(entries@),
            forall|c: Code|
                #[trigger] m@.contains_key(c) <==> exists|j: int| 0 <= j < i && entries@[j].0 == c,
            forall|c: Code| #[trigger] m@.contains_key(c) ==> Some(m@[c]) == score_of(entries@, c),
        decreases entries.len() - i,
    {
        let e = entries[i];
        proof {
            lemma_score_of_entry(entries@, i as int);
        }
        m.insert(e.0, e.1);
        proof {
            assert forall|c: Code| #[trigger] m@.contains_key(c) <==> exists|j: int|
                0 <= j < i + 1 && entries@[j].0 == c by {
                if c == e.0 {
                    assert(entries@[i as int].0 == c);
                }
            }
        }
        i += 1;
    }
    proof {
        assert forall|c: Code| #[trigger] m@.contains_key(c) <==> score_of(entries@, c) is Some by {
            if score_of(entries@, c) is Some {
                let j = choose|j: int| 0 <= j < entries@.len() && entries@[j].0 == c;
                assert(entries@[j].0 == c);
            }
        }
    }
    m
}

/// The set of the given codes.
pub fn code_set(codes: &Vec<Code>) -> (r: HashSet<Code>)
    ensures
        forall|c: Code| #[trigger] r@.contains(c) <==> codes@.contains(c),
{
    let mut r: HashSet<Code> = HashSet::new();
    let mut i: usize = 0;
    while i < codes.len()
        invariant
            i <= codes@.len(),
            forall|c: Code| #[trigger] r@.contains(c) <==> exists|j: int| 0 <= j < i && codes@[j] == c,
        decreases codes.len() - i,
    {
        let c = codes[i];
        r.insert(c);
        proof {
            assert forall|x: Code| #[trigger] r@.contains(x) <==> exists|j: int|
                0 <= j < i + 1 && codes@[j] == x by {
                if x == c {
                    assert(codes@[i as int] == x);
                }
            }
        }
        i += 1;
    }
    r
}

/// The given codes in ascending order (no code occurs twice).
pub fn sort_codes(codes: &Vec<Code>) -> (r: Vec<Code>)
    requires
        codes@.no_duplicates(),
    ensures
        strictly_increasing(r@),
        forall|c: Code| #[trigger] r@.contains(c) <==> codes@.contains(c),
{
    let mut items: Vec<Ranked> = Vec::new();
    let mut i: usize = 0;
    while i < codes.len()
        invariant
            i <= codes@.len(),
            items@.len() == i,
            forall|j: int| 0 <= j < i ==> #[trigger] items@[j] == (codes@[j], 0i64),
        decreases codes.len() - i,
    {
        items.push((codes[i], 0));
        i += 1;
    }
    assert(distinct_codes(items@)) by {
        assert forall|a: int, b: int| 0 <= a < b < items@.len() implies items@[a].0 != items@[b].0 by {
            assert(items@[a] == (codes@[a], 0i64));
            assert(items@[b] == (codes@[b], 0i64));
        }
    }
    let sorted = select_top(&items, items.len(), false);
    let mut r: Vec<Code> = Vec::new();
    let mut q: usize = 0;
    while q < sorted.len()
        invariant
            q <= sorted@.len(),
            r@.len() == q,
            forall|j: int| 0 <= j < q ==> #[trigger] r@[j] == sorted@[j].0,
        decreases sorted.len() - q,
    {
        r.push(sorted[q].0);
        q += 1;
    }
    proof {
        assert forall|j: int| 0 <= j < sorted@.len() implies (#[trigger] sorted@[j]).1 == 0 && codes@.contains(
            sorted@[j].0,
        ) by {
            assert(items@.contains(sorted@[j]));
            let x = choose|x: int| 0 <= x < items@.len() && items@[x] == sorted@[j];
            assert(items@[x] == (codes@[x], 0i64));
        }
        assert forall|a: int, b: int| 0 <= a < b < r@.len() implies r@[a] < r@[b] by {
            assert(ranks_before(sorted@[a], sorted@[b], false));
            assert(sorted@[a].1 == 0 && sorted@[b].1 == 0);
        }
        assert forall|c: Code| #[trigger] r@.contains(c) <==> codes@.contains(c) by {
            if r@.contains(c) {
                let j = choose|j: int| 0 <= j < r@.len() && r@[j] == c;
                assert(sorted@[j].0 == c);
            }
            if codes@.contains(c) {
                let x = choose|x: int| 0 <= x < codes@.len() && codes@[x] == c;
                assert(items@[x] == (c, 0i64));
                assert(sorted@.contains(items@[x]));
                let j = choose|j: int| 0 <= j < sorted@.len() && sorted@[j] == items@[x];
                assert(r@[j] == c);
            }
        }
    }
    r
}


/// Two sequences in strictly increasing rank order with the same elements are equal.
proof fn lemma_sorted_same_elements_equal(a: Seq<Ranked>, b: Seq<Ranked>, descending: bool)
    requires
        sorted_by(a, descending),
        sorted_by(b, descending),
        a.len() == b.len(),
        forall|x: Ranked| #[trigger] a.contains(x) <==> b.contains(x),
    ensures
        a == b,
    decreases a.len(),
{
    if a.len() > 0 {
        assert(a.contains(a[0]));
        assert(b.contains(a[0]));
        let j = choose|j: int| 0 <= j < b.len() && b[j] == a[0];
        assert(b.contains(b[0]));
        assert(a.contains(b[0]));
        let l = choose|l: int| 0 <= l < a.len() && a[l] == b[0];
        if j > 0 {
            // b[0] comes before a[0] in b, and after it in a: impossible
            assert(ranks_before(b[0], b[j], descending));
            if l == 0 {
                assert(b[0] == b[j]);
            }
            assert(ranks_before(a[0], a[l], descending));
            assert(false);
        }
        assert(a[0] == b[0]);
        let a1 = a.drop_first();
        let b1 = b.drop_first();
        assert forall|x: Ranked| #[trigger] a1.contains(x) <==> b1.contains(x) by {
            if a1.contains(x) {
                let p = choose|p: int| 0 <= p < a1.len() && a1[p] == x;
                assert(a.contains(a[p + 1]));
                let q = choose|q: int| 0 <= q < b.len() && b[q] == x;
                if q == 0 {
                    assert(ranks_before(a[0], a[p + 1], descending));
                    assert(false);
                }
                assert(b1[q - 1] == x);
            }
            if b1.contains(x) {
                let p = choose|p: int| 0 <= p < b1.len() && b1[p] == x;
                assert(b.contains(b[p + 1]));
                assert(a.contains(x));
                let q = choose|q: int| 0 <= q < a.len() && a[q] == x;
                if q == 0 {
                    assert(ranks_before(b[0], b[p + 1], descending));
                    assert(false);
                }
                assert(a1[q - 1] == x);
            }
        }
        lemma_sorted_same_elements_equal(a1, b1, descending);
        assert(a =~= b1.insert(0, b[0]));
        assert(b =~= b1.insert(0, b[0]));
    } else {
        assert(a =~= b);
    }
}

/// A sequence in strictly increasing rank order has no repeated element.
proof fn lemma_sorted_no_duplicates(s: Seq<Ranked>, descending: bool)
    requires
        sorted_by(s, descending),
    ensures
        s.no_duplicates(),
{
    assert forall|i: int, j: int| 0 <= i < s.len() && 0 <= j < s.len() && i != j implies s[i]
        != s[j] by {
        if i < j {
            assert(ranks_before(s[i], s[j], descending));
        } else {
            assert(ranks_before(s[j], s[i], descending));
        }
    }
}

/// The selection is determined by the items: among items with distinct codes,
/// ties in score are broken by code, so two results that both hold the first `k`
/// items in rank order are the same sequence.
pub proof fn law_top_k_unique(
    r1: Seq<Ranked>,
    r2: Seq<Ranked>,
    items: Seq<Ranked>,
    k: nat,
    descending: bool,
)
    requires
        distinct_codes(items),
        is_top_k(r1, items, k, descending),
        is_top_k(r2, items, k, descending),
    ensures
        r1 == r2,
{
    // every element of r2 is in r1
    assert forall|y: Ranked| #[trigger] r2.contains(y) implies r1.contains(y) by {
        let q = choose|q: int| 0 <= q < r2.len() && r2[q] == y;
        assert(items.contains(r2[q]));
        let jy = choose|jy: int| 0 <= jy < items.len() && items[jy] == y;
        if !r1.contains(items[jy]) {
            // y ranks after all of r1, and r1 is as long as r2: some element of r1
            // is missing from r2, and y ranks before it
            if r1.len() == 0 {
                assert(r2.len() == 0);
            } else {
                lemma_sorted_no_duplicates(r1, descending);
                lemma_sorted_no_duplicates(r2, descending);
                // r2 holds y, which is not in r1, so r1 cannot be inside r2 minus y
                assert(exists|i: int| 0 <= i < r1.len() && !r2.contains(#[trigger] r1[i])) by {
                    if forall|i: int| 0 <= i < r1.len() ==> r2.contains(#[trigger] r1[i]) {
                        r1.unique_seq_to_set();
                        r2.unique_seq_to_set();
                        assert(r1.to_set().subset_of(r2.to_set().remove(y)));
                        vstd::set_lib::lemma_len_subset(r1.to_set(), r2.to_set().remove(y));
                        assert(r2.to_set().contains(y));
                    }
                }
                let i = choose|i: int| 0 <= i < r1.len() && !r2.contains(#[trigger] r1[i]);
                assert(items.contains(r1[i]));
                let ji = choose|ji: int| 0 <= ji < items.len() && items[ji] == r1[i];
                assert(ranks_before(r1[i], items[jy], descending));
                assert(ranks_before(r2[q], items[ji], descending));
                assert(false);
            }
        }
    }
    // and every element of r1 is in r2 (symmetric)
    assert forall|y: Ranked| #[trigger] r1.contains(y) implies r2.contains(y) by {
        let q = choose|q: int| 0 <= q < r1.len() && r1[q] == y;
        assert(items.contains(r1[q]));
        let jy = choose|jy: int| 0 <= jy < items.len() && items[jy] == y;
        if !r2.contains(items[jy]) {
            if r2.len() == 0 {
                assert(r1.len() == 0);
            } else {
                lemma_sorted_no_duplicates(r1, descending);
                lemma_sorted_no_duplicates(r2, descending);
                assert(exists|i: int| 0 <= i < r2.len() && !r1.contains(#[trigger] r2[i])) by {
                    if forall|i: int| 0 <= i < r2.len() ==> r1.contains(#[trigger] r2[i]) {
                        r1.unique_seq_to_set();
                        r2.unique_seq_to_set();
                        assert(r2.to_set().subset_of(r1.to_set().remove(y)));
                        vstd::set_lib::lemma_len_subset(r2.to_set(), r1.to_set().remove(y));
                        assert(r1.to_set().contains(y));
                    }
                }
                let i = choose|i: int| 0 <= i < r2.len() && !r1.contains(#[trigger] r2[i]);
                assert(items.contains(r2[i]));
                let ji = choose|ji: int| 0 <= ji < items.len() && items[ji] == r2[i];
                assert(ranks_before(r2[i], items[jy], descending));
                assert(ranks_before(r1[q], items[ji], descending));
                assert(false);
            }
        }
    }
    lemma_sorted_same_elements_equal(r1, r2, descending);
}

} // verus!
