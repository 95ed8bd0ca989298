//! Topk: hold the `top_n` best-scored stocks every day (untradable stocks that are
//! not held are left out). Unlike TopkDropout, only holdings that fall out of the
//! top `top_n` are sold; holdings still inside are kept.
//!
//! This module decides the target set, the sales and the purchases; order sizes
//! and prices are computed by the caller.
use vstd::prelude::*;
use std::collections::HashSet;
use crate::signal::SignalDay;
use crate::strategy::common::{code_set, distinct_codes, is_top_k, select_top, sort_codes, Ranked};
use crate::strategy::topk_dropout::may_buy;
use crate::types::{strictly_increasing, Code, StockFlags, TradableFlags};

verus! {

broadcast use vstd::std_specs::hash::group_hash_axioms;

/// Signal entries that take part in the ranking: held stocks (even if untradable
/// today) and stocks that may be bought today.
pub open spec fn ranking_universe(
    sig: Seq<Ranked>,
    held: Seq<Code>,
    t: Map<Code, StockFlags>,
    forbid_st: bool,
) -> Seq<Ranked>
    decreases sig.len(),
{
    if sig.len() == 0 {
        Seq::empty()
    } else {
        let rest = ranking_universe(sig.drop_last(), held, t, forbid_st);
        let e = sig.last();
        if held.contains(e.0) || may_buy(forbid_st, t, e.0) {
            rest.push(e)
        } else {
            rest
        }
    }
}

/// Entries of `s` whose code is not held, in order.
pub open spec fn not_held(s: Seq<Ranked>, held: Seq<Code>) -> Seq<Ranked>
    decreases s.len(),
{
    if s.len() == 0 {
        Seq::empty()
    } else {
        let rest = not_held(s.drop_last(), held);
        if held.contains(s.last().0) {
            rest
        } else {
            rest.push(s.last())
        }
    }
}

/// Some entry of `s` has code `c`.
pub open spec fn has_code(s: Seq<Ranked>, c: Code) -> bool {
    exists|i: int| 0 <= i < s.len() && s[i].0 == c
}

/// The day's target set, sales and purchases.
#[derive(Debug)]
pub struct TopkPlan {
    /// The `top_n` best of the ranking universe, best first.
    pub target: Vec<Ranked>,
    /// Held stocks outside the target, ascending code (all are sold).
    pub sells: Vec<Code>,
    /// Target stocks not held, best first.
    pub buys: Vec<Ranked>,
}

/// The Topk strategy.
#[derive(Debug)]
pub struct TopkStrategy {
    /// Target number of holdings (>= 1).
    top_n: usize,
    /// Do not buy ST stocks (sales are not affected).
    forbid_st: bool,
}

impl TopkStrategy {
    #[verifier::type_invariant]
    spec fn inv(self) -> bool {
        self.top_n >= 1
    }

    pub closed spec fn spec_top_n(self) -> usize {
        self.top_n
    }

    pub closed spec fn spec_forbid_st(self) -> bool {
        self.forbid_st
    }

    /// `forbid_st` starts as false; the builder method sets it. `top_n` must be at least 1.
    pub fn new(top_n: usize) -> (r: TopkStrategy)
        requires
            top_n >= 1,
        ensures
            r.spec_top_n() == top_n,
            !r.spec_forbid_st(),
    {
        TopkStrategy { top_n, forbid_st: false }
    }

    /// Sets whether ST stocks are kept out of purchases.
    pub fn with_forbid_st(self, forbid_st: bool) -> (r: TopkStrategy)
        ensures
            r.spec_top_n() == self.spec_top_n(),
            r.spec_forbid_st() == forbid_st,
    {
        proof {
            use_type_invariant(&self);
        }
        TopkStrategy { forbid_st, ..self }
    }

    pub fn top_n(&self) -> (r: usize)
        ensures
            r == self.spec_top_n(),
            r >= 1,
    {
        proof {
            use_type_invariant(self);
        }
        self.top_n
    }

    pub fn forbid_st(&self) -> (r: bool)
        ensures
            r == self.spec_forbid_st(),
    {
        self.forbid_st
    }

    /// Decides the day's target, sales and purchases from the previous day's signal,
    /// the current holdings (each code once) and today's tradability.
    pub fn plan(&self, signal: &SignalDay, held: &Vec<Code>, tradable: &TradableFlags) -> (r: TopkPlan)
        requires
            held@.no_duplicates(),
        ensures
            is_top_k(
                r.target@,
                ranking_universe(signal@, held@, tradable@, self.spec_forbid_st()),
                self.spec_top_n() as nat,
                true,
            ),
            strictly_increasing(r.sells@),
            forall|c: Code| #[trigger]
                r.sells@.contains(c) <==> (held@.contains(c) && !has_code(r.target@, c)),
            r.buys@ == not_held(r.target@, held@),
            r.target@.len() <= self.spec_top_n(),
            // no stock is both sold and bought
            forall|c: Code| #[trigger] has_code(r.buys@, c) ==> !held@.contains(c),
            // if every order executes, the holdings are exactly the target
            forall|c: Code| #[trigger]
                has_code(r.target@, c) <==> ((held@.contains(c) && !r.sells@.contains(c))
                    || has_code(r.buys@, c)),
    {
        let entries = signal.entries();
        let ghost sig = signal@;
        let ghost t = tradable@;
        let fs = self.forbid_st;
        let held_set: HashSet<Code> = code_set(held);
        // ---- 1. ranking universe and target set ----
        let mut universe: Vec<Ranked> = Vec::new();
        let mut q: usize = 0;
        while q < entries.len()
            invariant
                q <= entries@.len(),
                entries@ == sig,
                distinct_codes(sig),
                t == tradable@,
                fs == self.spec_forbid_st(),
                forall|c: Code| #[trigger] held_set@.contains(c) <==> held@.contains(c),
                universe@ == ranking_universe(sig.take(q as int), held@, t, fs),
                distinct_codes(universe@),
                forall|j: int| 0 <= j < universe@.len() ==> exists|a: int| 0 <= a < q && sig[a] == #[trigger] universe@[j],
            decreases entries.len() - q,
        {
            let e = entries[q];
            let ghost pre = sig.take(q as int);
            assert(sig.take(q + 1) =~= pre.push(e));
            assert(sig.take(q + 1).drop_last() =~= pre);
            let ok = if held_set.contains(&e.0) {
                true
            } else {
                match tradable.get(e.0) {
                    Some(f) => f.buyable && !(fs && f.is_st),
                    None => false,
                }
            };
            assert(ok == (held@.contains(e.0) || may_buy(fs, t, e.0)));
            let ghost old_u = universe@;
            if ok {
                proof {
                    assert forall|j: int| 0 <= j < universe@.len() implies (#[trigger] universe@[j]).0 != e.0 by {
                        let a = choose|a: int| 0 <= a < q && sig[a] == universe@[j];
                    }
                }
                universe.push(e);
            }
            proof {
                assert forall|j: int| 0 <= j < universe@.len() implies exists|a: int|
                    0 <= a < q + 1 && sig[a] == #[trigger] universe@[j] by {
                    if j < old_u.len() {
                        assert(universe@[j] == old_u[j]);
                        let a = choose|a: int| 0 <= a < q && sig[a] == old_u[j];
                    } else {
                        assert(sig[q as int] == universe@[j]);
                    }
                }
            }
            q += 1;
        }
        assert(sig.take(entries@.len() as int) =~= sig);
        let target = select_top(&universe, self.top_n, true);
        let mut target_codes: Vec<Code> = Vec::new();
        let mut k: usize = 0;
        while k < target.len()
            invariant
                k <= target@.len(),
                target_codes@.len() == k,
                forall|j: int| 0 <= j < k ==> #[trigger] target_codes@[j] == target@[j].0,
            decreases target.len() - k,
        {
            target_codes.push(target[k].0);
            k += 1;
        }
        let target_set: HashSet<Code> = code_set(&target_codes);
        assert forall|c: Code| #[trigger] target_set@.contains(c) <==> has_code(target@, c) by {
            if has_code(target@, c) {
                let j = choose|j: int| 0 <= j < target@.len() && target@[j].0 == c;
                assert(target_codes@[j] == c);
            }
            if target_codes@.contains(c) {
                let j = choose|j: int| 0 <= j < target_codes@.len() && target_codes@[j] == c;
                assert(target@[j].0 == c);
            }
        }
        // ---- 2. sales: held stocks outside the target ----
        let mut out: Vec<Code> = Vec::new();
        let mut i: usize = 0;
        while i < held.len()
            invariant
                i <= held@.len(),
                held@.no_duplicates(),
                forall|c: Code| #[trigger] target_set@.contains(c) <==> has_code(target@, c),
                out@.no_duplicates(),
                forall|c: Code| #[trigger] out@.contains(c) <==> exists|a: int|
                    0 <= a < i && held@[a] == c && !has_code(target@, c),
            decreases held.len() - i,
        {
            let c = held[i];
            let ghost old_out = out@;
            if !target_set.contains(&c) {
                proof {
                    if out@.contains(c) {
                        let a = choose|a: int| 0 <= a < i && held@[a] == c && !has_code(target@, c);
                        assert(held@[a] == held@[i as int]);
                    }
                }
                out.push(c);
            }
            proof {
                assert forall|x: Code| #[trigger] out@.contains(x) <==> exists|a: int|
                    0 <= a < i + 1 && held@[a] == x && !has_code(target@, x) by {
                    if x == c && !has_code(target@, c) {
                        assert(held@[i as int] == x);
                        assert(out@[out@.len() - 1] == x);
                    }
                    if x != c {
                        if out@.contains(x) {
                            let q = choose|q: int| 0 <= q < out@.len() && out@[q] == x;
                            assert(q < old_out.len());
                            assert(old_out[q] == x);
                            assert(old_out.contains(x));
                        }
                        if old_out.contains(x) {
                            let q = choose|q: int| 0 <= q < old_out.len() && old_out[q] == x;
                            assert(out@[q] == x);
                        }
                    } else if out@.contains(x) {
                        assert(!target_set@.contains(c) || old_out.contains(x));
                    }
                }
            }
            i += 1;
        }
        let sells = sort_codes(&out);
        // ---- 3. purchases: target stocks not held, in target order ----
        let mut buys: Vec<Ranked> = Vec::new();
        let mut j: usize = 0;
        while j < target.len()
            invariant
                j <= target@.len(),
                forall|c: Code| #[trigger] held_set@.contains(c) <==> held@.contains(c),
                buys@ == not_held(target@.take(j as int), held@),
            decreases target.len() - j,
        {
            let e = target[j];
            let ghost pre = target@.take(j as int);
            assert(target@.take(j + 1) =~= pre.push(e));
            assert(target@.take(j + 1).drop_last() =~= pre);
            if !held_set.contains(&e.0) {
                buys.push(e);
            }
            j += 1;
        }
        assert(target@.take(target@.len() as int) =~= target@);
        proof {
            assert forall|c: Code| #[trigger] has_code(buys@, c) implies !held@.contains(c) by {
                lemma_not_held_codes(target@, held@, c);
            }
            assert forall|c: Code| #[trigger] has_code(target@, c) <==> ((held@.contains(c)
                && !sells@.contains(c)) || has_code(buys@, c)) by {
                lemma_not_held_codes(target@, held@, c);
                if held@.contains(c) && !sells@.contains(c) {
                    assert(!out@.contains(c));
                    let a = choose|a: int| 0 <= a < held@.len() && held@[a] == c;
                }
            }
        }
        TopkPlan { target, sells, buys }
    }
}

/// A code is among the not-held entries exactly when it is among the entries
/// and not held.
proof fn lemma_not_held_codes(s: Seq<Ranked>, held: Seq<Code>, c: Code)
    ensures
        has_code(not_held(s, held), c) <==> (has_code(s, c) && !held.contains(c)),
    decreases s.len(),
{
    if s.len() > 0 {
        let init = s.drop_last();
        lemma_not_held_codes(init, held, c);
        let r = not_held(s, held);
        let u = not_held(init, held);
        if has_code(u, c) {
            let k = choose|k: int| 0 <= k < u.len() && u[k].0 == c;
            assert(r[k] == u[k]);
            let m = choose|m: int| 0 <= m < init.len() && init[m].0 == c;
            assert(s[m] == init[m]);
        }
        if has_code(r, c) {
            let k = choose|k: int| 0 <= k < r.len() && r[k].0 == c;
            if k < u.len() {
                assert(r[k] == u[k]);
            } else {
                assert(r[k] == s.last());
                assert(s[s.len() - 1].0 == c);
            }
        }
        if has_code(s, c) && !held.contains(c) {
            let m = choose|m: int| 0 <= m < s.len() && s[m].0 == c;
            if m < init.len() {
                assert(init[m] == s[m]);
            } else {
                assert(r[u.len() as int] == s.last());
            }
        }
    }
}

} // verus!
