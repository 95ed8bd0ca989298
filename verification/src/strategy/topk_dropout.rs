//! TopkDropout: hold the `top_n` best-scored stocks. On every day with a usable
//! signal, the `drop_n` worst-scored held stocks are sold (held stocks without a
//! score that day are neither ranked nor sold), and `top_n - (held stocks kept)`
//! new stocks are bought, best score first.
//!
//! This module decides which stocks are sold and bought; order sizes and prices
//! are computed by the caller from the day's prices and cash.
use vstd::prelude::*;
use std::collections::HashSet;
use crate::signal::SignalDay;
use crate::strategy::common::{
    code_set, distinct_codes, is_top_k, score_map, score_of, select_top, Ranked,
};
use crate::types::{Code, StockFlags, TradableFlags};

verus! {

broadcast use vstd::std_specs::hash::group_hash_axioms;

/// A held stock may be put in the sell list: any stock, or only stocks sellable
/// today when `only_tradable` is set.
pub open spec fn may_sell(only_tradable: bool, t: Map<Code, StockFlags>, c: Code) -> bool {
    !only_tradable || (t.contains_key(c) && t[c].sellable)
}

/// A stock may be bought today: it has market data, is buyable, and is not an ST
/// stock when `forbid_st` is set.
pub open spec fn may_buy(forbid_st: bool, t: Map<Code, StockFlags>, c: Code) -> bool {
    t.contains_key(c) && t[c].buyable && !(forbid_st && t[c].is_st)
}

/// Held stocks with a score that may be sold, with their score keys, in holding order.
pub open spec fn scored_held(
    sig: Seq<Ranked>,
    held: Seq<Code>,
    t: Map<Code, StockFlags>,
    only_tradable: bool,
) -> Seq<Ranked>
    decreases held.len(),
{
    if held.len() == 0 {
        Seq::empty()
    } else {
        let rest = scored_held(sig, held.drop_last(), t, only_tradable);
        let c = held.last();
        match score_of(sig, c) {
            Some(k) => if may_sell(only_tradable, t, c) {
                rest.push((c, k))
            } else {
                rest
            },
            None => rest,
        }
    }
}

/// Signal entries that are candidates for buying: not held and buyable today.
pub open spec fn buy_candidates(
    sig: Seq<Ranked>,
    held: Seq<Code>,
    t: Map<Code, StockFlags>,
    forbid_st: bool,
) -> Seq<Ranked>
    decreases sig.len(),
{
    if sig.len() == 0 {
        Seq::empty()
    } else {
        let rest = buy_candidates(sig.drop_last(), held, t, forbid_st);
        let e = sig.last();
        if !held.contains(e.0) && may_buy(forbid_st, t, e.0) {
            rest.push(e)
        } else {
            rest
        }
    }
}

/// Number of stocks to buy: `top_n` minus the holdings kept after the planned
/// sales, and none when that many are already kept.
pub open spec fn n_buy(top_n: nat, held: nat, sold: nat) -> nat {
    if top_n > held - sold {
        (top_n - (held - sold)) as nat
    } else {
        0
    }
}

/// Which stocks to sell and buy on one day.
#[derive(Debug)]
pub struct DropoutPlan {
    /// The worst-scored held stocks that are sold, worst first.
    pub sells: Vec<Ranked>,
    /// Stocks to buy, best score first (buy budget goes to the front first).
    pub buys: Vec<Ranked>,
}

/// The TopkDropout strategy.
#[derive(Debug)]
pub struct TopkDropoutStrategy {
    /// Target number of holdings (>= 1).
    top_n: usize,
    /// Number of stocks planned to be sold on every rebalancing day.
    drop_n: usize,
    /// Restrict sell candidates to stocks sellable today.
    only_tradable: bool,
    /// Do not buy ST stocks (sales are not affected).
    forbid_st: bool,
}

impl TopkDropoutStrategy {
    #[verifier::type_invariant]
    spec fn inv(self) -> bool {
        self.top_n >= 1
    }

    pub closed spec fn spec_top_n(self) -> usize {
        self.top_n
    }

    pub closed spec fn spec_drop_n(self) -> usize {
        self.drop_n
    }

    pub closed spec fn spec_only_tradable(self) -> bool {
        self.only_tradable
    }

    pub closed spec fn spec_forbid_st(self) -> bool {
        self.forbid_st
    }

    /// `only_tradable` and `forbid_st` start as false; the builder methods set them.
    /// `top_n` must be at least 1.
    pub fn new(top_n: usize, drop_n: usize) -> (r: TopkDropoutStrategy)
        requires
            top_n >= 1,
        ensures
            r.spec_top_n() == top_n,
            r.spec_drop_n() == drop_n,
            !r.spec_only_tradable(),
            !r.spec_forbid_st(),
    {
        TopkDropoutStrategy { top_n, drop_n, only_tradable: false, forbid_st: false }
    }

    /// Sets whether sell candidates are restricted to stocks sellable today.
    pub fn with_only_tradable(self, only_tradable: bool) -> (r: TopkDropoutStrategy)
        ensures
            r.spec_top_n() == self.spec_top_n(),
            r.spec_drop_n() == self.spec_drop_n(),
            r.spec_only_tradable() == only_tradable,
            r.spec_forbid_st() == self.spec_forbid_st(),
    {
        proof {
            use_type_invariant(&self);
        }
        TopkDropoutStrategy { only_tradable, ..self }
    }

    /// Sets whether ST stocks are kept out of purchases.
    pub fn with_forbid_st(self, forbid_st: bool) -> (r: TopkDropoutStrategy)
        ensures
            r.spec_top_n() == self.spec_top_n(),
            r.spec_drop_n() == self.spec_drop_n(),
            r.spec_only_tradable() == self.spec_only_tradable(),
            r.spec_forbid_st() == forbid_st,
    {
        proof {
            use_type_invariant(&self);
        }
        TopkDropoutStrategy { forbid_st, ..self }
    }

    pub fn top_n(&self) -> (r: usize)
        ensures
            r == self.spec_top_n(),
            r >= 1,
    {
        proof {
            use_type_invariant(self);
        }
        self.top_n
    }

    pub fn drop_n(&self) -> (r: usize)
        ensures
            r == self.spec_drop_n(),
    {
        self.drop_n
    }

    pub fn only_tradable(&self) -> (r: bool)
        ensures
            r == self.spec_only_tradable(),
    {
        self.only_tradable
    }

    pub fn forbid_st(&self) -> (r: bool)
        ensures
            r == self.spec_forbid_st(),
    {
        self.forbid_st
    }

    /// Decides the day's sales and purchases from the previous day's signal, the
    /// current holdings (each code once) and today's tradability.
    pub fn plan(&self, signal: &SignalDay, held: &Vec<Code>, tradable: &TradableFlags) -> (r:
        DropoutPlan)
        requires
            held@.no_duplicates(),
        ensures
            is_top_k(
                r.sells@,
                scored_held(signal@, held@, tradable@, self.spec_only_tradable()),
                self.spec_drop_n() as nat,
                false,
            ),
            r.sells@.len() <= held@.len(),
            is_top_k(
                r.buys@,
                buy_candidates(signal@, held@, tradable@, self.spec_forbid_st()),
                n_buy(self.spec_top_n() as nat, held@.len(), r.sells@.len()),
                true,
            ),
            // only held stocks are sold
            forall|i: int| 0 <= i < r.sells@.len() ==> held@.contains(#[trigger] r.sells@[i].0),
            // no stock is both sold and bought
            forall|i: int|
                0 <= i < r.buys@.len() ==> !held@.contains(#[trigger] r.buys@[i].0),
            // if every order executes, the holdings number at most `top_n`, or the
            // holdings kept when those alone already reach it
            held@.len() - r.sells@.len() + r.buys@.len() <= vstd::math::max(
                self.spec_top_n() as int,
                held@.len() - r.sells@.len(),
            ),
    {
        let entries = signal.entries();
        let scores = score_map(entries);
        let ot = self.only_tradable;
        let ghost sig = signal@;
        let ghost t = tradable@;
        // ---- 1. sales: the worst-scored holdings (unscored ones are kept) ----
        let mut scored: Vec<Ranked> = Vec::new();
        let mut i: usize = 0;
        while i < held.len()
            invariant
                i <= held@.len(),
                held@.no_duplicates(),
                sig == signal@,
                t == tradable@,
                ot == self.spec_only_tradable(),
                forall|c: Code| #[trigger] scores@.contains_key(c) <==> score_of(sig, c) is Some,
                forall|c: Code| #[trigger] scores@.contains_key(c) ==> Some(scores@[c]) == score_of(sig, c),
                scored@ == scored_held(sig, held@.take(i as int), t, ot),
                scored@.len() <= i,
                forall|j: int| 0 <= j < scored@.len() ==> exists|a: int| 0 <= a < i && held@[a] == (#[trigger] scored@[j]).0,
                distinct_codes(scored@),
            decreases held.len() - i,
        {
            let c = held[i];
            let ghost pre = held@.take(i as int);
            assert(held@.take(i + 1) =~= pre.push(c));
            assert(held@.take(i + 1).drop_last() =~= pre);
            let allowed = if ot {
                match tradable.get(c) {
                    Some(f) => f.sellable,
                    None => false,
                }
            } else {
                true
            };
            assert(allowed == may_sell(ot, t, c));
            proof {
                // c is new among what was collected so far
                assert forall|j: int| 0 <= j < scored@.len() implies (#[trigger] scored@[j]).0 != c by {
                    let a = choose|a: int| 0 <= a < i && held@[a] == scored@[j].0;
                }
            }
            let ghost old_scored = scored@;
            match scores.get(&c) {
                Some(k) => {
                    if allowed {
                        scored.push((c, *k));
                    }
                },
                None => {},
            }
            proof {
                assert forall|j: int| 0 <= j < scored@.len() implies exists|a: int|
                    0 <= a < i + 1 && held@[a] == (#[trigger] scored@[j]).0 by {
                    if j < old_scored.len() {
                        assert(scored@[j] == old_scored[j]);
                        let a = choose|a: int| 0 <= a < i && held@[a] == old_scored[j].0;
                    } else {
                        assert(held@[i as int] == scored@[j].0);
                    }
                }
            }
            i += 1;
        }
        assert(held@.take(held@.len() as int) =~= held@);
        let sells = select_top(&scored, self.drop_n, false);
        let sold = sells.len();
        let kept = held.len() - sold;
        let n = if self.top_n > kept {
            self.top_n - kept
        } else {
            0
        };
        // ---- 2. purchases: best-scored buyable stocks not held ----
        let held_set: HashSet<Code> = code_set(held);
        let mut cands: Vec<Ranked> = Vec::new();
        if n > 0 {
            let fs = self.forbid_st;
            let mut q: usize = 0;
            while q < entries.len()
                invariant
                    q <= entries@.len(),
                    entries@ == sig,
                    distinct_codes(sig),
                    t == tradable@,
                    fs == self.spec_forbid_st(),
                    forall|c: Code| #[trigger] held_set@.contains(c) <==> held@.contains(c),
                    cands@ == buy_candidates(sig.take(q as int), held@, t, fs),
                    distinct_codes(cands@),
                    forall|j: int| 0 <= j < cands@.len() ==> exists|a: int| 0 <= a < q && sig[a] == #[trigger] cands@[j],
                decreases entries.len() - q,
            {
                let e = entries[q];
                let ghost pre = sig.take(q as int);
                assert(sig.take(q + 1) =~= pre.push(e));
                assert(sig.take(q + 1).drop_last() =~= pre);
                let ok = if held_set.contains(&e.0) {
                    false
                } else {
                    match tradable.get(e.0) {
                        Some(f) => f.buyable && !(fs && f.is_st),
                        None => false,
                    }
                };
                assert(ok == (!held@.contains(e.0) && may_buy(fs, t, e.0)));
                let ghost old_cands = cands@;
                if ok {
                    proof {
                        assert forall|j: int| 0 <= j < cands@.len() implies (#[trigger] cands@[j]).0 != e.0 by {
                            let a = choose|a: int| 0 <= a < q && sig[a] == cands@[j];
                        }
                    }
                    cands.push(e);
                }
                proof {
                    assert forall|j: int| 0 <= j < cands@.len() implies exists|a: int|
                        0 <= a < q + 1 && sig[a] == #[trigger] cands@[j] by {
                        if j < old_cands.len() {
                            assert(cands@[j] == old_cands[j]);
                            let a = choose|a: int| 0 <= a < q && sig[a] == old_cands[j];
                        } else {
                            assert(sig[q as int] == cands@[j]);
                        }
                    }
                }
                q += 1;
            }
            assert(sig.take(entries@.len() as int) =~= sig);
        }
        let buys = if n > 0 {
            select_top(&cands, n, true)
        } else {
            Vec::new()
        };
        proof {
            lemma_scored_held_in_held(sig, held@, t, ot);
            lemma_buy_candidates_not_held(sig, held@, t, self.spec_forbid_st());
            let sh = scored_held(sig, held@, t, ot);
            let bc = buy_candidates(sig, held@, t, self.spec_forbid_st());
            assert forall|i: int| 0 <= i < sells@.len() implies held@.contains(#[trigger] sells@[i].0) by {
                assert(sh.contains(sells@[i]));
                let k = choose|k: int| 0 <= k < sh.len() && sh[k] == sells@[i];
                assert(held@.contains(sh[k].0));
            }
            assert forall|i: int| 0 <= i < buys@.len() implies !held@.contains(#[trigger] buys@[i].0) by {
                assert(bc.contains(buys@[i]));
                let k = choose|k: int| 0 <= k < bc.len() && bc[k] == buys@[i];
                assert(!held@.contains(bc[k].0));
            }
        }
        DropoutPlan { sells, buys }
    }
}

/// Every stock in the scored sell candidates is held.
proof fn lemma_scored_held_in_held(
    sig: Seq<Ranked>,
    held: Seq<Code>,
    t: Map<Code, StockFlags>,
    only_tradable: bool,
)
    ensures
        forall|i: int|
            0 <= i < scored_held(sig, held, t, only_tradable).len() ==> held.contains(
                #[trigger] scored_held(sig, held, t, only_tradable)[i].0,
            ),
    decreases held.len(),
{
    if held.len() > 0 {
        let rest = held.drop_last();
        lemma_scored_held_in_held(sig, rest, t, only_tradable);
        let s = scored_held(sig, held, t, only_tradable);
        let u = scored_held(sig, rest, t, only_tradable);
        assert forall|i: int| 0 <= i < s.len() implies held.contains(#[trigger] s[i].0) by {
            if i < u.len() {
                assert(s[i] == u[i]);
                assert(rest.contains(u[i].0));
                let k = choose|k: int| 0 <= k < rest.len() && rest[k] == u[i].0;
                assert(held[k] == u[i].0);
            } else {
                assert(s[i].0 == held.last());
                assert(held[held.len() - 1] == s[i].0);
            }
        }
    }
}

/// No buy candidate is held.
proof fn lemma_buy_candidates_not_held(
    sig: Seq<Ranked>,
    held: Seq<Code>,
    t: Map<Code, StockFlags>,
    forbid_st: bool,
)
    ensures
        forall|i: int|
            0 <= i < buy_candidates(sig, held, t, forbid_st).len() ==> !held.contains(
                #[trigger] buy_candidates(sig, held, t, forbid_st)[i].0,
            ),
    decreases sig.len(),
{
    if sig.len() > 0 {
        lemma_buy_candidates_not_held(sig.drop_last(), held, t, forbid_st);
        let s = buy_candidates(sig, held, t, forbid_st);
        let u = buy_candidates(sig.drop_last(), held, t, forbid_st);
        assert forall|i: int| 0 <= i < s.len() implies !held.contains(#[trigger] s[i].0) by {
            if i < u.len() {
                assert(s[i] == u[i]);
            }
        }
    }
}

} // verus!
