//! Order sides, the merging of a decision's orders by stock, and the number of
//! purchases kept after the sales have executed.
use vstd::prelude::*;
use vstd::string::*;
use crate::error::BtError;
use crate::text::push_decimal;
use crate::types::Code;

verus! {

/// Buy or sell (the `side` column of trades.csv).
#[derive(Clone, Copy, PartialEq, Eq, Debug, Structural)]
pub enum Side {
    Buy,
    Sell,
}

impl Side {
    /// Canonical name.
    pub open spec fn spec_name(self) -> Seq<char> {
        match self {
            Side::Buy => "buy"@,
            Side::Sell => "sell"@,
        }
    }

    /// `buy` / `sell`.
    pub fn as_str(&self) -> (r: &'static str)
        ensures
            r@ == self.spec_name(),
    {
        match self {
            Side::Buy => "buy",
            Side::Sell => "sell",
        }
    }
}

/// The distinct codes of `s`, in order of first occurrence.
pub open spec fn first_occurrences(s: Seq<Code>) -> Seq<Code>
    decreases s.len(),
{
    if s.len() == 0 {
        Seq::empty()
    } else {
        let rest = first_occurrences(s.drop_last());
        if rest.contains(s.last()) {
            rest
        } else {
            rest.push(s.last())
        }
    }
}

/// Orders of one side merged by stock: the merged stocks in order of first
/// occurrence, and for each input order the merged order it joins.
#[derive(Debug)]
pub struct OrderGroups {
    /// The stock of each merged order.
    pub codes: Vec<Code>,
    /// For each input order, the position of its merged order.
    pub group_of: Vec<usize>,
}

/// Merges orders of one side that name the same stock (their volumes add up
/// into the first of them).
pub fn group_orders(codes: &Vec<Code>) -> (r: OrderGroups)
    ensures
        r.codes@ == first_occurrences(codes@),
        r.group_of@.len() == codes@.len(),
        forall|i: int|
            0 <= i < codes@.len() ==> #[trigger] r.group_of@[i] < r.codes@.len() && r.codes@[r.group_of@[i] as int]
                == codes@[i],
{
    let mut out: Vec<Code> = Vec::new();
    let mut group_of: Vec<usize> = Vec::new();
    let mut i: usize = 0;
    while i < codes.len()
        invariant
            i <= codes@.len(),
            out@ == first_occurrences(codes@.take(i as int)),
            out@.len() <= i,
            group_of@.len() == i,
            forall|q: int|
                0 <= q < i ==> #[trigger] group_of@[q] < out@.len() && out@[group_of@[q] as int] == codes@[q],
        decreases codes.len() - i,
    {
        let c = codes[i];
        let ghost pre = codes@.take(i as int);
        assert(codes@.take(i + 1) =~= pre.push(c));
        assert(codes@.take(i + 1).drop_last() =~= pre);
        let mut g: usize = 0;
        while g < out.len() && out[g] != c
            invariant
                g <= out@.len(),
                forall|q: int| 0 <= q < g ==> out@[q] != c,
            decreases out@.len() - g,
        {
            g += 1;
        }
        if g == out.len() {
            assert(!out@.contains(c));
            out.push(c);
        } else {
            assert(out@.contains(c));
        }
        group_of.push(g);
        i += 1;
    }
    assert(codes@.take(codes@.len() as int) =~= codes@);
    OrderGroups { codes: out, group_of }
}

/// A decision's sales and purchases, each merged by stock.
#[derive(Debug)]
pub struct DecisionGroups {
    pub sells: OrderGroups,
    pub buys: OrderGroups,
}

/// Checks a decision and merges its orders by stock: buying and selling one stock
/// in one step is an `InvalidDecision` error; several orders of one side for one
/// stock are merged into one.
pub fn normalize_decision(sell_codes: &Vec<Code>, buy_codes: &Vec<Code>) -> (r: Result<
    DecisionGroups,
    BtError,
>)
    ensures
        r is Ok <==> forall|c: Code| #[trigger] buy_codes@.contains(c) ==> !sell_codes@.contains(c),
        r matches Err(e) ==> e is InvalidDecision,
        r matches Ok(g) ==> {
            &&& g.sells.codes@ == first_occurrences(sell_codes@)
            &&& g.sells.group_of@.len() == sell_codes@.len()
            &&& forall|i: int|
                0 <= i < sell_codes@.len() ==> #[trigger] g.sells.group_of@[i] < g.sells.codes@.len()
                    && g.sells.codes@[g.sells.group_of@[i] as int] == sell_codes@[i]
            &&& g.buys.codes@ == first_occurrences(buy_codes@)
            &&& g.buys.group_of@.len() == buy_codes@.len()
            &&& forall|i: int|
                0 <= i < buy_codes@.len() ==> #[trigger] g.buys.group_of@[i] < g.buys.codes@.len()
                    && g.buys.codes@[g.buys.group_of@[i] as int] == buy_codes@[i]
        },
{
    let buys = group_orders(buy_codes);
    let sells = group_orders(sell_codes);
    let mut k: usize = 0;
    while k < buys.codes.len()
        invariant
            k <= buys.codes@.len(),
            buys.group_of@.len() == buy_codes@.len(),
            forall|i: int|
                0 <= i < buy_codes@.len() ==> #[trigger] buys.group_of@[i] < buys.codes@.len() && buys.codes@[buys.group_of@[i] as int]
                    == buy_codes@[i],
            forall|i: int|
                0 <= i < sell_codes@.len() ==> #[trigger] sells.group_of@[i] < sells.codes@.len() && sells.codes@[sells.group_of@[i] as int]
                    == sell_codes@[i],
            buys.codes@ == first_occurrences(buy_codes@),
            sells.codes@ == first_occurrences(sell_codes@),
            forall|q: int| 0 <= q < k ==> !sell_codes@.contains(#[trigger] buys.codes@[q]),
        decreases buys.codes@.len() - k,
    {
        let c = buys.codes[k];
        let mut s: usize = 0;
        while s < sells.codes.len()
            invariant
                s <= sells.codes@.len(),
                k < buys.codes@.len(),
                c == buys.codes@[k as int],
                buys.codes@ == first_occurrences(buy_codes@),
                sells.codes@ == first_occurrences(sell_codes@),
                forall|q: int| 0 <= q < s ==> sells.codes@[q] != c,
            decreases sells.codes@.len() - s,
        {
            if sells.codes[s] == c {
                let mut m = String::from_str("同一交易步内买、卖同一股票 code=");
                push_decimal(&mut m, c);
                proof {
                    lemma_first_occurrences_in(buy_codes@, k as int);
                    let i = choose|i: int| 0 <= i < buy_codes@.len() && buy_codes@[i] == c;
                    assert(buy_codes@.contains(c));
                    let t = choose|t: int| 0 <= t < sells.codes@.len() && sells.codes@[t] == c;
                    lemma_first_occurrences_in(sell_codes@, s as int);
                    assert(sell_codes@.contains(c));
                }
                return Err(BtError::InvalidDecision(m));
            }
            s += 1;
        }
        proof {
            if sell_codes@.contains(c) {
                let i = choose|i: int| 0 <= i < sell_codes@.len() && sell_codes@[i] == c;
                assert(sells.codes@[sells.group_of@[i] as int] == c);
            }
        }
        k += 1;
    }
    proof {
        assert forall|c: Code| #[trigger] buy_codes@.contains(c) implies !sell_codes@.contains(c) by {
            let i = choose|i: int| 0 <= i < buy_codes@.len() && buy_codes@[i] == c;
            assert(buys.codes@[buys.group_of@[i] as int] == c);
        }
    }
    Ok(DecisionGroups { sells, buys })
}

/// Every merged code occurs in the input.
proof fn lemma_first_occurrences_in(s: Seq<Code>, k: int)
    requires
        0 <= k < first_occurrences(s).len(),
    ensures
        exists|i: int| 0 <= i < s.len() && s[i] == first_occurrences(s)[k],
    decreases s.len(),
{
    if s.len() > 0 {
        let rest = first_occurrences(s.drop_last());
        if k < rest.len() {
            lemma_first_occurrences_in(s.drop_last(), k);
            let i = choose|i: int| 0 <= i < s.drop_last().len() && s.drop_last()[i] == rest[k];
            assert(s[i] == s.drop_last()[i]);
            if !rest.contains(s.last()) {
                assert(first_occurrences(s)[k] == rest[k]);
            }
        } else {
            assert(s[s.len() - 1] == s.last());
        }
    }
}

/// Merging leaves one order per stock, for exactly the stocks that were ordered.
pub proof fn law_merged_orders_one_per_stock(s: Seq<Code>)
    ensures
        first_occurrences(s).no_duplicates(),
        forall|c: Code| #[trigger] first_occurrences(s).contains(c) <==> s.contains(c),
    decreases s.len(),
{
    if s.len() > 0 {
        let init = s.drop_last();
        law_merged_orders_one_per_stock(init);
        let rest = first_occurrences(init);
        let x = s.last();
        assert forall|c: Code| #[trigger] first_occurrences(s).contains(c) <==> s.contains(c) by {
            if first_occurrences(s).contains(c) {
                if rest.contains(c) {
                    assert(init.contains(c));
                    let i = choose|i: int| 0 <= i < init.len() && init[i] == c;
                    assert(s[i] == c);
                } else {
                    assert(c == x);
                    assert(s[s.len() - 1] == c);
                }
            }
            if s.contains(c) {
                let i = choose|i: int| 0 <= i < s.len() && s[i] == c;
                if i < init.len() {
                    assert(init[i] == c);
                    assert(rest.contains(c));
                    if !rest.contains(x) {
                        let k = choose|k: int| 0 <= k < rest.len() && rest[k] == c;
                        assert(rest.push(x)[k] == c);
                    }
                } else if !rest.contains(x) {
                    assert(rest.push(x)[rest.len() as int] == c);
                }
            }
        }
        if !rest.contains(x) {
            assert forall|a: int, b: int| 0 <= a < b < rest.push(x).len() implies rest.push(x)[a]
                != rest.push(x)[b] by {
                if b == rest.len() {
                    assert(rest.push(x)[a] == rest[a]);
                }
            }
        }
    }
}

/// Number of purchases kept once the sales have executed, and whether the kept
/// purchases share the cash anew.
///
/// With a target holding count, `target - holdings` purchases are kept (none when
/// the holdings already reach it), from the front of the list. When that cuts the
/// list short (and keeps at least one), the kept purchases split the available cash
/// evenly again; otherwise their volumes stay. Without a target, all are kept.
pub fn revise_keep(target: Option<usize>, n_held: usize, n_buys: usize) -> (r: (usize, bool))
    ensures
        match target {
            None => r == (n_buys, false),
            Some(t) => {
                let keep: int = if t > n_held { t - n_held } else { 0 };
                if keep == 0 || keep >= n_buys {
                    r == (vstd::math::min(keep, n_buys as int) as usize, false)
                } else {
                    r == (keep as usize, true)
                }
            },
        },
{
    match target {
        None => (n_buys, false),
        Some(t) => {
            let keep = if t > n_held {
                t - n_held
            } else {
                0
            };
            if keep == 0 || keep >= n_buys {
                (if keep < n_buys {
                    keep
                } else {
                    n_buys
                }, false)
            } else {
                (keep, true)
            }
        },
    }
}

} // verus!
