//! Trading rules over whole shares.
use vstd::prelude::*;
use crate::types::{is_star_market, Code};

verus! {

/// Lot rounding of a purchase of `shares` whole shares: main board rounds down to a
/// multiple of 100 (less than one lot buys nothing); the STAR market trades single
/// shares but at least 200.
pub open spec fn spec_round_buy_lot(shares: u64, code: Code) -> u64 {
    if 688_000 <= code <= 689_999 {
        if shares < 200 {
            0
        } else {
            shares
        }
    } else {
        ((shares / 100) * 100) as u64
    }
}

/// Lot rounding of a purchase (sales are not rounded).
pub fn round_buy_lot(shares: u64, code: Code) -> (r: u64)
    ensures
        r == spec_round_buy_lot(shares, code),
        r <= shares,
        !(688_000 <= code <= 689_999) ==> r % 100 == 0 && shares < r + 100,
        688_000 <= code <= 689_999 ==> (shares < 200 ==> r == 0) && (shares >= 200 ==> r == shares),
{
    if is_star_market(code) {
        if shares < 200 {
            0
        } else {
            shares
        }
    } else {
        shares / 100 * 100
    }
}

/// Rounding a purchase that is already in whole lots leaves it unchanged.
pub proof fn law_round_buy_lot_idempotent(shares: u64, code: Code)
    ensures
        spec_round_buy_lot(spec_round_buy_lot(shares, code), code) == spec_round_buy_lot(shares, code),
{
    let r = spec_round_buy_lot(shares, code);
    if !(688_000 <= code <= 689_999) {
        assert((shares / 100) * 100 / 100 == shares / 100) by (nonlinear_arith);
    }
}

/// A main-board purchase buys the largest whole number of 100-share lots that the
/// order holds; a STAR-market purchase (codes 688000..=689999) buys every share
/// of an order of at least 200 shares and nothing of a smaller one.
pub proof fn law_round_buy_lot_largest_lot(shares: u64, code: Code)
    ensures
        !(688_000 <= code <= 689_999) ==> {
            let r = spec_round_buy_lot(shares, code);
            &&& r % 100 == 0
            &&& r <= shares
            &&& shares < r + 100
        },
        688_000 <= code <= 689_999 && shares >= 200 ==> spec_round_buy_lot(shares, code) == shares,
        688_000 <= code <= 689_999 && shares < 200 ==> spec_round_buy_lot(shares, code) == 0,
{
    if !(688_000 <= code <= 689_999) {
        assert((shares / 100) * 100 % 100 == 0) by (nonlinear_arith);
        assert((shares / 100) * 100 <= shares) by (nonlinear_arith);
        assert(shares < (shares / 100) * 100 + 100) by (nonlinear_arith);
    }
}

/// Rounding never buys more than ordered, and buying more never rounds to less.
pub proof fn law_round_buy_lot_monotone(a: u64, b: u64, code: Code)
    requires
        a <= b,
    ensures
        spec_round_buy_lot(a, code) <= spec_round_buy_lot(b, code),
        spec_round_buy_lot(b, code) <= b,
{
    if !(688_000 <= code <= 689_999) {
        assert((a / 100) * 100 <= (b / 100) * 100) by (nonlinear_arith)
            requires
                a <= b,
        ;
        assert((b / 100) * 100 <= b) by (nonlinear_arith);
    }
}

} // verus!
