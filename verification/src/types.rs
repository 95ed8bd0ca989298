//! Basic vocabulary: integer keys, string enums with their canonical names,
//! and the `instrument` <-> `code` coding of SH/SZ stocks.
use vstd::prelude::*;
use vstd::string::*;
use crate::error::{message_with, BtError};
use crate::text::{
    all_digits, char_is_digit, decimal, digit_char, digit_str, digits_value, has_prefix, is_digit,
    lemma_digits_value_push, padded_digits, parse_u8, pow10, push_decimal, spec_parse_u8, starts_with,
    str_eq,
};

verus! {

/// Trading-calendar index: the internal time key, 0..n_days.
pub type DayIdx = u32;

/// Integer code of a stock: SH600000 -> 600000.
pub type Code = u32;

/// Largest wap window number: windows are wap_1 ..= wap_11.
pub const WAP_WINDOW_MAX: u8 = 11;

/// Price family of a wap window (`deal_price = vwapN / twapN`).
#[derive(Clone, Copy, PartialEq, Eq, Debug, Structural)]
pub enum WapKind {
    /// Volume-weighted average price of the window (`wap_N_*_vwap*` columns).
    Vwap,
    /// Time-weighted average price of the window (`wap_N_*_twap*` columns).
    Twap,
}

impl WapKind {
    /// Canonical name.
    pub open spec fn spec_name(self) -> Seq<char> {
        match self {
            WapKind::Vwap => "vwap"@,
            WapKind::Twap => "twap"@,
        }
    }

    /// Parses the canonical name; any other text is an `InvalidParam` error.
    pub fn parse(s: &str) -> (r: Result<WapKind, BtError>)
        ensures
            match r {
                Ok(k) => k.spec_name() == s@,
                Err(e) => e is InvalidParam && s@ != "vwap"@ && s@ != "twap"@,
            },
    {
        if str_eq(s, "vwap") {
            Ok(WapKind::Vwap)
        } else if str_eq(s, "twap") {
            Ok(WapKind::Twap)
        } else {
            Err(BtError::InvalidParam(message_with("wap 价格类型仅支持 vwap/twap，收到: ", s)))
        }
    }

    /// Canonical name, the inverse of `parse`.
    pub fn as_str(&self) -> (r: &'static str)
        ensures
            r@ == self.spec_name(),
    {
        match self {
            WapKind::Vwap => "vwap",
            WapKind::Twap => "twap",
        }
    }
}

/// Price column that orders are filled at.
///
/// `Wap` is a window price (`vwapN` / `twapN`, N = 1..=11): price and volume come from
/// the wap data of the direction; strategies only see `pre_close` when pricing orders.
#[derive(Clone, Copy, PartialEq, Eq, Debug, Structural)]
pub enum DealPrice {
    Open,
    Close,
    Vwap,
    /// Window VWAP/TWAP: `kind` picks the price family, `window` the window 1..=11.
    Wap { kind: WapKind, window: u8 },
}

/// The window number accepted after a `vwap` / `twap` prefix: a plain decimal
/// (digits only, no sign), not starting with `0`, within 1..=11.
pub open spec fn spec_wap_window(num: Seq<char>) -> Option<u8> {
    match spec_parse_u8(num) {
        Some(w) => if !(num.len() > 0 && num[0] == '0') && 1 <= w <= WAP_WINDOW_MAX {
            Some(w)
        } else {
            None
        },
        None => None,
    }
}

/// What `DealPrice::parse` accepts and yields.
pub open spec fn spec_deal_price_parse(s: Seq<char>) -> Option<DealPrice> {
    if s == "open"@ {
        Some(DealPrice::Open)
    } else if s == "close"@ {
        Some(DealPrice::Close)
    } else if s == "vwap"@ {
        Some(DealPrice::Vwap)
    } else if has_prefix(s, "vwap"@) {
        match spec_wap_window(s.skip(4)) {
            Some(w) => Some(DealPrice::Wap { kind: WapKind::Vwap, window: w }),
            None => None,
        }
    } else if has_prefix(s, "twap"@) {
        match spec_wap_window(s.skip(4)) {
            Some(w) => Some(DealPrice::Wap { kind: WapKind::Twap, window: w }),
            None => None,
        }
    } else {
        None
    }
}

impl DealPrice {
    /// Canonical name: `open` / `close` / `vwap` / `vwapN` / `twapN`.
    pub open spec fn spec_name(self) -> Seq<char> {
        match self {
            DealPrice::Open => "open"@,
            DealPrice::Close => "close"@,
            DealPrice::Vwap => "vwap"@,
            DealPrice::Wap { kind, window } => kind.spec_name() + decimal(window as nat),
        }
    }

    /// A value that `parse` can produce (window numbers 1..=11).
    pub open spec fn well_formed(self) -> bool {
        match self {
            DealPrice::Wap { window, .. } => 1 <= window <= WAP_WINDOW_MAX,
            _ => true,
        }
    }

    /// Parses `open` / `close` / `vwap` / `vwapN` / `twapN` (N = 1..=11, no leading zero).
    /// Any other text is an `InvalidParam` error; this never panics.
    pub fn parse(s: &str) -> (r: Result<DealPrice, BtError>)
        ensures
            match r {
                Ok(d) => spec_deal_price_parse(s@) == Some(d) && d.spec_name() == s@,
                Err(e) => e is InvalidParam && spec_deal_price_parse(s@) is None,
            },
    {
        proof {
            law_deal_price_parse_then_name(s@);
        }
        if str_eq(s, "open") {
            return Ok(DealPrice::Open);
        }
        if str_eq(s, "close") {
            return Ok(DealPrice::Close);
        }
        if str_eq(s, "vwap") {
            return Ok(DealPrice::Vwap);
        }
        let n = s.unicode_len();
        let kind = if starts_with(s, "vwap") {
            WapKind::Vwap
        } else if starts_with(s, "twap") {
            WapKind::Twap
        } else {
            return Err(BtError::InvalidParam(
                message_with("deal_price 仅支持 open/close/vwap/vwapN/twapN（N=1..=11），收到: ", s),
            ));
        };
        proof {
            reveal_strlit("vwap");
            reveal_strlit("twap");
        }
        let num = s.substring_char(4, n);
        assert(num@ =~= s@.skip(4));
        match parse_u8(num) {
            Some(w) => {
                let leading_zero = num.unicode_len() > 0 && num.get_char(0) == '0';
                if !leading_zero && 1 <= w && w <= WAP_WINDOW_MAX {
                    return Ok(DealPrice::Wap { kind, window: w });
                }
            },
            None => {},
        }
        Err(BtError::InvalidParam(
            message_with("deal_price 时段号须在 1..=11（无前导零），收到: ", s),
        ))
    }

    /// The stock_bar column of the basic modes; window modes read the wap data and have none.
    pub fn column(&self) -> (r: Option<&'static str>)
        ensures
            match self {
                DealPrice::Wap { .. } => r is None,
                _ => r matches Some(c) && c@ == self.spec_name(),
            },
    {
        match self {
            DealPrice::Open => Some("open"),
            DealPrice::Close => Some("close"),
            DealPrice::Vwap => Some("vwap"),
            DealPrice::Wap { .. } => None,
        }
    }

    /// Canonical name, the inverse of `parse` (the text the library prints for it).
    pub fn to_string(&self) -> (r: String)
        ensures
            r@ == self.spec_name(),
    {
        match self {
            DealPrice::Open => String::from_str("open"),
            DealPrice::Close => String::from_str("close"),
            DealPrice::Vwap => String::from_str("vwap"),
            DealPrice::Wap { kind, window } => {
                let mut out = String::from_str(kind.as_str());
                push_decimal(&mut out, *window as u32);
                out
            },
        }
    }
}

/// How the daily excess return over the benchmark is measured.
#[derive(Clone, Copy, PartialEq, Eq, Debug, Structural)]
pub enum ExcessMethod {
    /// Arithmetic difference r - b.
    Arithmetic,
    /// Geometric difference (1 + r) / (1 + b) - 1.
    Geometric,
}

impl ExcessMethod {
    /// Canonical name.
    pub open spec fn spec_name(self) -> Seq<char> {
        match self {
            ExcessMethod::Arithmetic => "arithmetic"@,
            ExcessMethod::Geometric => "geometric"@,
        }
    }

    /// Parses the canonical name; any other text is an `InvalidParam` error.
    pub fn parse(s: &str) -> (r: Result<ExcessMethod, BtError>)
        ensures
            match r {
                Ok(m) => m.spec_name() == s@,
                Err(e) => e is InvalidParam && s@ != "arithmetic"@ && s@ != "geometric"@,
            },
    {
        if str_eq(s, "arithmetic") {
            Ok(ExcessMethod::Arithmetic)
        } else if str_eq(s, "geometric") {
            Ok(ExcessMethod::Geometric)
        } else {
            Err(BtError::InvalidParam(
                message_with("excess_method 仅支持 arithmetic/geometric，收到: ", s),
            ))
        }
    }

    /// Canonical name, the inverse of `parse`.
    pub fn as_str(&self) -> (r: &'static str)
        ensures
            r@ == self.spec_name(),
    {
        match self {
            ExcessMethod::Arithmetic => "arithmetic",
            ExcessMethod::Geometric => "geometric",
        }
    }
}

/// Benchmark names of the mapping table.
#[derive(Clone, Copy, PartialEq, Eq, Debug, Structural)]
pub enum BenchmarkName {
    Hs300,
    Zz500,
    Cyb,
    Zz800,
    Zz1000,
    Zz2000,
    Sci,
    Kci,
    Cyi,
}

impl BenchmarkName {
    /// Canonical name.
    pub open spec fn spec_name(self) -> Seq<char> {
        match self {
            BenchmarkName::Hs300 => "hs300"@,
            BenchmarkName::Zz500 => "zz500"@,
            BenchmarkName::Cyb => "cyb"@,
            BenchmarkName::Zz800 => "zz800"@,
            BenchmarkName::Zz1000 => "zz1000"@,
            BenchmarkName::Zz2000 => "zz2000"@,
            BenchmarkName::Sci => "sci"@,
            BenchmarkName::Kci => "kci"@,
            BenchmarkName::Cyi => "cyi"@,
        }
    }

    /// Index code of the benchmark in the data files.
    pub open spec fn spec_instrument(self) -> Seq<char> {
        match self {
            BenchmarkName::Hs300 => "SH000300"@,
            BenchmarkName::Zz500 => "SZ399905"@,
            BenchmarkName::Cyb => "SZ399006"@,
            BenchmarkName::Zz800 => "SH000906"@,
            BenchmarkName::Zz1000 => "SH000852"@,
            BenchmarkName::Zz2000 => "CSI932000"@,
            BenchmarkName::Sci => "CSIMJSC"@,
            BenchmarkName::Kci => "CSIKC"@,
            BenchmarkName::Cyi => "CSICY"@,
        }
    }

    /// Looks a name up in the mapping table; `None` when it is not there.
    pub fn from_name(s: &str) -> (r: Option<BenchmarkName>)
        ensures
            match r {
                Some(b) => b.spec_name() == s@,
                None => forall|b: BenchmarkName| b.spec_name() != s@,
            },
    {
        if str_eq(s, "hs300") {
            Some(BenchmarkName::Hs300)
        } else if str_eq(s, "zz500") {
            Some(BenchmarkName::Zz500)
        } else if str_eq(s, "cyb") {
            Some(BenchmarkName::Cyb)
        } else if str_eq(s, "zz800") {
            Some(BenchmarkName::Zz800)
        } else if str_eq(s, "zz1000") {
            Some(BenchmarkName::Zz1000)
        } else if str_eq(s, "zz2000") {
            Some(BenchmarkName::Zz2000)
        } else if str_eq(s, "sci") {
            Some(BenchmarkName::Sci)
        } else if str_eq(s, "kci") {
            Some(BenchmarkName::Kci)
        } else if str_eq(s, "cyi") {
            Some(BenchmarkName::Cyi)
        } else {
            assert forall|b: BenchmarkName| b.spec_name() != s@ by {
                match b {
                    BenchmarkName::Hs300 => {},
                    BenchmarkName::Zz500 => {},
                    BenchmarkName::Cyb => {},
                    BenchmarkName::Zz800 => {},
                    BenchmarkName::Zz1000 => {},
                    BenchmarkName::Zz2000 => {},
                    BenchmarkName::Sci => {},
                    BenchmarkName::Kci => {},
                    BenchmarkName::Cyi => {},
                }
            }
            None
        }
    }

    /// Canonical name, the inverse of `from_name`.
    pub fn as_str(&self) -> (r: &'static str)
        ensures
            r@ == self.spec_name(),
    {
        match self {
            BenchmarkName::Hs300 => "hs300",
            BenchmarkName::Zz500 => "zz500",
            BenchmarkName::Cyb => "cyb",
            BenchmarkName::Zz800 => "zz800",
            BenchmarkName::Zz1000 => "zz1000",
            BenchmarkName::Zz2000 => "zz2000",
            BenchmarkName::Sci => "sci",
            BenchmarkName::Kci => "kci",
            BenchmarkName::Cyi => "cyi",
        }
    }

    /// Index code of the benchmark in the data files.
    pub fn instrument(&self) -> (r: &'static str)
        ensures
            r@ == self.spec_instrument(),
    {
        match self {
            BenchmarkName::Hs300 => "SH000300",
            BenchmarkName::Zz500 => "SZ399905",
            BenchmarkName::Cyb => "SZ399006",
            BenchmarkName::Zz800 => "SH000906",
            BenchmarkName::Zz1000 => "SH000852",
            BenchmarkName::Zz2000 => "CSI932000",
            BenchmarkName::Sci => "CSIMJSC",
            BenchmarkName::Kci => "CSIKC",
            BenchmarkName::Cyi => "CSICY",
        }
    }
}

/// The exchange prefix that goes with the first digit of a six-digit code:
/// 6 -> SH; 0 / 3 -> SZ; other digits (Beijing exchange 4/8/9) have none.
pub open spec fn spec_prefix_for(first: char) -> Option<Seq<char>> {
    if first == '6' {
        Some("SH"@)
    } else if first == '0' || first == '3' {
        Some("SZ"@)
    } else {
        None
    }
}

/// What `parse_instrument` accepts: `SH` / `SZ` followed by six ASCII digits whose
/// first digit matches the prefix (SH: 6; SZ: 0 or 3). Yields the digits' value.
pub open spec fn spec_parse_instrument(s: Seq<char>) -> Option<Code> {
    if s.len() == 8 && all_digits(s.skip(2)) && spec_prefix_for(s[2]) == Some(s.take(2)) {
        Some(digits_value(s.skip(2)) as Code)
    } else {
        None
    }
}

/// What `format_instrument` yields: the prefix of the first digit, then the code
/// zero-padded to six digits; `None` beyond six digits or for other first digits.
pub open spec fn spec_format_instrument(code: Code) -> Option<Seq<char>> {
    let digits = padded_digits(code as nat, 6);
    if code > 999_999 {
        None
    } else {
        match spec_prefix_for(digits[0]) {
            Some(p) => Some(p + digits),
            None => None,
        }
    }
}

/// `instrument` -> `code`: `SH600000` -> 600000. Only SH/SZ with a matching six-digit
/// part is accepted; anything else is a `Validation` error.
pub fn parse_instrument(s: &str) -> (r: Result<Code, BtError>)
    ensures
        match r {
            Ok(c) => spec_parse_instrument(s@) == Some(c),
            Err(e) => e is Validation && spec_parse_instrument(s@) is None,
        },
{
    proof {
        reveal_strlit("SH");
        reveal_strlit("SZ");
    }
    let n = s.unicode_len();
    if n == 8 {
        let mut value: u32 = 0;
        let mut i: usize = 2;
        let mut ok = true;
        while i < 8
            invariant
                n == s@.len() == 8,
                2 <= i <= 8,
                ok ==> all_digits(s@.subrange(2, i as int)),
                ok ==> value == digits_value(s@.subrange(2, i as int)),
                ok ==> value < pow10((i - 2) as nat),
                !ok ==> !all_digits(s@.skip(2)),
            decreases 8 - i,
        {
            if ok {
                let c = s.get_char(i);
                let ghost pre = s@.subrange(2, i as int);
                assert(s@.subrange(2, i + 1) =~= pre.push(c));
                if char_is_digit(c) {
                    proof {
                        lemma_digits_value_push(pre, c);
                        assert(all_digits(pre.push(c))) by {
                            assert forall|j: int| 0 <= j < pre.len() + 1 implies is_digit(
                                #[trigger] pre.push(c)[j],
                            ) by {
                                if j < pre.len() {
                                    assert(pre.push(c)[j] == pre[j]);
                                }
                            }
                        }
                        assert(pow10((i - 2) as nat) <= 100000) by {
                            reveal_with_fuel(pow10, 6);
                        }
                    }
                    value = value * 10 + (c as u32 - 48);
                } else {
                    ok = false;
                    assert(s@.skip(2)[i - 2] == c);
                }
            }
            i += 1;
        }
        if ok {
            assert(s@.subrange(2, 8) =~= s@.skip(2));
            let c0 = s.get_char(0);
            let c1 = s.get_char(1);
            let c2 = s.get_char(2);
            let first_ok = if c0 == 'S' && c1 == 'H' {
                c2 == '6'
            } else if c0 == 'S' && c1 == 'Z' {
                c2 == '0' || c2 == '3'
            } else {
                false
            };
            proof {
                assert(s@.take(2) =~= seq![c0, c1]);
                assert(s@[2] == c2);
            }
            if first_ok {
                assert("SH"@ =~= seq!['S', 'H']);
                assert("SZ"@ =~= seq!['S', 'Z']);
                assert(spec_prefix_for(s@[2]) == Some(s@.take(2)));
                assert(all_digits(s@.skip(2)));
                assert(value == digits_value(s@.skip(2)));
                return Ok(value);
            }
        }
    }
    Err(BtError::Validation(
        message_with("instrument 须为 SH/SZ 前缀 + 匹配的 6 位数字段（沪市 6 开头、深市 0/3 开头），收到: ", s),
    ))
}

/// `code` -> `instrument`: 600000 -> `SH600000`. First digit 6 -> SH; 0 / 3 -> SZ;
/// other first digits (Beijing exchange) and codes beyond six digits are `Validation` errors.
pub fn format_instrument(code: Code) -> (r: Result<String, BtError>)
    ensures
        match r {
            Ok(s) => spec_format_instrument(code) == Some(s@),
            Err(e) => e is Validation && spec_format_instrument(code) is None,
        },
{
    if code > 999_999 {
        return Err(BtError::Validation(String::from_str("code 超出 6 位数字范围")));
    }
    let d0 = code / 100000;
    let d1 = code / 10000 % 10;
    let d2 = code / 1000 % 10;
    let d3 = code / 100 % 10;
    let d4 = code / 10 % 10;
    let d5 = code % 10;
    proof {
        lemma_six_digits(code as nat);
        reveal_strlit("SH");
        reveal_strlit("SZ");
    }
    let mut out = if d0 == 6 {
        String::from_str("SH")
    } else if d0 == 0 || d0 == 3 {
        String::from_str("SZ")
    } else {
        return Err(BtError::Validation(String::from_str("code 首位属北交所段，暂不支持")));
    };
    let ghost prefix = out@;
    out.append(digit_str(d0));
    out.append(digit_str(d1));
    out.append(digit_str(d2));
    out.append(digit_str(d3));
    out.append(digit_str(d4));
    out.append(digit_str(d5));
    assert(out@ =~= prefix + padded_digits(code as nat, 6));
    Ok(out)
}

/// The six digits of a code below one million, written out.
proof fn lemma_six_digits(c: nat)
    requires
        c <= 999_999,
    ensures
        padded_digits(c, 6) == seq![
            digit_char((c / 100000) as int),
            digit_char((c / 10000 % 10) as int),
            digit_char((c / 1000 % 10) as int),
            digit_char((c / 100 % 10) as int),
            digit_char((c / 10 % 10) as int),
            digit_char((c % 10) as int),
        ],
{
    reveal_with_fuel(padded_digits, 7);
    vstd::arithmetic::div_mod::lemma_div_denominator(c as int, 10, 10);
    vstd::arithmetic::div_mod::lemma_div_denominator(c as int, 100, 10);
    vstd::arithmetic::div_mod::lemma_div_denominator(c as int, 1000, 10);
    vstd::arithmetic::div_mod::lemma_div_denominator(c as int, 10000, 10);
    vstd::arithmetic::div_mod::lemma_div_denominator(c as int, 100000, 10);
    assert(c / 100000 < 10);
    assert(c / 1000000 == 0);
    assert(padded_digits(c, 6) =~= seq![
        digit_char((c / 100000) as int),
        digit_char((c / 10000 % 10) as int),
        digit_char((c / 1000 % 10) as int),
        digit_char((c / 100 % 10) as int),
        digit_char((c / 10 % 10) as int),
        digit_char((c % 10) as int),
    ]);
}

/// Whether the code is on the STAR market (SH688xxx / SH689xxx): 200-share minimum,
/// then steps of one share.
pub fn is_star_market(code: Code) -> (r: bool)
    ensures
        r == (688_000 <= code <= 689_999),
{
    688_000 <= code && code <= 689_999
}

} // verus!

verus! {

/// Distinct price families have distinct names, so `WapKind::parse` of
/// `as_str(k)` yields `k` again.
pub proof fn law_wap_kind_names_distinct(a: WapKind, b: WapKind)
    ensures
        a.spec_name() == b.spec_name() ==> a == b,
{
    reveal_strlit("vwap");
    reveal_strlit("twap");
    if a != b {
        assert(a.spec_name()[0] != b.spec_name()[0]);
    }
}

/// Distinct excess methods have distinct names, so `ExcessMethod::parse` of
/// `as_str(m)` yields `m` again.
pub proof fn law_excess_method_names_distinct(a: ExcessMethod, b: ExcessMethod)
    ensures
        a.spec_name() == b.spec_name() ==> a == b,
{
    reveal_strlit("arithmetic");
    reveal_strlit("geometric");
    if a != b {
        assert(a.spec_name()[0] != b.spec_name()[0]);
    }
}

/// Distinct benchmarks have distinct names, so `BenchmarkName::from_name` of
/// `as_str(b)` yields `b` again.
pub proof fn law_benchmark_names_distinct(a: BenchmarkName, b: BenchmarkName)
    ensures
        a.spec_name() == b.spec_name() ==> a == b,
{
    reveal_strlit("hs300");
    reveal_strlit("zz500");
    reveal_strlit("cyb");
    reveal_strlit("zz800");
    reveal_strlit("zz1000");
    reveal_strlit("zz2000");
    reveal_strlit("sci");
    reveal_strlit("kci");
    reveal_strlit("cyi");
    if a.spec_name() == b.spec_name() {
        let n = a.spec_name();
        assert(n.len() == b.spec_name().len());
        assert(n[0] == b.spec_name()[0]);
        assert(n[n.len() - 1] == b.spec_name()[n.len() - 1]);
        assert(n[2] == b.spec_name()[2]);
    }
}

/// A stock instrument is eight characters, `SH` or `SZ` and six digits, and its
/// code is the number the six digits write: Shanghai codes are 600000..=699999,
/// Shenzhen codes 0..=99999 or 300000..=399999.
pub proof fn law_instrument_code_ranges(s: Seq<char>)
    ensures
        spec_parse_instrument(s) matches Some(c) ==> {
            &&& s.len() == 8
            &&& (s.take(2) == "SH"@ && 600_000 <= c <= 699_999) || (s.take(2) == "SZ"@ && (c <= 99_999 || (
            300_000 <= c <= 399_999)))
        },
{
    if let Some(c) = spec_parse_instrument(s) {
        let d = s.skip(2);
        crate::text::lemma_digits_value_first(d);
        crate::text::lemma_digits_value_bound(d);
        let tail = d.subrange(1, 6);
        assert(all_digits(tail)) by {
            assert forall|i: int| 0 <= i < tail.len() implies is_digit(#[trigger] tail[i]) by {
                assert(tail[i] == d[i + 1]);
            }
        }
        crate::text::lemma_digits_value_bound(tail);
        reveal_with_fuel(pow10, 7);
        assert(pow10(5) == 100_000);
        assert(pow10(6) == 1_000_000);
        assert(d[0] == s[2]);
        assert(c == digits_value(d));
        let a = crate::text::digit_value(d[0]);
        let tv = digits_value(tail);
        assert(d.len() == 6);
        assert(c == a * 100_000 + tv);
        assert(tv < 100_000);
        if s[2] == '6' {
            assert(a == 6);
            assert(a * 100_000 == 600_000) by (nonlinear_arith)
                requires
                    a == 6,
            ;
            assert(s.take(2) == "SH"@);
            assert(600_000 <= c <= 699_999);
        } else {
            assert(s[2] == '0' || s[2] == '3');
            assert(a == 0 || a == 3);
            if a == 0 {
                assert(a * 100_000 == 0) by (nonlinear_arith)
                    requires
                        a == 0,
                ;
            } else {
                assert(a * 100_000 == 300_000) by (nonlinear_arith)
                    requires
                        a == 3,
                ;
            }
            assert(s.take(2) == "SZ"@);
            assert(c <= 99_999 || (300_000 <= c <= 399_999));
        }
        assert(s.len() == 8);
    }
}

/// The configuration words select these settings: `vwap` / `twap` the
/// volume- / time-weighted window price, `arithmetic` / `geometric` the excess
/// method of the same name, and `open` / `close` / `vwap` the daily price column
/// of the same name; `vwap5` is the 5th volume-weighted window.
pub proof fn law_setting_names()
    ensures
        WapKind::Vwap.spec_name() == "vwap"@,
        WapKind::Twap.spec_name() == "twap"@,
        ExcessMethod::Arithmetic.spec_name() == "arithmetic"@,
        ExcessMethod::Geometric.spec_name() == "geometric"@,
        spec_deal_price_parse("open"@) == Some(DealPrice::Open),
        spec_deal_price_parse("close"@) == Some(DealPrice::Close),
        spec_deal_price_parse("vwap"@) == Some(DealPrice::Vwap),
        spec_deal_price_parse("vwap5"@) == Some(DealPrice::Wap { kind: WapKind::Vwap, window: 5 }),
        spec_deal_price_parse("twap11"@) == Some(DealPrice::Wap { kind: WapKind::Twap, window: 11 }),
{
    reveal_strlit("open");
    reveal_strlit("close");
    reveal_strlit("vwap");
    reveal_strlit("twap");
    reveal_strlit("vwap5");
    reveal_strlit("twap11");
    assert("close"@.len() != "open"@.len());
    assert("vwap"@[0] != "open"@[0] && "vwap"@.len() != "close"@.len());
    law_deal_price_parse_then_name("vwap5"@);
    law_deal_price_name_roundtrip(DealPrice::Wap { kind: WapKind::Vwap, window: 5 });
    law_deal_price_name_roundtrip(DealPrice::Wap { kind: WapKind::Twap, window: 11 });
    assert(decimal(5) =~= seq!['5']);
    assert(decimal(11) =~= seq!['1', '1']) by {
        assert(decimal(1) =~= seq!['1']);
    }
    assert(DealPrice::Wap { kind: WapKind::Vwap, window: 5 }.spec_name() =~= "vwap5"@);
    assert(DealPrice::Wap { kind: WapKind::Twap, window: 11 }.spec_name() =~= "twap11"@);
}

/// Each benchmark name selects the index series of the mapping table:
/// hs300 SH000300, zz500 SZ399905, cyb SZ399006, zz800 SH000906, zz1000 SH000852,
/// zz2000 CSI932000, sci CSIMJSC, kci CSIKC, cyi CSICY.
pub proof fn law_benchmark_index_table(b: BenchmarkName)
    ensures
        b.spec_name() == "hs300"@ ==> b.spec_instrument() == "SH000300"@,
        b.spec_name() == "zz500"@ ==> b.spec_instrument() == "SZ399905"@,
        b.spec_name() == "cyb"@ ==> b.spec_instrument() == "SZ399006"@,
        b.spec_name() == "zz800"@ ==> b.spec_instrument() == "SH000906"@,
        b.spec_name() == "zz1000"@ ==> b.spec_instrument() == "SH000852"@,
        b.spec_name() == "zz2000"@ ==> b.spec_instrument() == "CSI932000"@,
        b.spec_name() == "sci"@ ==> b.spec_instrument() == "CSIMJSC"@,
        b.spec_name() == "kci"@ ==> b.spec_instrument() == "CSIKC"@,
        b.spec_name() == "cyi"@ ==> b.spec_instrument() == "CSICY"@,
{
    law_benchmark_names_distinct(b, BenchmarkName::Hs300);
    law_benchmark_names_distinct(b, BenchmarkName::Zz500);
    law_benchmark_names_distinct(b, BenchmarkName::Cyb);
    law_benchmark_names_distinct(b, BenchmarkName::Zz800);
    law_benchmark_names_distinct(b, BenchmarkName::Zz1000);
    law_benchmark_names_distinct(b, BenchmarkName::Zz2000);
    law_benchmark_names_distinct(b, BenchmarkName::Sci);
    law_benchmark_names_distinct(b, BenchmarkName::Kci);
    law_benchmark_names_distinct(b, BenchmarkName::Cyi);
}

/// Distinct benchmarks read distinct index series.
pub proof fn law_benchmark_index_codes_distinct(a: BenchmarkName, b: BenchmarkName)
    ensures
        a != b ==> a.spec_instrument() != b.spec_instrument(),
{
    reveal_strlit("SH000300");
    reveal_strlit("SZ399905");
    reveal_strlit("SZ399006");
    reveal_strlit("SH000906");
    reveal_strlit("SH000852");
    reveal_strlit("CSI932000");
    reveal_strlit("CSIMJSC");
    reveal_strlit("CSIKC");
    reveal_strlit("CSICY");
    if a != b {
        let x = a.spec_instrument();
        let y = b.spec_instrument();
        if x == y {
            assert(x.len() == y.len());
            assert(x[0] == y[0]);
            assert(x[2] == y[2]);
            assert(x[3] == y[3]);
            assert(x[x.len() - 1] == y[y.len() - 1]);
            assert(x[x.len() - 2] == y[y.len() - 2]);
            assert(x[x.len() - 3] == y[y.len() - 3]);
        }
    }
}

/// Every deal price that `parse` can produce is parsed back from its canonical
/// name: `parse(to_string(d)) == Ok(d)`.
pub proof fn law_deal_price_name_roundtrip(d: DealPrice)
    requires
        d.well_formed(),
    ensures
        spec_deal_price_parse(d.spec_name()) == Some(d),
{
    reveal_strlit("open");
    reveal_strlit("close");
    reveal_strlit("vwap");
    reveal_strlit("twap");
    match d {
        DealPrice::Wap { kind, window } => {
            let digits = decimal(window as nat);
            crate::text::lemma_decimal(window as nat);
            let name = kind.spec_name() + digits;
            assert(name.len() >= 5);
            assert(name.subrange(0, 4) =~= kind.spec_name());
            assert(name.skip(4) =~= digits);
            assert(name != "open"@ && name != "close"@ && name != "vwap"@) by {
                assert(name.len() != 4 || name.len() == 4);
                if kind == WapKind::Vwap {
                    assert(name.len() != "vwap"@.len());
                } else {
                    assert(name[0] != "open"@[0] && name[0] != "close"@[0] && name[0] != "vwap"@[0]);
                }
                assert(name[0] != 'o' && name[0] != 'c');
            }
            assert(digits[0] != '+');
            assert(spec_parse_u8(digits) == Some(window));
            assert(spec_wap_window(digits) == Some(window));
            if kind == WapKind::Twap {
                assert(!has_prefix(name, "vwap"@)) by {
                    assert(name.subrange(0, 4)[0] == 't');
                }
                assert(has_prefix(name, "twap"@));
                assert(spec_deal_price_parse(name) == Some(DealPrice::Wap { kind: WapKind::Twap, window }));
            } else {
                assert(has_prefix(name, "vwap"@));
                assert(spec_deal_price_parse(name) == Some(DealPrice::Wap { kind: WapKind::Vwap, window }));
            }
            assert(d.spec_name() == name);
            assert(d == DealPrice::Wap { kind, window });
            assert(spec_deal_price_parse(name) == Some(DealPrice::Wap { kind, window }));
        },
        DealPrice::Open => {},
        DealPrice::Close => {
            assert("close"@.len() != "open"@.len());
        },
        DealPrice::Vwap => {
            assert("vwap"@[0] != "open"@[0]);
            assert("vwap"@.len() != "close"@.len());
        },
    }
}

/// Whatever `parse` accepts is the canonical name of the value it yields, so
/// printing a parsed deal price gives the text back.
pub proof fn law_deal_price_parse_then_name(s: Seq<char>)
    ensures
        spec_deal_price_parse(s) matches Some(d) ==> d.spec_name() == s,
{
    if let Some(DealPrice::Wap { kind, window }) = spec_deal_price_parse(s) {
        {
            reveal_strlit("vwap");
            reveal_strlit("twap");
            let num = s.skip(4);
            assert(has_prefix(s, kind.spec_name()));
            assert(spec_wap_window(num) == Some(window));
            crate::text::lemma_decimal_of_digits(num);
            assert(decimal(window as nat) == num);
            assert(s.subrange(0, 4) == kind.spec_name());
            assert(s =~= s.subrange(0, 4) + num);
        }
    }
}

/// Formatting a code and parsing the result gives the code back.
pub proof fn law_format_then_parse_instrument(code: Code)
    requires
        spec_format_instrument(code) is Some,
    ensures
        spec_parse_instrument(spec_format_instrument(code).unwrap()) == Some(code),
{
    reveal_strlit("SH");
    reveal_strlit("SZ");
    let digits = padded_digits(code as nat, 6);
    crate::text::lemma_padded_digits_shape(code as nat, 6);
    crate::text::lemma_padded_digits_value(code as nat, 6);
    assert(pow10(6) == 1_000_000) by {
        reveal_with_fuel(pow10, 7);
    }
    let p = spec_prefix_for(digits[0]).unwrap();
    let s = p + digits;
    assert(s.skip(2) =~= digits);
    assert(s.take(2) =~= p);
    assert(s[2] == digits[0]);
}

/// Parsing an instrument and formatting the code gives the instrument back.
pub proof fn law_parse_then_format_instrument(s: Seq<char>)
    requires
        spec_parse_instrument(s) is Some,
    ensures
        spec_format_instrument(spec_parse_instrument(s).unwrap()) == Some(s),
{
    reveal_strlit("SH");
    reveal_strlit("SZ");
    let d = s.skip(2);
    crate::text::lemma_digits_value_bound(d);
    assert(pow10(6) == 1_000_000) by {
        reveal_with_fuel(pow10, 7);
    }
    let c = digits_value(d);
    assert(c as Code as nat == c);
    crate::text::lemma_padded_digits_of_value(d);
    assert(padded_digits(c, 6) == d);
    assert(d[0] == s[2]);
    assert(s.take(2) + d =~= s);
}

} // verus!

verus! {

/// What the strategies may know about one stock on the execution day (decided by
/// the exchange from that day's market data): whether it can be bought, whether it
/// can be sold, and whether it is an ST stock.
#[derive(Clone, Copy, PartialEq, Eq, Debug, Structural)]
pub struct StockFlags {
    pub buyable: bool,
    pub sellable: bool,
    pub is_st: bool,
}

/// Codes in strictly increasing order.
pub open spec fn strictly_increasing(s: Seq<Code>) -> bool {
    forall|i: int, j: int| 0 <= i < j < s.len() ==> s[i] < s[j]
}

/// The map from each code to the flags at the same position.
pub open spec fn flags_map(codes: Seq<Code>, flags: Seq<StockFlags>) -> Map<Code, StockFlags> {
    Map::new(|c: Code| codes.contains(c), |c: Code| flags[codes.index_of(c)])
}

/// Tradability of the whole market on one day: codes ascending, looked up by
/// binary search. `None` from `get` means the stock has no market data that day.
#[derive(Debug)]
pub struct TradableFlags {
    codes: Vec<Code>,
    flags: Vec<StockFlags>,
}

impl View for TradableFlags {
    type V = Map<Code, StockFlags>;

    closed spec fn view(&self) -> Map<Code, StockFlags> {
        flags_map(self.codes@, self.flags@)
    }
}

impl TradableFlags {
    #[verifier::type_invariant]
    spec fn inv(self) -> bool {
        &&& self.codes@.len() == self.flags@.len()
        &&& strictly_increasing(self.codes@)
    }

    /// Builds the day view from columns; `None` when the columns differ in length
    /// or the codes are not strictly ascending.
    pub fn new(codes: Vec<Code>, flags: Vec<StockFlags>) -> (r: Option<TradableFlags>)
        ensures
            match r {
                Some(t) => t@ == flags_map(codes@, flags@),
                None => codes@.len() != flags@.len() || !strictly_increasing(codes@),
            },
    {
        if codes.len() != flags.len() {
            return None;
        }
        let mut i: usize = 1;
        while i < codes.len()
            invariant
                1 <= i,
                forall|a: int, b: int| 0 <= a < b < i && b < codes@.len() ==> codes@[a] < codes@[b],
            decreases codes.len() - i,
        {
            if codes[i - 1] >= codes[i] {
                return None;
            }
            i += 1;
        }
        Some(TradableFlags { codes, flags })
    }

    /// Flags of one stock; `None` when the stock has no market data that day.
    pub fn get(&self, code: Code) -> (r: Option<StockFlags>)
        ensures
            r == (if self@.contains_key(code) {
                Some(self@[code])
            } else {
                None::<StockFlags>
            }),
    {
        proof {
            use_type_invariant(self);
        }
        let mut lo: usize = 0;
        let mut hi: usize = self.codes.len();
        while lo < hi
            invariant
                lo <= hi <= self.codes@.len(),
                self.codes@.len() == self.flags@.len(),
                strictly_increasing(self.codes@),
                forall|i: int| 0 <= i < lo ==> self.codes@[i] < code,
                forall|i: int| hi <= i < self.codes@.len() ==> self.codes@[i] > code,
            decreases hi - lo,
        {
            let mid = lo + (hi - lo) / 2;
            let c = self.codes[mid];
            if c == code {
                proof {
                    assert(self.codes@.contains(code));
                    let j = self.codes@.index_of(code);
                    assert(self.codes@[j] == code);
                    assert(j == mid);
                }
                return Some(self.flags[mid]);
            } else if c < code {
                lo = mid + 1;
            } else {
                hi = mid;
            }
        }
        assert(!self.codes@.contains(code));
        None
    }
}

} // verus!
