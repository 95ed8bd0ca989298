//! Character-level helpers: exact string comparison, decimal digits and the
//! reading of a plain decimal `u8`, all over the `Seq<char>` view.
use vstd::prelude::*;
use vstd::string::*;

verus! {

/// `c` is an ASCII decimal digit.
pub open spec fn is_digit(c: char) -> bool {
    48 <= (c as int) <= 57
}

/// Numeric value of an ASCII digit.
pub open spec fn digit_value(c: char) -> int {
    (c as int) - 48
}

/// The ASCII digit for `d` (0..=9).
pub open spec fn digit_char(d: int) -> char {
    (d + 48) as char
}

/// Every character of `s` is an ASCII digit.
pub open spec fn all_digits(s: Seq<char>) -> bool {
    forall|i: int| 0 <= i < s.len() ==> is_digit(#[trigger] s[i])
}

/// Decimal value of a digit sequence (most significant digit first).
pub open spec fn digits_value(s: Seq<char>) -> nat
    decreases s.len(),
{
    if s.len() == 0 {
        0
    } else {
        (digits_value(s.drop_last()) * 10 + digit_value(s.last())) as nat
    }
}

/// 10 to the power `k`.
pub open spec fn pow10(k: nat) -> nat
    decreases k,
{
    if k == 0 {
        1
    } else {
        10 * pow10((k - 1) as nat)
    }
}

pub proof fn lemma_pow10_positive(k: nat)
    ensures
        pow10(k) >= 1,
    decreases k,
{
    if k > 0 {
        lemma_pow10_positive((k - 1) as nat);
    }
}

/// `n` rendered with exactly `width` digits, zero-padded (the value taken modulo 10^width).
pub open spec fn padded_digits(n: nat, width: nat) -> Seq<char>
    decreases width,
{
    if width == 0 {
        Seq::empty()
    } else {
        padded_digits(n / 10, (width - 1) as nat).push(digit_char((n % 10) as int))
    }
}

/// Decimal rendering of `n` without leading zeros ("0" for zero).
pub open spec fn decimal(n: nat) -> Seq<char>
    decreases n,
{
    if n < 10 {
        seq![digit_char(n as int)]
    } else {
        decimal(n / 10).push(digit_char((n % 10) as int))
    }
}

/// A plain decimal `u8`: at least one ASCII digit (no sign), with a value of at
/// most 255 (leading zeros allowed).
pub open spec fn spec_parse_u8(s: Seq<char>) -> Option<u8> {
    if s.len() > 0 && all_digits(s) && digits_value(s) <= 255 {
        Some(digits_value(s) as u8)
    } else {
        None
    }
}

/// `p` is a prefix of `s`.
pub open spec fn has_prefix(s: Seq<char>, p: Seq<char>) -> bool {
    p.len() <= s.len() && s.subrange(0, p.len() as int) == p
}

pub proof fn lemma_digits_value_push(s: Seq<char>, c: char)
    requires
        is_digit(c),
    ensures
        digits_value(s.push(c)) == digits_value(s) * 10 + digit_value(c),
{
    assert(s.push(c).drop_last() =~= s);
}

/// The digits of a zero-padded rendering are digits.
pub proof fn lemma_padded_digits_shape(n: nat, width: nat)
    ensures
        padded_digits(n, width).len() == width,
        all_digits(padded_digits(n, width)),
    decreases width,
{
    if width > 0 {
        lemma_padded_digits_shape(n / 10, (width - 1) as nat);
        let p = padded_digits(n / 10, (width - 1) as nat);
        let q = padded_digits(n, width);
        assert(q == p.push(digit_char((n % 10) as int)));
        assert forall|i: int| 0 <= i < q.len() implies is_digit(#[trigger] q[i]) by {
            if i < p.len() {
                assert(q[i] == p[i]);
            }
        }
    }
}

/// Reading back a zero-padded rendering gives the number modulo 10^width.
pub proof fn lemma_padded_digits_value(n: nat, width: nat)
    ensures
        digits_value(padded_digits(n, width)) == n % pow10(width),
    decreases width,
{
    if width == 0 {
        assert(digits_value(Seq::<char>::empty()) == 0);
    } else {
        let w1 = (width - 1) as nat;
        lemma_padded_digits_value(n / 10, w1);
        let p = padded_digits(n / 10, w1);
        let d = (n % 10) as int;
        assert(is_digit(digit_char(d)));
        lemma_digits_value_push(p, digit_char(d));
        let m = pow10(w1);
        lemma_pow10_positive(w1);
        vstd::arithmetic::div_mod::lemma_mod_breakdown(n as int, 10, m as int);
        assert(digit_value(digit_char(d)) == d);
        assert(digits_value(padded_digits(n, width)) == (n / 10) % m * 10 + n % 10);
        vstd::arithmetic::mul::lemma_mul_is_commutative(10, ((n / 10) % m) as int);
    }
}

/// A digit sequence is the zero-padded rendering of its own value.
pub proof fn lemma_padded_digits_of_value(s: Seq<char>)
    requires
        all_digits(s),
    ensures
        padded_digits(digits_value(s), s.len()) == s,
    decreases s.len(),
{
    if s.len() > 0 {
        let p = s.drop_last();
        assert(all_digits(p)) by {
            assert forall|i: int| 0 <= i < p.len() implies is_digit(#[trigger] p[i]) by {
                assert(p[i] == s[i]);
            }
        }
        lemma_padded_digits_of_value(p);
        let v = digits_value(s);
        let d = digit_value(s.last());
        assert(is_digit(s[s.len() - 1]));
        assert(0 <= d < 10);
        assert(v == digits_value(p) * 10 + d);
        vstd::arithmetic::div_mod::lemma_fundamental_div_mod_converse(
            v as int,
            10,
            digits_value(p) as int,
            d,
        );
        assert(digit_char(d) == s.last());
        assert(padded_digits(v, s.len()) =~= p.push(s.last()));
        assert(p.push(s.last()) =~= s);
    }
}

/// A digit sequence reads as less than 10^len.
pub proof fn lemma_digits_value_bound(s: Seq<char>)
    requires
        all_digits(s),
    ensures
        digits_value(s) < pow10(s.len()),
    decreases s.len(),
{
    if s.len() > 0 {
        let p = s.drop_last();
        assert(all_digits(p)) by {
            assert forall|i: int| 0 <= i < p.len() implies is_digit(#[trigger] p[i]) by {
                assert(p[i] == s[i]);
            }
        }
        lemma_digits_value_bound(p);
        assert(is_digit(s[s.len() - 1]));
        assert(digits_value(s) <= (pow10(p.len()) - 1) * 10 + 9) by (nonlinear_arith)
            requires
                digits_value(s) == digits_value(p) * 10 + digit_value(s.last()),
                digits_value(p) <= pow10(p.len()) - 1,
                digit_value(s.last()) <= 9,
        ;
    }
}

/// The decimal rendering is a digit sequence that reads back as the number and
/// starts with a non-zero digit unless the number is zero.
pub proof fn lemma_decimal(n: nat)
    ensures
        decimal(n).len() >= 1,
        all_digits(decimal(n)),
        digits_value(decimal(n)) == n,
        n >= 1 ==> decimal(n)[0] != '0',
        decimal(n)[0] != '+',
    decreases n,
{
    if n < 10 {
        assert(digits_value(seq![digit_char(n as int)]) == digits_value(Seq::<char>::empty()) * 10
            + digit_value(digit_char(n as int))) by {
            assert(seq![digit_char(n as int)].drop_last() =~= Seq::<char>::empty());
        }
    } else {
        lemma_decimal(n / 10);
        let p = decimal(n / 10);
        let c = digit_char((n % 10) as int);
        assert(is_digit(c));
        lemma_digits_value_push(p, c);
        assert(decimal(n) == p.push(c));
        assert(all_digits(p.push(c))) by {
            assert forall|i: int| 0 <= i < p.len() + 1 implies is_digit(#[trigger] p.push(c)[i]) by {
                if i < p.len() {
                    assert(p.push(c)[i] == p[i]);
                }
            }
        }
        assert(p.push(c)[0] == p[0]);
    }
}

/// The value of a digit sequence is its first digit times the place value of
/// that digit, plus the value of the remaining digits.
pub proof fn lemma_digits_value_first(s: Seq<char>)
    requires
        s.len() >= 1,
        all_digits(s),
    ensures
        digits_value(s) == digit_value(s[0]) * pow10((s.len() - 1) as nat) + digits_value(
            s.subrange(1, s.len() as int),
        ),
    decreases s.len(),
{
    let n = s.len() as int;
    if n == 1 {
        assert(s.drop_last() =~= Seq::<char>::empty());
        assert(s.subrange(1, 1) =~= Seq::<char>::empty());
        assert(digits_value(s.drop_last()) == 0);
        assert(pow10(0) == 1);
    } else {
        let p = s.drop_last();
        assert(all_digits(p)) by {
            assert forall|i: int| 0 <= i < p.len() implies is_digit(#[trigger] p[i]) by {
                assert(p[i] == s[i]);
            }
        }
        lemma_digits_value_first(p);
        let t = s.subrange(1, n);
        assert(is_digit(s[n - 1]));
        assert(t.drop_last() =~= p.subrange(1, n - 1));
        assert(t.last() == s.last());
        assert(p[0] == s[0]);
        let a = digit_value(s[0]);
        let w = pow10((n - 2) as nat);
        assert(pow10((n - 1) as nat) == 10 * w);
        let rest = digits_value(p.subrange(1, n - 1));
        let l = digit_value(s.last());
        assert(digits_value(s) == digits_value(p) * 10 + l);
        assert(digits_value(t) == rest * 10 + l);
        assert(digits_value(p) == a * w + rest);
        assert((a * w + rest) * 10 + l == a * (10 * w) + (rest * 10 + l)) by (nonlinear_arith);
    }
}

/// A digit sequence without a leading zero (or a single digit) is the decimal
/// rendering of its value.
pub proof fn lemma_decimal_of_digits(s: Seq<char>)
    requires
        s.len() >= 1,
        all_digits(s),
        s.len() == 1 || s[0] != '0',
    ensures
        decimal(digits_value(s)) == s,
    decreases s.len(),
{
    let c = s.last();
    assert(is_digit(c));
    assert(digit_char(digit_value(c)) == c);
    if s.len() == 1 {
        assert(s.drop_last() =~= Seq::<char>::empty());
        assert(digits_value(s.drop_last()) == 0);
        assert(digits_value(s) == digit_value(c));
        assert(decimal(digits_value(s)) =~= s);
    } else {
        let p = s.drop_last();
        assert(all_digits(p)) by {
            assert forall|i: int| 0 <= i < p.len() implies is_digit(#[trigger] p[i]) by {
                assert(p[i] == s[i]);
            }
        }
        assert(p[0] == s[0]);
        lemma_decimal_of_digits(p);
        let v = digits_value(p);
        if v == 0 {
            assert(decimal(0) =~= seq![digit_char(0)]);
            assert(p[0] == digit_char(0));
            assert(false);
        }
        let n = digits_value(s);
        assert(n == v * 10 + digit_value(c));
        assert(n / 10 == v && n % 10 == digit_value(c));
        assert(decimal(n) == decimal(v).push(digit_char(digit_value(c))));
        assert(decimal(n) =~= s);
    }
}

/// Exact comparison of two strings.
pub fn str_eq(a: &str, b: &str) -> (r: bool)
    ensures
        r == (a@ == b@),
{
    let n = a.unicode_len();
    if n != b.unicode_len() {
        return false;
    }
    let mut i: usize = 0;
    while i < n
        invariant
            n == a@.len(),
            n == b@.len(),
            i <= n,
            forall|j: int| 0 <= j < i ==> a@[j] == b@[j],
        decreases n - i,
    {
        if a.get_char(i) != b.get_char(i) {
            return false;
        }
        i += 1;
    }
    assert(a@ =~= b@);
    true
}

/// Exact comparison of two owned strings.
pub fn string_eq(a: &String, b: &String) -> (r: bool)
    ensures
        r == (a@ == b@),
{
    str_eq(a.as_str(), b.as_str())
}

/// Whether `s` starts with `p`.
pub fn starts_with(s: &str, p: &str) -> (r: bool)
    ensures
        r == has_prefix(s@, p@),
{
    let n = s.unicode_len();
    let m = p.unicode_len();
    if m > n {
        return false;
    }
    let head = s.substring_char(0, m);
    str_eq(head, p)
}

/// Whether the character is an ASCII digit.
pub fn char_is_digit(c: char) -> (r: bool)
    ensures
        r == is_digit(c),
{
    let v = c as u32;
    48 <= v && v <= 57
}

/// The one-character string of digit `d`.
pub fn digit_str(d: u32) -> (r: &'static str)
    requires
        d < 10,
    ensures
        r@ == seq![digit_char(d as int)],
{
    match d {
        0 => {
            proof { reveal_strlit("0"); }
            "0"
        },
        1 => {
            proof { reveal_strlit("1"); }
            "1"
        },
        2 => {
            proof { reveal_strlit("2"); }
            "2"
        },
        3 => {
            proof { reveal_strlit("3"); }
            "3"
        },
        4 => {
            proof { reveal_strlit("4"); }
            "4"
        },
        5 => {
            proof { reveal_strlit("5"); }
            "5"
        },
        6 => {
            proof { reveal_strlit("6"); }
            "6"
        },
        7 => {
            proof { reveal_strlit("7"); }
            "7"
        },
        8 => {
            proof { reveal_strlit("8"); }
            "8"
        },
        _ => {
            proof { reveal_strlit("9"); }
            "9"
        },
    }
}

/// Reads a plain decimal `u8`: ASCII digits only, no sign, value at most 255.
pub fn parse_u8(s: &str) -> (r: Option<u8>)
    ensures
        r == spec_parse_u8(s@),
{
    let n = s.unicode_len();
    if n == 0 {
        return None;
    }
    // `v` is the value read so far, held at 256 once it exceeds 255.
    let mut v: u32 = 0;
    let mut i: usize = 0;
    while i < n
        invariant
            n == s@.len(),
            i <= n,
            all_digits(s@.subrange(0, i as int)),
            v <= 255 ==> v == digits_value(s@.subrange(0, i as int)),
            v > 255 ==> v == 256 && digits_value(s@.subrange(0, i as int)) > 255,
        decreases n - i,
    {
        let c = s.get_char(i);
        let ghost pre = s@.subrange(0, i as int);
        assert(s@.subrange(0, i + 1) =~= pre.push(c));
        if !char_is_digit(c) {
            assert(s@[i as int] == c);
            assert(!all_digits(s@));
            return None;
        }
        proof {
            lemma_digits_value_push(pre, c);
            assert(all_digits(pre.push(c))) by {
                assert forall|j: int| 0 <= j < pre.len() + 1 implies is_digit(#[trigger] pre.push(c)[j]) by {
                    if j < pre.len() {
                        assert(pre.push(c)[j] == pre[j]);
                    }
                }
            }
        }
        if v <= 255 {
            v = v * 10 + (c as u32 - 48);
            if v > 255 {
                v = 256;
            }
        }
        i += 1;
    }
    assert(s@.subrange(0, n as int) =~= s@);
    if v <= 255 {
        Some(v as u8)
    } else {
        None
    }
}

/// Appends the decimal rendering of `n` (no leading zeros) to `out`.
pub fn push_decimal(out: &mut String, n: u32)
    ensures
        final(out)@ == old(out)@ + decimal(n as nat),
    decreases n,
{
    if n < 10 {
        out.append(digit_str(n));
    } else {
        push_decimal(out, n / 10);
        out.append(digit_str(n % 10));
        proof {
            assert(decimal(n as nat) == decimal((n / 10) as nat).push(digit_char((n % 10) as int)));
        }
        assert(final(out)@ =~= old(out)@ + decimal(n as nat));
    }
}

} // verus!
