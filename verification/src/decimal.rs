//! Decimal text: digit runs, 64-bit integer texts, and float texts.
//!
//! The grammar of numeric text is stated here as spec functions, and the
//! executable scanners are proved against them. Integer values are computed
//! exactly; float values go through the named results of `crate::floats`.

use vstd::prelude::*;

use crate::chars::{digit_value, is_digit, is_digit_char};
use crate::floats::{float_of_text, float_parse, NAN_BITS};
use crate::text::push_char;

verus! {

/// The bit pattern of positive infinity.
pub const INF_BITS: u64 = 0x7ff0_0000_0000_0000;

/// The bit pattern of negative infinity.
pub const NEG_INF_BITS: u64 = 0xfff0_0000_0000_0000;

/// The quiet NaN with its sign bit set, as parsed from `-nan`.
pub const NEG_NAN_BITS: u64 = 0xfff8_0000_0000_0000;

pub open spec fn all_digits(s: Seq<char>) -> bool {
    forall|i: int| 0 <= i < s.len() ==> is_digit_char(#[trigger] s[i])
}

/// The value of a digit sequence read as a decimal numeral.
pub open spec fn digits_value(s: Seq<char>) -> nat
    decreases s.len(),
{
    if s.len() == 0 {
        0
    } else {
        digits_value(s.drop_last()) * 10 + digit_value(s.last())
    }
}

proof fn lemma_digits_value_push(s: Seq<char>, c: char)
    ensures
        digits_value(s.push(c)) == digits_value(s) * 10 + digit_value(c),
{
    assert(s.push(c).drop_last() =~= s);
    assert(s.push(c).last() == c);
}

/// True when the first character is a minus sign.
pub open spec fn text_is_neg(s: Seq<char>) -> bool {
    s.len() > 0 && s[0] == '-'
}

/// The text with an optional leading sign removed.
pub open spec fn text_digits(s: Seq<char>) -> Seq<char> {
    if s.len() > 0 && (s[0] == '+' || s[0] == '-') {
        s.skip(1)
    } else {
        s
    }
}

/// The texts the standard library accepts for a 64-bit signed integer:
/// an optional sign, then decimal digits whose value is in range.
pub open spec fn valid_i64_text(s: Seq<char>) -> bool {
    &&& text_digits(s).len() > 0
    &&& all_digits(text_digits(s))
    &&& (if text_is_neg(s) {
        digits_value(text_digits(s)) <= 0x8000_0000_0000_0000
    } else {
        digits_value(text_digits(s)) <= 0x7fff_ffff_ffff_ffff
    })
}

/// The signed value a valid 64-bit integer text denotes.
pub open spec fn i64_text_value(s: Seq<char>) -> int {
    if text_is_neg(s) {
        -(digits_value(text_digits(s)) as int)
    } else {
        digits_value(text_digits(s)) as int
    }
}

/// Accumulates one more digit. Once the value has passed the 64-bit range the
/// exact value no longer matters, only that it stays out of range.
pub fn accumulate_digit(acc: u128, c: char, Ghost(seen): Ghost<Seq<char>>) -> (r: u128)
    requires
        is_digit_char(c),
        digits_value(seen) <= u64::MAX ==> acc == digits_value(seen),
        digits_value(seen) > u64::MAX ==> acc > u64::MAX,
    ensures
        digits_value(seen.push(c)) <= u64::MAX ==> r == digits_value(seen.push(c)),
        digits_value(seen.push(c)) > u64::MAX ==> r > u64::MAX,
{
    proof {
        lemma_digits_value_push(seen, c);
    }
    let d: u128 = (c as u32 - 0x30) as u128;
    if acc > u64::MAX as u128 {
        acc
    } else {
        acc * 10 + d
    }
}

/// Parses a 64-bit signed integer from text, exactly as the standard
/// library's integer parser does: an optional sign, then only digits, and the
/// value must be in range.
pub fn parse_i64_str(s: &str) -> (r: Option<i64>)
    ensures
        r is Some <==> valid_i64_text(s@),
        r is Some ==> r->0 == i64_text_value(s@),
{
    let n = s.unicode_len();
    let mut i: usize = 0;
    let mut neg = false;
    if n > 0 {
        let c0 = s.get_char(0);
        if c0 == '-' {
            neg = true;
            i = 1;
        } else if c0 == '+' {
            i = 1;
        }
    }
    let ghost sign_len: int = i as int;
    let mut acc: u128 = 0;
    let mut j: usize = i;
    while j < n
        invariant
            n == s@.len(),
            sign_len <= j <= n,
            sign_len == (if s@.len() > 0 && (s@[0] == '+' || s@[0] == '-') {
                1int
            } else {
                0int
            }),
            neg == text_is_neg(s@),
            all_digits(s@.subrange(sign_len, j as int)),
            digits_value(s@.subrange(sign_len, j as int)) <= u64::MAX ==> acc == digits_value(
                s@.subrange(sign_len, j as int),
            ),
            digits_value(s@.subrange(sign_len, j as int)) > u64::MAX ==> acc > u64::MAX,
        decreases n - j,
    {
        let c = s.get_char(j);
        if !is_digit(c) {
            proof {
                assert(text_digits(s@)[j - sign_len] == c);
            }
            return None;
        }
        acc = accumulate_digit(acc, c, Ghost(s@.subrange(sign_len, j as int)));
        proof {
            assert(s@.subrange(sign_len, j as int).push(c) =~= s@.subrange(
                sign_len,
                j as int + 1,
            ));
        }
        j = j + 1;
    }
    proof {
        assert(s@.subrange(sign_len, n as int) =~= text_digits(s@));
    }
    if i == n {
        // No digits at all.
        return None;
    }
    if neg {
        if acc > 0x8000_0000_0000_0000u128 {
            return None;
        }
        Some((-(acc as i128)) as i64)
    } else {
        if acc > 0x7fff_ffff_ffff_ffffu128 {
            return None;
        }
        Some(acc as i64)
    }
}

/// The character for a decimal digit value.
pub open spec fn digit_char_of(d: nat) -> char {
    ((0x30 + d) as u8) as char
}

/// The decimal rendering of a natural number, without sign or padding.
pub open spec fn nat_text(n: nat) -> Seq<char>
    decreases n,
{
    if n < 10 {
        seq![digit_char_of(n)]
    } else {
        nat_text(n / 10).push(digit_char_of(n % 10))
    }
}

/// The decimal rendering of a signed integer.
pub open spec fn i64_text(i: int) -> Seq<char> {
    if i < 0 {
        seq!['-'].add(nat_text((-i) as nat))
    } else {
        nat_text(i as nat)
    }
}

/// Renders a natural number in decimal.
pub fn u64_to_string(n: u64) -> (r: String)
    ensures
        r@ == nat_text(n as nat),
    decreases n,
{
    if n < 10 {
        let mut s = String::new();
        push_char(&mut s, (0x30 + n as u8) as char);
        s
    } else {
        let mut s = u64_to_string(n / 10);
        push_char(&mut s, (0x30 + (n % 10) as u8) as char);
        s
    }
}

/// Renders a signed 64-bit integer in decimal.
pub fn i64_to_string(i: i64) -> (r: String)
    ensures
        r@ == i64_text(i as int),
{
    if i >= 0 {
        u64_to_string(i as u64)
    } else {
        let mag: u64 = (-(i as i128)) as u64;
        let mut s = String::new();
        push_char(&mut s, '-');
        let digits = u64_to_string(mag);
        s.append(digits.as_str());
        proof {
            assert(s@ =~= i64_text(i as int));
        }
        s
    }
}

/// One step of the float-text automaton. The states follow the standard
/// library's grammar for 64-bit floats (specials aside): an optional sign,
/// then digits with an optional dot on either side, then an optional
/// exponent. State -1 rejects; 2, 4, 5 and 8 accept.
pub open spec fn float_dfa_step(st: int, c: char) -> int {
    if st == 0 {
        if c == '+' || c == '-' {
            1
        } else if is_digit_char(c) {
            2
        } else if c == '.' {
            3
        } else {
            -1
        }
    } else if st == 1 {
        if is_digit_char(c) {
            2
        } else if c == '.' {
            3
        } else {
            -1
        }
    } else if st == 2 {
        if is_digit_char(c) {
            2
        } else if c == '.' {
            5
        } else if c == 'e' || c == 'E' {
            6
        } else {
            -1
        }
    } else if st == 3 {
        if is_digit_char(c) {
            4
        } else {
            -1
        }
    } else if st == 4 || st == 5 {
        if is_digit_char(c) {
            4
        } else if c == 'e' || c == 'E' {
            6
        } else {
            -1
        }
    } else if st == 6 {
        if c == '+' || c == '-' {
            7
        } else if is_digit_char(c) {
            8
        } else {
            -1
        }
    } else if st == 7 || st == 8 {
        if is_digit_char(c) {
            8
        } else {
            -1
        }
    } else {
        -1
    }
}

pub open spec fn float_dfa(s: Seq<char>, i: int, st: int) -> int
    decreases s.len() - i,
{
    if st == -1 || i >= s.len() || i < 0 {
        st
    } else {
        float_dfa(s, i + 1, float_dfa_step(st, s[i]))
    }
}

pub open spec fn float_accepting(st: int) -> bool {
    st == 2 || st == 4 || st == 5 || st == 8
}

/// Decimal float texts: an optional sign, digits with at most one dot and at
/// least one digit, and an optional exponent with digits.
pub open spec fn decimal_shape(s: Seq<char>) -> bool {
    float_accepting(float_dfa(s, 0, 0))
}

/// A run of digits keeps the automaton in a digit-absorbing state.
pub proof fn lemma_float_dfa_digits(s: Seq<char>, i: int, j: int, st: int)
    requires
        0 <= i <= j <= s.len(),
        st == 2 || st == 4 || st == 8,
        forall|k: int| i <= k < j ==> is_digit_char(#[trigger] s[k]),
    ensures
        float_dfa(s, i, st) == float_dfa(s, j, st),
    decreases j - i,
{
    if i < j {
        assert(float_dfa_step(st, s[i]) == (if st == 2 {
            2int
        } else {
            4int
        }) || float_dfa_step(st, s[i]) == 8);
        lemma_float_dfa_digits(s, i + 1, j, float_dfa_step(st, s[i]));
    }
}

/// Runs the float-text automaton.
pub fn decimal_shape_str(s: &str) -> (r: bool)
    ensures
        r == decimal_shape(s@),
{
    let n = s.unicode_len();
    let mut st: i8 = 0;
    let mut i: usize = 0;
    while i < n
        invariant
            n == s@.len(),
            i <= n,
            -1 <= st <= 8,
            float_dfa(s@, 0, 0) == float_dfa(s@, i as int, st as int),
        decreases n - i,
    {
        if st == -1 {
            return false;
        }
        let c = s.get_char(i);
        let next: i8 = if st == 0 {
            if c == '+' || c == '-' {
                1
            } else if is_digit(c) {
                2
            } else if c == '.' {
                3
            } else {
                -1
            }
        } else if st == 1 {
            if is_digit(c) {
                2
            } else if c == '.' {
                3
            } else {
                -1
            }
        } else if st == 2 {
            if is_digit(c) {
                2
            } else if c == '.' {
                5
            } else if c == 'e' || c == 'E' {
                6
            } else {
                -1
            }
        } else if st == 3 {
            if is_digit(c) {
                4
            } else {
                -1
            }
        } else if st == 4 || st == 5 {
            if is_digit(c) {
                4
            } else if c == 'e' || c == 'E' {
                6
            } else {
                -1
            }
        } else if st == 6 {
            if c == '+' || c == '-' {
                7
            } else if is_digit(c) {
                8
            } else {
                -1
            }
        } else {
            if is_digit(c) {
                8
            } else {
                -1
            }
        };
        proof {
            assert(next as int == float_dfa_step(st as int, s@[i as int]));
        }
        st = next;
        i = i + 1;
    }
    st == 2 || st == 4 || st == 5 || st == 8
}

/// The lower-case form of an ASCII letter; other characters are unchanged.
pub open spec fn lower_char(c: char) -> char {
    if 0x41 <= c as u32 <= 0x5a {
        ((c as u32 + 0x20) as u8) as char
    } else {
        c
    }
}

/// Case-insensitive equality between the tail of `s` (from `from`) and an
/// all-lower-case literal.
pub fn eq_lower(s: &str, from: usize, lit: &str) -> (r: bool)
    requires
        from <= s@.len(),
    ensures
        r == (s@.skip(from as int).map_values(|c: char| lower_char(c)) == lit@),
{
    let n = s.unicode_len();
    let m = lit.unicode_len();
    if n - from != m {
        proof {
            assert(s@.skip(from as int).map_values(|c: char| lower_char(c)).len() == n - from);
        }
        return false;
    }
    let mut i: usize = 0;
    while i < m
        invariant
            n == s@.len(),
            m == lit@.len(),
            from + m == n,
            i <= m,
            forall|j: int|
                0 <= j < i ==> lower_char(#[trigger] s@.skip(from as int)[j]) == lit@[j],
        decreases m - i,
    {
        let c = s.get_char(from + i);
        let lc = {
            let u = c as u32;
            if 0x41 <= u && u <= 0x5a {
                ((u + 0x20) as u8) as char
            } else {
                c
            }
        };
        if lc != lit.get_char(i) {
            proof {
                assert(s@.skip(from as int)[i as int] == c);
                assert(s@.skip(from as int).map_values(|ch: char| lower_char(ch))[i as int]
                    != lit@[i as int]);
            }
            return false;
        }
        i = i + 1;
    }
    proof {
        assert(s@.skip(from as int).map_values(|c: char| lower_char(c)) =~= lit@);
    }
    true
}

/// The text after an optional sign, lower-cased, spells `inf` or `infinity`.
pub open spec fn is_inf_text(s: Seq<char>) -> bool {
    ||| text_digits(s).map_values(|c: char| lower_char(c)) == "inf"@
    ||| text_digits(s).map_values(|c: char| lower_char(c)) == "infinity"@
}

/// The text after an optional sign, lower-cased, spells `nan`.
pub open spec fn is_nan_text(s: Seq<char>) -> bool {
    text_digits(s).map_values(|c: char| lower_char(c)) == "nan"@
}

/// The texts the standard library accepts for a 64-bit float.
pub open spec fn valid_f64_text(s: Seq<char>) -> bool {
    is_inf_text(s) || is_nan_text(s) || decimal_shape(s)
}

/// The bit pattern a 64-bit float text denotes: infinities and NaN directly,
/// decimal texts through the named result of the outside parser.
pub open spec fn spec_parse_f64(s: Seq<char>) -> Option<u64> {
    if is_inf_text(s) {
        Some(
            if text_is_neg(s) {
                NEG_INF_BITS
            } else {
                INF_BITS
            },
        )
    } else if is_nan_text(s) {
        Some(
            if text_is_neg(s) {
                NEG_NAN_BITS
            } else {
                NAN_BITS
            },
        )
    } else if decimal_shape(s) {
        float_of_text(s)
    } else {
        None
    }
}

/// Parses a 64-bit float from text with the standard library's grammar:
/// optional sign, then `inf`, `infinity` or `nan` in any case, or a decimal
/// numeral with optional fraction and exponent.
pub fn parse_f64_str(s: &str) -> (r: Option<u64>)
    ensures
        r == spec_parse_f64(s@),
        r is Some <==> valid_f64_text(s@),
{
    proof {
        reveal_strlit("inf");
        reveal_strlit("infinity");
        reveal_strlit("nan");
    }
    let n = s.unicode_len();
    let mut from: usize = 0;
    let mut neg = false;
    if n > 0 {
        let c0 = s.get_char(0);
        if c0 == '-' {
            neg = true;
            from = 1;
        } else if c0 == '+' {
            from = 1;
        }
    }
    proof {
        assert(s@.skip(from as int) =~= text_digits(s@));
    }
    if eq_lower(s, from, "inf") || eq_lower(s, from, "infinity") {
        return Some(
            if neg {
                NEG_INF_BITS
            } else {
                INF_BITS
            },
        );
    }
    if eq_lower(s, from, "nan") {
        return Some(
            if neg {
                NEG_NAN_BITS
            } else {
                NAN_BITS
            },
        );
    }
    proof {
        // A decimal text holds no letters after its sign, so it can spell
        // neither infinity nor NaN.
    }
    if decimal_shape_str(s) {
        let bits = float_parse(s);
        match bits {
            Some(b) => Some(b),
            None => vstd::pervasive::unreached(),
        }
    } else {
        None
    }
}

} // verus!
