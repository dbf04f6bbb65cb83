//! Lexing of number and integer literals from the reader.

use vstd::prelude::*;

use crate::ast::{Float, Number, I64};
use crate::chars::{is_digit, is_digit_char};
use crate::decimal::{
    all_digits, decimal_shape, digits_value, float_dfa, i64_text_value, text_digits,
    valid_i64_text,
};
use crate::floats::{float_of_text, float_parse};
use crate::parse_error::{ParseError, ParseResult};
use crate::primitives::expecting;
use crate::reader::Reader;
use crate::text::push_char;

verus! {

/// The length of the longest run of digits at the head of a text.
pub open spec fn digit_run_len(s: Seq<char>) -> nat
    decreases s.len(),
{
    if s.len() == 0 || !is_digit_char(s[0]) {
        0
    } else {
        (1 + digit_run_len(s.skip(1))) as nat
    }
}

/// A digit prefix of length `n` whose next character is not a digit is the
/// longest digit run.
pub proof fn lemma_digit_run_of(s: Seq<char>, n: int)
    requires
        0 <= n <= s.len(),
        forall|j: int| 0 <= j < n ==> is_digit_char(#[trigger] s[j]),
        n == s.len() || !is_digit_char(s[n]),
    ensures
        digit_run_len(s) == n,
    decreases n,
{
    if n > 0 {
        assert(forall|j: int| 0 <= j < n - 1 ==> s.skip(1)[j] == s[j + 1]);
        lemma_digit_run_of(s.skip(1), n - 1);
    }
}

/// How many characters an optional leading minus sign takes.
pub open spec fn sign_len(s: Seq<char>) -> int {
    if s.len() > 0 && s[0] == '-' {
        1
    } else {
        0
    }
}

/// The digit run after the optional sign.
pub open spec fn lit_digits(s: Seq<char>) -> Seq<char> {
    s.skip(sign_len(s)).take(digit_run_len(s.skip(sign_len(s))) as int)
}

/// The text at the cursor begins a 64-bit integer literal: an optional minus
/// sign, at least one digit, and a value in range.
pub open spec fn integer_accepts(s: Seq<char>) -> bool {
    &&& digit_run_len(s.skip(sign_len(s))) > 0
    &&& (if s.len() > 0 && s[0] == '-' {
        digits_value(lit_digits(s)) <= 0x8000_0000_0000_0000
    } else {
        digits_value(lit_digits(s)) <= 0x7fff_ffff_ffff_ffff
    })
}

/// The text at the cursor begins a number literal: an optional minus sign
/// and digits; when a dot follows them, at least one digit must follow it.
pub open spec fn number_accepts(s: Seq<char>) -> bool {
    let k = sign_len(s) + digit_run_len(s.skip(sign_len(s)));
    &&& digit_run_len(s.skip(sign_len(s))) > 0
    &&& (k < s.len() && s[k] == '.' ==> digit_run_len(s.skip(k + 1)) > 0)
}

/// How many characters a number literal takes: the optional sign and
/// digits, then the dot and fraction digits when both stand there.
pub open spec fn number_len(s: Seq<char>) -> int {
    let k = sign_len(s) + digit_run_len(s.skip(sign_len(s))) as int;
    if k < s.len() && s[k] == '.' {
        k + 1 + digit_run_len(s.skip(k + 1)) as int
    } else {
        k
    }
}

/// Consumes the longest nonempty run of digits, tracking its decimal value
/// until it leaves the 64-bit range. With no leading digit, the reader is
/// left untouched.
pub(crate) fn digit_run(reader: &mut Reader) -> (r: Option<(String, u128)>)
    requires
        old(reader).wf(),
    ensures
        final(reader).wf(),
        final(reader)@ == old(reader)@,
        r is None ==> {
            &&& final(reader).cursor_spec() == old(reader).cursor_spec()
            &&& digit_run_len(old(reader).remaining()) == 0
        },
        r is Some ==> ({
            let (txt, acc) = r->0;
            &&& txt@.len() > 0
            &&& txt@.len() == digit_run_len(old(reader).remaining())
            &&& all_digits(txt@)
            &&& txt@ == old(reader).remaining().take(txt@.len() as int)
            &&& final(reader).spec_index() == old(reader).spec_index() + txt@.len()
            &&& (final(reader).spec_index() < final(reader)@.len() ==> !is_digit_char(
                final(reader)@[final(reader).spec_index()],
            ))
            &&& (digits_value(txt@) <= u64::MAX ==> acc == digits_value(txt@))
            &&& (digits_value(txt@) > u64::MAX ==> acc > u64::MAX)
        }),
{
    let mut value = String::new();
    let mut acc: u128 = 0;
    loop
        invariant_except_break
            reader.wf(),
            reader@ == old(reader)@,
            reader.spec_index() == old(reader).spec_index() + value@.len(),
            all_digits(value@),
            value@ == old(reader).remaining().take(value@.len() as int),
            value@.len() == 0 ==> reader.cursor_spec() == old(reader).cursor_spec(),
            digits_value(value@) <= u64::MAX ==> acc == digits_value(value@),
            digits_value(value@) > u64::MAX ==> acc > u64::MAX,
        ensures
            reader.wf(),
            reader@ == old(reader)@,
            reader.spec_index() == old(reader).spec_index() + value@.len(),
            all_digits(value@),
            value@ == old(reader).remaining().take(value@.len() as int),
            value@.len() == 0 ==> reader.cursor_spec() == old(reader).cursor_spec(),
            digits_value(value@) <= u64::MAX ==> acc == digits_value(value@),
            digits_value(value@) > u64::MAX ==> acc > u64::MAX,
            reader.spec_index() == reader@.len() || !is_digit_char(
                reader@[reader.spec_index()],
            ),
        decreases reader@.len() - reader.spec_index(),
    {
        match reader.peek() {
            Some(c) => {
                if is_digit(c) {
                    let got = reader.read();
                    acc = crate::decimal::accumulate_digit(acc, c, Ghost(value@));
                    push_char(&mut value, c);
                    proof {
                        assert(value@ =~= old(reader).remaining().take(value@.len() as int));
                    }
                } else {
                    break;
                }
            }
            None => {
                break;
            }
        }
    }
    proof {
        let rem = old(reader).remaining();
        let n = value@.len() as int;
        assert(forall|j: int| 0 <= j < n ==> rem[j] == value@[j]);
        if n < rem.len() {
            assert(rem[n] == reader@[reader.spec_index()]);
        }
        lemma_digit_run_of(rem, n);
    }
    if value.as_str().unicode_len() == 0 {
        None
    } else {
        Some((value, acc))
    }
}

/// Parses a 64-bit signed integer literal: an optional minus sign, then
/// digits. Fails recoverably — leaving the reader untouched — when no digit
/// follows, or when the value does not fit 64 signed bits.
pub fn integer(reader: &mut Reader) -> (r: ParseResult<I64>)
    requires
        old(reader).wf(),
    ensures
        final(reader).wf(),
        final(reader)@ == old(reader)@,
        r is Ok <==> integer_accepts(old(reader).remaining()),
        r is Ok ==> final(reader).spec_index() == old(reader).spec_index() + sign_len(
            old(reader).remaining(),
        ) + digit_run_len(old(reader).remaining().skip(sign_len(old(reader).remaining()))),
        r is Err ==> {
            &&& final(reader).cursor_spec() == old(reader).cursor_spec()
            &&& r->Err_0.recoverable
        },
        r is Ok ==> {
            &&& valid_i64_text(r->Ok_0.source@)
            &&& r->Ok_0.source@ == old(reader).remaining().take(r->Ok_0.source@.len() as int)
            &&& final(reader).spec_index() == old(reader).spec_index() + r->Ok_0.source@.len()
            &&& r->Ok_0.value == i64_text_value(r->Ok_0.source@)
        },
{
    let ghost entry = old(reader).remaining();
    let start = reader.cursor();
    let mut neg = false;
    match reader.peek() {
        Some(c) => {
            if c == '-' {
                let got = reader.read();
                neg = true;
            }
        }
        None => {}
    }
    proof {
        assert(neg == (entry.len() > 0 && entry[0] == '-'));
        assert(reader.remaining() =~= entry.skip(sign_len(entry)));
    }
    let run = match digit_run(reader) {
        Some(run) => run,
        None => {
            reader.seek(start);
            return Err(expecting("integer", start.pos, true));
        }
    };
    let (digits, acc) = run;
    proof {
        assert(digits@ =~= lit_digits(entry));
    }
    let ghost consumed: Seq<char> = if neg {
        seq!['-'].add(digits@)
    } else {
        digits@
    };
    proof {
        if neg {
            assert(consumed[0] == '-');
            assert(text_digits(consumed) =~= digits@);
            assert(consumed =~= old(reader).remaining().take(consumed.len() as int));
        } else {
            assert(text_digits(consumed) == digits@);
        }
    }
    if neg {
        if acc > 0x8000_0000_0000_0000u128 {
            reader.seek(start);
            return Err(expecting("integer", start.pos, true));
        }
        let value: i64 = (-(acc as i128)) as i64;
        let mut source = String::new();
        push_char(&mut source, '-');
        source.append(digits.as_str());
        proof {
            assert(source@ =~= consumed);
        }
        Ok(I64 { value, source })
    } else {
        if acc > 0x7fff_ffff_ffff_ffffu128 {
            reader.seek(start);
            return Err(expecting("integer", start.pos, true));
        }
        let value: i64 = acc as i64;
        Ok(I64 { value, source: digits })
    }
}

/// Parses a number literal: an optional minus sign, digits, and an optional
/// fraction. A fraction without digits is a committed failure; an integer too
/// large for 64 bits is kept as its decimal text.
pub fn number(reader: &mut Reader) -> (r: ParseResult<Number>)
    requires
        old(reader).wf(),
    ensures
        final(reader).wf(),
        final(reader)@ == old(reader)@,
        r is Ok <==> number_accepts(old(reader).remaining()),
        r is Ok ==> final(reader).spec_index() == old(reader).spec_index() + number_len(
            old(reader).remaining(),
        ),
        r is Err ==> (r->Err_0.recoverable <==> digit_run_len(
            old(reader).remaining().skip(sign_len(old(reader).remaining())),
        ) == 0),
        r is Err && r->Err_0.recoverable ==> final(reader).cursor_spec() == old(
            reader,
        ).cursor_spec(),
        r is Ok ==> final(reader).spec_index() > old(reader).spec_index(),
        r is Ok && r->Ok_0 is Integer ==> {
            &&& valid_i64_text(r->Ok_0->Integer_0.source@)
            &&& r->Ok_0->Integer_0.value == i64_text_value(r->Ok_0->Integer_0.source@)
        },
        r is Ok && r->Ok_0 is Float ==> {
            &&& decimal_shape(r->Ok_0->Float_0.source@)
            &&& Some(r->Ok_0->Float_0.bits) == float_of_text(r->Ok_0->Float_0.source@)
        },
        r is Ok && r->Ok_0 is BigInteger ==> {
            &&& all_digits(text_digits(r->Ok_0->BigInteger_0@))
            &&& digits_value(text_digits(r->Ok_0->BigInteger_0@)) > 0x7fff_ffff_ffff_ffff
        },
{
    let ghost entry = old(reader).remaining();
    let start = reader.cursor();
    let mut neg = false;
    match reader.peek() {
        Some(c) => {
            if c == '-' {
                let got = reader.read();
                neg = true;
            }
        }
        None => {}
    }
    proof {
        assert(neg == (entry.len() > 0 && entry[0] == '-'));
        assert(reader.remaining() =~= entry.skip(sign_len(entry)));
    }
    let run = match digit_run(reader) {
        Some(run) => run,
        None => {
            reader.seek(start);
            return Err(expecting("number", start.pos, true));
        }
    };
    let (int_digits, acc) = run;
    let ghost k = sign_len(entry) + digit_run_len(entry.skip(sign_len(entry)));
    proof {
        assert(reader.spec_index() == old(reader).spec_index() + k);
        if k < entry.len() {
            assert(entry[k] == reader@[reader.spec_index()]);
        }
    }
    let mut source = String::new();
    if neg {
        push_char(&mut source, '-');
    }
    source.append(int_digits.as_str());
    let dot = match reader.peek() {
        Some(c) => c == '.',
        None => false,
    };
    proof {
        assert(dot == (k < entry.len() && entry[k] == '.'));
    }
    if dot {
        let at = reader.cursor();
        let got = reader.read();
        proof {
            assert(reader.remaining() =~= entry.skip(k + 1));
        }
        let frac = match digit_run(reader) {
            Some(run2) => run2,
            None => {
                return Err(expecting("number", at.pos, false));
            }
        };
        push_char(&mut source, '.');
        source.append(frac.0.as_str());
        proof {
            lemma_sign_digits_dot_digits_shape(source@, neg, int_digits@, frac.0@);
        }
        let bits = match float_parse(source.as_str()) {
            Some(b) => b,
            None => vstd::pervasive::unreached(),
        };
        Ok(Number::Float(Float { bits, source }))
    } else {
        let ghost consumed: Seq<char> = source@;
        proof {
            if neg {
                assert(text_digits(consumed) =~= int_digits@);
            } else {
                assert(text_digits(consumed) == int_digits@);
            }
        }
        if neg {
            if acc > 0x8000_0000_0000_0000u128 {
                return Ok(Number::BigInteger(source));
            }
            let value: i64 = (-(acc as i128)) as i64;
            Ok(Number::Integer(I64 { value, source }))
        } else {
            if acc > 0x7fff_ffff_ffff_ffffu128 {
                return Ok(Number::BigInteger(source));
            }
            let value: i64 = acc as i64;
            Ok(Number::Integer(I64 { value, source }))
        }
    }
}

/// An optional minus sign, digits, a dot and digits form a well-shaped
/// decimal text.
proof fn lemma_sign_digits_dot_digits_shape(
    s: Seq<char>,
    neg: bool,
    int_digits: Seq<char>,
    frac_digits: Seq<char>,
)
    requires
        int_digits.len() > 0,
        frac_digits.len() > 0,
        all_digits(int_digits),
        all_digits(frac_digits),
        s =~= (if neg {
            seq!['-']
        } else {
            Seq::<char>::empty()
        }).add(int_digits).add(seq!['.']).add(frac_digits),
    ensures
        decimal_shape(s),
{
    let sign: int = if neg {
        1int
    } else {
        0int
    };
    let b = sign + int_digits.len();
    assert(s.len() == b + 1 + frac_digits.len());
    assert(forall|k: int| sign <= k < b ==> s[k] == int_digits[k - sign]);
    assert(s[b] == '.');
    assert(forall|k: int| b + 1 <= k < s.len() ==> s[k] == frac_digits[k - b - 1]);
    if neg {
        assert(s[0] == '-');
        assert(float_dfa(s, 0, 0) == float_dfa(s, 1, 1));
    }
    assert(is_digit_char(s[sign]));
    assert(float_dfa(s, sign, if neg {
        1int
    } else {
        0int
    }) == float_dfa(s, sign + 1, 2));
    crate::decimal::lemma_float_dfa_digits(s, sign + 1, b, 2);
    assert(float_dfa(s, b, 2) == float_dfa(s, b + 1, 5));
    assert(is_digit_char(s[b + 1]));
    assert(float_dfa(s, b + 1, 5) == float_dfa(s, b + 2, 4));
    crate::decimal::lemma_float_dfa_digits(s, b + 2, s.len() as int, 4);
    assert(float_dfa(s, s.len() as int, 4) == 4);
}

} // verus!
