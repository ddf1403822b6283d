//! JSON text parser.
//!
//! The grammar this library accepts is defined by the spec functions in
//! this module (`parse_doc` and its helpers): a deterministic
//! recursive-descent reading of JSON with the four usual whitespace
//! characters, string escapes (including four-digit `\u` escapes outside
//! the surrogate range), and plain decimal numbers of at most nineteen
//! integer digits, without exponents. The executable parser is proved to
//! return exactly what the spec functions say, success and failure alike.
//!
//! Position guards such as `j <= i` appear in the spec recursion only to
//! make termination evident; the position bounds in the executable
//! parser's contracts show the guarded branches are never taken.

use vstd::prelude::*;

use crate::json::{DecodeError, Json, JsonV};
use crate::json::{jview_items, jview_members};
use crate::json::{
    lemma_jview_items_index, lemma_jview_items_len, lemma_jview_members_index,
    lemma_jview_members_len,
};
use crate::text::push_char;

verus! {

pub open spec fn is_ws(c: char) -> bool {
    c == ' ' || c == '\t' || c == '\n' || c == '\r'
}

pub open spec fn is_digit(c: char) -> bool {
    48 <= c as int <= 57
}

/// The numeric value of a decimal digit character.
pub open spec fn digit_of(c: char) -> u8 {
    (c as int - 48) as u8
}

pub open spec fn is_hex(c: char) -> bool {
    is_digit(c) || (97 <= c as int <= 102) || (65 <= c as int <= 70)
}

/// The numeric value of a hexadecimal digit character.
pub open spec fn hex_of(c: char) -> u8 {
    if is_digit(c) {
        digit_of(c)
    } else if 97 <= c as int <= 102 {
        (c as int - 87) as u8
    } else {
        (c as int - 55) as u8
    }
}

/// The character with the given code point.
pub open spec fn code_char(v: u32) -> char {
    choose|c: char| (#[trigger] (c as u32)) == v
}

/// First position at or after `i` that does not hold whitespace.
pub open spec fn skip_ws(s: Seq<char>, i: int) -> int
    decreases s.len() - i
        when 0 <= i <= s.len()
{
    if i < s.len() && is_ws(s[i]) {
        skip_ws(s, i + 1)
    } else {
        i
    }
}

/// First position at or after `i` that does not hold a decimal digit.
pub open spec fn scan_digits(s: Seq<char>, i: int) -> int
    decreases s.len() - i
        when 0 <= i <= s.len()
{
    if i < s.len() && is_digit(s[i]) {
        scan_digits(s, i + 1)
    } else {
        i
    }
}

proof fn lemma_scan_digits(s: Seq<char>, i: int)
    requires
        0 <= i <= s.len(),
    ensures
        i <= scan_digits(s, i) <= s.len(),
        forall|j: int| i <= j < scan_digits(s, i) ==> is_digit(#[trigger] s[j]),
        scan_digits(s, i) < s.len() ==> !is_digit(s[scan_digits(s, i)]),
    decreases s.len() - i,
{
    if i < s.len() && is_digit(s[i]) {
        lemma_scan_digits(s, i + 1);
    }
}

/// The value of the decimal digits `s[i..j)`.
pub open spec fn digits_val(s: Seq<char>, i: int, j: int) -> nat
    decreases j - i
        when i <= j
{
    if j <= i {
        0
    } else {
        digits_val(s, i, j - 1) * 10 + digit_of(s[j - 1]) as nat
    }
}

/// The digit values of the digit characters `s[i..j)`.
pub open spec fn digit_seq(s: Seq<char>, i: int, j: int) -> Seq<u8> {
    Seq::new((j - i) as nat, |k: int| digit_of(s[i + k]))
}

pub open spec fn pow10(k: nat) -> nat
    decreases k,
{
    if k == 0 {
        1
    } else {
        10 * pow10((k - 1) as nat)
    }
}

proof fn lemma_pow10_mono(a: nat, b: nat)
    requires
        a <= b,
    ensures
        pow10(a) <= pow10(b),
    decreases b,
{
    if a < b {
        lemma_pow10_mono(a, (b - 1) as nat);
        assert(pow10(b) == 10 * pow10((b - 1) as nat));
    }
}

/// Parse one JSON value starting exactly at position `i`.
pub open spec fn parse_value(s: Seq<char>, i: int) -> Option<(JsonV, int)>
    decreases s.len() - i, 0int
        when 0 <= i <= s.len()
{
    if i >= s.len() {
        None
    } else if s[i] == 'n' {
        if i + 4 <= s.len() && s[i + 1] == 'u' && s[i + 2] == 'l' && s[i + 3] == 'l' {
            Some((JsonV::Null, i + 4))
        } else {
            None
        }
    } else if s[i] == 't' {
        if i + 4 <= s.len() && s[i + 1] == 'r' && s[i + 2] == 'u' && s[i + 3] == 'e' {
            Some((JsonV::Bool(true), i + 4))
        } else {
            None
        }
    } else if s[i] == 'f' {
        if i + 5 <= s.len() && s[i + 1] == 'a' && s[i + 2] == 'l' && s[i + 3] == 's' && s[i + 4]
            == 'e' {
            Some((JsonV::Bool(false), i + 5))
        } else {
            None
        }
    } else if s[i] == '"' {
        match parse_string_body(s, i + 1) {
            None => None,
            Some((body, j)) => Some((JsonV::Str(body), j)),
        }
    } else if s[i] == '[' {
        let k = skip_ws(s, i + 1);
        if k < i + 1 || k > s.len() {
            None
        } else if k < s.len() && s[k] == ']' {
            Some((JsonV::Arr(Seq::empty()), k + 1))
        } else {
            match parse_items(s, k) {
                None => None,
                Some((items, j)) => Some((JsonV::Arr(items), j)),
            }
        }
    } else if s[i] == '{' {
        let k = skip_ws(s, i + 1);
        if k < i + 1 || k > s.len() {
            None
        } else if k < s.len() && s[k] == '}' {
            Some((JsonV::Obj(Seq::empty()), k + 1))
        } else {
            match parse_members(s, k) {
                None => None,
                Some((members, j)) => Some((JsonV::Obj(members), j)),
            }
        }
    } else if s[i] == '-' || is_digit(s[i]) {
        parse_number(s, i)
    } else {
        None
    }
}

/// Parse the body of a string literal; `i` is just after the opening
/// quote, and the returned position is just after the closing quote.
pub open spec fn parse_string_body(s: Seq<char>, i: int) -> Option<(Seq<char>, int)>
    decreases s.len() - i
        when 0 <= i <= s.len()
{
    if i >= s.len() {
        None
    } else if s[i] == '"' {
        Some((Seq::empty(), i + 1))
    } else if s[i] == '\\' {
        if i + 2 > s.len() {
            None
        } else {
            let e = s[i + 1];
            if e == 'u' {
                if i + 6 > s.len() {
                    None
                } else if is_hex(s[i + 2]) && is_hex(s[i + 3]) && is_hex(s[i + 4]) && is_hex(
                    s[i + 5],
                ) {
                    let v = (hex_of(s[i + 2]) as int) * 4096 + (hex_of(s[i + 3]) as int) * 256
                        + (hex_of(s[i + 4]) as int) * 16 + (hex_of(s[i + 5]) as int);
                    if 0xD800 <= v < 0xE000 {
                        None
                    } else {
                        match parse_string_body(s, i + 6) {
                            None => None,
                            Some((rest, j)) => Some((seq![code_char(v as u32)] + rest, j)),
                        }
                    }
                } else {
                    None
                }
            } else {
                let c = if e == '"' {
                    Some('"')
                } else if e == '\\' {
                    Some('\\')
                } else if e == '/' {
                    Some('/')
                } else if e == 'b' {
                    Some('\u{8}')
                } else if e == 'f' {
                    Some('\u{c}')
                } else if e == 'n' {
                    Some('\n')
                } else if e == 'r' {
                    Some('\r')
                } else if e == 't' {
                    Some('\t')
                } else {
                    None
                };
                match c {
                    None => None,
                    Some(ec) => match parse_string_body(s, i + 2) {
                        None => None,
                        Some((rest, j)) => Some((seq![ec] + rest, j)),
                    },
                }
            }
        }
    } else if (s[i] as u32) < 32 {
        None
    } else {
        match parse_string_body(s, i + 1) {
            None => None,
            Some((rest, j)) => Some((seq![s[i]] + rest, j)),
        }
    }
}

/// Parse a number starting at `i` (optional minus, digits, optional
/// fraction). At most nineteen integer digits are accepted, integers must
/// fit the signed 64-bit range, and exponents are not part of the grammar.
pub open spec fn parse_number(s: Seq<char>, i: int) -> Option<(JsonV, int)>
    recommends
        0 <= i <= s.len(),
{
    let neg = i < s.len() && s[i] == '-';
    let d0 = if neg {
        i + 1
    } else {
        i
    };
    if d0 >= s.len() || !is_digit(s[d0]) {
        None
    } else {
        let d1 = scan_digits(s, d0);
        if d1 - d0 > 19 {
            None
        } else if d1 - d0 > 1 && s[d0] == '0' {
            None
        } else {
            let ip = digits_val(s, d0, d1);
            if d1 < s.len() && s[d1] == '.' {
                let f1 = scan_digits(s, d1 + 1);
                if f1 == d1 + 1 {
                    None
                } else {
                    Some(
                        (
                            JsonV::Flt {
                                neg,
                                int_part: ip,
                                frac: digit_seq(s, d1 + 1, f1),
                            },
                            f1,
                        ),
                    )
                }
            } else {
                if neg {
                    if ip > 0x8000_0000_0000_0000 {
                        None
                    } else {
                        Some((JsonV::Int(-(ip as int)), d1))
                    }
                } else {
                    if ip > i64::MAX {
                        None
                    } else {
                        Some((JsonV::Int(ip as int), d1))
                    }
                }
            }
        }
    }
}

/// Parse the elements of a non-empty array; `i` is at the start of a
/// value, and the returned position is just after the closing bracket.
pub open spec fn parse_items(s: Seq<char>, i: int) -> Option<(Seq<JsonV>, int)>
    decreases s.len() - i, 1int
        when 0 <= i <= s.len()
{
    match parse_value(s, i) {
        None => None,
        Some((v, j)) => {
            if j <= i || j > s.len() {
                None
            } else {
                let k = skip_ws(s, j);
                if k < j || k > s.len() {
                    None
                } else if k < s.len() && s[k] == ',' {
                    let k2 = skip_ws(s, k + 1);
                    if k2 < k + 1 || k2 > s.len() {
                        None
                    } else {
                        match parse_items(s, k2) {
                            None => None,
                            Some((rest, e)) => Some((seq![v] + rest, e)),
                        }
                    }
                } else if k < s.len() && s[k] == ']' {
                    Some((seq![v], k + 1))
                } else {
                    None
                }
            }
        },
    }
}

/// Parse the members of a non-empty object; `i` is at the start of a key,
/// and the returned position is just after the closing brace.
pub open spec fn parse_members(s: Seq<char>, i: int) -> Option<(Seq<(Seq<char>, JsonV)>, int)>
    decreases s.len() - i, 1int
        when 0 <= i <= s.len()
{
    if i >= s.len() || s[i] != '"' {
        None
    } else {
        match parse_string_body(s, i + 1) {
            None => None,
            Some((key, j)) => {
                if j <= i || j > s.len() {
                    None
                } else {
                    let c = skip_ws(s, j);
                    if c < j || c > s.len() {
                        None
                    } else if !(c < s.len() && s[c] == ':') {
                        None
                    } else {
                        let k = skip_ws(s, c + 1);
                        if k < c + 1 || k > s.len() {
                            None
                        } else {
                            match parse_value(s, k) {
                                None => None,
                                Some((v, j2)) => {
                                    if j2 <= k || j2 > s.len() {
                                        None
                                    } else {
                                        let k2 = skip_ws(s, j2);
                                        if k2 < j2 || k2 > s.len() {
                                            None
                                        } else if k2 < s.len() && s[k2] == ',' {
                                            let k3 = skip_ws(s, k2 + 1);
                                            if k3 < k2 + 1 || k3 > s.len() {
                                                None
                                            } else {
                                                match parse_members(s, k3) {
                                                    None => None,
                                                    Some((rest, e)) => Some(
                                                        (seq![(key, v)] + rest, e),
                                                    ),
                                                }
                                            }
                                        } else if k2 < s.len() && s[k2] == '}' {
                                            Some((seq![(key, v)], k2 + 1))
                                        } else {
                                            None
                                        }
                                    }
                                },
                            }
                        }
                    }
                }
            },
        }
    }
}

/// Relies on std's `char::from_u32`: returns the character with the given
/// code point (the argument is kept outside the surrogate range, where a
/// character exists for every code point).
#[verifier::external_body]
fn char_from_code(v: u32) -> (c: char)
    requires
        v < 0xD800 || (0xE000 <= v && v <= 0x10FFFF),
    ensures
        c == code_char(v),
        (c as u32) == v,
{
    match char::from_u32(v) {
        Some(c) => c,
        None => ' ',
    }
}

fn skip_ws_exec(s: &str, i: usize) -> (r: usize)
    requires
        (i as int) <= s@.len(),
    ensures
        r as int == skip_ws(s@, i as int),
        i <= r,
        r as int <= s@.len(),
    decreases s@.len() - i,
{
    if i < s.unicode_len() {
        let c = s.get_char(i);
        if c == ' ' || c == '\t' || c == '\n' || c == '\r' {
            return skip_ws_exec(s, i + 1);
        }
    }
    i
}

fn scan_digits_exec(s: &str, i: usize) -> (r: usize)
    requires
        (i as int) <= s@.len(),
    ensures
        r as int == scan_digits(s@, i as int),
        i <= r,
        r as int <= s@.len(),
    decreases s@.len() - i,
{
    if i < s.unicode_len() {
        let c = s.get_char(i);
        if (c as u32) >= 48 && (c as u32) <= 57 {
            return scan_digits_exec(s, i + 1);
        }
    }
    i
}

fn hex_test(c: char) -> (r: bool)
    ensures
        r == is_hex(c),
{
    let v = c as u32;
    (48 <= v && v <= 57) || (97 <= v && v <= 102) || (65 <= v && v <= 70)
}

fn hex_val_exec(c: char) -> (r: u8)
    requires
        is_hex(c),
    ensures
        r == hex_of(c),
{
    let v = c as u32;
    if 48 <= v && v <= 57 {
        (v - 48) as u8
    } else if 97 <= v && v <= 102 {
        (v - 87) as u8
    } else {
        (v - 55) as u8
    }
}

fn parse_string_body_exec(s: &str, i: usize) -> (r: Result<(String, usize), DecodeError>)
    requires
        (i as int) <= s@.len(),
    ensures
        match r {
            Ok(p) => parse_string_body(s@, i as int) == Some((p.0@, p.1 as int)) && i < p.1
                && p.1 as int <= s@.len(),
            Err(_) => parse_string_body(s@, i as int) is None,
        },
    decreases s@.len() - i,
{
    let len = s.unicode_len();
    if i >= len {
        return Err(DecodeError::new("unterminated string literal"));
    }
    let c = s.get_char(i);
    if c == '"' {
        let body = String::new();
        return Ok((body, i + 1));
    }
    if c == '\\' {
        let e = if i + 1 < len {
            s.get_char(i + 1)
        } else {
            return Err(DecodeError::new("unterminated escape sequence"));
        };
        if e == 'u' {
            if len - i < 6 {
                return Err(DecodeError::new("truncated unicode escape"));
            }
            let h0 = s.get_char(i + 2);
            let h1 = s.get_char(i + 3);
            let h2 = s.get_char(i + 4);
            let h3 = s.get_char(i + 5);
            if !(hex_test(h0) && hex_test(h1) && hex_test(h2) && hex_test(h3)) {
                return Err(DecodeError::new("invalid unicode escape"));
            }
            let v: u32 = (hex_val_exec(h0) as u32) * 4096 + (hex_val_exec(h1) as u32) * 256 + (
            hex_val_exec(h2) as u32) * 16 + (hex_val_exec(h3) as u32);
            if 0xD800 <= v && v < 0xE000 {
                return Err(DecodeError::new("surrogate code point in unicode escape"));
            }
            let ec = char_from_code(v);
            match parse_string_body_exec(s, i + 6) {
                Err(err) => Err(err),
                Ok((rest, j)) => {
                    let mut body = String::new();
                    push_char(&mut body, ec);
                    body.append(rest.as_str());
                    proof {
                        assert(body@ =~= seq![code_char(v)] + rest@);
                    }
                    Ok((body, j))
                },
            }
        } else {
            let ec: char = if e == '"' {
                '"'
            } else if e == '\\' {
                '\\'
            } else if e == '/' {
                '/'
            } else if e == 'b' {
                '\u{8}'
            } else if e == 'f' {
                '\u{c}'
            } else if e == 'n' {
                '\n'
            } else if e == 'r' {
                '\r'
            } else if e == 't' {
                '\t'
            } else {
                return Err(DecodeError::new("unknown escape character"));
            };
            match parse_string_body_exec(s, i + 2) {
                Err(err) => Err(err),
                Ok((rest, j)) => {
                    let mut body = String::new();
                    push_char(&mut body, ec);
                    body.append(rest.as_str());
                    proof {
                        assert(body@ =~= seq![ec] + rest@);
                    }
                    Ok((body, j))
                },
            }
        }
    } else if (c as u32) < 32 {
        Err(DecodeError::new("control character inside string literal"))
    } else {
        match parse_string_body_exec(s, i + 1) {
            Err(err) => Err(err),
            Ok((rest, j)) => {
                let mut body = String::new();
                push_char(&mut body, c);
                body.append(rest.as_str());
                proof {
                    assert(body@ =~= seq![c] + rest@);
                }
                Ok((body, j))
            },
        }
    }
}

pub proof fn lemma_pow10_19()
    ensures
        pow10(18) == 1_000_000_000_000_000_000,
        pow10(19) == 10_000_000_000_000_000_000,
{
    reveal_with_fuel(pow10, 21);
}

#[verifier::loop_isolation(false)]
fn parse_number_exec(s: &str, i: usize) -> (r: Result<(Json, usize), DecodeError>)
    requires
        (i as int) < s@.len(),
    ensures
        match r {
            Ok(p) => parse_number(s@, i as int) == Some((p.0@, p.1 as int)) && i < p.1
                && p.1 as int <= s@.len(),
            Err(_) => parse_number(s@, i as int) is None,
        },
{
    let len = s.unicode_len();
    let neg = s.get_char(i) == '-';
    let d0 = if neg {
        i + 1
    } else {
        i
    };
    if d0 >= len {
        return Err(DecodeError::new("number with no digits"));
    }
    let first = s.get_char(d0);
    if !((first as u32) >= 48 && (first as u32) <= 57) {
        return Err(DecodeError::new("number with no digits"));
    }
    let d1 = scan_digits_exec(s, d0);
    proof {
        lemma_scan_digits(s@, d0 as int);
    }
    if d1 - d0 > 19 {
        return Err(DecodeError::new("too many integer digits in number"));
    }
    if d1 - d0 > 1 && first == '0' {
        return Err(DecodeError::new("leading zero in number"));
    }
    let mut acc: u64 = 0;
    let mut k = d0;
    while k < d1
        invariant
            d0 <= k <= d1,
            acc as nat == digits_val(s@, d0 as int, k as int),
            (acc as nat) < pow10((k - d0) as nat),
        decreases d1 - k,
    {
        let c = s.get_char(k);
        proof {
            assert(is_digit(s@[k as int]));
            lemma_pow10_19();
            lemma_pow10_mono((k - d0) as nat, 18);
        }
        let d: u8 = ((c as u32) - 48) as u8;
        acc = acc * 10 + (d as u64);
        k += 1;
    }
    if d1 < len && s.get_char(d1) == '.' {
        let f0 = d1 + 1;
        let f1 = scan_digits_exec(s, f0);
        proof {
            lemma_scan_digits(s@, f0 as int);
        }
        if f1 == f0 {
            return Err(DecodeError::new("fraction with no digits"));
        }
        let mut frac: Vec<u8> = Vec::new();
        let mut k2 = f0;
        while k2 < f1
            invariant
                f0 <= k2 <= f1,
                frac@ == digit_seq(s@, f0 as int, k2 as int),
            decreases f1 - k2,
        {
            let c = s.get_char(k2);
            proof {
                assert(is_digit(s@[k2 as int]));
            }
            let d: u8 = ((c as u32) - 48) as u8;
            frac.push(d);
            proof {
                assert(frac@ =~= digit_seq(s@, f0 as int, k2 + 1 as int));
            }
            k2 += 1;
        }
        Ok((Json::Flt { neg, int_part: acc, frac }, f1))
    } else {
        if neg {
            if acc > 0x8000_0000_0000_0000u64 {
                Err(DecodeError::new("number out of range"))
            } else {
                let v: i64 = if acc == 0x8000_0000_0000_0000u64 {
                    i64::MIN
                } else {
                    -(acc as i64)
                };
                Ok((Json::Int(v), d1))
            }
        } else {
            if acc > 0x7FFF_FFFF_FFFF_FFFFu64 {
                Err(DecodeError::new("number out of range"))
            } else {
                Ok((Json::Int(acc as i64), d1))
            }
        }
    }
}

fn parse_value_exec(s: &str, i: usize) -> (r: Result<(Json, usize), DecodeError>)
    requires
        (i as int) <= s@.len(),
    ensures
        match r {
            Ok(p) => parse_value(s@, i as int) == Some((p.0@, p.1 as int)) && i < p.1
                && p.1 as int <= s@.len(),
            Err(_) => parse_value(s@, i as int) is None,
        },
    decreases s@.len() - i, 0int,
{
    let len = s.unicode_len();
    if i >= len {
        return Err(DecodeError::new("unexpected end of input"));
    }
    let c = s.get_char(i);
    if c == 'n' {
        if len - i >= 4 && s.get_char(i + 1) == 'u' && s.get_char(i + 2) == 'l' && s.get_char(
            i + 3,
        ) == 'l' {
            Ok((Json::Null, i + 4))
        } else {
            Err(DecodeError::new("unrecognized bare word"))
        }
    } else if c == 't' {
        if len - i >= 4 && s.get_char(i + 1) == 'r' && s.get_char(i + 2) == 'u' && s.get_char(
            i + 3,
        ) == 'e' {
            Ok((Json::Bool(true), i + 4))
        } else {
            Err(DecodeError::new("unrecognized bare word"))
        }
    } else if c == 'f' {
        if len - i >= 5 && s.get_char(i + 1) == 'a' && s.get_char(i + 2) == 'l' && s.get_char(
            i + 3,
        ) == 's' && s.get_char(i + 4) == 'e' {
            Ok((Json::Bool(false), i + 5))
        } else {
            Err(DecodeError::new("unrecognized bare word"))
        }
    } else if c == '"' {
        match parse_string_body_exec(s, i + 1) {
            Err(err) => Err(err),
            Ok((body, j)) => Ok((Json::Str(body), j)),
        }
    } else if c == '[' {
        let k = skip_ws_exec(s, i + 1);
        if k < len && s.get_char(k) == ']' {
            let items: Vec<Json> = Vec::new();
            proof {
                assert(jview_items(items@) =~= Seq::<JsonV>::empty());
            }
            Ok((Json::Arr(items), k + 1))
        } else {
            match parse_items_exec(s, k) {
                Err(err) => Err(err),
                Ok((items, j)) => Ok((Json::Arr(items), j)),
            }
        }
    } else if c == '{' {
        let k = skip_ws_exec(s, i + 1);
        if k < len && s.get_char(k) == '}' {
            let members: Vec<(String, Json)> = Vec::new();
            proof {
                assert(jview_members(members@) =~= Seq::<(Seq<char>, JsonV)>::empty());
            }
            Ok((Json::Obj(members), k + 1))
        } else {
            match parse_members_exec(s, k) {
                Err(err) => Err(err),
                Ok((members, j)) => Ok((Json::Obj(members), j)),
            }
        }
    } else if c == '-' || ((c as u32) >= 48 && (c as u32) <= 57) {
        parse_number_exec(s, i)
    } else {
        Err(DecodeError::new("unexpected character at start of value"))
    }
}

fn parse_items_exec(s: &str, i: usize) -> (r: Result<(Vec<Json>, usize), DecodeError>)
    requires
        (i as int) <= s@.len(),
    ensures
        match r {
            Ok(p) => parse_items(s@, i as int) == Some((jview_items(p.0@), p.1 as int)) && i < p.1
                && p.1 as int <= s@.len(),
            Err(_) => parse_items(s@, i as int) is None,
        },
    decreases s@.len() - i, 1int,
{
    let len = s.unicode_len();
    match parse_value_exec(s, i) {
        Err(err) => Err(err),
        Ok((v, j)) => {
            let k = skip_ws_exec(s, j);
            if k < len && s.get_char(k) == ',' {
                let k2 = skip_ws_exec(s, k + 1);
                match parse_items_exec(s, k2) {
                    Err(err) => Err(err),
                    Ok((mut rest, e)) => {
                        let ghost old_rest = rest@;
                        rest.insert(0, v);
                        proof {
                            broadcast use lemma_jview_items_len, lemma_jview_items_index;

                            assert(rest@ =~= seq![v] + old_rest);
                            assert(jview_items(rest@) =~= seq![v@] + jview_items(old_rest));
                        }
                        Ok((rest, e))
                    },
                }
            } else if k < len && s.get_char(k) == ']' {
                let mut items: Vec<Json> = Vec::new();
                items.push(v);
                proof {
                    broadcast use lemma_jview_items_len, lemma_jview_items_index;

                    assert(jview_items(items@) =~= seq![v@]);
                }
                Ok((items, k + 1))
            } else {
                Err(DecodeError::new("expected comma or closing bracket in array"))
            }
        },
    }
}

fn parse_members_exec(s: &str, i: usize) -> (r: Result<(Vec<(String, Json)>, usize), DecodeError>)
    requires
        (i as int) <= s@.len(),
    ensures
        match r {
            Ok(p) => parse_members(s@, i as int) == Some((jview_members(p.0@), p.1 as int)) && i
                < p.1 && p.1 as int <= s@.len(),
            Err(_) => parse_members(s@, i as int) is None,
        },
    decreases s@.len() - i, 1int,
{
    let len = s.unicode_len();
    if i >= len {
        return Err(DecodeError::new("expected object key"));
    }
    if s.get_char(i) != '"' {
        return Err(DecodeError::new("expected object key"));
    }
    match parse_string_body_exec(s, i + 1) {
        Err(err) => Err(err),
        Ok((key, j)) => {
            let c = skip_ws_exec(s, j);
            if !(c < len && s.get_char(c) == ':') {
                return Err(DecodeError::new("expected colon after object key"));
            }
            let k = skip_ws_exec(s, c + 1);
            match parse_value_exec(s, k) {
                Err(err) => Err(err),
                Ok((v, j2)) => {
                    let k2 = skip_ws_exec(s, j2);
                    if k2 < len && s.get_char(k2) == ',' {
                        let k3 = skip_ws_exec(s, k2 + 1);
                        match parse_members_exec(s, k3) {
                            Err(err) => Err(err),
                            Ok((mut rest, e)) => {
                                let ghost old_rest = rest@;
                                let ghost keyv = key@;
                                let ghost vv = v@;
                                rest.insert(0, (key, v));
                                proof {
                                    broadcast use
                                        lemma_jview_members_len,
                                        lemma_jview_members_index,
                                    ;

                                    assert(jview_members(rest@) =~= seq![(keyv, vv)]
                                        + jview_members(old_rest));
                                }
                                Ok((rest, e))
                            },
                        }
                    } else if k2 < len && s.get_char(k2) == '}' {
                        let ghost keyv = key@;
                        let ghost vv = v@;
                        let mut members: Vec<(String, Json)> = Vec::new();
                        members.push((key, v));
                        proof {
                            broadcast use lemma_jview_members_len, lemma_jview_members_index;

                            assert(jview_members(members@) =~= seq![(keyv, vv)]);
                        }
                        Ok((members, k2 + 1))
                    } else {
                        Err(DecodeError::new("expected comma or closing brace in object"))
                    }
                },
            }
        },
    }
}

/// Parse a complete JSON document. Returns exactly what the grammar
/// functions of this module say: the tree for a well-formed document, an
/// error otherwise.
pub fn parse_json(s: &str) -> (r: Result<Json, DecodeError>)
    ensures
        match r {
            Ok(j) => parse_doc(s@) == Some(j@),
            Err(_) => parse_doc(s@) is None,
        },
{
    let len = s.unicode_len();
    let i = skip_ws_exec(s, 0);
    match parse_value_exec(s, i) {
        Err(err) => Err(err),
        Ok((v, j)) => {
            let k = skip_ws_exec(s, j);
            if k == len {
                Ok(v)
            } else {
                Err(DecodeError::new("unexpected text after the document"))
            }
        },
    }
}

/// Parse a whole document: one value, surrounded by optional whitespace,
/// reaching exactly to the end of the text.
pub open spec fn parse_doc(s: Seq<char>) -> Option<JsonV> {
    let i = skip_ws(s, 0);
    if i < 0 || i > s.len() {
        None
    } else {
        match parse_value(s, i) {
            None => None,
            Some((v, j)) => {
                if j < 0 || j > s.len() {
                    None
                } else if skip_ws(s, j) == s.len() {
                    Some(v)
                } else {
                    None
                }
            },
        }
    }
}

} // verus!
