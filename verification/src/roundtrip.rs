//! The printer and the parser invert each other: parsing the canonical
//! text of a well-formed JSON value gives the value back, and therefore
//! every typed value of this library round-trips through its wire text.

use vstd::prelude::*;

use crate::json::{
    dec_digits, digit_char, esc_char, flt_text, frac_chars, hex_char, int_text, items_text,
    members_text, str_text, text_of, wf_json, wf_json_items, wf_json_members, JsonV,
};
use crate::parse::{
    code_char, digit_of, digit_seq, digits_val, hex_of, is_digit, is_hex, is_ws, parse_doc,
    parse_items, parse_members, parse_number, parse_string_body, parse_value, pow10, scan_digits,
    skip_ws,
};
use crate::structure::{
    context_json, contexts_json, decode_event_text, decode_message_text, decode_request_text,
    decode_response_text, event_json, fulfillment_json, lemma_event_round_trip,
    lemma_message_round_trip, lemma_request_round_trip, lemma_response_round_trip, message_json,
    messages_json, metadata_json, params_json, query_member, request_json, response_json,
    result_json, score_json, status_json, wf_score, ApiContextV, ApiEventV, ApiFulfillmentV,
    ApiMessageV, ApiMetadataV, ApiQueryV, ApiRequestV, ApiResponseV, ApiResultV, ApiScoreV,
    ApiStatusV,
};

verus! {

/// The characters a value's text can begin with.
spec fn value_start(c: char) -> bool {
    c == 'n' || c == 't' || c == 'f' || c == '"' || c == '[' || c == '{' || c == '-' || is_digit(
        c,
    )
}

/// The characters that may legally follow a complete value: whitespace,
/// a separator, or a closing bracket.
spec fn value_end(c: char) -> bool {
    is_ws(c) || c == ',' || c == ']' || c == '}'
}

proof fn lemma_digit_char_val(d: nat)
    requires
        d <= 9,
    ensures
        is_digit(digit_char(d)),
        digit_of(digit_char(d)) == d,
        !is_ws(digit_char(d)),
        !value_end(digit_char(d)),
{
}

proof fn lemma_hex_char_val(d: nat)
    requires
        d <= 15,
    ensures
        is_hex(hex_char(d)),
        hex_of(hex_char(d)) == d,
{
}

proof fn lemma_dec_digits_digits(n: nat)
    ensures
        dec_digits(n).len() >= 1,
        forall|j: int| 0 <= j < dec_digits(n).len() ==> is_digit(#[trigger] dec_digits(n)[j]),
    decreases n,
{
    if n < 10 {
        lemma_digit_char_val(n);
    } else {
        lemma_dec_digits_digits(n / 10);
        lemma_digit_char_val(n % 10);
    }
}

proof fn lemma_dec_digits_len(n: nat, k: nat)
    requires
        k >= 1,
        n < pow10(k),
    ensures
        1 <= dec_digits(n).len() <= k,
    decreases k,
{
    if n < 10 {
    } else {
        assert(pow10(k) == 10 * pow10((k - 1) as nat));
        assert(n / 10 < pow10((k - 1) as nat));
        assert(k - 1 >= 1) by {
            if k == 1 {
                assert(pow10(1) == 10);
            }
        }
        lemma_dec_digits_len(n / 10, (k - 1) as nat);
    }
}

proof fn lemma_dec_digits_first(n: nat)
    requires
        n >= 1,
    ensures
        dec_digits(n)[0] != '0',
    decreases n,
{
    if n < 10 {
    } else {
        lemma_dec_digits_first(n / 10);
        lemma_dec_digits_digits(n / 10);
    }
}

proof fn lemma_digits_val_dec(n: nat, s: Seq<char>, i: int)
    requires
        0 <= i,
        i + dec_digits(n).len() <= s.len(),
        s.subrange(i, i + dec_digits(n).len()) =~= dec_digits(n),
    ensures
        digits_val(s, i, i + dec_digits(n).len()) == n,
    decreases n,
{
    let l = dec_digits(n).len() as int;
    if n < 10 {
        assert(s[i] == dec_digits(n)[0]);
        lemma_digit_char_val(n);
        assert(digits_val(s, i, i + 1) == digits_val(s, i, i) * 10 + digit_of(s[i]));
    } else {
        lemma_dec_digits_digits(n / 10);
        let l2 = dec_digits(n / 10).len() as int;
        assert(l == l2 + 1);
        assert(s.subrange(i, i + l2) =~= dec_digits(n / 10)) by {
            assert forall|j: int| 0 <= j < l2 implies #[trigger] s.subrange(i, i + l2)[j] == dec_digits(
                n / 10,
            )[j] by {
                assert(s[i + j] == dec_digits(n)[j]);
                assert(dec_digits(n)[j] == dec_digits(n / 10)[j]);
            }
        }
        lemma_digits_val_dec(n / 10, s, i);
        assert(s[i + l - 1] == dec_digits(n)[l - 1]);
        assert(dec_digits(n)[l - 1] == digit_char(n % 10));
        lemma_digit_char_val(n % 10);
        assert(digits_val(s, i, i + l) == digits_val(s, i, i + l - 1) * 10 + digit_of(
            s[i + l - 1],
        ));
    }
}

proof fn lemma_scan_digits_exact(s: Seq<char>, i: int, j: int)
    requires
        0 <= i <= j <= s.len(),
        forall|k: int| i <= k < j ==> is_digit(#[trigger] s[k]),
        j == s.len() || !is_digit(s[j]),
    ensures
        scan_digits(s, i) == j,
    decreases j - i,
{
    if i < j {
        lemma_scan_digits_exact(s, i + 1, j);
    }
}

/// Parsing a printed integer gives the integer back, as long as what
/// follows cannot be read as more of the number.
proof fn lemma_parse_int_print(n: int, s: Seq<char>, i: int)
    requires
        i64::MIN <= n <= i64::MAX,
        0 <= i,
        i + int_text(n).len() <= s.len(),
        s.subrange(i, i + int_text(n).len()) =~= int_text(n),
        i + int_text(n).len() == s.len() || (!is_digit(s[i + int_text(n).len()]) && s[i
            + int_text(n).len()] != '.'),
    ensures
        parse_number(s, i) == Some((JsonV::Int(n), i + int_text(n).len())),
{
    let l = int_text(n).len() as int;
    let m = if n < 0 {
        (-n) as nat
    } else {
        n as nat
    };
    let ld = dec_digits(m).len() as int;
    let d0 = if n < 0 {
        i + 1
    } else {
        i
    };
    lemma_dec_digits_digits(m);
    crate::parse::lemma_pow10_19();
    lemma_dec_digits_len(m, 19);
    assert forall|k: int| d0 <= k < d0 + ld implies is_digit(#[trigger] s[k]) by {
        assert(s[k] == int_text(n)[k - i]);
        if n < 0 {
            assert(int_text(n)[k - i] == dec_digits(m)[k - i - 1]);
        } else {
            assert(int_text(n)[k - i] == dec_digits(m)[k - i]);
        }
    }
    assert(s.subrange(d0, d0 + ld) =~= dec_digits(m)) by {
        assert forall|j: int| 0 <= j < ld implies #[trigger] s.subrange(d0, d0 + ld)[j] == dec_digits(
            m,
        )[j] by {
            assert(s[d0 + j] == int_text(n)[d0 + j - i]);
        }
    }
    if n < 0 {
        assert(s[i] == int_text(n)[0]);
        assert(int_text(n)[0] == '-');
    } else {
        assert(s[i] == int_text(n)[0]);
        assert(int_text(n)[0] == dec_digits(m)[0]);
        assert(is_digit(s[i]));
        assert(s[i] != '-');
    }
    assert(d0 + ld == i + l);
    lemma_scan_digits_exact(s, d0, d0 + ld);
    lemma_digits_val_dec(m, s, d0);
    if ld > 1 {
        assert(m >= 10) by {
            if m < 10 {
                assert(dec_digits(m).len() == 1);
            }
        }
        lemma_dec_digits_first(m);
        assert(s[d0] == dec_digits(m)[0]);
    }
    if i + l < s.len() {
        assert(!is_digit(s[i + l]) && s[i + l] != '.');
    }
    assert(m <= 0x8000_0000_0000_0000) by {
        assert(i64::MIN == -0x8000_0000_0000_0000);
    }
}

/// Parsing a printed decimal gives the number back, as long as what
/// follows cannot be read as more of the number.
proof fn lemma_parse_flt_print(neg: bool, ip: nat, frac: Seq<u8>, s: Seq<char>, i: int)
    requires
        ip < 10_000_000_000_000_000_000,
        frac.len() >= 1,
        forall|k: int| 0 <= k < frac.len() ==> frac[k] <= 9,
        0 <= i,
        i + flt_text(neg, ip, frac).len() <= s.len(),
        s.subrange(i, i + flt_text(neg, ip, frac).len()) =~= flt_text(neg, ip, frac),
        i + flt_text(neg, ip, frac).len() == s.len() || !is_digit(
            s[i + flt_text(neg, ip, frac).len()],
        ),
    ensures
        parse_number(s, i) == Some(
            (JsonV::Flt { neg, int_part: ip, frac }, i + flt_text(neg, ip, frac).len()),
        ),
{
    let t = flt_text(neg, ip, frac);
    let l = t.len() as int;
    let ld = dec_digits(ip).len() as int;
    let lf = frac.len() as int;
    let d0 = if neg {
        i + 1
    } else {
        i
    };
    lemma_dec_digits_digits(ip);
    crate::parse::lemma_pow10_19();
    lemma_dec_digits_len(ip, 19);
    assert(frac_chars(frac).len() == lf && (forall|k: int|
        0 <= k < lf ==> frac_chars(frac)[k] == digit_char(frac[k] as nat))) by {
        lemma_frac_chars_index(frac);
    }
    let off: int = if neg {
        1
    } else {
        0
    };
    assert(t.len() == off + ld + 1 + lf);
    // the layout of the printed text
    assert forall|j: int| 0 <= j < ld implies #[trigger] t[off + j] == dec_digits(ip)[j] by {}
    if neg {
        assert(t[0] == '-');
        assert(s[i] == t[0]);
    } else {
        assert(t[0] == dec_digits(ip)[0]);
        assert(s[i] == t[0]);
        assert(is_digit(s[i]));
        assert(s[i] != '-');
    }
    assert forall|k: int| d0 <= k < d0 + ld implies is_digit(#[trigger] s[k]) by {
        assert(s[k] == t[k - i]);
        assert(t[k - i] == dec_digits(ip)[k - d0]);
    }
    assert(s.subrange(d0, d0 + ld) =~= dec_digits(ip)) by {
        assert forall|j: int| 0 <= j < ld implies #[trigger] s.subrange(d0, d0 + ld)[j] == dec_digits(
            ip,
        )[j] by {
            assert(s[d0 + j] == t[d0 + j - i]);
        }
    }
    assert(s[d0 + ld] == t[d0 + ld - i]);
    assert(t[d0 + ld - i] == '.');
    lemma_scan_digits_exact(s, d0, d0 + ld);
    lemma_digits_val_dec(ip, s, d0);
    if ld > 1 {
        assert(ip >= 10) by {
            if ip < 10 {
                assert(dec_digits(ip).len() == 1);
            }
        }
        lemma_dec_digits_first(ip);
        assert(s[d0] == dec_digits(ip)[0]);
    }
    let f0 = d0 + ld + 1;
    assert forall|k: int| f0 <= k < f0 + lf implies is_digit(#[trigger] s[k]) by {
        assert(s[k] == t[k - i]);
        assert(t[k - i] == frac_chars(frac)[k - f0]);
        lemma_digit_char_val(frac[k - f0] as nat);
    }
    assert(f0 + lf == i + l);
    lemma_scan_digits_exact(s, f0, f0 + lf);
    assert(digit_seq(s, f0, f0 + lf) =~= frac) by {
        assert forall|k: int| 0 <= k < lf implies #[trigger] digit_seq(s, f0, f0 + lf)[k] == frac[k] by {
            assert(s[f0 + k] == t[f0 + k - i]);
            assert(t[f0 + k - i] == frac_chars(frac)[k]);
            lemma_digit_char_val(frac[k] as nat);
        }
    }
}

proof fn lemma_str_text_front(body: Seq<char>)
    requires
        body.len() > 0,
    ensures
        str_text(body) == esc_char(body[0]) + str_text(body.drop_first()),
    decreases body.len(),
{
    if body.len() == 1 {
        assert(body.drop_last() =~= Seq::<char>::empty());
        assert(body.drop_first() =~= Seq::<char>::empty());
        assert(esc_char(body[0]) + str_text(body.drop_first()) =~= str_text(body));
    } else {
        let d = body.drop_last();
        lemma_str_text_front(d);
        assert(body.drop_first().drop_last() =~= d.drop_first());
        assert(body.drop_first().last() == body.last());
        assert(str_text(body.drop_first()) == str_text(d.drop_first()) + esc_char(body.last()));
        assert(d[0] == body[0]);
        assert((esc_char(body[0]) + str_text(d.drop_first())) + esc_char(body.last()) =~= esc_char(
            body[0],
        ) + (str_text(d.drop_first()) + esc_char(body.last())));
        assert(str_text(body) =~= esc_char(body[0]) + str_text(body.drop_first()));
    }
}

/// Parsing a printed string body, up to and including the closing quote
/// that follows it, gives the string back.
proof fn lemma_parse_string_print(body: Seq<char>, s: Seq<char>, i: int)
    requires
        0 <= i,
        i + str_text(body).len() + 1 <= s.len(),
        s.subrange(i, i + str_text(body).len()) =~= str_text(body),
        s[i + str_text(body).len()] == '"',
    ensures
        parse_string_body(s, i) == Some((body, i + str_text(body).len() + 1)),
    decreases body.len(),
{
    let lt = str_text(body).len() as int;
    if body.len() == 0 {
        assert(s[i] == '"');
        assert(body =~= Seq::<char>::empty());
    } else {
        let c = body[0];
        lemma_str_text_front(body);
        let e = esc_char(c);
        let le = e.len() as int;
        let restt = str_text(body.drop_first());
        assert(lt == le + restt.len());
        assert forall|j: int| 0 <= j < le implies s[i + j] == #[trigger] e[j] by {
            assert(s[i + j] == str_text(body)[j]);
        }
        assert(s.subrange(i + le, i + lt) =~= restt) by {
            assert forall|j: int| 0 <= j < restt.len() implies #[trigger] s.subrange(
                i + le,
                i + lt,
            )[j] == restt[j] by {
                assert(s[i + le + j] == str_text(body)[le + j]);
            }
        }
        lemma_parse_string_print(body.drop_first(), s, i + le);
        assert(seq![c] + body.drop_first() =~= body);
        if c == '"' || c == '\\' {
            assert(s[i] == '\\');
        } else if c == '\u{8}' || c == '\t' || c == '\n' || c == '\u{c}' || c == '\r' {
            assert(s[i] == '\\');
            assert(s[i + 1] == e[1]);
        } else if (c as u32) < 32 {
            let cv = (c as u32) as nat;
            assert(s[i] == '\\');
            assert(s[i + 1] == 'u');
            assert(s[i + 2] == '0');
            assert(s[i + 3] == '0');
            assert(s[i + 4] == hex_char(cv / 16));
            assert(s[i + 5] == hex_char(cv % 16));
            lemma_hex_char_val(0);
            lemma_hex_char_val(cv / 16);
            lemma_hex_char_val(cv % 16);
            assert(hex_char(0) == '0');
            let v = (hex_of(s[i + 2]) as int) * 4096 + (hex_of(s[i + 3]) as int) * 256 + (hex_of(
                s[i + 4],
            ) as int) * 16 + (hex_of(s[i + 5]) as int);
            assert(v == cv);
            let u: u32 = c as u32;
            assert(u == v as u32);
            vstd::utf8::char_u32_cast(c, u);
            assert((code_char(v as u32) as u32) == u) by {
                assert((c as u32) == v as u32);
            }
            vstd::utf8::char_u32_cast(code_char(v as u32), u);
            assert(code_char(v as u32) == c);
        } else {
            assert(e =~= seq![c]);
            assert(s[i] == c);
            assert(s[i] != '"' && s[i] != '\\' && !((s[i] as u32) < 32));
        }
    }
}

proof fn lemma_frac_chars_index(frac: Seq<u8>)
    ensures
        frac_chars(frac).len() == frac.len(),
        forall|k: int|
            0 <= k < frac.len() ==> #[trigger] frac_chars(frac)[k] == digit_char(frac[k] as nat),
    decreases frac,
{
    if frac.len() > 0 {
        lemma_frac_chars_index(frac.drop_last());
    }
}


proof fn lemma_text_of_start(v: JsonV)
    requires
        wf_json(v),
    ensures
        text_of(v).len() >= 1,
        value_start(text_of(v)[0]),
{
    reveal_strlit("null");
    reveal_strlit("true");
    reveal_strlit("false");
    assert("null"@.len() == 4 && "null"@[0] == 'n');
    assert("true"@.len() == 4 && "true"@[0] == 't');
    assert("false"@.len() == 5 && "false"@[0] == 'f');
    match v {
        JsonV::Int(n) => {
            let m = if n < 0 {
                (-n) as nat
            } else {
                n as nat
            };
            lemma_dec_digits_digits(m);
            if n >= 0 {
                assert(text_of(v)[0] == dec_digits(m)[0]);
            }
        },
        JsonV::Flt { neg, int_part, frac } => {
            lemma_dec_digits_digits(int_part);
            if !neg {
                assert(text_of(v)[0] == dec_digits(int_part)[0]);
            }
        },
        _ => {},
    }
}

proof fn lemma_items_text_shift(items: Seq<JsonV>, k: int)
    requires
        items.len() >= 1,
        1 <= k <= items.len(),
    ensures
        items_text(items, k) =~= text_of(items[0]) + (if items.len() > 1 {
            seq![',']
        } else {
            Seq::<char>::empty()
        }) + items_text(items.drop_first(), k - 1),
    decreases k,
{
    let d = items.drop_first();
    let sep: Seq<char> = if items.len() > 1 {
        seq![',']
    } else {
        Seq::<char>::empty()
    };
    if k == 1 {
        assert(items_text(items, 0) == Seq::<char>::empty());
        assert(items_text(d, 0) == Seq::<char>::empty());
        assert(items_text(items, 1) =~= text_of(items[0]) + sep + items_text(d, 0));
    } else {
        lemma_items_text_shift(items, k - 1);
        assert(d[k - 2] == items[k - 1]);
        assert(d.len() == items.len() - 1);
        assert(items_text(d, k - 1) == items_text(d, k - 2) + text_of(d[k - 2]) + (if k - 1
            < d.len() {
            seq![',']
        } else {
            Seq::<char>::empty()
        }));
        assert(items_text(items, k) =~= text_of(items[0]) + sep + items_text(d, k - 1));
    }
}

proof fn lemma_members_text_shift(members: Seq<(Seq<char>, JsonV)>, k: int)
    requires
        members.len() >= 1,
        1 <= k <= members.len(),
    ensures
        members_text(members, k) =~= seq!['"'] + str_text(members[0].0) + seq!['"', ':']
            + text_of(members[0].1) + (if members.len() > 1 {
            seq![',']
        } else {
            Seq::<char>::empty()
        }) + members_text(members.drop_first(), k - 1),
    decreases k,
{
    let d = members.drop_first();
    let sep: Seq<char> = if members.len() > 1 {
        seq![',']
    } else {
        Seq::<char>::empty()
    };
    let m0 = seq!['"'] + str_text(members[0].0) + seq!['"', ':'] + text_of(members[0].1);
    if k == 1 {
        assert(members_text(members, 0) == Seq::<char>::empty());
        assert(members_text(d, 0) == Seq::<char>::empty());
        assert(members_text(members, 1) =~= m0 + sep + members_text(d, 0));
    } else {
        lemma_members_text_shift(members, k - 1);
        assert(d[k - 2] == members[k - 1]);
        assert(d.len() == members.len() - 1);
        assert(members_text(d, k - 1) == members_text(d, k - 2) + seq!['"'] + str_text(
            d[k - 2].0,
        ) + seq!['"', ':'] + text_of(d[k - 2].1) + (if k - 1 < d.len() {
            seq![',']
        } else {
            Seq::<char>::empty()
        }));
        assert(members_text(members, k) =~= m0 + sep + members_text(d, k - 1));
    }
}

/// Parsing the canonical text of a well-formed value, wherever it stands
/// in a larger text, gives the value back and stops right after it.
#[verifier::rlimit(100)]
proof fn lemma_parse_value_print(v: JsonV, s: Seq<char>, i: int)
    requires
        wf_json(v),
        0 <= i,
        i + text_of(v).len() <= s.len(),
        s.subrange(i, i + text_of(v).len()) =~= text_of(v),
        i + text_of(v).len() == s.len() || value_end(s[i + text_of(v).len()]),
    ensures
        parse_value(s, i) == Some((v, i + text_of(v).len())),
    decreases v, 0int,
{
    let t = text_of(v);
    let l = t.len() as int;
    reveal_strlit("null");
    reveal_strlit("true");
    reveal_strlit("false");
    assert forall|j: int| 0 <= j < l implies s[i + j] == #[trigger] t[j] by {
        assert(s.subrange(i, i + l)[j] == t[j]);
    }
    match v {
        JsonV::Null => {
            assert(t[0] == 'n' && t[1] == 'u' && t[2] == 'l' && t[3] == 'l' && t.len() == 4);
        },
        JsonV::Bool(b) => {
            if b {
                assert(t[0] == 't' && t[1] == 'r' && t[2] == 'u' && t[3] == 'e' && t.len() == 4);
            } else {
                assert(t[0] == 'f' && t[1] == 'a' && t[2] == 'l' && t[3] == 's' && t[4] == 'e'
                    && t.len() == 5);
            }
        },
        JsonV::Int(n) => {
            let m = if n < 0 {
                (-n) as nat
            } else {
                n as nat
            };
            lemma_dec_digits_digits(m);
            if n >= 0 {
                assert(t[0] == dec_digits(m)[0]);
            }
            lemma_parse_int_print(n, s, i);
        },
        JsonV::Flt { neg, int_part, frac } => {
            lemma_dec_digits_digits(int_part);
            if !neg {
                assert(t[0] == dec_digits(int_part)[0]);
            }
            lemma_parse_flt_print(neg, int_part, frac, s, i);
        },
        JsonV::Str(body) => {
            assert(t[0] == '"');
            assert(s[i] == '"');
            let st = str_text(body);
            assert(s.subrange(i + 1, i + 1 + st.len()) =~= st) by {
                assert forall|j: int| 0 <= j < st.len() implies #[trigger] s.subrange(
                    i + 1,
                    i + 1 + st.len(),
                )[j] == st[j] by {
                    assert(s[i + 1 + j] == t[1 + j]);
                }
            }
            assert(s[i + 1 + st.len()] == t[l - 1]);
            assert(t[l - 1] == '"');
            lemma_parse_string_print(body, s, i + 1);
        },
        JsonV::Arr(items) => {
            assert(t[0] == '[');
            assert(s[i] == '[');
            let n = items.len() as int;
            let itext = items_text(items, n);
            assert forall|j: int| 0 <= j < itext.len() implies s[i + 1 + j] == #[trigger] itext[j]
                by {
                assert(s[i + 1 + j] == t[1 + j]);
            }
            assert(s[i + 1 + itext.len()] == t[l - 1]);
            assert(t[l - 1] == ']');
            if n == 0 {
                assert(itext.len() == 0);
                assert(s[i + 1] == ']');
                assert(skip_ws(s, i + 1) == i + 1);
                assert(items =~= Seq::<JsonV>::empty());
                assert(v == JsonV::Arr(Seq::<JsonV>::empty()));
            } else {
                lemma_items_text_shift(items, n);
                crate::json::lemma_wf_json_items_index(items, 0);
                lemma_text_of_start(items[0]);
                assert(itext[0] == text_of(items[0])[0]);
                assert(s[i + 1] == itext[0]);
                assert(!is_ws(s[i + 1]) && s[i + 1] != ']');
                assert(skip_ws(s, i + 1) == i + 1);
                assert(s.subrange(i + 1, i + 1 + itext.len()) =~= itext);
                lemma_parse_items_print(items, s, i + 1);
            }
        },
        JsonV::Obj(members) => {
            assert(t[0] == '{');
            assert(s[i] == '{');
            let n = members.len() as int;
            let mtext = members_text(members, n);
            assert forall|j: int| 0 <= j < mtext.len() implies s[i + 1 + j] == #[trigger] mtext[j]
                by {
                assert(s[i + 1 + j] == t[1 + j]);
            }
            assert(s[i + 1 + mtext.len()] == t[l - 1]);
            assert(t[l - 1] == '}');
            if n == 0 {
                assert(mtext.len() == 0);
                assert(s[i + 1] == '}');
                assert(skip_ws(s, i + 1) == i + 1);
                assert(members =~= Seq::<(Seq<char>, JsonV)>::empty());
                assert(v == JsonV::Obj(Seq::<(Seq<char>, JsonV)>::empty()));
            } else {
                lemma_members_text_shift(members, n);
                assert(mtext[0] == '"');
                assert(s[i + 1] == '"');
                assert(!is_ws(s[i + 1]) && s[i + 1] != '}');
                assert(skip_ws(s, i + 1) == i + 1);
                assert(s.subrange(i + 1, i + 1 + mtext.len()) =~= mtext);
                lemma_parse_members_print(members, s, i + 1);
            }
        },
    }
}

/// Parsing the printed elements of a non-empty array, up to and including
/// the closing bracket that follows them, gives the elements back.
#[verifier::rlimit(100)]
proof fn lemma_parse_items_print(items: Seq<JsonV>, s: Seq<char>, i: int)
    requires
        items.len() >= 1,
        wf_json_items(items),
        0 <= i,
        i + items_text(items, items.len() as int).len() + 1 <= s.len(),
        s.subrange(i, i + items_text(items, items.len() as int).len()) =~= items_text(
            items,
            items.len() as int,
        ),
        s[i + items_text(items, items.len() as int).len()] == ']',
    ensures
        parse_items(s, i) == Some((items, i + items_text(items, items.len() as int).len() + 1)),
    decreases items, 1int,
{
    let n = items.len() as int;
    let itext = items_text(items, n);
    let li = itext.len() as int;
    let v0 = items[0];
    let t0 = text_of(v0);
    let l0 = t0.len() as int;
    let d = items.drop_first();
    crate::json::lemma_wf_json_items_index(items, 0);
    lemma_items_text_shift(items, n);
    assert forall|j: int| 0 <= j < li implies s[i + j] == #[trigger] itext[j] by {
        assert(s.subrange(i, i + li)[j] == itext[j]);
    }
    assert forall|j: int| 0 <= j < l0 implies #[trigger] s.subrange(i, i + l0)[j] == t0[j] by {
        assert(s[i + j] == itext[j]);
    }
    let j = i + l0;
    if n == 1 {
        assert(itext =~= t0 + Seq::<char>::empty() + items_text(d, 0));
        assert(li == l0);
        assert(s[j] == ']');
        lemma_parse_value_print(v0, s, i);
        assert(skip_ws(s, j) == j);
        assert(seq![v0] =~= items);
    } else {
        let dtext = items_text(d, n - 1);
        assert(itext =~= t0 + seq![','] + dtext);
        assert(li == l0 + 1 + dtext.len());
        assert(s[j] == itext[l0]);
        assert(itext[l0] == ',');
        lemma_parse_value_print(v0, s, i);
        assert(skip_ws(s, j) == j);
        assert(wf_json_items(d)) by {
            lemma_wf_items_restrict(items);
        }
        crate::json::lemma_wf_json_items_index(d, 0);
        lemma_text_of_start(d[0]);
        lemma_items_text_shift(d, n - 1);
        assert(s[j + 1] == itext[l0 + 1]);
        assert(itext[l0 + 1] == dtext[0]);
        assert(dtext[0] == text_of(d[0])[0]);
        assert(!is_ws(s[j + 1]));
        assert(skip_ws(s, j + 1) == j + 1);
        assert(s.subrange(j + 1, j + 1 + dtext.len()) =~= dtext) by {
            assert forall|k: int| 0 <= k < dtext.len() implies #[trigger] s.subrange(
                j + 1,
                j + 1 + dtext.len(),
            )[k] == dtext[k] by {
                assert(s[j + 1 + k] == itext[l0 + 1 + k]);
            }
        }
        assert(s[j + 1 + dtext.len()] == ']');
        lemma_parse_items_print(d, s, j + 1);
        assert(seq![v0] + d =~= items);
    }
}

proof fn lemma_wf_items_restrict(items: Seq<JsonV>)
    requires
        items.len() >= 1,
        wf_json_items(items),
    ensures
        wf_json_items(items.drop_first()),
{
    let d = items.drop_first();
    assert forall|k: int| 0 <= k < d.len() implies wf_json(#[trigger] d[k]) by {
        crate::json::lemma_wf_json_items_index(items, k + 1);
    }
    lemma_wf_items_intro(d);
}

proof fn lemma_wf_items_intro(items: Seq<JsonV>)
    requires
        forall|k: int| 0 <= k < items.len() ==> wf_json(#[trigger] items[k]),
    ensures
        wf_json_items(items),
    decreases items,
{
    if items.len() > 0 {
        lemma_wf_items_intro(items.drop_last());
    }
}

proof fn lemma_wf_members_intro(members: Seq<(Seq<char>, JsonV)>)
    requires
        forall|k: int| 0 <= k < members.len() ==> wf_json(#[trigger] members[k].1),
    ensures
        wf_json_members(members),
    decreases members,
{
    if members.len() > 0 {
        lemma_wf_members_intro(members.drop_last());
    }
}

proof fn lemma_wf_members_restrict(members: Seq<(Seq<char>, JsonV)>)
    requires
        members.len() >= 1,
        wf_json_members(members),
    ensures
        wf_json_members(members.drop_first()),
{
    let d = members.drop_first();
    assert forall|k: int| 0 <= k < d.len() implies wf_json(#[trigger] d[k].1) by {
        crate::json::lemma_wf_json_members_index(members, k + 1);
    }
    lemma_wf_members_intro(d);
}

/// Parsing the printed members of a non-empty object, up to and including
/// the closing brace that follows them, gives the members back.
#[verifier::rlimit(100)]
proof fn lemma_parse_members_print(members: Seq<(Seq<char>, JsonV)>, s: Seq<char>, i: int)
    requires
        members.len() >= 1,
        wf_json_members(members),
        0 <= i,
        i + members_text(members, members.len() as int).len() + 1 <= s.len(),
        s.subrange(i, i + members_text(members, members.len() as int).len()) =~= members_text(
            members,
            members.len() as int,
        ),
        s[i + members_text(members, members.len() as int).len()] == '}',
    ensures
        parse_members(s, i) == Some(
            (members, i + members_text(members, members.len() as int).len() + 1),
        ),
    decreases members, 1int,
{
    let n = members.len() as int;
    let mtext = members_text(members, n);
    let lm = mtext.len() as int;
    let key = members[0].0;
    let v0 = members[0].1;
    let kt = str_text(key);
    let lk = kt.len() as int;
    let t0 = text_of(v0);
    let l0 = t0.len() as int;
    let d = members.drop_first();
    crate::json::lemma_wf_json_members_index(members, 0);
    lemma_members_text_shift(members, n);
    let m0 = seq!['"'] + kt + seq!['"', ':'] + t0;
    let lm0 = m0.len() as int;
    assert(lm0 == lk + 3 + l0);
    assert forall|j: int| 0 <= j < lm implies s[i + j] == #[trigger] mtext[j] by {
        assert(s.subrange(i, i + lm)[j] == mtext[j]);
    }
    assert forall|j: int| 0 <= j < lm0 implies s[i + j] == #[trigger] m0[j] by {
        assert(mtext[j] == m0[j]);
    }
    assert(m0[0] == '"');
    assert(s[i] == m0[0]);
    assert(s.subrange(i + 1, i + 1 + lk) =~= kt) by {
        assert forall|j: int| 0 <= j < lk implies #[trigger] s.subrange(i + 1, i + 1 + lk)[j]
            == kt[j] by {
            assert(s[i + 1 + j] == m0[1 + j]);
        }
    }
    assert(s[i + 1 + lk] == m0[1 + lk]);
    assert(m0[1 + lk] == '"');
    lemma_parse_string_print(key, s, i + 1);
    let jk = i + lk + 2;
    assert(s[jk] == m0[lk + 2]);
    assert(m0[lk + 2] == ':');
    assert(skip_ws(s, jk) == jk);
    lemma_text_of_start(v0);
    assert(s[jk + 1] == m0[lk + 3]);
    assert(m0[lk + 3] == t0[0]);
    assert(!is_ws(s[jk + 1]));
    assert(skip_ws(s, jk + 1) == jk + 1);
    assert(s.subrange(jk + 1, jk + 1 + l0) =~= t0) by {
        assert forall|j: int| 0 <= j < l0 implies #[trigger] s.subrange(jk + 1, jk + 1 + l0)[j]
            == t0[j] by {
            assert(s[jk + 1 + j] == m0[lk + 3 + j]);
        }
    }
    let j2 = jk + 1 + l0;
    if n == 1 {
        assert(mtext =~= m0 + Seq::<char>::empty() + members_text(d, 0));
        assert(lm == lm0);
        assert(s[j2] == '}');
        lemma_parse_value_print(v0, s, jk + 1);
        assert(skip_ws(s, j2) == j2);
        assert(seq![(key, v0)] =~= members);
        assert((key, v0) == members[0]);
    } else {
        let dtext = members_text(d, n - 1);
        assert(mtext =~= m0 + seq![','] + dtext);
        assert(lm == lm0 + 1 + dtext.len());
        assert(s[j2] == mtext[lm0]);
        assert(mtext[lm0] == ',');
        lemma_parse_value_print(v0, s, jk + 1);
        assert(skip_ws(s, j2) == j2);
        lemma_wf_members_restrict(members);
        lemma_members_text_shift(d, n - 1);
        assert(s[j2 + 1] == mtext[lm0 + 1]);
        assert(mtext[lm0 + 1] == dtext[0]);
        assert(dtext[0] == '"');
        assert(!is_ws(s[j2 + 1]));
        assert(skip_ws(s, j2 + 1) == j2 + 1);
        assert(s.subrange(j2 + 1, j2 + 1 + dtext.len()) =~= dtext) by {
            assert forall|k: int| 0 <= k < dtext.len() implies #[trigger] s.subrange(
                j2 + 1,
                j2 + 1 + dtext.len(),
            )[k] == dtext[k] by {
                assert(s[j2 + 1 + k] == mtext[lm0 + 1 + k]);
            }
        }
        assert(s[j2 + 1 + dtext.len()] == '}');
        lemma_parse_members_print(d, s, j2 + 1);
        assert(seq![(key, v0)] + d =~= members);
        assert((key, v0) == members[0]);
    }
}

/// The parser inverts the printer: parsing the canonical text of any
/// well-formed JSON value gives exactly that value back.
pub proof fn lemma_parse_print_round_trip(v: JsonV)
    requires
        wf_json(v),
    ensures
        parse_doc(text_of(v)) == Some(v),
{
    let s = text_of(v);
    lemma_text_of_start(v);
    assert(skip_ws(s, 0) == 0);
    assert(s.subrange(0, s.len() as int) =~= s);
    lemma_parse_value_print(v, s, 0);
    assert(skip_ws(s, s.len() as int) == s.len());
}


// ---------------------------------------------------------------------
// Every wire shape this library encodes is well-formed, so every typed
// value round-trips through its wire text.
// ---------------------------------------------------------------------

/// A score whose wire form stays inside the number grammar: at most
/// nineteen integer digits, and decimal fraction digits.
pub open spec fn wf_score_wire(sc: ApiScoreV) -> bool {
    sc.int_part < 10_000_000_000_000_000_000 && (forall|k: int|
        0 <= k < sc.frac.len() ==> sc.frac[k] <= 9)
}

proof fn lemma_wf_params_json(ps: Seq<(Seq<char>, Seq<char>)>)
    ensures
        wf_json_members(params_json(ps)),
{
    let ms = params_json(ps);
    assert forall|k: int| 0 <= k < ms.len() implies wf_json(#[trigger] ms[k].1) by {
        assert(ms[k] == (ps[k].0, JsonV::Str(ps[k].1)));
    }
    lemma_wf_members_intro(ms);
}

proof fn lemma_wf_context_json(c: ApiContextV)
    ensures
        wf_json(context_json(c)),
{
    let ms = context_json(c)->Obj_0;
    lemma_wf_params_json(c.parameters);
    assert forall|k: int| 0 <= k < ms.len() implies wf_json(#[trigger] ms[k].1) by {
        assert(ms[0].1 == JsonV::Str(c.name));
        assert(ms[1].1 == JsonV::Obj(params_json(c.parameters)));
        match c.lifespan {
            Some(n) => {
                assert(ms[2].1 == JsonV::Int(n as int));
            },
            None => {
                assert(ms[2].1 == JsonV::Null);
            },
        }
    }
    lemma_wf_members_intro(ms);
}

proof fn lemma_wf_contexts_json(cs: Seq<ApiContextV>)
    ensures
        wf_json(contexts_json(cs)),
{
    let items = contexts_json(cs)->Arr_0;
    assert forall|k: int| 0 <= k < items.len() implies wf_json(#[trigger] items[k]) by {
        assert(items[k] == context_json(cs[k]));
        lemma_wf_context_json(cs[k]);
    }
    lemma_wf_items_intro(items);
}

proof fn lemma_wf_event_json(e: ApiEventV)
    ensures
        wf_json(event_json(e)),
{
    let ms = event_json(e)->Obj_0;
    assert forall|k: int| 0 <= k < ms.len() implies wf_json(#[trigger] ms[k].1) by {
        assert(ms[0].1 == JsonV::Str(e.name));
        match e.data {
            Some(d) => {
                assert(ms[1].1 == JsonV::Obj(params_json(d)));
                lemma_wf_params_json(d);
            },
            None => {
                assert(ms[1].1 == JsonV::Null);
            },
        }
    }
    lemma_wf_members_intro(ms);
}

proof fn lemma_wf_request_json(r: ApiRequestV)
    ensures
        wf_json(request_json(r)),
{
    let ms = request_json(r)->Obj_0;
    let qm = query_member(r.payload);
    if r.session_id.len() == 0 {
        assert(ms =~= seq![
            qm,
            ("lang"@, JsonV::Str(crate::lang::lang_code(r.lang))),
            ("contexts"@, contexts_json(r.contexts)),
        ]);
    } else {
        assert(ms =~= seq![
            qm,
            ("sessionId"@, JsonV::Str(r.session_id)),
            ("lang"@, JsonV::Str(crate::lang::lang_code(r.lang))),
            ("contexts"@, contexts_json(r.contexts)),
        ]);
    }
    assert(wf_json(qm.1)) by {
        match r.payload {
            ApiQueryV::Query(q) => {
                assert(qm.1 == JsonV::Str(q));
            },
            ApiQueryV::Event(e) => {
                assert(qm.1 == event_json(e));
                lemma_wf_event_json(e);
            },
        }
    }
    lemma_wf_contexts_json(r.contexts);
    assert forall|k: int| 0 <= k < ms.len() implies wf_json(#[trigger] ms[k].1) by {}
    lemma_wf_members_intro(ms);
}

proof fn lemma_wf_message_json(m: ApiMessageV)
    ensures
        wf_json(message_json(m)),
{
    let ms = message_json(m)->Obj_0;
    assert forall|k: int| 0 <= k < ms.len() implies wf_json(#[trigger] ms[k].1) by {
        match m {
            ApiMessageV::Text { speech } => {
                assert(ms[0].1 == JsonV::Str(speech));
                assert(ms[1].1 == JsonV::Int(0));
            },
            ApiMessageV::Image { image_url } => {
                assert(ms[0].1 == JsonV::Str(image_url));
                assert(ms[1].1 == JsonV::Int(3));
            },
        }
    }
    lemma_wf_members_intro(ms);
}

proof fn lemma_wf_fulfillment_json(f: ApiFulfillmentV)
    ensures
        wf_json(fulfillment_json(f)),
{
    let ms = fulfillment_json(f)->Obj_0;
    match f.messages {
        Some(msv) => {
            assert(ms =~= seq![("speech"@, JsonV::Str(f.speech)), ("messages"@, messages_json(msv))]);
            let items = messages_json(msv)->Arr_0;
            assert forall|k: int| 0 <= k < items.len() implies wf_json(#[trigger] items[k]) by {
                assert(items[k] == message_json(msv[k]));
                lemma_wf_message_json(msv[k]);
            }
            lemma_wf_items_intro(items);
        },
        None => {
            assert(ms =~= seq![("speech"@, JsonV::Str(f.speech))]);
        },
    }
    assert forall|k: int| 0 <= k < ms.len() implies wf_json(#[trigger] ms[k].1) by {}
    lemma_wf_members_intro(ms);
}

proof fn lemma_wf_metadata_json(m: ApiMetadataV)
    ensures
        wf_json(metadata_json(m)),
{
    let ms = metadata_json(m)->Obj_0;
    assert forall|k: int| 0 <= k < ms.len() implies wf_json(#[trigger] ms[k].1) by {
        match m.intent_name {
            Some(n) => {
                assert(ms.len() == 4);
                assert(ms[3].1 == JsonV::Str(n));
            },
            None => {
                assert(ms.len() == 3);
            },
        }
        match m.intent_id {
            Some(si) => {
                assert(ms[0].1 == JsonV::Str(si));
            },
            None => {
                assert(ms[0].1 == JsonV::Null);
            },
        }
        assert(ms[1].1 == JsonV::Str(m.webhook_used));
        assert(ms[2].1 == JsonV::Str(m.webhook_slotfilling_used));
    }
    lemma_wf_members_intro(ms);
}

proof fn lemma_wf_status_json(st: ApiStatusV)
    ensures
        wf_json(status_json(st)),
{
    let ms = status_json(st)->Obj_0;
    assert forall|k: int| 0 <= k < ms.len() implies wf_json(#[trigger] ms[k].1) by {
        match st.error_details {
            Some(d) => {
                assert(ms.len() == 3);
                assert(ms[2].1 == JsonV::Str(d));
            },
            None => {
                assert(ms.len() == 2);
            },
        }
        assert(ms[0].1 == JsonV::Int(st.code as int));
        assert(ms[1].1 == JsonV::Str(st.error_type));
    }
    lemma_wf_members_intro(ms);
}

proof fn lemma_wf_score_json(sc: ApiScoreV)
    requires
        wf_score_wire(sc),
    ensures
        wf_json(score_json(sc)),
{
    if sc.frac.len() == 0 {
        assert(score_json(sc)->Flt_frac =~= seq![0u8]);
    }
}

proof fn lemma_wf_result_json(r: ApiResultV)
    requires
        wf_score_wire(r.score),
    ensures
        wf_json(result_json(r)),
{
    let ms = result_json(r)->Obj_0;
    lemma_wf_params_json(r.parameters);
    lemma_wf_contexts_json(r.contexts);
    lemma_wf_metadata_json(r.metadata);
    lemma_wf_fulfillment_json(r.fulfillment);
    lemma_wf_score_json(r.score);
    assert forall|k: int| 0 <= k < ms.len() implies wf_json(#[trigger] ms[k].1) by {
        assert(ms[0].1 == JsonV::Str(r.source));
        assert(ms[1].1 == JsonV::Str(r.resolved_query));
        assert(ms[2].1 == JsonV::Str(r.action));
        assert(ms[3].1 == JsonV::Bool(r.action_incomplete));
        assert(ms[4].1 == JsonV::Obj(params_json(r.parameters)));
        assert(ms[5].1 == contexts_json(r.contexts));
        assert(ms[6].1 == metadata_json(r.metadata));
        assert(ms[7].1 == fulfillment_json(r.fulfillment));
        assert(ms[8].1 == score_json(r.score));
    }
    lemma_wf_members_intro(ms);
}

proof fn lemma_wf_response_json(r: ApiResponseV)
    requires
        wf_score_wire(r.result.score),
    ensures
        wf_json(response_json(r)),
{
    let ms = response_json(r)->Obj_0;
    lemma_wf_result_json(r.result);
    lemma_wf_status_json(r.status);
    assert forall|k: int| 0 <= k < ms.len() implies wf_json(#[trigger] ms[k].1) by {
        assert(ms[0].1 == JsonV::Str(r.id));
        assert(ms[1].1 == JsonV::Str(r.timestamp));
        assert(ms[2].1 == JsonV::Str(crate::lang::lang_code(r.lang)));
        assert(ms[3].1 == result_json(r.result));
        assert(ms[4].1 == status_json(r.status));
        assert(ms[5].1 == JsonV::Str(r.session_id));
    }
    lemma_wf_members_intro(ms);
}

/// Every fulfillment message round-trips through its wire text: printing
/// its encoding and decoding the text gives the message back.
pub proof fn lemma_message_text_round_trip(m: ApiMessageV)
    ensures
        decode_message_text(text_of(message_json(m))) == Some(m),
{
    lemma_wf_message_json(m);
    lemma_parse_print_round_trip(message_json(m));
    lemma_message_round_trip(m);
}

/// Every event round-trips through its wire text.
pub proof fn lemma_event_text_round_trip(e: ApiEventV)
    ensures
        decode_event_text(text_of(event_json(e))) == Some(e),
{
    lemma_wf_event_json(e);
    lemma_parse_print_round_trip(event_json(e));
    lemma_event_round_trip(e);
}

/// Every request round-trips through its wire text; in particular the
/// context sequence comes back in the order it was sent.
pub proof fn lemma_request_text_round_trip(r: ApiRequestV)
    ensures
        decode_request_text(text_of(request_json(r))) == Some(r),
{
    lemma_wf_request_json(r);
    lemma_parse_print_round_trip(request_json(r));
    lemma_request_round_trip(r);
}

/// Every response whose score is normalized and within the number grammar
/// round-trips through its wire text.
pub proof fn lemma_response_text_round_trip(r: ApiResponseV)
    requires
        wf_score(r.result.score),
        wf_score_wire(r.result.score),
    ensures
        decode_response_text(text_of(response_json(r))) == Some(r),
{
    lemma_wf_response_json(r);
    lemma_parse_print_round_trip(response_json(r));
    lemma_response_round_trip(r);
}

} // verus!
