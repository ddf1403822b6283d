//! JSON document model and canonical printer.
//!
//! `Json` is the executable wire-value tree; `JsonV` is its mathematical
//! view. `text_of` defines the canonical textual form a value is printed
//! in, and `Json::to_text` is the verified printer. Parsing text back into
//! a tree lives in the `parse` module.

use vstd::prelude::*;

use crate::text::push_char;

verus! {

/// Error returned when a JSON document or a typed structure cannot be
/// decoded. Carries a human-readable description of the failure.
#[derive(Debug)]
pub struct DecodeError {
    pub message: String,
}

impl DecodeError {
    pub fn new(msg: &str) -> (r: DecodeError)
        ensures
            r.message@ == msg@,
    {
        DecodeError { message: String::from_str(msg) }
    }
}

/// A JSON value.
///
/// Numbers are split in two forms: `Int` for integer literals and `Flt`
/// for literals with a fractional part, kept as an integer part plus the
/// exact sequence of fraction digits so that no precision is lost.
pub enum Json {
    Null,
    Bool(bool),
    Int(i64),
    Flt { neg: bool, int_part: u64, frac: Vec<u8> },
    Str(String),
    Arr(Vec<Json>),
    Obj(Vec<(String, Json)>),
}

/// Mathematical view of a JSON value.
pub enum JsonV {
    Null,
    Bool(bool),
    Int(int),
    Flt { neg: bool, int_part: nat, frac: Seq<u8> },
    Str(Seq<char>),
    Arr(Seq<JsonV>),
    Obj(Seq<(Seq<char>, JsonV)>),
}

pub open spec fn jview(j: Json) -> JsonV
    decreases j, 0int,
{
    match j {
        Json::Null => JsonV::Null,
        Json::Bool(b) => JsonV::Bool(b),
        Json::Int(i) => JsonV::Int(i as int),
        Json::Flt { neg, int_part, frac } => JsonV::Flt {
            neg,
            int_part: int_part as nat,
            frac: frac@,
        },
        Json::Str(s) => JsonV::Str(s@),
        Json::Arr(items) => JsonV::Arr(jview_items(items@)),
        Json::Obj(members) => JsonV::Obj(jview_members(members@)),
    }
}

pub open spec fn jview_items(items: Seq<Json>) -> Seq<JsonV>
    decreases items, 0int,
{
    if items.len() == 0 {
        Seq::empty()
    } else {
        jview_items(items.drop_last()).push(jview(items.last()))
    }
}

pub open spec fn jview_members(members: Seq<(String, Json)>) -> Seq<(Seq<char>, JsonV)>
    decreases members, 0int,
{
    if members.len() == 0 {
        Seq::empty()
    } else {
        jview_members(members.drop_last()).push(
            (members.last().0@, jview(members.last().1)),
        )
    }
}

impl View for Json {
    type V = JsonV;

    open spec fn view(&self) -> JsonV {
        jview(*self)
    }
}

pub broadcast proof fn lemma_jview_items_len(items: Seq<Json>)
    ensures
        (#[trigger] jview_items(items)).len() == items.len(),
    decreases items,
{
    if items.len() > 0 {
        lemma_jview_items_len(items.drop_last());
    }
}

pub broadcast proof fn lemma_jview_items_index(items: Seq<Json>, i: int)
    requires
        0 <= i < items.len(),
    ensures
        #[trigger] jview_items(items)[i] == jview(items[i]),
    decreases items,
{
    lemma_jview_items_len(items.drop_last());
    if i < items.len() - 1 {
        lemma_jview_items_index(items.drop_last(), i);
    }
}

pub broadcast proof fn lemma_jview_members_len(members: Seq<(String, Json)>)
    ensures
        (#[trigger] jview_members(members)).len() == members.len(),
    decreases members,
{
    if members.len() > 0 {
        lemma_jview_members_len(members.drop_last());
    }
}

pub broadcast proof fn lemma_jview_members_index(members: Seq<(String, Json)>, i: int)
    requires
        0 <= i < members.len(),
    ensures
        #[trigger] jview_members(members)[i] == (members[i].0@, jview(members[i].1)),
    decreases members,
{
    lemma_jview_members_len(members.drop_last());
    if i < members.len() - 1 {
        lemma_jview_members_index(members.drop_last(), i);
    }
}

/// Well-formedness of a JSON value: fraction digits are decimal digits, a
/// fractional number carries at least one of them, and numbers stay within
/// what the grammar of the `parse` module reads back (at most nineteen
/// integer digits).
pub open spec fn wf_json(v: JsonV) -> bool
    decreases v, 0int,
{
    match v {
        JsonV::Null => true,
        JsonV::Bool(_) => true,
        JsonV::Int(i) => i64::MIN <= i <= i64::MAX,
        JsonV::Flt { neg, int_part, frac } => int_part < 10_000_000_000_000_000_000 && frac.len() >= 1
            && (forall|i: int| 0 <= i < frac.len() ==> frac[i] <= 9),
        JsonV::Str(_) => true,
        JsonV::Arr(items) => wf_json_items(items),
        JsonV::Obj(members) => wf_json_members(members),
    }
}

pub open spec fn wf_json_items(items: Seq<JsonV>) -> bool
    decreases items, 0int,
{
    if items.len() == 0 {
        true
    } else {
        wf_json_items(items.drop_last()) && wf_json(items.last())
    }
}

pub open spec fn wf_json_members(members: Seq<(Seq<char>, JsonV)>) -> bool
    decreases members, 0int,
{
    if members.len() == 0 {
        true
    } else {
        wf_json_members(members.drop_last()) && wf_json(members.last().1)
    }
}

pub broadcast proof fn lemma_wf_json_items_index(items: Seq<JsonV>, i: int)
    requires
        wf_json_items(items),
        0 <= i < items.len(),
    ensures
        #[trigger] wf_json(items[i]),
    decreases items,
{
    if i < items.len() - 1 {
        lemma_wf_json_items_index(items.drop_last(), i);
    }
}

pub broadcast proof fn lemma_wf_json_members_index(members: Seq<(Seq<char>, JsonV)>, i: int)
    requires
        wf_json_members(members),
        0 <= i < members.len(),
    ensures
        #[trigger] wf_json(members[i].1),
    decreases members,
{
    if i < members.len() - 1 {
        lemma_wf_json_members_index(members.drop_last(), i);
    }
}

/// The character for one decimal digit value; values above nine are
/// clamped so that the function is total.
pub open spec fn digit_char(d: nat) -> char {
    if d == 0 {
        '0'
    } else if d == 1 {
        '1'
    } else if d == 2 {
        '2'
    } else if d == 3 {
        '3'
    } else if d == 4 {
        '4'
    } else if d == 5 {
        '5'
    } else if d == 6 {
        '6'
    } else if d == 7 {
        '7'
    } else if d == 8 {
        '8'
    } else {
        '9'
    }
}

/// The lowercase character for one hexadecimal digit value; values above
/// fifteen are clamped so that the function is total.
pub open spec fn hex_char(d: nat) -> char {
    if d < 10 {
        digit_char(d)
    } else if d == 10 {
        'a'
    } else if d == 11 {
        'b'
    } else if d == 12 {
        'c'
    } else if d == 13 {
        'd'
    } else if d == 14 {
        'e'
    } else {
        'f'
    }
}

/// The decimal digits of a number, most significant first.
pub open spec fn dec_digits(n: nat) -> Seq<char>
    decreases n,
{
    if n < 10 {
        seq![digit_char(n)]
    } else {
        dec_digits(n / 10).push(digit_char(n % 10))
    }
}

/// The canonical text of an integer.
pub open spec fn int_text(i: int) -> Seq<char> {
    if i < 0 {
        seq!['-'] + dec_digits((-i) as nat)
    } else {
        dec_digits(i as nat)
    }
}

/// The characters of a sequence of fraction digits.
pub open spec fn frac_chars(frac: Seq<u8>) -> Seq<char>
    decreases frac,
{
    if frac.len() == 0 {
        Seq::empty()
    } else {
        frac_chars(frac.drop_last()).push(digit_char(frac.last() as nat))
    }
}

/// The canonical text of a number with a fractional part.
pub open spec fn flt_text(neg: bool, int_part: nat, frac: Seq<u8>) -> Seq<char> {
    (if neg {
        seq!['-']
    } else {
        Seq::empty()
    }) + dec_digits(int_part) + seq!['.'] + frac_chars(frac)
}

/// How one character is written inside a JSON string: quote and backslash
/// get a backslash escape, the named control characters their short
/// escapes, any other control character a four-digit hexadecimal escape,
/// and everything else stands for itself.
pub open spec fn esc_char(c: char) -> Seq<char> {
    if c == '"' {
        seq!['\\', '"']
    } else if c == '\\' {
        seq!['\\', '\\']
    } else if c == '\u{8}' {
        seq!['\\', 'b']
    } else if c == '\t' {
        seq!['\\', 't']
    } else if c == '\n' {
        seq!['\\', 'n']
    } else if c == '\u{c}' {
        seq!['\\', 'f']
    } else if c == '\r' {
        seq!['\\', 'r']
    } else if (c as u32) < 32 {
        seq!['\\', 'u', '0', '0', hex_char(((c as u32) / 16) as nat), hex_char(((c as u32) % 16) as nat)]
    } else {
        seq![c]
    }
}

/// The escaped body of a JSON string (without the surrounding quotes).
pub open spec fn str_text(s: Seq<char>) -> Seq<char>
    decreases s,
{
    if s.len() == 0 {
        Seq::empty()
    } else {
        str_text(s.drop_last()) + esc_char(s.last())
    }
}

/// The canonical text of a JSON value: no whitespace, object members in
/// the order they are held, strings escaped as `esc_char` says.
pub open spec fn text_of(v: JsonV) -> Seq<char>
    decreases v, 0int,
{
    match v {
        JsonV::Null => "null"@,
        JsonV::Bool(b) => if b {
            "true"@
        } else {
            "false"@
        },
        JsonV::Int(i) => int_text(i),
        JsonV::Flt { neg, int_part, frac } => flt_text(neg, int_part, frac),
        JsonV::Str(s) => seq!['"'] + str_text(s) + seq!['"'],
        JsonV::Arr(items) => seq!['['] + items_text(items, items.len() as int) + seq![']'],
        JsonV::Obj(members) => seq!['{'] + members_text(members, members.len() as int)
            + seq!['}'],
    }
}

/// The text of the first `k` array elements, each followed by a comma
/// except the last element of the whole array.
pub open spec fn items_text(items: Seq<JsonV>, k: int) -> Seq<char>
    decreases items, k,
{
    if k <= 0 {
        Seq::empty()
    } else if k > items.len() {
        Seq::empty()
    } else {
        items_text(items, k - 1) + text_of(items[k - 1]) + (if k < items.len() {
            seq![',']
        } else {
            Seq::empty()
        })
    }
}

/// The text of the first `k` object members, each followed by a comma
/// except the last member of the whole object.
pub open spec fn members_text(members: Seq<(Seq<char>, JsonV)>, k: int) -> Seq<char>
    decreases members, k,
{
    if k <= 0 {
        Seq::empty()
    } else if k > members.len() {
        Seq::empty()
    } else {
        members_text(members, k - 1) + seq!['"'] + str_text(members[k - 1].0) + seq!['"', ':']
            + text_of(members[k - 1].1) + (if k < members.len() {
            seq![',']
        } else {
            Seq::empty()
        })
    }
}

fn digit_to_char(d: u8) -> (c: char)
    ensures
        c == digit_char(d as nat),
{
    if d == 0 {
        '0'
    } else if d == 1 {
        '1'
    } else if d == 2 {
        '2'
    } else if d == 3 {
        '3'
    } else if d == 4 {
        '4'
    } else if d == 5 {
        '5'
    } else if d == 6 {
        '6'
    } else if d == 7 {
        '7'
    } else if d == 8 {
        '8'
    } else {
        '9'
    }
}

fn hex_to_char(d: u8) -> (c: char)
    ensures
        c == hex_char(d as nat),
{
    if d < 10 {
        digit_to_char(d)
    } else if d == 10 {
        'a'
    } else if d == 11 {
        'b'
    } else if d == 12 {
        'c'
    } else if d == 13 {
        'd'
    } else if d == 14 {
        'e'
    } else {
        'f'
    }
}

fn write_u64(n: u64, out: &mut String)
    ensures
        final(out)@ == old(out)@ + dec_digits(n as nat),
    decreases n,
{
    if n < 10 {
        push_char(out, digit_to_char(n as u8));
    } else {
        write_u64(n / 10, out);
        push_char(out, digit_to_char((n % 10) as u8));
    }
}

fn write_i64(i: i64, out: &mut String)
    ensures
        final(out)@ == old(out)@ + int_text(i as int),
{
    if i < 0 {
        push_char(out, '-');
        let m: u64 = (-(i as i128)) as u64;
        write_u64(m, out);
        proof {
            assert(old(out)@ + seq!['-'] + dec_digits(m as nat) =~= old(out)@ + int_text(
                i as int,
            ));
        }
    } else {
        write_u64(i as u64, out);
    }
}

fn write_escaped(s: &str, out: &mut String)
    ensures
        final(out)@ == old(out)@ + str_text(s@),
{
    let len = s.unicode_len();
    let mut i: usize = 0;
    while i < len
        invariant
            len == s@.len(),
            i <= len,
            out@ == old(out)@ + str_text(s@.take(i as int)),
        decreases len - i,
    {
        let c = s.get_char(i);
        if c == '"' {
            push_char(out, '\\');
            push_char(out, '"');
        } else if c == '\\' {
            push_char(out, '\\');
            push_char(out, '\\');
        } else if c == '\u{8}' {
            push_char(out, '\\');
            push_char(out, 'b');
        } else if c == '\t' {
            push_char(out, '\\');
            push_char(out, 't');
        } else if c == '\n' {
            push_char(out, '\\');
            push_char(out, 'n');
        } else if c == '\u{c}' {
            push_char(out, '\\');
            push_char(out, 'f');
        } else if c == '\r' {
            push_char(out, '\\');
            push_char(out, 'r');
        } else if (c as u32) < 32 {
            push_char(out, '\\');
            push_char(out, 'u');
            push_char(out, '0');
            push_char(out, '0');
            let cv: u32 = c as u32;
            push_char(out, hex_to_char((cv / 16) as u8));
            push_char(out, hex_to_char((cv % 16) as u8));
        } else {
            push_char(out, c);
        }
        proof {
            assert(s@.take(i + 1 as int).drop_last() =~= s@.take(i as int));
            assert(s@.take(i + 1 as int).last() == s@[i as int]);
            assert(out@ =~= old(out)@ + str_text(s@.take(i + 1 as int)));
        }
        i += 1;
    }
    proof {
        assert(s@.take(len as int) =~= s@);
    }
}

#[verifier::loop_isolation(false)]
fn write_json(j: &Json, out: &mut String)
    ensures
        final(out)@ == old(out)@ + text_of(j@),
    decreases j,
{
    match j {
        Json::Null => {
            out.append("null");
            proof {
                reveal_strlit("null");
            }
        },
        Json::Bool(b) => {
            if *b {
                out.append("true");
            } else {
                out.append("false");
            }
            proof {
                reveal_strlit("true");
                reveal_strlit("false");
            }
        },
        Json::Int(i) => {
            write_i64(*i, out);
        },
        Json::Flt { neg, int_part, frac } => {
            if *neg {
                push_char(out, '-');
            }
            write_u64(*int_part, out);
            push_char(out, '.');
            let ghost mid = out@;
            let mut k: usize = 0;
            while k < frac.len()
                invariant
                    k <= frac.len(),
                    out@ == mid + frac_chars(frac@.take(k as int)),
                decreases frac.len() - k,
            {
                push_char(out, digit_to_char(frac[k]));
                proof {
                    assert(frac@.take(k + 1 as int).drop_last() =~= frac@.take(k as int));
                    assert(out@ =~= mid + frac_chars(frac@.take(k + 1 as int)));
                }
                k += 1;
            }
            proof {
                assert(frac@.take(frac@.len() as int) =~= frac@);
                assert(out@ =~= old(out)@ + flt_text(*neg, *int_part as nat, frac@));
            }
        },
        Json::Str(s) => {
            push_char(out, '"');
            write_escaped(s.as_str(), out);
            push_char(out, '"');
            proof {
                assert(out@ =~= old(out)@ + (seq!['"'] + str_text(s@) + seq!['"']));
            }
        },
        Json::Arr(items) => {
            push_char(out, '[');
            let ghost start = out@;
            let ghost vitems = jview_items(items@);
            proof {
                lemma_jview_items_len(items@);
            }
            let n = items.len();
            let mut k: usize = 0;
            while k < n
                invariant
                    n == items@.len(),
                    vitems == jview_items(items@),
                    vitems.len() == n,
                    k <= n,
                    out@ == start + items_text(vitems, k as int),
                decreases n - k,
            {
                proof {
                    assert(*j == Json::Arr(*items));
                    assert(j->Arr_0 == *items);
                    assert(0 <= (k as int) && (k as int) < j->Arr_0@.len());
                    assert(decreases_to!(*j => j->Arr_0));
                    assert(decreases_to!(j->Arr_0 => j->Arr_0@));
                    assert(decreases_to!(j->Arr_0@ => j->Arr_0@[k as int]));
                    assert(items@[k as int] == j->Arr_0@[k as int]);
                }
                write_json(&items[k], out);
                proof {
                    lemma_jview_items_index(items@, k as int);
                }
                if k + 1 < n {
                    push_char(out, ',');
                }
                proof {
                    assert(out@ =~= start + items_text(vitems, k + 1 as int));
                }
                k += 1;
            }
            push_char(out, ']');
            proof {
                assert(out@ =~= old(out)@ + text_of(j@));
            }
        },
        Json::Obj(members) => {
            push_char(out, '{');
            let ghost start = out@;
            let ghost vmembers = jview_members(members@);
            proof {
                lemma_jview_members_len(members@);
            }
            let n = members.len();
            let mut k: usize = 0;
            while k < n
                invariant
                    n == members@.len(),
                    vmembers == jview_members(members@),
                    vmembers.len() == n,
                    k <= n,
                    out@ == start + members_text(vmembers, k as int),
                decreases n - k,
            {
                push_char(out, '"');
                write_escaped(members[k].0.as_str(), out);
                push_char(out, '"');
                push_char(out, ':');
                proof {
                    assert(*j == Json::Obj(*members));
                    assert(j->Obj_0 == *members);
                    assert(0 <= (k as int) && (k as int) < j->Obj_0@.len());
                    assert(decreases_to!(*j => j->Obj_0));
                    assert(decreases_to!(j->Obj_0 => j->Obj_0@));
                    assert(decreases_to!(j->Obj_0@ => j->Obj_0@[k as int]));
                    assert(decreases_to!(j->Obj_0@[k as int] => j->Obj_0@[k as int].1));
                    assert(members@[k as int].1 == j->Obj_0@[k as int].1);
                }
                write_json(&members[k].1, out);
                proof {
                    lemma_jview_members_index(members@, k as int);
                }
                if k + 1 < n {
                    push_char(out, ',');
                }
                proof {
                    assert(out@ =~= start + members_text(vmembers, k + 1 as int));
                }
                k += 1;
            }
            push_char(out, '}');
            proof {
                assert(out@ =~= old(out)@ + text_of(j@));
            }
        },
    }
}

impl Json {
    /// Print this value as canonical JSON text.
    pub fn to_text(&self) -> (r: String)
        ensures
            r@ == text_of(self@),
    {
        let mut out = String::new();
        write_json(self, &mut out);
        out
    }
}

} // verus!
