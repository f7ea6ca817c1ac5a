//! JSON-shaped values, and the text forms the inspection writes into them.

use vstd::prelude::*;
use vstd::utf8::{decode_utf8, valid_utf8};

use crate::text::{push_char, utf8_string};

verus! {

/// A JSON value. An object lists its entries in the order they were added;
/// a later entry with the same key replaces an earlier one.
#[derive(Debug)]
pub enum JsonValue {
    Null,
    Bool(bool),
    Int(i64),
    UInt(u64),
    /// A real number, as the bits of its `f32`.
    Real(u32),
    Str(String),
    Array(Vec<JsonValue>),
    Object(Vec<(String, JsonValue)>),
}

/// A JSON value as mathematical values.
pub enum JsonModel {
    Null,
    Bool(bool),
    Int(i64),
    UInt(u64),
    Real(u32),
    Str(Seq<char>),
    Array(Seq<JsonModel>),
    Object(Seq<(Seq<char>, JsonModel)>),
}

/// The model of `v`.
pub open spec fn json_view(v: JsonValue) -> JsonModel
    decreases v,
{
    match v {
        JsonValue::Null => JsonModel::Null,
        JsonValue::Bool(b) => JsonModel::Bool(b),
        JsonValue::Int(i) => JsonModel::Int(i),
        JsonValue::UInt(u) => JsonModel::UInt(u),
        JsonValue::Real(r) => JsonModel::Real(r),
        JsonValue::Str(s) => JsonModel::Str(s@),
        JsonValue::Array(a) => JsonModel::Array(json_views(a@)),
        JsonValue::Object(es) => JsonModel::Object(json_entry_views(es@)),
    }
}

/// The models of a list of values.
pub open spec fn json_views(s: Seq<JsonValue>) -> Seq<JsonModel>
    decreases s,
{
    if s.len() == 0 {
        Seq::empty()
    } else {
        seq![json_view(s[0])] + json_views(s.subrange(1, s.len() as int))
    }
}

/// The models of a list of object entries.
pub open spec fn json_entry_views(s: Seq<(String, JsonValue)>) -> Seq<(Seq<char>, JsonModel)>
    decreases s,
{
    if s.len() == 0 {
        Seq::empty()
    } else {
        seq![(s[0].0@, json_view(s[0].1))] + json_entry_views(s.subrange(1, s.len() as int))
    }
}

/// Pushing onto a list of values pushes onto its models.
pub proof fn lemma_json_views_push(s: Seq<JsonValue>, v: JsonValue)
    ensures
        json_views(s.push(v)) == json_views(s).push(json_view(v)),
    decreases s.len(),
{
    let t = s.push(v);
    if s.len() == 0 {
        assert(t.subrange(1, 1) =~= Seq::<JsonValue>::empty());
        assert(json_views(Seq::<JsonValue>::empty()) == Seq::<JsonModel>::empty());
        assert(t[0] == v);
        assert(json_views(t) =~= json_views(s).push(json_view(v)));
    } else {
        let tail = s.subrange(1, s.len() as int);
        assert(t.subrange(1, s.len() as int + 1) =~= tail.push(v));
        lemma_json_views_push(tail, v);
        assert(t[0] == s[0]);
        assert(json_views(t) == seq![json_view(s[0])] + json_views(tail.push(v)));
        assert(json_views(s) == seq![json_view(s[0])] + json_views(tail));
        assert(json_views(t) =~= json_views(s).push(json_view(v)));
    }
}

/// Pushing onto a list of entries pushes onto its models.
pub proof fn lemma_json_entries_push(s: Seq<(String, JsonValue)>, k: String, v: JsonValue)
    ensures
        json_entry_views(s.push((k, v))) == json_entry_views(s).push((k@, json_view(v))),
    decreases s.len(),
{
    let t = s.push((k, v));
    if s.len() == 0 {
        assert(t.subrange(1, 1) =~= Seq::<(String, JsonValue)>::empty());
        assert(json_entry_views(Seq::<(String, JsonValue)>::empty()) == Seq::<(Seq<char>, JsonModel)>::empty());
        assert(t[0] == (k, v));
        assert(json_entry_views(t) =~= json_entry_views(s).push((k@, json_view(v))));
    } else {
        let tail = s.subrange(1, s.len() as int);
        assert(t.subrange(1, s.len() as int + 1) =~= tail.push((k, v)));
        lemma_json_entries_push(tail, k, v);
        assert(t[0] == s[0]);
        assert(json_entry_views(t) == seq![(s[0].0@, json_view(s[0].1))] + json_entry_views(tail.push((k, v))));
        assert(json_entry_views(s) == seq![(s[0].0@, json_view(s[0].1))] + json_entry_views(tail));
        assert(json_entry_views(t) =~= json_entry_views(s).push((k@, json_view(v))));
    }
}

// --- text --------------------------------------------------------------------

/// The decimal digits of `n`.
pub open spec fn spec_decimal(n: nat) -> Seq<char>
    decreases n,
{
    if n < 10 {
        seq![digit_char(n)]
    } else {
        spec_decimal(n / 10).push(digit_char(n % 10))
    }
}

/// The character of the digit `d`.
pub open spec fn digit_char(d: nat) -> char {
    if d == 0 {
        '0'
    } else if d == 1 {
        '1'
    } else if d == 2 {
        '2'
    } else if d == 3 {
        '3'
    } else if d == 4 {
        '4'
    } else if d == 5 {
        '5'
    } else if d == 6 {
        '6'
    } else if d == 7 {
        '7'
    } else if d == 8 {
        '8'
    } else {
        '9'
    }
}

fn digit(d: u64) -> (c: char)
    requires
        d < 10,
    ensures
        c == digit_char(d as nat),
{
    if d == 0 {
        '0'
    } else if d == 1 {
        '1'
    } else if d == 2 {
        '2'
    } else if d == 3 {
        '3'
    } else if d == 4 {
        '4'
    } else if d == 5 {
        '5'
    } else if d == 6 {
        '6'
    } else if d == 7 {
        '7'
    } else if d == 8 {
        '8'
    } else {
        '9'
    }
}

/// Append the decimal digits of `n` to `out`.
pub fn push_decimal(out: &mut String, n: u64)
    ensures
        final(out)@ == old(out)@ + spec_decimal(n as nat),
    decreases n,
{
    if n < 10 {
        push_char(out, digit(n));
    } else {
        push_decimal(out, n / 10);
        push_char(out, digit(n % 10));
        assert(spec_decimal(n as nat) == spec_decimal((n / 10) as nat).push(digit_char((n % 10) as nat)));
    }
}

/// Append the characters of `s` to `out`.
pub fn push_str(out: &mut String, s: &str)
    ensures
        final(out)@ == old(out)@ + s@,
{
    let ghost start = out@;
    let ghost t = s@;
    for ch in it: s.chars()
        invariant
            t == s@,
            it.seq() == t,
            it.index() <= t.len(),
            out@ == start + t.take(it.index() as int),
    {
        let ghost n = it.index() as int;
        assert(t.take(n + 1) =~= t.take(n).push(ch));
        push_char(out, ch);
    }
    assert(t.take(t.len() as int) =~= t);
}

/// A name as the inspection writes it: `/` and its UTF-8 text, `/?` when
/// the bytes are not UTF-8.
pub open spec fn spec_name_text(b: Seq<u8>) -> Seq<char> {
    seq!['/'] + if valid_utf8(b) {
        decode_utf8(b)
    } else {
        seq!['?']
    }
}

/// A name as the inspection writes it.
pub fn name_text(b: &[u8]) -> (r: String)
    ensures
        r@ == spec_name_text(b@),
{
    let mut out = String::new();
    push_char(&mut out, '/');
    match utf8_string(b) {
        Some(s) => push_str(&mut out, s.as_str()),
        None => push_char(&mut out, '?'),
    }
    out
}

/// The bytes of `b` read as Latin-1: each byte the character of that code.
pub open spec fn spec_latin1(b: Seq<u8>) -> Seq<char> {
    Seq::new(b.len(), |i: int| b[i] as char)
}

/// A PDF string as text: its UTF-8 reading, or Latin-1 when it is not UTF-8.
pub open spec fn spec_string_text(b: Seq<u8>) -> Seq<char> {
    if valid_utf8(b) {
        decode_utf8(b)
    } else {
        spec_latin1(b)
    }
}

/// A PDF string as text.
pub fn string_text(b: &[u8]) -> (r: String)
    ensures
        r@ == spec_string_text(b@),
{
    match utf8_string(b) {
        Some(s) => s,
        None => {
            let mut out = String::new();
            let mut i: usize = 0;
            while i < b.len()
                invariant
                    i <= b@.len(),
                    out@ == spec_latin1(b@.take(i as int)),
                decreases b.len() - i,
            {
                push_char(&mut out, b[i] as char);
                assert(out@ =~= spec_latin1(b@.take(i + 1)));
                i = i + 1;
            }
            assert(b@.take(i as int) =~= b@);
            out
        },
    }
}

/// A reference as the inspection writes it: `N G R`.
pub open spec fn spec_reference_text(n: u32, g: u16) -> Seq<char> {
    spec_decimal(n as nat) + seq![' '] + spec_decimal(g as nat) + seq![' ', 'R']
}

/// A reference as the inspection writes it.
pub fn reference_text(n: u32, g: u16) -> (r: String)
    ensures
        r@ == spec_reference_text(n, g),
{
    let mut out = String::new();
    push_decimal(&mut out, n as u64);
    push_char(&mut out, ' ');
    push_decimal(&mut out, g as u64);
    push_char(&mut out, ' ');
    push_char(&mut out, 'R');
    assert(out@ =~= spec_reference_text(n, g));
    out
}

} // verus!
