//! PDF object enumeration and serialization to JSON-shaped values.

use vstd::prelude::*;

use crate::text::push_char;
use super::pdf::{
    catalog, dict_get, get_object, load_pdf, spec_catalog, spec_dict_get, spec_get_object,
    spec_load_pdf, ids_ascending, id_lt, PdfDict, PdfDocument, PdfObject, PdfStream,
};
use super::json::{
    json_entry_views, json_view, json_views, lemma_json_entries_push, lemma_json_views_push,
    name_text, push_decimal, push_str, reference_text, spec_decimal, spec_name_text,
    spec_reference_text, spec_string_text, string_text, JsonModel, JsonValue,
};

verus! {

/// The kind of a PDF object.
#[derive(Debug, Clone, Copy, PartialEq, Eq, Structural)]
pub enum ObjectKind {
    Dictionary,
    Stream,
    Array,
    Name,
    String,
    Integer,
    Real,
    Boolean,
    Null,
    Reference,
}

/// The label of `k`.
pub open spec fn spec_kind_str(k: ObjectKind) -> Seq<char> {
    match k {
        ObjectKind::Dictionary => "Dictionary"@,
        ObjectKind::Stream => "Stream"@,
        ObjectKind::Array => "Array"@,
        ObjectKind::Name => "Name"@,
        ObjectKind::String => "String"@,
        ObjectKind::Integer => "Integer"@,
        ObjectKind::Real => "Real"@,
        ObjectKind::Boolean => "Boolean"@,
        ObjectKind::Null => "Null"@,
        ObjectKind::Reference => "Reference"@,
    }
}

impl ObjectKind {
    /// Return the kind as a string label.
    pub fn as_str(&self) -> (r: &'static str)
        ensures
            r@ == spec_kind_str(*self),
    {
        match self {
            ObjectKind::Dictionary => "Dictionary",
            ObjectKind::Stream => "Stream",
            ObjectKind::Array => "Array",
            ObjectKind::Name => "Name",
            ObjectKind::String => "String",
            ObjectKind::Integer => "Integer",
            ObjectKind::Real => "Real",
            ObjectKind::Boolean => "Boolean",
            ObjectKind::Null => "Null",
            ObjectKind::Reference => "Reference",
        }
    }
}

/// Which class of failure an inspection reports.
pub enum InspectFault {
    PdfParse,
}

/// Errors from inspecting a PDF.
#[derive(Debug)]
pub enum InspectError {
    /// lopdf could not load the document, or it has no catalog.
    PdfParse(String),
}

impl InspectError {
    /// The class of this error.
    pub open spec fn fault(&self) -> InspectFault {
        match self {
            InspectError::PdfParse(_) => InspectFault::PdfParse,
        }
    }
}

// --- serialization: specification --------------------------------------------

/// What stands in for a value nested too deep to write out.
pub open spec fn deep_json() -> JsonModel {
    JsonModel::Str("<nested too deep>"@)
}

/// The `/Length` of a stream dictionary as lopdf's `as_i64` gives it, cast
/// to `usize`.
pub open spec fn spec_stream_length(d: PdfDict) -> Option<usize> {
    match spec_dict_get(d, seq![0x4Cu8, 0x65, 0x6E, 0x67, 0x74, 0x68]) {
        Some(PdfObject::Integer(n)) => Some(n as usize),
        _ => None,
    }
}

/// The JSON of the length of a stream.
pub open spec fn stream_length_json(d: PdfDict) -> JsonModel {
    match spec_stream_length(d) {
        Some(n) => JsonModel::UInt(n as u64),
        None => JsonModel::Null,
    }
}

/// The JSON of a stream whose dictionary serialized to `dj`: the stream
/// markers are added when it is an object.
pub open spec fn with_stream_markers(dj: JsonModel, d: PdfDict) -> JsonModel {
    match dj {
        JsonModel::Object(es) => JsonModel::Object(
            es + seq![
                ("__stream__"@, JsonModel::Bool(true)),
                ("__stream_length__"@, stream_length_json(d)),
            ],
        ),
        other => other,
    }
}

/// A value at nesting `depth`, containers cut after `max` items.
pub open spec fn spec_value_json(val: PdfObject, depth: int, max: int) -> JsonModel
    decreases val, 0int,
{
    if depth > 6 {
        deep_json()
    } else {
        match val {
            PdfObject::Reference(n, g) => JsonModel::Str(spec_reference_text(n, g)),
            PdfObject::Dictionary(d) => spec_dict_json(d, depth, max),
            PdfObject::Stream(s) => with_stream_markers(spec_dict_json(s.dict, depth, max), s.dict),
            PdfObject::Array(a) => spec_array_json(a@, depth, max),
            PdfObject::Name(n) => JsonModel::Str(spec_name_text(n@)),
            PdfObject::Str(b) => JsonModel::Str(spec_string_text(b@)),
            PdfObject::Integer(i) => JsonModel::Int(i),
            PdfObject::Real(r) => JsonModel::Real(r),
            PdfObject::Boolean(b) => JsonModel::Bool(b),
            PdfObject::Null => JsonModel::Null,
        }
    }
}

/// The entries of a dictionary, each key as a name and each value one level
/// deeper.
pub open spec fn spec_entries_json(es: Seq<(Vec<u8>, PdfObject)>, depth: int, max: int) -> Seq<
    (Seq<char>, JsonModel),
>
    decreases es, 0int,
{
    if es.len() == 0 {
        Seq::empty()
    } else {
        seq![(spec_name_text(es[0].0@), spec_value_json(es[0].1, depth + 1, max))]
            + spec_entries_json(es.subrange(1, es.len() as int), depth, max)
    }
}

/// A dictionary: its first `max` entries, and a `__truncated__` entry
/// counting the rest.
pub open spec fn spec_dict_json(d: PdfDict, depth: int, max: int) -> JsonModel
    decreases d, 1int,
{
    if depth > 6 {
        deep_json()
    } else {
        let n = d.entries@.len();
        let es = spec_entries_json(d.entries@, depth, max);
        JsonModel::Object(
            if n > max {
                es.take(max).push(
                    (
                        "__truncated__"@,
                        JsonModel::Str(spec_decimal((n - max) as nat) + " more keys"@),
                    ),
                )
            } else {
                es
            },
        )
    }
}

/// The items of an array, each one level deeper.
pub open spec fn spec_items_json(a: Seq<PdfObject>, depth: int, max: int) -> Seq<JsonModel>
    decreases a, 0int,
{
    if a.len() == 0 {
        Seq::empty()
    } else {
        seq![spec_value_json(a[0], depth + 1, max)] + spec_items_json(
            a.subrange(1, a.len() as int),
            depth,
            max,
        )
    }
}

/// An array: its first `max` items, and an item counting the rest.
pub open spec fn spec_array_json(a: Seq<PdfObject>, depth: int, max: int) -> JsonModel
    decreases a, 1int,
{
    if depth > 6 {
        deep_json()
    } else {
        let n = a.len();
        let items = spec_items_json(a, depth, max);
        JsonModel::Array(
            if n > max {
                items.take(max).push(
                    JsonModel::Str(seq!['<'] + spec_decimal((n - max) as nat) + " more items>"@),
                )
            } else {
                items
            },
        )
    }
}

proof fn lemma_entries_json(es: Seq<(Vec<u8>, PdfObject)>, depth: int, max: int)
    ensures
        spec_entries_json(es, depth, max).len() == es.len(),
        forall|i: int|
            0 <= i < es.len() ==> #[trigger] spec_entries_json(es, depth, max)[i] == (
                spec_name_text(es[i].0@),
                spec_value_json(es[i].1, depth + 1, max),
            ),
    decreases es.len(),
{
    if es.len() > 0 {
        let t = es.subrange(1, es.len() as int);
        lemma_entries_json(t, depth, max);
        assert forall|i: int| 0 <= i < es.len() implies #[trigger] spec_entries_json(
            es,
            depth,
            max,
        )[i] == (spec_name_text(es[i].0@), spec_value_json(es[i].1, depth + 1, max)) by {
            if i > 0 {
                assert(t[i - 1] == es[i]);
            }
        }
    }
}

proof fn lemma_items_json(a: Seq<PdfObject>, depth: int, max: int)
    ensures
        spec_items_json(a, depth, max).len() == a.len(),
        forall|i: int|
            0 <= i < a.len() ==> #[trigger] spec_items_json(a, depth, max)[i] == spec_value_json(
                a[i],
                depth + 1,
                max,
            ),
    decreases a.len(),
{
    if a.len() > 0 {
        let t = a.subrange(1, a.len() as int);
        lemma_items_json(t, depth, max);
        assert forall|i: int| 0 <= i < a.len() implies #[trigger] spec_items_json(a, depth, max)[i]
            == spec_value_json(a[i], depth + 1, max) by {
            if i > 0 {
                assert(t[i - 1] == a[i]);
            }
        }
    }
}

// --- serialization: executable -------------------------------------------------

fn owned(s: &str) -> (r: String)
    ensures
        r@ == s@,
{
    String::from_str(s)
}

fn deep_value() -> (r: JsonValue)
    ensures
        json_view(r) == deep_json(),
{
    JsonValue::Str(owned("<nested too deep>"))
}

/// The `/Length` of a stream dictionary.
fn stream_length(d: &PdfDict) -> (r: Option<usize>)
    ensures
        r == spec_stream_length(*d),
{
    let key: [u8; 6] = [0x4C, 0x65, 0x6E, 0x67, 0x74, 0x68];
    assert(key@ =~= seq![0x4Cu8, 0x65, 0x6E, 0x67, 0x74, 0x68]);
    match dict_get(d, key.as_slice()) {
        Some(PdfObject::Integer(n)) => Some(*n as usize),
        _ => None,
    }
}

/// Add the stream markers to the JSON of a stream dictionary.
fn add_stream_markers(dj: JsonValue, d: &PdfDict) -> (r: JsonValue)
    ensures
        json_view(r) == with_stream_markers(json_view(dj), *d),
{
    match dj {
        JsonValue::Object(mut es) => {
            let len = match stream_length(d) {
                Some(n) => JsonValue::UInt(n as u64),
                None => JsonValue::Null,
            };
            let ghost before = es@;
            let k1 = owned("__stream__");
            proof {
                lemma_json_entries_push(before, k1, JsonValue::Bool(true));
            }
            es.push((k1, JsonValue::Bool(true)));
            let ghost mid = es@;
            let k2 = owned("__stream_length__");
            proof {
                lemma_json_entries_push(mid, k2, len);
            }
            es.push((k2, len));
            proof {
                assert(json_entry_views(es@) =~= json_entry_views(before) + seq![
                    ("__stream__"@, JsonModel::Bool(true)),
                    ("__stream_length__"@, stream_length_json(*d)),
                ]);
            }
            JsonValue::Object(es)
        },
        other => other,
    }
}

/// Serialize a dictionary.
pub fn serialize_dict(d: &PdfDict, depth: usize, max_items: usize) -> (r: JsonValue)
    ensures
        json_view(r) == spec_dict_json(*d, depth as int, max_items as int),
    decreases *d, 1int,
{
    if depth > 6 {
        return deep_value();
    }
    let ghost es = d.entries@;
    proof {
        lemma_entries_json(es, depth as int, max_items as int);
    }
    let ghost full = spec_entries_json(es, depth as int, max_items as int);
    let n = d.entries.len();
    let mut map: Vec<(String, JsonValue)> = Vec::new();
    let mut i: usize = 0;
    assert(full.take(0) =~= Seq::<(Seq<char>, JsonModel)>::empty());
    while i < n && i < max_items
        invariant
            depth <= 6,
            n == es.len(),
            es == d.entries@,
            i <= n,
            i <= max_items,
            full == spec_entries_json(es, depth as int, max_items as int),
            full.len() == es.len(),
            forall|k: int|
                0 <= k < es.len() ==> #[trigger] full[k] == (
                    spec_name_text(es[k].0@),
                    spec_value_json(es[k].1, depth + 1, max_items as int),
                ),
            json_entry_views(map@) == full.take(i as int),
        decreases n - i,
    {
        let key = name_text(d.entries[i].0.as_slice());
        proof {
            assert(decreases_to!(*d => d.entries));
            assert(decreases_to!(d.entries => d.entries@));
            assert(decreases_to!(d.entries@ => d.entries@[i as int]));
            assert(decreases_to!(d.entries@[i as int] => d.entries@[i as int].1));
        }
        let value = serialize_value(&d.entries[i].1, depth + 1, max_items);
        proof {
            lemma_json_entries_push(map@, key, value);
            assert(full.take(i + 1) =~= full.take(i as int).push(full[i as int]));
        }
        map.push((key, value));
        i = i + 1;
    }
    if n > max_items {
        let mut note = String::new();
        push_decimal(&mut note, (n - max_items) as u64);
        push_str(&mut note, " more keys");
        let k = owned("__truncated__");
        let v = JsonValue::Str(note);
        proof {
            lemma_json_entries_push(map@, k, v);
        }
        map.push((k, v));
    } else {
        assert(full.take(i as int) =~= full);
    }
    JsonValue::Object(map)
}

/// Serialize an array.
pub fn serialize_array(arr: &Vec<PdfObject>, depth: usize, max_items: usize) -> (r: JsonValue)
    ensures
        json_view(r) == spec_array_json(arr@, depth as int, max_items as int),
    decreases arr@, 1int,
{
    if depth > 6 {
        return deep_value();
    }
    let ghost a = arr@;
    proof {
        lemma_items_json(a, depth as int, max_items as int);
    }
    let ghost full = spec_items_json(a, depth as int, max_items as int);
    let n = arr.len();
    let mut items: Vec<JsonValue> = Vec::new();
    let mut i: usize = 0;
    assert(full.take(0) =~= Seq::<JsonModel>::empty());
    while i < n && i < max_items
        invariant
            depth <= 6,
            n == a.len(),
            a == arr@,
            i <= n,
            i <= max_items,
            full == spec_items_json(a, depth as int, max_items as int),
            full.len() == a.len(),
            forall|k: int|
                0 <= k < a.len() ==> #[trigger] full[k] == spec_value_json(
                    a[k],
                    depth + 1,
                    max_items as int,
                ),
            json_views(items@) == full.take(i as int),
        decreases n - i,
    {
        proof {
            assert(decreases_to!(arr@ => arr@[i as int]));
        }
        let value = serialize_value(&arr[i], depth + 1, max_items);
        proof {
            lemma_json_views_push(items@, value);
            assert(full.take(i + 1) =~= full.take(i as int).push(full[i as int]));
        }
        items.push(value);
        i = i + 1;
    }
    if n > max_items {
        let mut note = String::new();
        push_char(&mut note, '<');
        push_decimal(&mut note, (n - max_items) as u64);
        push_str(&mut note, " more items>");
        let v = JsonValue::Str(note);
        proof {
            lemma_json_views_push(items@, v);
            assert(note@ =~= seq!['<'] + spec_decimal((n - max_items) as nat) + " more items>"@);
        }
        items.push(v);
    } else {
        assert(full.take(i as int) =~= full);
    }
    JsonValue::Array(items)
}

/// Serialize any object.
pub fn serialize_value(val: &PdfObject, depth: usize, max_items: usize) -> (r: JsonValue)
    ensures
        json_view(r) == spec_value_json(*val, depth as int, max_items as int),
    decreases *val, 0int,
{
    if depth > 6 {
        return deep_value();
    }
    match val {
        PdfObject::Reference(n, g) => JsonValue::Str(reference_text(*n, *g)),
        PdfObject::Dictionary(d) => serialize_dict(d, depth, max_items),
        PdfObject::Stream(s) => {
            let dj = serialize_dict(&s.dict, depth, max_items);
            add_stream_markers(dj, &s.dict)
        },
        PdfObject::Array(a) => serialize_array(a, depth, max_items),
        PdfObject::Name(n) => JsonValue::Str(name_text(n.as_slice())),
        PdfObject::Str(b) => JsonValue::Str(string_text(b.as_slice())),
        PdfObject::Integer(i) => JsonValue::Int(*i),
        PdfObject::Real(r) => JsonValue::Real(*r),
        PdfObject::Boolean(b) => JsonValue::Bool(*b),
        PdfObject::Null => JsonValue::Null,
    }
}

// --- objects -------------------------------------------------------------------

/// Information about a single PDF indirect object.
#[derive(Debug)]
pub struct PdfObjectInfo {
    /// Object number.
    pub obj_num: u32,
    /// Generation number.
    pub gen_num: u16,
    /// The kind of object.
    pub kind: ObjectKind,
    /// The `/Type` entry value (e.g. `/Page`), if present.
    pub type_entry: Option<String>,
    /// The `/Subtype` entry value, if present.
    pub subtype_entry: Option<String>,
    /// Dictionary or stream dictionary keys (e.g. `/Type`, `/MediaBox`).
    pub keys: Vec<String>,
    /// For streams, the `/Length` value.
    pub stream_length: Option<usize>,
    /// The object's contents as JSON.
    pub data: JsonValue,
}

/// An object's information as mathematical values.
pub struct ObjectInfoModel {
    pub obj_num: u32,
    pub gen_num: u16,
    pub kind: ObjectKind,
    pub type_entry: Option<Seq<char>>,
    pub subtype_entry: Option<Seq<char>>,
    pub keys: Seq<Seq<char>>,
    pub stream_length: Option<usize>,
    pub data: JsonModel,
}

pub open spec fn opt_chars(o: Option<String>) -> Option<Seq<char>> {
    match o {
        Some(s) => Some(s@),
        None => None,
    }
}

pub open spec fn string_views(s: Seq<String>) -> Seq<Seq<char>> {
    s.map_values(|x: String| x@)
}

impl View for PdfObjectInfo {
    type V = ObjectInfoModel;

    open spec fn view(&self) -> ObjectInfoModel {
        ObjectInfoModel {
            obj_num: self.obj_num,
            gen_num: self.gen_num,
            kind: self.kind,
            type_entry: opt_chars(self.type_entry),
            subtype_entry: opt_chars(self.subtype_entry),
            keys: string_views(self.keys@),
            stream_length: self.stream_length,
            data: json_view(self.data),
        }
    }
}

/// The key `Type`.
pub open spec fn key_type() -> Seq<u8> {
    seq![0x54u8, 0x79, 0x70, 0x65]
}

/// The key `Subtype`.
pub open spec fn key_subtype() -> Seq<u8> {
    seq![0x53u8, 0x75, 0x62, 0x74, 0x79, 0x70, 0x65]
}

/// The name under `key` in `d`, written as a name.
pub open spec fn spec_name_field(d: PdfDict, key: Seq<u8>) -> Option<Seq<char>> {
    match spec_dict_get(d, key) {
        Some(PdfObject::Name(n)) => Some(spec_name_text(n@)),
        _ => None,
    }
}

/// The keys of `d`, written as names.
pub open spec fn spec_keys(d: PdfDict) -> Seq<Seq<char>> {
    Seq::new(d.entries@.len(), |i: int| spec_name_text(d.entries@[i].0@))
}

/// The kind and JSON of an object that is no container.
pub open spec fn spec_primitive(o: PdfObject) -> (ObjectKind, JsonModel) {
    match o {
        PdfObject::Name(n) => (ObjectKind::Name, JsonModel::Str(spec_name_text(n@))),
        PdfObject::Str(b) => (ObjectKind::String, JsonModel::Str(spec_string_text(b@))),
        PdfObject::Integer(i) => (ObjectKind::Integer, JsonModel::Int(i)),
        PdfObject::Real(r) => (ObjectKind::Real, JsonModel::Real(r)),
        PdfObject::Boolean(b) => (ObjectKind::Boolean, JsonModel::Bool(b)),
        PdfObject::Null => (ObjectKind::Null, JsonModel::Null),
        PdfObject::Reference(n, g) => (ObjectKind::Reference, JsonModel::Str(spec_reference_text(n, g))),
        PdfObject::Dictionary(_) => (ObjectKind::Dictionary, JsonModel::Null),
        PdfObject::Stream(_) => (ObjectKind::Stream, JsonModel::Null),
        PdfObject::Array(_) => (ObjectKind::Array, JsonModel::Null),
    }
}

/// The information of the indirect object `(n, g)`.
pub open spec fn spec_classify(n: u32, g: u16, o: PdfObject) -> ObjectInfoModel {
    match o {
        PdfObject::Dictionary(d) => ObjectInfoModel {
            obj_num: n,
            gen_num: g,
            kind: ObjectKind::Dictionary,
            type_entry: spec_name_field(d, key_type()),
            subtype_entry: spec_name_field(d, key_subtype()),
            keys: spec_keys(d),
            stream_length: None,
            data: spec_dict_json(d, 0, 50),
        },
        PdfObject::Stream(s) => ObjectInfoModel {
            obj_num: n,
            gen_num: g,
            kind: ObjectKind::Stream,
            type_entry: spec_name_field(s.dict, key_type()),
            subtype_entry: spec_name_field(s.dict, key_subtype()),
            keys: spec_keys(s.dict),
            stream_length: spec_stream_length(s.dict),
            data: with_stream_markers(spec_dict_json(s.dict, 0, 50), s.dict),
        },
        PdfObject::Array(a) => ObjectInfoModel {
            obj_num: n,
            gen_num: g,
            kind: ObjectKind::Array,
            type_entry: None,
            subtype_entry: None,
            keys: Seq::empty(),
            stream_length: None,
            data: spec_array_json(a@, 0, 50),
        },
        _ => ObjectInfoModel {
            obj_num: n,
            gen_num: g,
            kind: spec_primitive(o).0,
            type_entry: None,
            subtype_entry: None,
            keys: Seq::empty(),
            stream_length: None,
            data: spec_primitive(o).1,
        },
    }
}

/// The name under `key` in `d`, written as a name.
fn name_field(d: &PdfDict, key: &[u8]) -> (r: Option<String>)
    ensures
        opt_chars(r) == spec_name_field(*d, key@),
{
    match dict_get(d, key) {
        Some(PdfObject::Name(n)) => Some(name_text(n.as_slice())),
        _ => None,
    }
}

/// The keys of `d`, written as names.
fn keys_of(d: &PdfDict) -> (r: Vec<String>)
    ensures
        string_views(r@) == spec_keys(*d),
{
    let mut out: Vec<String> = Vec::new();
    let mut i: usize = 0;
    while i < d.entries.len()
        invariant
            i <= d.entries@.len(),
            string_views(out@) == spec_keys(*d).take(i as int),
        decreases d.entries@.len() - i,
    {
        let k = name_text(d.entries[i].0.as_slice());
        assert(k@ == spec_keys(*d)[i as int]);
        assert(string_views(out@.push(k)) =~= string_views(out@).push(k@));
        assert(spec_keys(*d).take(i + 1) =~= spec_keys(*d).take(i as int).push(spec_keys(*d)[i as int]));
        out.push(k);
        i = i + 1;
    }
    assert(spec_keys(*d).take(i as int) =~= spec_keys(*d));
    out
}

/// Serialize an object that is no container, and give its kind.
fn serialize_primitive(o: &PdfObject) -> (r: (ObjectKind, JsonValue))
    ensures
        r.0 == spec_primitive(*o).0,
        json_view(r.1) == spec_primitive(*o).1,
{
    match o {
        PdfObject::Name(n) => (ObjectKind::Name, JsonValue::Str(name_text(n.as_slice()))),
        PdfObject::Str(b) => (ObjectKind::String, JsonValue::Str(string_text(b.as_slice()))),
        PdfObject::Integer(i) => (ObjectKind::Integer, JsonValue::Int(*i)),
        PdfObject::Real(r) => (ObjectKind::Real, JsonValue::Real(*r)),
        PdfObject::Boolean(b) => (ObjectKind::Boolean, JsonValue::Bool(*b)),
        PdfObject::Null => (ObjectKind::Null, JsonValue::Null),
        PdfObject::Reference(n, g) => (ObjectKind::Reference, JsonValue::Str(reference_text(*n, *g))),
        PdfObject::Dictionary(_) => (ObjectKind::Dictionary, JsonValue::Null),
        PdfObject::Stream(_) => (ObjectKind::Stream, JsonValue::Null),
        PdfObject::Array(_) => (ObjectKind::Array, JsonValue::Null),
    }
}

/// Classify and serialize one indirect object.
fn classify_object(obj_num: u32, gen_num: u16, object: &PdfObject) -> (r: PdfObjectInfo)
    ensures
        r@ == spec_classify(obj_num, gen_num, *object),
{
    let type_key: [u8; 4] = [0x54, 0x79, 0x70, 0x65];
    let subtype_key: [u8; 7] = [0x53, 0x75, 0x62, 0x74, 0x79, 0x70, 0x65];
    assert(type_key@ =~= key_type());
    assert(subtype_key@ =~= key_subtype());
    match object {
        PdfObject::Dictionary(dict) => PdfObjectInfo {
            obj_num,
            gen_num,
            kind: ObjectKind::Dictionary,
            type_entry: name_field(dict, type_key.as_slice()),
            subtype_entry: name_field(dict, subtype_key.as_slice()),
            keys: keys_of(dict),
            stream_length: None,
            data: serialize_dict(dict, 0, 50),
        },
        PdfObject::Stream(stream) => {
            let dict = &stream.dict;
            let data = serialize_dict(dict, 0, 50);
            PdfObjectInfo {
                obj_num,
                gen_num,
                kind: ObjectKind::Stream,
                type_entry: name_field(dict, type_key.as_slice()),
                subtype_entry: name_field(dict, subtype_key.as_slice()),
                keys: keys_of(dict),
                stream_length: stream_length(dict),
                data: add_stream_markers(data, dict),
            }
        },
        PdfObject::Array(arr) => {
            let keys: Vec<String> = Vec::new();
            assert(string_views(keys@) =~= Seq::<Seq<char>>::empty());
            PdfObjectInfo {
                obj_num,
                gen_num,
                kind: ObjectKind::Array,
                type_entry: None,
                subtype_entry: None,
                keys,
                stream_length: None,
                data: serialize_array(arr, 0, 50),
            }
        },
        _ => {
            let (kind, data) = serialize_primitive(object);
            let keys: Vec<String> = Vec::new();
            assert(string_views(keys@) =~= Seq::<Seq<char>>::empty());
            PdfObjectInfo {
                obj_num,
                gen_num,
                kind,
                type_entry: None,
                subtype_entry: None,
                keys,
                stream_length: None,
                data,
            }
        },
    }
}

/// The page count of the document: the `/Count` of the `/Pages` object the
/// catalog refers to, 0 when any of it is missing.
pub open spec fn spec_count_pages(doc: PdfDocument) -> usize {
    match spec_catalog(doc) {
        None => 0,
        Some(c) => match spec_dict_get(c, seq![0x50u8, 0x61, 0x67, 0x65, 0x73]) {
            Some(PdfObject::Reference(n, g)) => match spec_get_object(doc, n, g) {
                Some(PdfObject::Dictionary(pd)) => match spec_dict_get(
                    pd,
                    seq![0x43u8, 0x6F, 0x75, 0x6E, 0x74],
                ) {
                    Some(PdfObject::Integer(k)) => k as usize,
                    _ => 0,
                },
                _ => 0,
            },
            _ => 0,
        },
    }
}

/// Count pages by reading the `/Pages` tree root.
fn count_pages(doc: &PdfDocument) -> (r: usize)
    ensures
        r == spec_count_pages(*doc),
{
    let pages_key: [u8; 5] = [0x50, 0x61, 0x67, 0x65, 0x73];
    let count_key: [u8; 5] = [0x43, 0x6F, 0x75, 0x6E, 0x74];
    assert(pages_key@ =~= seq![0x50u8, 0x61, 0x67, 0x65, 0x73]);
    assert(count_key@ =~= seq![0x43u8, 0x6F, 0x75, 0x6E, 0x74]);
    let cat = match catalog(doc) {
        Some(c) => c,
        None => {
            return 0;
        },
    };
    let (n, g) = match dict_get(cat, pages_key.as_slice()) {
        Some(PdfObject::Reference(n, g)) => (*n, *g),
        _ => {
            return 0;
        },
    };
    let pages = match get_object(doc, n, g) {
        Some(PdfObject::Dictionary(d)) => d,
        _ => {
            return 0;
        },
    };
    match dict_get(pages, count_key.as_slice()) {
        Some(PdfObject::Integer(k)) => *k as usize,
        _ => 0,
    }
}

/// Result of inspecting a PDF's full object tree.
#[derive(Debug)]
pub struct PdfInspection {
    /// PDF version string (e.g. `1.7`).
    pub pdf_version: String,
    /// Number of pages.
    pub num_pages: usize,
    /// Total number of indirect objects.
    pub num_objects: usize,
    /// All indirect objects, in ascending id order.
    pub objects: Vec<PdfObjectInfo>,
    /// The document catalog as JSON.
    pub catalog: JsonValue,
}

/// An inspection as mathematical values.
pub struct InspectionModel {
    pub pdf_version: Seq<char>,
    pub num_pages: usize,
    pub num_objects: usize,
    pub objects: Seq<ObjectInfoModel>,
    pub catalog: JsonModel,
}

pub open spec fn info_views(s: Seq<PdfObjectInfo>) -> Seq<ObjectInfoModel> {
    s.map_values(|x: PdfObjectInfo| x@)
}

impl View for PdfInspection {
    type V = InspectionModel;

    open spec fn view(&self) -> InspectionModel {
        InspectionModel {
            pdf_version: self.pdf_version@,
            num_pages: self.num_pages,
            num_objects: self.num_objects,
            objects: info_views(self.objects@),
            catalog: json_view(self.catalog),
        }
    }
}

/// The inspection of the document `doc`.
pub open spec fn spec_inspection(doc: PdfDocument) -> InspectionModel {
    let objs = doc.objects@;
    InspectionModel {
        pdf_version: doc.version@,
        num_pages: spec_count_pages(doc),
        num_objects: objs.len() as usize,
        objects: Seq::new(objs.len(), |i: int| spec_classify(objs[i].0, objs[i].1, objs[i].2)),
        catalog: match spec_catalog(doc) {
            Some(c) => spec_dict_json(c, 0, 50),
            None => JsonModel::Null,
        },
    }
}

/// The inspection of the PDF `data`; refused when lopdf cannot load it.
pub open spec fn spec_inspect_pdf(data: Seq<u8>) -> Result<InspectionModel, InspectFault> {
    match spec_load_pdf(data) {
        None => Err(InspectFault::PdfParse),
        Some(doc) => Ok(spec_inspection(doc)),
    }
}

/// Inspect all objects in a PDF.
///
/// Parses the PDF from raw bytes, enumerates every indirect object in
/// ascending id order, classifies it, and serializes its contents to
/// JSON-shaped values.
pub fn inspect_pdf(pdf_data: &[u8]) -> (r: Result<PdfInspection, InspectError>)
    ensures
        match spec_inspect_pdf(pdf_data@) {
            Err(f) => r matches Err(e) && e.fault() == f,
            Ok(m) => r matches Ok(x) && x@ == m,
        },
        r matches Ok(x) ==> forall|i: int, j: int|
            0 <= i < j < x.objects@.len() ==> id_lt(
                x.objects@[i].obj_num,
                x.objects@[i].gen_num,
                x.objects@[j].obj_num,
                x.objects@[j].gen_num,
            ),
{
    let doc = match load_pdf(pdf_data) {
        Some(d) => d,
        None => {
            return Err(InspectError::PdfParse(String::from_str("cannot load the PDF")));
        },
    };
    let ghost objs = doc.objects@;
    let ghost expected = Seq::new(objs.len(), |i: int| spec_classify(objs[i].0, objs[i].1, objs[i].2));
    let mut objects: Vec<PdfObjectInfo> = Vec::new();
    let mut i: usize = 0;
    while i < doc.objects.len()
        invariant
            i <= objs.len(),
            objs == doc.objects@,
            expected == Seq::new(objs.len(), |k: int| spec_classify(objs[k].0, objs[k].1, objs[k].2)),
            info_views(objects@) == expected.take(i as int),
        decreases objs.len() - i,
    {
        let info = classify_object(doc.objects[i].0, doc.objects[i].1, &doc.objects[i].2);
        assert(info@ == expected[i as int]);
        assert(info_views(objects@.push(info)) =~= info_views(objects@).push(info@));
        assert(expected.take(i + 1) =~= expected.take(i as int).push(expected[i as int]));
        objects.push(info);
        i = i + 1;
    }
    assert(expected.take(i as int) =~= expected);
    proof {
        assert forall|a: int, b: int| 0 <= a < b < objects@.len() implies id_lt(
            objects@[a].obj_num,
            objects@[a].gen_num,
            objects@[b].obj_num,
            objects@[b].gen_num,
        ) by {
            assert(info_views(objects@)[a] == objects@[a]@);
            assert(info_views(objects@)[b] == objects@[b]@);
            assert(objects@[a].obj_num == objs[a].0 && objects@[a].gen_num == objs[a].1);
            assert(objects@[b].obj_num == objs[b].0 && objects@[b].gen_num == objs[b].1);
        }
    }
    let num_pages = count_pages(&doc);
    let cat = match catalog(&doc) {
        Some(c) => serialize_dict(c, 0, 50),
        None => JsonValue::Null,
    };
    let num_objects = objects.len();
    Ok(
        PdfInspection {
            pdf_version: doc.version,
            num_pages,
            num_objects,
            objects,
            catalog: cat,
        },
    )
}

} // verus!
