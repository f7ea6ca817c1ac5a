//! A PDF document as plain values: its indirect objects, its trailer and its
//! version, as lopdf reads them.

use vstd::prelude::*;

use crate::cms::signed_data::slice_eq;
use lopdf::Object;

verus! {

/// The library's view of a `lopdf::Object`.
#[verifier::external_type_specification]
#[verifier::external_body]
pub struct ExLopdfObject(lopdf::Object);

/// The library's view of a `lopdf::Dictionary`.
#[verifier::external_type_specification]
#[verifier::external_body]
pub struct ExLopdfDictionary(lopdf::Dictionary);

/// The library's view of a `lopdf::Stream`.
#[verifier::external_type_specification]
#[verifier::external_body]
pub struct ExLopdfStream(lopdf::Stream);

/// A PDF object.
#[derive(Debug)]
pub enum PdfObject {
    Null,
    Boolean(bool),
    Integer(i64),
    /// A real number, as the bits of its `f32`.
    Real(u32),
    Name(Vec<u8>),
    /// A string's bytes, whatever its written form.
    Str(Vec<u8>),
    Array(Vec<PdfObject>),
    Dictionary(PdfDict),
    Stream(PdfStream),
    /// A reference: object number and generation.
    Reference(u32, u16),
}

/// A PDF dictionary: its entries in the order lopdf keeps them, each key
/// once.
#[derive(Debug)]
pub struct PdfDict {
    pub entries: Vec<(Vec<u8>, PdfObject)>,
}

/// A PDF stream.
#[derive(Debug)]
pub struct PdfStream {
    pub dict: PdfDict,
    /// The stream's bytes as stored.
    pub content: Vec<u8>,
    /// The bytes after the stream's filters, when lopdf can apply them.
    pub decoded: Option<Vec<u8>>,
}

/// A loaded PDF document.
#[derive(Debug)]
pub struct PdfDocument {
    /// The version from the header, e.g. `1.7`.
    pub version: String,
    /// The indirect objects: number, generation and object.
    pub objects: Vec<(u32, u16, PdfObject)>,
    /// The trailer dictionary.
    pub trailer: PdfDict,
}

/// Converts a lopdf dictionary, entry by entry.
#[verifier::external_body]
fn dict_from_lopdf(d: &lopdf::Dictionary) -> PdfDict {
    PdfDict { entries: d.iter().map(|(k, v)| (k.clone(), object_from_lopdf(v))).collect() }
}

/// Converts a lopdf stream: its dictionary, its raw content and the result
/// of `Stream::decompressed_content`.
#[verifier::external_body]
fn stream_from_lopdf(s: &lopdf::Stream) -> PdfStream {
    PdfStream {
        dict: dict_from_lopdf(&s.dict),
        content: s.content.clone(),
        decoded: s.decompressed_content().ok(),
    }
}

/// Converts a lopdf object, variant by variant.
#[verifier::external_body]
fn object_from_lopdf(o: &lopdf::Object) -> PdfObject {
    match o {
        Object::Null => PdfObject::Null,
        Object::Boolean(b) => PdfObject::Boolean(*b),
        Object::Integer(i) => PdfObject::Integer(*i),
        Object::Real(r) => PdfObject::Real(r.to_bits()),
        Object::Name(n) => PdfObject::Name(n.clone()),
        Object::String(s, _) => PdfObject::Str(s.clone()),
        Object::Array(a) => PdfObject::Array(a.iter().map(object_from_lopdf).collect()),
        Object::Dictionary(d) => PdfObject::Dictionary(dict_from_lopdf(d)),
        Object::Stream(s) => PdfObject::Stream(stream_from_lopdf(s)),
        Object::Reference((n, g)) => PdfObject::Reference(*n, *g),
    }
}

/// What lopdf reads from `data`; `None` when it cannot load it.
pub uninterp spec fn spec_load_pdf(data: Seq<u8>) -> Option<PdfDocument>;

/// `(n1, g1)` sorts before `(n2, g2)`.
pub open spec fn id_lt(n1: u32, g1: u16, n2: u32, g2: u16) -> bool {
    n1 < n2 || (n1 == n2 && g1 < g2)
}

/// The objects are in strictly ascending `(number, generation)` order.
pub open spec fn ids_ascending(objs: Seq<(u32, u16, PdfObject)>) -> bool {
    forall|i: int, j: int|
        0 <= i < j < objs.len() ==> id_lt(objs[i].0, objs[i].1, objs[j].0, objs[j].1)
}

/// Calls `lopdf::Document::load_mem` and converts the document: its
/// `version`, its `objects` in map order and its `trailer`.
///
/// Claimed: the result is a function of the bytes alone, named by
/// [`spec_load_pdf`] (lopdf is built without its `rayon` feature, so it
/// reads the objects on the calling thread, in cross-reference order); the
/// objects come in ascending id order, the order in which a `BTreeMap` is
/// walked.
#[verifier::external_body]
pub(crate) fn load_pdf(data: &[u8]) -> (r: Option<PdfDocument>)
    ensures
        r == spec_load_pdf(data@),
        r matches Some(d) ==> ids_ascending(d.objects@),
{
    let doc = lopdf::Document::load_mem(data).ok()?;
    Some(PdfDocument {
        version: doc.version.clone(),
        objects: doc.objects.iter().map(|((n, g), o)| (*n, *g, object_from_lopdf(o))).collect(),
        trailer: dict_from_lopdf(&doc.trailer),
    })
}

// --- lookups -----------------------------------------------------------------

/// The index of the entry with key `key`.
pub open spec fn spec_dict_find(entries: Seq<(Vec<u8>, PdfObject)>, key: Seq<u8>) -> Option<int>
    decreases entries.len(),
{
    if entries.len() == 0 {
        None
    } else if entries[0].0@ == key {
        Some(0)
    } else {
        match spec_dict_find(entries.drop_first(), key) {
            Some(i) => Some(i + 1),
            None => None,
        }
    }
}

/// The value under `key` in `d`.
pub open spec fn spec_dict_get(d: PdfDict, key: Seq<u8>) -> Option<PdfObject> {
    match spec_dict_find(d.entries@, key) {
        Some(i) => Some(d.entries@[i].1),
        None => None,
    }
}

/// The value under `key` in `d`.
pub fn dict_get<'a>(d: &'a PdfDict, key: &[u8]) -> (r: Option<&'a PdfObject>)
    ensures
        match spec_dict_get(*d, key@) {
            None => r is None,
            Some(o) => r matches Some(x) && *x == o,
        },
{
    let ghost es = d.entries@;
    let mut i: usize = 0;
    assert(es.skip(0) =~= es);
    while i < d.entries.len()
        invariant
            i <= es.len(),
            es == d.entries@,
            spec_dict_find(es, key@) == match spec_dict_find(es.skip(i as int), key@) {
                Some(k) => Some(k + i),
                None => None,
            },
        decreases es.len() - i,
    {
        assert(es.skip(i as int)[0] == es[i as int]);
        assert(es.skip(i as int).drop_first() =~= es.skip(i + 1));
        if slice_eq(d.entries[i].0.as_slice(), key) {
            return Some(&d.entries[i].1);
        }
        i = i + 1;
    }
    None
}

/// The index of the object with id `(n, g)`.
pub open spec fn spec_find_object(objs: Seq<(u32, u16, PdfObject)>, n: u32, g: u16) -> Option<int>
    decreases objs.len(),
{
    if objs.len() == 0 {
        None
    } else if objs[0].0 == n && objs[0].1 == g {
        Some(0)
    } else {
        match spec_find_object(objs.drop_first(), n, g) {
            Some(i) => Some(i + 1),
            None => None,
        }
    }
}

/// How many references lopdf follows before it gives up.
pub open spec fn deref_limit() -> nat {
    128
}

/// `o` with references followed, at most `fuel` of them.
pub open spec fn spec_deref(objs: Seq<(u32, u16, PdfObject)>, o: PdfObject, fuel: nat) -> Option<
    PdfObject,
>
    decreases fuel,
{
    match o {
        PdfObject::Reference(n, g) => {
            if fuel == 0 {
                None
            } else {
                match spec_find_object(objs, n, g) {
                    None => None,
                    Some(i) => spec_deref(objs, objs[i].2, (fuel - 1) as nat),
                }
            }
        },
        _ => Some(o),
    }
}

/// `Document::get_object`: the object with id `(n, g)`, references
/// followed as lopdf follows them (at most 128).
pub open spec fn spec_get_object(doc: PdfDocument, n: u32, g: u16) -> Option<PdfObject> {
    match spec_find_object(doc.objects@, n, g) {
        None => None,
        Some(i) => spec_deref(doc.objects@, doc.objects@[i].2, deref_limit()),
    }
}

/// The object with id `(n, g)`.
fn find_object<'a>(doc: &'a PdfDocument, n: u32, g: u16) -> (r: Option<&'a PdfObject>)
    ensures
        match spec_find_object(doc.objects@, n, g) {
            None => r is None,
            Some(i) => r matches Some(x) && *x == doc.objects@[i].2,
        },
{
    let ghost os = doc.objects@;
    let mut i: usize = 0;
    assert(os.skip(0) =~= os);
    while i < doc.objects.len()
        invariant
            i <= os.len(),
            os == doc.objects@,
            spec_find_object(os, n, g) == match spec_find_object(os.skip(i as int), n, g) {
                Some(k) => Some(k + i),
                None => None,
            },
        decreases os.len() - i,
    {
        assert(os.skip(i as int)[0] == os[i as int]);
        assert(os.skip(i as int).drop_first() =~= os.skip(i + 1));
        if doc.objects[i].0 == n && doc.objects[i].1 == g {
            return Some(&doc.objects[i].2);
        }
        i = i + 1;
    }
    None
}

/// `o` with references followed as lopdf follows them.
pub fn dereference<'a>(doc: &'a PdfDocument, o: &'a PdfObject) -> (r: Option<&'a PdfObject>)
    ensures
        match spec_deref(doc.objects@, *o, deref_limit()) {
            None => r is None,
            Some(x) => r matches Some(y) && *y == x,
        },
{
    let mut cur: &PdfObject = o;
    let mut fuel: usize = 128;
    loop
        invariant
            fuel <= 128,
            spec_deref(doc.objects@, *o, deref_limit()) == spec_deref(
                doc.objects@,
                *cur,
                fuel as nat,
            ),
        decreases fuel,
    {
        match cur {
            PdfObject::Reference(n, g) => {
                if fuel == 0 {
                    return None;
                }
                match find_object(doc, *n, *g) {
                    None => {
                        return None;
                    },
                    Some(next) => {
                        cur = next;
                        fuel = fuel - 1;
                    },
                }
            },
            _ => {
                return Some(cur);
            },
        }
    }
}

/// `Document::get_object`.
pub fn get_object<'a>(doc: &'a PdfDocument, n: u32, g: u16) -> (r: Option<&'a PdfObject>)
    ensures
        match spec_get_object(*doc, n, g) {
            None => r is None,
            Some(x) => r matches Some(y) && *y == x,
        },
{
    match find_object(doc, n, g) {
        None => None,
        Some(o) => dereference(doc, o),
    }
}

/// The dictionary that `o` is, if it is one.
pub open spec fn spec_as_dict(o: Option<PdfObject>) -> Option<PdfDict> {
    match o {
        Some(PdfObject::Dictionary(d)) => Some(d),
        _ => None,
    }
}

/// The dictionary of the object with id `(n, g)` (`Document::get_dictionary`).
pub open spec fn spec_get_dictionary(doc: PdfDocument, n: u32, g: u16) -> Option<PdfDict> {
    spec_as_dict(spec_get_object(doc, n, g))
}

/// The dictionary of the object with id `(n, g)`.
pub fn get_dictionary<'a>(doc: &'a PdfDocument, n: u32, g: u16) -> (r: Option<&'a PdfDict>)
    ensures
        match spec_get_dictionary(*doc, n, g) {
            None => r is None,
            Some(d) => r matches Some(x) && *x == d,
        },
{
    match get_object(doc, n, g) {
        Some(PdfObject::Dictionary(d)) => Some(d),
        _ => None,
    }
}

/// The document catalog: the dictionary that the trailer's `/Root` refers to.
pub open spec fn spec_catalog(doc: PdfDocument) -> Option<PdfDict> {
    match spec_dict_get(doc.trailer, seq![0x52u8, 0x6F, 0x6F, 0x74]) {
        Some(PdfObject::Reference(n, g)) => spec_get_dictionary(doc, n, g),
        _ => None,
    }
}

/// The document catalog.
pub fn catalog<'a>(doc: &'a PdfDocument) -> (r: Option<&'a PdfDict>)
    ensures
        match spec_catalog(*doc) {
            None => r is None,
            Some(d) => r matches Some(x) && *x == d,
        },
{
    let key: [u8; 4] = [0x52, 0x6F, 0x6F, 0x74];
    assert(key@ =~= seq![0x52u8, 0x6F, 0x6F, 0x74]);
    match dict_get(&doc.trailer, key.as_slice()) {
        Some(PdfObject::Reference(n, g)) => get_dictionary(doc, *n, *g),
        _ => None,
    }
}

} // verus!
