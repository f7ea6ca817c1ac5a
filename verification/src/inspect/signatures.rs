//! Signature fields, their byte ranges and contents, DocMDP permissions, and
//! the Document Security Store.

use vstd::prelude::*;
use vstd::utf8::{decode_utf8, valid_utf8};

use crate::text::push_char;
use super::pdf::{
    catalog, dict_get, get_object, load_pdf, spec_catalog, spec_dict_get, spec_get_object,
    spec_load_pdf, PdfDict, PdfDocument, PdfObject,
};
use super::json::{name_text, spec_name_text};
use super::objects::{opt_chars, InspectError, InspectFault};
use super::revisions::{detect_revisions, spec_detect_revisions, RevisionInfo};

verus! {

// --- outside text functions ----------------------------------------------------

/// What `String::from_utf8_lossy` makes of `b`.
pub uninterp spec fn spec_utf8_lossy(b: Seq<u8>) -> Seq<char>;

/// Calls `String::from_utf8_lossy`.
///
/// Claimed: the result is a function of the bytes alone, named by
/// [`spec_utf8_lossy`], and is their UTF-8 reading when they are UTF-8 (std
/// replaces only invalid sequences).
#[verifier::external_body]
fn utf8_lossy(b: &[u8]) -> (r: String)
    ensures
        r@ == spec_utf8_lossy(b@),
        valid_utf8(b@) ==> r@ == decode_utf8(b@),
{
    String::from_utf8_lossy(b).into_owned()
}

/// The lowercase hexadecimal digit of `d`.
pub open spec fn hex_digit(d: int) -> char {
    if d < 10 {
        (('0' as int) + d) as char
    } else {
        (('a' as int) + d - 10) as char
    }
}

/// `b` in lowercase hexadecimal, two digits a byte.
pub open spec fn spec_hex(b: Seq<u8>) -> Seq<char>
    decreases b.len(),
{
    if b.len() == 0 {
        Seq::empty()
    } else {
        spec_hex(b.drop_last()) + seq![hex_digit((b.last() / 16) as int), hex_digit((b.last() % 16) as int)]
    }
}

/// Calls `hex::encode`.
///
/// Claimed: each byte becomes two lowercase hexadecimal digits, high nibble
/// first, as hex's `HEX_CHARS_LOWER` table writes them.
#[verifier::external_body]
fn hex_encode(b: &[u8]) -> (r: String)
    ensures
        r@ == spec_hex(b@),
{
    hex::encode(b)
}

// --- values ------------------------------------------------------------------

/// The byte counts of a signature's `/ByteRange` against the file.
#[derive(Debug, Clone, Copy, PartialEq, Eq, Structural)]
pub struct CoverageCounts {
    /// Total signed bytes.
    pub signed_bytes: i64,
    /// Total file size.
    pub file_size: i64,
    /// Start of the unsigned gap (the `/Contents`).
    pub gap_start: i64,
    /// End of the unsigned gap.
    pub gap_end: i64,
    /// Size of the unsigned gap.
    pub gap_size: i64,
}

/// Information about a single signature field.
#[derive(Debug)]
pub struct SignatureFieldInfo {
    /// Field name from `/T`.
    pub field_name: Option<String>,
    /// Object number of the signature value dictionary.
    pub obj_num: Option<u32>,
    /// `/Filter` value (e.g. `/Adobe.PPKLite`).
    pub filter: Option<String>,
    /// `/SubFilter` value (e.g. `/ETSI.CAdES.detached`).
    pub sub_filter: Option<String>,
    /// `/Name` (signer name).
    pub name: Option<String>,
    /// `/Reason`.
    pub reason: Option<String>,
    /// `/Location`.
    pub location: Option<String>,
    /// `/ContactInfo`.
    pub contact_info: Option<String>,
    /// `/M` signing time string.
    pub signing_time: Option<String>,
    /// ByteRange array `[offset1, length1, offset2, length2]`.
    pub byte_range: Option<[i64; 4]>,
    /// Coverage counts of the byte range.
    pub coverage: Option<CoverageCounts>,
    /// Length of the raw `/Contents` bytes.
    pub contents_length: Option<usize>,
    /// First 32 bytes of `/Contents` as hex.
    pub contents_hex_preview: Option<String>,
    /// DocMDP permissions (1 = no changes, 2 = form fill, 3 = annotations and form).
    pub doc_mdp_permissions: Option<i64>,
    /// Application name from `/Prop_Build /App /Name`.
    pub build_app_name: Option<String>,
}

/// A signature field as mathematical values.
pub struct FieldModel {
    pub field_name: Option<Seq<char>>,
    pub obj_num: Option<u32>,
    pub filter: Option<Seq<char>>,
    pub sub_filter: Option<Seq<char>>,
    pub name: Option<Seq<char>>,
    pub reason: Option<Seq<char>>,
    pub location: Option<Seq<char>>,
    pub contact_info: Option<Seq<char>>,
    pub signing_time: Option<Seq<char>>,
    pub byte_range: Option<Seq<i64>>,
    pub coverage: Option<CoverageCounts>,
    pub contents_length: Option<usize>,
    pub contents_hex_preview: Option<Seq<char>>,
    pub doc_mdp_permissions: Option<i64>,
    pub build_app_name: Option<Seq<char>>,
}

impl View for SignatureFieldInfo {
    type V = FieldModel;

    open spec fn view(&self) -> FieldModel {
        FieldModel {
            field_name: opt_chars(self.field_name),
            obj_num: self.obj_num,
            filter: opt_chars(self.filter),
            sub_filter: opt_chars(self.sub_filter),
            name: opt_chars(self.name),
            reason: opt_chars(self.reason),
            location: opt_chars(self.location),
            contact_info: opt_chars(self.contact_info),
            signing_time: opt_chars(self.signing_time),
            byte_range: match self.byte_range {
                Some(a) => Some(a@),
                None => None,
            },
            coverage: self.coverage,
            contents_length: self.contents_length,
            contents_hex_preview: opt_chars(self.contents_hex_preview),
            doc_mdp_permissions: self.doc_mdp_permissions,
            build_app_name: opt_chars(self.build_app_name),
        }
    }
}

/// A VRI (Validation Related Information) entry from the DSS.
#[derive(Debug)]
pub struct VriEntry {
    /// The hash key (uppercase hex SHA-1 of the signature's `/Contents`).
    pub hash_key: String,
    /// Number of certificates.
    pub num_certs: usize,
    /// Number of OCSP responses.
    pub num_ocsps: usize,
    /// Number of CRLs.
    pub num_crls: usize,
    /// DER-encoded certificates.
    pub certs: Vec<Vec<u8>>,
    /// DER-encoded OCSP responses.
    pub ocsps: Vec<Vec<u8>>,
    /// DER-encoded CRLs.
    pub crls: Vec<Vec<u8>>,
}

/// Document Security Store (DSS) information.
#[derive(Debug)]
pub struct DssInfo {
    /// Object number of the DSS dictionary.
    pub obj_num: Option<u32>,
    /// Number of top-level certificates.
    pub num_certs: usize,
    /// Number of top-level OCSP responses.
    pub num_ocsps: usize,
    /// Number of top-level CRLs.
    pub num_crls: usize,
    /// DER-encoded top-level certificates.
    pub certs: Vec<Vec<u8>>,
    /// DER-encoded top-level OCSP responses.
    pub ocsps: Vec<Vec<u8>>,
    /// DER-encoded top-level CRLs.
    pub crls: Vec<Vec<u8>>,
    /// Per-signature VRI entries.
    pub vri: Vec<VriEntry>,
}

pub open spec fn blob_views(s: Seq<Vec<u8>>) -> Seq<Seq<u8>> {
    s.map_values(|x: Vec<u8>| x@)
}

/// A VRI entry as mathematical values.
pub struct VriModel {
    pub hash_key: Seq<char>,
    pub num_certs: usize,
    pub num_ocsps: usize,
    pub num_crls: usize,
    pub certs: Seq<Seq<u8>>,
    pub ocsps: Seq<Seq<u8>>,
    pub crls: Seq<Seq<u8>>,
}

impl View for VriEntry {
    type V = VriModel;

    open spec fn view(&self) -> VriModel {
        VriModel {
            hash_key: self.hash_key@,
            num_certs: self.num_certs,
            num_ocsps: self.num_ocsps,
            num_crls: self.num_crls,
            certs: blob_views(self.certs@),
            ocsps: blob_views(self.ocsps@),
            crls: blob_views(self.crls@),
        }
    }
}

pub open spec fn vri_views(s: Seq<VriEntry>) -> Seq<VriModel> {
    s.map_values(|x: VriEntry| x@)
}

/// A DSS as mathematical values.
pub struct DssModel {
    pub obj_num: Option<u32>,
    pub num_certs: usize,
    pub num_ocsps: usize,
    pub num_crls: usize,
    pub certs: Seq<Seq<u8>>,
    pub ocsps: Seq<Seq<u8>>,
    pub crls: Seq<Seq<u8>>,
    pub vri: Seq<VriModel>,
}

impl View for DssInfo {
    type V = DssModel;

    open spec fn view(&self) -> DssModel {
        DssModel {
            obj_num: self.obj_num,
            num_certs: self.num_certs,
            num_ocsps: self.num_ocsps,
            num_crls: self.num_crls,
            certs: blob_views(self.certs@),
            ocsps: blob_views(self.ocsps@),
            crls: blob_views(self.crls@),
            vri: vri_views(self.vri@),
        }
    }
}

// --- keys --------------------------------------------------------------------

pub open spec fn k_bytes(s: Seq<char>) -> Seq<u8> {
    Seq::new(s.len(), |i: int| s[i] as u8)
}

/// The bytes of an ASCII key.
fn key(s: &str) -> (r: Vec<u8>)
    requires
        forall|i: int| 0 <= i < s@.len() ==> (s@[i] as u32) < 128,
    ensures
        r@ == k_bytes(s@),
{
    let cs = crate::text::chars_of(s);
    let mut out: Vec<u8> = Vec::new();
    let mut i: usize = 0;
    while i < cs.len()
        invariant
            i <= cs@.len(),
            cs@ == s@,
            forall|j: int| 0 <= j < s@.len() ==> (s@[j] as u32) < 128,
            out@ == k_bytes(s@).take(i as int),
        decreases cs.len() - i,
    {
        let c = cs[i];
        let b = c as u8;
        assert(out@.push(b) =~= k_bytes(s@).take(i + 1));
        out.push(b);
        i = i + 1;
    }
    assert(k_bytes(s@).take(i as int) =~= k_bytes(s@));
    out
}

// --- fields of dictionaries ----------------------------------------------------

/// The dictionary that `o` is or refers to.
pub open spec fn spec_resolve_dict(doc: PdfDocument, o: PdfObject) -> Option<PdfDict> {
    match o {
        PdfObject::Reference(n, g) => match spec_get_object(doc, n, g) {
            Some(PdfObject::Dictionary(d)) => Some(d),
            _ => None,
        },
        PdfObject::Dictionary(d) => Some(d),
        _ => None,
    }
}

/// The dictionary that `o` is or refers to.
fn resolve_dict<'a>(doc: &'a PdfDocument, o: &'a PdfObject) -> (r: Option<&'a PdfDict>)
    ensures
        match spec_resolve_dict(*doc, *o) {
            None => r is None,
            Some(d) => r matches Some(x) && *x == d,
        },
{
    match o {
        PdfObject::Reference(n, g) => match get_object(doc, *n, *g) {
            Some(PdfObject::Dictionary(d)) => Some(d),
            _ => None,
        },
        PdfObject::Dictionary(d) => Some(d),
        _ => None,
    }
}

/// The name under `key` in `d`, written as a name.
pub open spec fn spec_name_field(d: PdfDict, key: Seq<u8>) -> Option<Seq<char>> {
    match spec_dict_get(d, key) {
        Some(PdfObject::Name(n)) => Some(spec_name_text(n@)),
        _ => None,
    }
}

/// The string under `key` in `d`, read as UTF-8 with replacement.
pub open spec fn spec_string_field(d: PdfDict, key: Seq<u8>) -> Option<Seq<char>> {
    match spec_dict_get(d, key) {
        Some(PdfObject::Str(b)) => Some(spec_utf8_lossy(b@)),
        _ => None,
    }
}

/// Extract a `/Name` value as a string from a dictionary.
fn extract_name_field(d: &PdfDict, k: &[u8]) -> (r: Option<String>)
    ensures
        opt_chars(r) == spec_name_field(*d, k@),
{
    match dict_get(d, k) {
        Some(PdfObject::Name(n)) => Some(name_text(n.as_slice())),
        _ => None,
    }
}

/// Extract a string value from a dictionary.
fn extract_string_field(d: &PdfDict, k: &[u8]) -> (r: Option<String>)
    ensures
        opt_chars(r) == spec_string_field(*d, k@),
{
    match dict_get(d, k) {
        Some(PdfObject::Str(b)) => Some(utf8_lossy(b.as_slice())),
        _ => None,
    }
}

/// The `/ByteRange` of a signature dictionary: an array of exactly four
/// integers.
pub open spec fn spec_byte_range(d: PdfDict) -> Option<Seq<i64>> {
    match spec_dict_get(d, k_bytes("ByteRange"@)) {
        Some(PdfObject::Array(a)) => {
            if a@.len() == 4 && (forall|i: int| 0 <= i < 4 ==> #[trigger] a@[i] is Integer) {
                Some(Seq::new(4, |i: int| a@[i]->Integer_0))
            } else {
                None
            }
        },
        _ => None,
    }
}

/// Extract the `/ByteRange` from a signature dictionary.
fn extract_byte_range(sig_dict: &PdfDict) -> (r: Option<[i64; 4]>)
    ensures
        match r {
            None => spec_byte_range(*sig_dict) is None,
            Some(a) => spec_byte_range(*sig_dict) == Some(a@),
        },
{
    proof {
        reveal_strlit("ByteRange");
    }
    let k = key("ByteRange");
    let arr = match dict_get(sig_dict, k.as_slice()) {
        Some(PdfObject::Array(a)) => a,
        _ => {
            return None;
        },
    };
    if arr.len() != 4 {
        return None;
    }
    let v0 = match &arr[0] { PdfObject::Integer(v) => *v, _ => { return None; } };
    let v1 = match &arr[1] { PdfObject::Integer(v) => *v, _ => { return None; } };
    let v2 = match &arr[2] { PdfObject::Integer(v) => *v, _ => { return None; } };
    let v3 = match &arr[3] { PdfObject::Integer(v) => *v, _ => { return None; } };
    let out = [v0, v1, v2, v3];
    assert(out@ =~= Seq::new(4, |i: int| arr@[i]->Integer_0));
    Some(out)
}

/// The coverage counts of the byte range `br` against a file of `file_size`
/// bytes, in 64-bit two's-complement arithmetic.
pub open spec fn spec_coverage(br: Seq<i64>, file_size: i64) -> CoverageCounts {
    CoverageCounts {
        signed_bytes: br[1].wrapping_add(br[3]),
        file_size,
        gap_start: br[0].wrapping_add(br[1]),
        gap_end: br[2],
        gap_size: br[2].wrapping_sub(br[0].wrapping_add(br[1])),
    }
}

/// Compute the coverage counts of a byte range.
pub fn compute_coverage(br: &[i64; 4], file_size: i64) -> (r: CoverageCounts)
    ensures
        r == spec_coverage(br@, file_size),
{
    let signed_bytes = br[1].wrapping_add(br[3]);
    let gap_start = br[0].wrapping_add(br[1]);
    CoverageCounts {
        signed_bytes,
        file_size,
        gap_start,
        gap_end: br[2],
        gap_size: br[2].wrapping_sub(gap_start),
    }
}

/// The value under the ASCII key `k` in `d`.
fn lookup<'a>(d: &'a PdfDict, k: &str) -> (r: Option<&'a PdfObject>)
    requires
        forall|i: int| 0 <= i < k@.len() ==> (k@[i] as u32) < 128,
    ensures
        match spec_dict_get(*d, k_bytes(k@)) {
            None => r is None,
            Some(o) => r matches Some(x) && *x == o,
        },
{
    let kb = key(k);
    dict_get(d, kb.as_slice())
}

// --- streams and the DSS -------------------------------------------------------

/// The data of the stream that `item` refers to: decoded when lopdf can
/// decode it, as stored otherwise; none when empty.
pub open spec fn spec_stream_data(doc: PdfDocument, item: PdfObject) -> Option<Seq<u8>> {
    match item {
        PdfObject::Reference(n, g) => match spec_get_object(doc, n, g) {
            Some(PdfObject::Stream(s)) => {
                let data = match s.decoded {
                    Some(d) => d@,
                    None => s.content@,
                };
                if data.len() > 0 {
                    Some(data)
                } else {
                    None
                }
            },
            _ => None,
        },
        _ => None,
    }
}

/// The data of the streams that `items` refer to, in order.
pub open spec fn spec_stream_items(doc: PdfDocument, items: Seq<PdfObject>) -> Seq<Seq<u8>>
    decreases items.len(),
{
    if items.len() == 0 {
        Seq::empty()
    } else {
        let acc = spec_stream_items(doc, items.drop_last());
        match spec_stream_data(doc, items.last()) {
            Some(d) => acc.push(d),
            None => acc,
        }
    }
}

/// The data of the streams listed under `key` in `d`.
pub open spec fn spec_stream_array(doc: PdfDocument, d: PdfDict, key: Seq<u8>) -> Seq<Seq<u8>> {
    match spec_dict_get(d, key) {
        Some(PdfObject::Array(a)) => spec_stream_items(doc, a@),
        _ => Seq::empty(),
    }
}

/// Extract an array of stream contents (DER bytes) listed under a key.
fn extract_stream_array(doc: &PdfDocument, d: &PdfDict, k: &str) -> (r: Vec<Vec<u8>>)
    requires
        forall|i: int| 0 <= i < k@.len() ==> (k@[i] as u32) < 128,
    ensures
        blob_views(r@) == spec_stream_array(*doc, *d, k_bytes(k@)),
{
    let mut result: Vec<Vec<u8>> = Vec::new();
    let arr = match lookup(d, k) {
        Some(PdfObject::Array(a)) => a,
        _ => {
            assert(blob_views(result@) =~= Seq::<Seq<u8>>::empty());
            return result;
        },
    };
    let ghost items = arr@;
    let mut i: usize = 0;
    assert(items.take(0) =~= Seq::<PdfObject>::empty());
    assert(blob_views(result@) =~= Seq::<Seq<u8>>::empty());
    while i < arr.len()
        invariant
            i <= items.len(),
            items == arr@,
            blob_views(result@) == spec_stream_items(*doc, items.take(i as int)),
        decreases items.len() - i,
    {
        proof {
            assert(items.take(i + 1).drop_last() =~= items.take(i as int));
            assert(items.take(i + 1).last() == items[i as int]);
        }
        if let PdfObject::Reference(n, g) = &arr[i] {
            if let Some(PdfObject::Stream(stream)) = get_object(doc, *n, *g) {
                let data = match &stream.decoded {
                    Some(dd) => crate::cms::tlv::copy_bytes(dd.as_slice()),
                    None => crate::cms::tlv::copy_bytes(stream.content.as_slice()),
                };
                if data.len() > 0 {
                    assert(blob_views(result@.push(data)) =~= blob_views(result@).push(data@));
                    result.push(data);
                }
            }
        }
        i = i + 1;
    }
    assert(items.take(i as int) =~= items);
    result
}

/// The VRI entries of the VRI dictionary entries `es`, in order; entries
/// that are no dictionary are skipped.
pub open spec fn spec_vri_entries(doc: PdfDocument, es: Seq<(Vec<u8>, PdfObject)>) -> Seq<VriModel>
    decreases es.len(),
{
    if es.len() == 0 {
        Seq::empty()
    } else {
        let acc = spec_vri_entries(doc, es.drop_last());
        match spec_resolve_dict(doc, es.last().1) {
            Some(ed) => {
                let certs = spec_stream_array(doc, ed, k_bytes("Cert"@));
                let ocsps = spec_stream_array(doc, ed, k_bytes("OCSP"@));
                let crls = spec_stream_array(doc, ed, k_bytes("CRL"@));
                acc.push(
                    VriModel {
                        hash_key: spec_utf8_lossy(es.last().0@),
                        num_certs: certs.len() as usize,
                        num_ocsps: ocsps.len() as usize,
                        num_crls: crls.len() as usize,
                        certs,
                        ocsps,
                        crls,
                    },
                )
            },
            None => acc,
        }
    }
}

/// The DSS dictionary of the catalog `cat`, with its object number when it
/// is referred to.
pub open spec fn spec_dss_dict(doc: PdfDocument, cat: PdfDict) -> Option<(PdfDict, Option<u32>)> {
    match spec_dict_get(cat, k_bytes("DSS"@)) {
        Some(PdfObject::Reference(n, g)) => match spec_get_object(doc, n, g) {
            Some(PdfObject::Dictionary(d)) => Some((d, Some(n))),
            _ => None,
        },
        Some(PdfObject::Dictionary(d)) => Some((d, None)),
        _ => None,
    }
}

/// The Document Security Store of the catalog `cat`.
pub open spec fn spec_dss(doc: PdfDocument, cat: PdfDict) -> Option<DssModel> {
    match spec_dss_dict(doc, cat) {
        None => None,
        Some((dd, num)) => {
            let certs = spec_stream_array(doc, dd, k_bytes("Certs"@));
            let ocsps = spec_stream_array(doc, dd, k_bytes("OCSPs"@));
            let crls = spec_stream_array(doc, dd, k_bytes("CRLs"@));
            let vri = match spec_dict_get(dd, k_bytes("VRI"@)) {
                None => Seq::empty(),
                Some(v) => match spec_resolve_dict(doc, v) {
                    None => Seq::empty(),
                    Some(vd) => spec_vri_entries(doc, vd.entries@),
                },
            };
            Some(
                DssModel {
                    obj_num: num,
                    num_certs: certs.len() as usize,
                    num_ocsps: ocsps.len() as usize,
                    num_crls: crls.len() as usize,
                    certs,
                    ocsps,
                    crls,
                    vri,
                },
            )
        },
    }
}

/// The VRI entries of a VRI dictionary.
fn vri_entries(doc: &PdfDocument, vd: &PdfDict) -> (r: Vec<VriEntry>)
    ensures
        vri_views(r@) == spec_vri_entries(*doc, vd.entries@),
{
    let ghost es = vd.entries@;
    let mut out: Vec<VriEntry> = Vec::new();
    let mut i: usize = 0;
    assert(es.take(0) =~= Seq::<(Vec<u8>, PdfObject)>::empty());
    assert(vri_views(out@) =~= Seq::<VriModel>::empty());
    while i < vd.entries.len()
        invariant
            i <= es.len(),
            es == vd.entries@,
            vri_views(out@) == spec_vri_entries(*doc, es.take(i as int)),
        decreases es.len() - i,
    {
        proof {
            assert(es.take(i + 1).drop_last() =~= es.take(i as int));
            assert(es.take(i + 1).last() == es[i as int]);
            reveal_strlit("Cert");
            reveal_strlit("OCSP");
            reveal_strlit("CRL");
        }
        if let Some(ed) = resolve_dict(doc, &vd.entries[i].1) {
            let certs = extract_stream_array(doc, ed, "Cert");
            let ocsps = extract_stream_array(doc, ed, "OCSP");
            let crls = extract_stream_array(doc, ed, "CRL");
            let entry = VriEntry {
                hash_key: utf8_lossy(vd.entries[i].0.as_slice()),
                num_certs: certs.len(),
                num_ocsps: ocsps.len(),
                num_crls: crls.len(),
                certs,
                ocsps,
                crls,
            };
            assert(vri_views(out@.push(entry)) =~= vri_views(out@).push(entry@));
            out.push(entry);
        }
        i = i + 1;
    }
    assert(es.take(i as int) =~= es);
    out
}

/// Extract the DSS (Document Security Store) with full DER content.
fn extract_dss(doc: &PdfDocument, cat: &PdfDict) -> (r: Option<DssInfo>)
    ensures
        match spec_dss(*doc, *cat) {
            None => r is None,
            Some(m) => r matches Some(x) && x@ == m,
        },
{
    proof {
        reveal_strlit("DSS");
        reveal_strlit("Certs");
        reveal_strlit("OCSPs");
        reveal_strlit("CRLs");
        reveal_strlit("VRI");
    }
    let (dd, num) = match lookup(cat, "DSS") {
        Some(PdfObject::Reference(n, g)) => match get_object(doc, *n, *g) {
            Some(PdfObject::Dictionary(d)) => (d, Some(*n)),
            _ => {
                return None;
            },
        },
        Some(PdfObject::Dictionary(d)) => (d, None),
        _ => {
            return None;
        },
    };
    let certs = extract_stream_array(doc, dd, "Certs");
    let ocsps = extract_stream_array(doc, dd, "OCSPs");
    let crls = extract_stream_array(doc, dd, "CRLs");
    let empty: Vec<VriEntry> = Vec::new();
    assert(vri_views(empty@) =~= Seq::<VriModel>::empty());
    let vri = match lookup(dd, "VRI") {
        None => empty,
        Some(v) => match resolve_dict(doc, v) {
            None => empty,
            Some(vd) => vri_entries(doc, vd),
        },
    };
    Some(
        DssInfo {
            obj_num: num,
            num_certs: certs.len(),
            num_ocsps: ocsps.len(),
            num_crls: crls.len(),
            certs,
            ocsps,
            crls,
            vri,
        },
    )
}

// --- signature fields ----------------------------------------------------------

/// The DocMDP `/P` level among the signature references `refs`: the last
/// reference with the `DocMDP` transform method and transform parameters
/// that resolve to a dictionary gives its `/P`, 2 when that has none.
pub open spec fn spec_docmdp(doc: PdfDocument, refs: Seq<PdfObject>) -> Option<i64>
    decreases refs.len(),
{
    if refs.len() == 0 {
        None
    } else {
        let acc = spec_docmdp(doc, refs.drop_last());
        match spec_resolve_dict(doc, refs.last()) {
            Some(rd) => match spec_dict_get(rd, k_bytes("TransformMethod"@)) {
                Some(PdfObject::Name(t)) => {
                    if t@ == k_bytes("DocMDP"@) {
                        match spec_dict_get(rd, k_bytes("TransformParams"@)) {
                            Some(params) => match spec_resolve_dict(doc, params) {
                                Some(pd) => match spec_dict_get(pd, k_bytes("P"@)) {
                                    Some(PdfObject::Integer(p)) => Some(p),
                                    _ => Some(2),
                                },
                                None => acc,
                            },
                            None => acc,
                        }
                    } else {
                        acc
                    }
                },
                _ => acc,
            },
            None => acc,
        }
    }
}

/// The application name under `/Prop_Build /App /Name` of `d`.
pub open spec fn spec_build_app_name(doc: PdfDocument, d: PdfDict) -> Option<Seq<char>> {
    match spec_dict_get(d, k_bytes("Prop_Build"@)) {
        Some(bo) => match spec_resolve_dict(doc, bo) {
            Some(bd) => match spec_dict_get(bd, k_bytes("App"@)) {
                Some(ao) => match spec_resolve_dict(doc, ao) {
                    Some(ad) => match spec_name_field(ad, k_bytes("Name"@)) {
                        Some(n) => Some(n),
                        None => spec_string_field(ad, k_bytes("Name"@)),
                    },
                    None => None,
                },
                None => None,
            },
            None => None,
        },
        None => None,
    }
}

/// The length and hex preview of the `/Contents` of `d`.
pub open spec fn spec_contents(d: PdfDict) -> (Option<usize>, Option<Seq<char>>) {
    match spec_dict_get(d, k_bytes("Contents"@)) {
        Some(PdfObject::Str(c)) => (
            Some(c@.len() as usize),
            Some(spec_hex(c@.take(if c@.len() < 32 { c@.len() as int } else { 32 }))),
        ),
        _ => (None, None),
    }
}

/// The information of a signature field named `field_name` whose value is
/// the signature dictionary `d`.
pub open spec fn spec_field_info(
    doc: PdfDocument,
    file_size: i64,
    field_name: Option<Seq<char>>,
    d: PdfDict,
    num: Option<u32>,
) -> FieldModel {
    let br = spec_byte_range(d);
    FieldModel {
        field_name,
        obj_num: num,
        filter: spec_name_field(d, k_bytes("Filter"@)),
        sub_filter: spec_name_field(d, k_bytes("SubFilter"@)),
        name: spec_string_field(d, k_bytes("Name"@)),
        reason: spec_string_field(d, k_bytes("Reason"@)),
        location: spec_string_field(d, k_bytes("Location"@)),
        contact_info: spec_string_field(d, k_bytes("ContactInfo"@)),
        signing_time: spec_string_field(d, k_bytes("M"@)),
        byte_range: br,
        coverage: match br {
            Some(b) => Some(spec_coverage(b, file_size)),
            None => None,
        },
        contents_length: spec_contents(d).0,
        contents_hex_preview: spec_contents(d).1,
        doc_mdp_permissions: match spec_dict_get(d, k_bytes("Reference"@)) {
            Some(PdfObject::Array(refs)) => spec_docmdp(doc, refs@),
            _ => None,
        },
        build_app_name: spec_build_app_name(doc, d),
    }
}

/// The signature field that the AcroForm entry `fo` refers to; none when it
/// is no signature field with a signature dictionary.
pub open spec fn spec_sig_field(doc: PdfDocument, file_size: i64, fo: PdfObject) -> Option<FieldModel> {
    match fo {
        PdfObject::Reference(n, g) => match spec_get_object(doc, n, g) {
            Some(PdfObject::Dictionary(field)) => match spec_dict_get(field, k_bytes("FT"@)) {
                Some(PdfObject::Name(ft)) => {
                    if ft@ != k_bytes("Sig"@) {
                        None
                    } else {
                        let field_name = spec_string_field(field, k_bytes("T"@));
                        match spec_dict_get(field, k_bytes("V"@)) {
                            Some(PdfObject::Reference(sn, sg)) => match spec_get_object(doc, sn, sg) {
                                Some(PdfObject::Dictionary(d)) => Some(
                                    spec_field_info(doc, file_size, field_name, d, Some(sn)),
                                ),
                                _ => None,
                            },
                            Some(PdfObject::Dictionary(d)) => Some(
                                spec_field_info(doc, file_size, field_name, d, None),
                            ),
                            _ => None,
                        }
                    }
                },
                _ => None,
            },
            _ => None,
        },
        _ => None,
    }
}

/// The signature fields among the AcroForm entries `fos`, in order.
pub open spec fn spec_sig_fields(doc: PdfDocument, file_size: i64, fos: Seq<PdfObject>) -> Seq<
    FieldModel,
>
    decreases fos.len(),
{
    if fos.len() == 0 {
        Seq::empty()
    } else {
        let acc = spec_sig_fields(doc, file_size, fos.drop_last());
        match spec_sig_field(doc, file_size, fos.last()) {
            Some(f) => acc.push(f),
            None => acc,
        }
    }
}

/// The DocMDP level among the signature references `refs`.
fn docmdp(doc: &PdfDocument, refs: &Vec<PdfObject>) -> (r: Option<i64>)
    ensures
        r == spec_docmdp(*doc, refs@),
{
    let ghost rs = refs@;
    let mut acc: Option<i64> = None;
    let mut i: usize = 0;
    assert(rs.take(0) =~= Seq::<PdfObject>::empty());
    while i < refs.len()
        invariant
            i <= rs.len(),
            rs == refs@,
            acc == spec_docmdp(*doc, rs.take(i as int)),
        decreases rs.len() - i,
    {
        proof {
            assert(rs.take(i + 1).drop_last() =~= rs.take(i as int));
            assert(rs.take(i + 1).last() == rs[i as int]);
            reveal_strlit("TransformMethod");
            reveal_strlit("DocMDP");
            reveal_strlit("TransformParams");
            reveal_strlit("P");
        }
        if let Some(rd) = resolve_dict(doc, &refs[i]) {
            if let Some(PdfObject::Name(t)) = lookup(rd, "TransformMethod") {
                let docmdp_key = key("DocMDP");
                if slice_eq_vec(t, &docmdp_key) {
                    if let Some(params) = lookup(rd, "TransformParams") {
                        if let Some(pd) = resolve_dict(doc, params) {
                            acc = match lookup(pd, "P") {
                                Some(PdfObject::Integer(p)) => Some(*p),
                                _ => Some(2),
                            };
                        }
                    }
                }
            }
        }
        i = i + 1;
    }
    assert(rs.take(i as int) =~= rs);
    acc
}

fn slice_eq_vec(a: &Vec<u8>, b: &Vec<u8>) -> (r: bool)
    ensures
        r == (a@ == b@),
{
    crate::cms::signed_data::slice_eq(a.as_slice(), b.as_slice())
}

/// The application name under `/Prop_Build /App /Name`.
fn build_app_name(doc: &PdfDocument, d: &PdfDict) -> (r: Option<String>)
    ensures
        opt_chars(r) == spec_build_app_name(*doc, *d),
{
    proof {
        reveal_strlit("Prop_Build");
        reveal_strlit("App");
        reveal_strlit("Name");
    }
    let bo = match lookup(d, "Prop_Build") {
        Some(o) => o,
        None => {
            return None;
        },
    };
    let bd = match resolve_dict(doc, bo) {
        Some(x) => x,
        None => {
            return None;
        },
    };
    let ao = match lookup(bd, "App") {
        Some(o) => o,
        None => {
            return None;
        },
    };
    let ad = match resolve_dict(doc, ao) {
        Some(x) => x,
        None => {
            return None;
        },
    };
    let name_key = key("Name");
    match extract_name_field(ad, name_key.as_slice()) {
        Some(n) => Some(n),
        None => extract_string_field(ad, name_key.as_slice()),
    }
}

/// The information of a signature field.
fn field_info(
    doc: &PdfDocument,
    file_size: i64,
    field_name: Option<String>,
    d: &PdfDict,
    num: Option<u32>,
) -> (r: SignatureFieldInfo)
    ensures
        r@ == spec_field_info(*doc, file_size, opt_chars(field_name), *d, num),
{
    proof {
        reveal_strlit("Filter");
        reveal_strlit("SubFilter");
        reveal_strlit("Name");
        reveal_strlit("Reason");
        reveal_strlit("Location");
        reveal_strlit("ContactInfo");
        reveal_strlit("M");
        reveal_strlit("Contents");
        reveal_strlit("Reference");
    }
    let k_filter = key("Filter");
    let k_sub = key("SubFilter");
    let k_name = key("Name");
    let k_reason = key("Reason");
    let k_location = key("Location");
    let k_contact = key("ContactInfo");
    let k_m = key("M");
    let byte_range = extract_byte_range(d);
    let coverage = match &byte_range {
        Some(br) => Some(compute_coverage(br, file_size)),
        None => None,
    };
    let (contents_length, contents_hex_preview) = match lookup(d, "Contents") {
        Some(PdfObject::Str(c)) => {
            let n = if c.len() < 32 {
                c.len()
            } else {
                32
            };
            let head = &c.as_slice()[0..n];
            assert(head@ =~= c@.take(n as int));
            let preview = hex_encode(head);
            (Some(c.len()), Some(preview))
        },
        _ => (None, None),
    };
    let doc_mdp_permissions = match lookup(d, "Reference") {
        Some(PdfObject::Array(refs)) => docmdp(doc, refs),
        _ => None,
    };
    SignatureFieldInfo {
        field_name,
        obj_num: num,
        filter: extract_name_field(d, k_filter.as_slice()),
        sub_filter: extract_name_field(d, k_sub.as_slice()),
        name: extract_string_field(d, k_name.as_slice()),
        reason: extract_string_field(d, k_reason.as_slice()),
        location: extract_string_field(d, k_location.as_slice()),
        contact_info: extract_string_field(d, k_contact.as_slice()),
        signing_time: extract_string_field(d, k_m.as_slice()),
        byte_range,
        coverage,
        contents_length,
        contents_hex_preview,
        doc_mdp_permissions,
        build_app_name: build_app_name(doc, d),
    }
}

/// The signature field that an AcroForm entry refers to.
fn sig_field(doc: &PdfDocument, file_size: i64, fo: &PdfObject) -> (r: Option<SignatureFieldInfo>)
    ensures
        match spec_sig_field(*doc, file_size, *fo) {
            None => r is None,
            Some(m) => r matches Some(x) && x@ == m,
        },
{
    proof {
        reveal_strlit("FT");
        reveal_strlit("Sig");
        reveal_strlit("T");
        reveal_strlit("V");
    }
    let (n, g) = match fo {
        PdfObject::Reference(n, g) => (*n, *g),
        _ => {
            return None;
        },
    };
    let field = match get_object(doc, n, g) {
        Some(PdfObject::Dictionary(f)) => f,
        _ => {
            return None;
        },
    };
    let ft = match lookup(field, "FT") {
        Some(PdfObject::Name(ft)) => ft,
        _ => {
            return None;
        },
    };
    let sig = key("Sig");
    if !slice_eq_vec(ft, &sig) {
        return None;
    }
    let k_t = key("T");
    let field_name = extract_string_field(field, k_t.as_slice());
    match lookup(field, "V") {
        Some(PdfObject::Reference(sn, sg)) => match get_object(doc, *sn, *sg) {
            Some(PdfObject::Dictionary(d)) => Some(field_info(doc, file_size, field_name, d, Some(*sn))),
            _ => None,
        },
        Some(PdfObject::Dictionary(d)) => Some(field_info(doc, file_size, field_name, d, None)),
        _ => None,
    }
}

pub open spec fn field_views(s: Seq<SignatureFieldInfo>) -> Seq<FieldModel> {
    s.map_values(|x: SignatureFieldInfo| x@)
}

/// The AcroForm entries of the catalog `cat`.
pub open spec fn spec_form_fields(doc: PdfDocument, cat: PdfDict) -> Seq<PdfObject> {
    match spec_dict_get(cat, k_bytes("AcroForm"@)) {
        Some(ao) => match spec_resolve_dict(doc, ao) {
            Some(af) => match spec_dict_get(af, k_bytes("Fields"@)) {
                Some(PdfObject::Array(a)) => a@,
                _ => Seq::empty(),
            },
            None => Seq::empty(),
        },
        None => Seq::empty(),
    }
}

/// Result of inspecting a PDF's signature-related structures.
#[derive(Debug)]
pub struct PdfSignatureInspection {
    /// Whether the PDF has any signatures.
    pub has_signatures: bool,
    /// Number of signatures found.
    pub num_signatures: usize,
    /// Signature field details.
    pub signatures: Vec<SignatureFieldInfo>,
    /// Document Security Store, if present.
    pub dss: Option<DssInfo>,
    /// Detected revisions.
    pub revisions: Vec<RevisionInfo>,
    /// Total file size in bytes.
    pub file_size: usize,
}

/// A signature inspection as mathematical values.
pub struct SignatureInspectionModel {
    pub has_signatures: bool,
    pub num_signatures: usize,
    pub signatures: Seq<FieldModel>,
    pub dss: Option<DssModel>,
    pub revisions: Seq<RevisionInfo>,
    pub file_size: usize,
}

impl View for PdfSignatureInspection {
    type V = SignatureInspectionModel;

    open spec fn view(&self) -> SignatureInspectionModel {
        SignatureInspectionModel {
            has_signatures: self.has_signatures,
            num_signatures: self.num_signatures,
            signatures: field_views(self.signatures@),
            dss: match self.dss {
                Some(d) => Some(d@),
                None => None,
            },
            revisions: self.revisions@,
            file_size: self.file_size,
        }
    }
}

/// The signature inspection of the PDF `data`; refused when lopdf cannot
/// load it or it has no catalog.
pub open spec fn spec_inspect_signatures(data: Seq<u8>) -> Result<
    SignatureInspectionModel,
    InspectFault,
> {
    match spec_load_pdf(data) {
        None => Err(InspectFault::PdfParse),
        Some(doc) => match spec_catalog(doc) {
            None => Err(InspectFault::PdfParse),
            Some(cat) => {
                let sigs = spec_sig_fields(doc, data.len() as i64, spec_form_fields(doc, cat));
                Ok(
                    SignatureInspectionModel {
                        has_signatures: sigs.len() > 0,
                        num_signatures: sigs.len() as usize,
                        signatures: sigs,
                        dss: spec_dss(doc, cat),
                        revisions: spec_detect_revisions(data),
                        file_size: data.len() as usize,
                    },
                )
            },
        },
    }
}

/// Inspect all signature-related data in a PDF: signature fields, the DSS
/// with its full DER content, and the revisions.
pub fn inspect_signatures(pdf_data: &[u8]) -> (r: Result<PdfSignatureInspection, InspectError>)
    ensures
        match spec_inspect_signatures(pdf_data@) {
            Err(f) => r matches Err(e) && e.fault() == f,
            Ok(m) => r matches Ok(x) && x@ == m,
        },
{
    let file_size = pdf_data.len();
    let doc = match load_pdf(pdf_data) {
        Some(d) => d,
        None => {
            return Err(InspectError::PdfParse(String::from_str("cannot load the PDF")));
        },
    };
    let cat = match catalog(&doc) {
        Some(c) => c,
        None => {
            return Err(InspectError::PdfParse(String::from_str("failed to get catalog")));
        },
    };
    proof {
        reveal_strlit("AcroForm");
        reveal_strlit("Fields");
    }
    let empty: Vec<PdfObject> = Vec::new();
    let fields: &Vec<PdfObject> = match lookup(cat, "AcroForm") {
        Some(ao) => match resolve_dict(&doc, ao) {
            Some(af) => match lookup(af, "Fields") {
                Some(PdfObject::Array(a)) => a,
                _ => &empty,
            },
            None => &empty,
        },
        None => &empty,
    };
    assert(fields@ == spec_form_fields(doc, *cat));
    let ghost fos = fields@;
    let mut signatures: Vec<SignatureFieldInfo> = Vec::new();
    let mut i: usize = 0;
    assert(fos.take(0) =~= Seq::<PdfObject>::empty());
    assert(field_views(signatures@) =~= Seq::<FieldModel>::empty());
    while i < fields.len()
        invariant
            i <= fos.len(),
            fos == fields@,
            field_views(signatures@) == spec_sig_fields(doc, file_size as i64, fos.take(i as int)),
        decreases fos.len() - i,
    {
        proof {
            assert(fos.take(i + 1).drop_last() =~= fos.take(i as int));
            assert(fos.take(i + 1).last() == fos[i as int]);
        }
        if let Some(info) = sig_field(&doc, file_size as i64, &fields[i]) {
            assert(field_views(signatures@.push(info)) =~= field_views(signatures@).push(info@));
            signatures.push(info);
        }
        i = i + 1;
    }
    assert(fos.take(i as int) =~= fos);
    let dss = extract_dss(&doc, cat);
    let revisions = detect_revisions(pdf_data);
    let num_signatures = signatures.len();
    Ok(
        PdfSignatureInspection {
            has_signatures: num_signatures > 0,
            num_signatures,
            signatures,
            dss,
            revisions,
            file_size,
        },
    )
}

/// Entries of which none is a signature field give no signature fields.
proof fn lemma_no_sig_fields(doc: PdfDocument, file_size: i64, fos: Seq<PdfObject>)
    requires
        forall|i: int| 0 <= i < fos.len() ==> spec_sig_field(doc, file_size, #[trigger] fos[i]) is None,
    ensures
        spec_sig_fields(doc, file_size, fos).len() == 0,
    decreases fos.len(),
{
    if fos.len() > 0 {
        assert(fos.last() == fos[fos.len() - 1]);
        assert forall|i: int| 0 <= i < fos.drop_last().len() implies spec_sig_field(
            doc,
            file_size,
            #[trigger] fos.drop_last()[i],
        ) is None by {
            assert(fos.drop_last()[i] == fos[i]);
        }
        lemma_no_sig_fields(doc, file_size, fos.drop_last());
    }
}

/// **What an inspection reports of the file as a whole.** When the bytes
/// load as a PDF with a catalog, the inspection gives the file's size, one
/// entry per signature field among the AcroForm fields (as many as
/// `num_signatures` says, with `has_signatures` telling whether there is
/// any), the revisions that [`detect_revisions`](super::revisions::detect_revisions)
/// finds, and a DSS exactly when the catalog has one; a document none of
/// whose AcroForm fields is a signature field has no signatures. Otherwise
/// the inspection fails to parse.
pub proof fn law_inspection_of_the_whole_file(data: Seq<u8>)
    ensures
        (spec_load_pdf(data) is None || spec_catalog(spec_load_pdf(data)->Some_0) is None) <==> (
        spec_inspect_signatures(data) == Err::<SignatureInspectionModel, InspectFault>(
            InspectFault::PdfParse,
        )),
        spec_inspect_signatures(data) matches Ok(m) ==> {
            let doc = spec_load_pdf(data)->Some_0;
            let cat = spec_catalog(doc)->Some_0;
            let fos = spec_form_fields(doc, cat);
            &&& m.file_size == data.len() as usize
            &&& m.num_signatures == m.signatures.len() as usize
            &&& m.has_signatures <==> m.signatures.len() > 0
            &&& m.revisions == spec_detect_revisions(data)
            &&& (m.dss is Some <==> spec_dss_dict(doc, cat) is Some)
            &&& ((forall|i: int|
                0 <= i < fos.len() ==> spec_sig_field(doc, data.len() as i64, #[trigger] fos[i])
                    is None) ==> m.signatures.len() == 0 && !m.has_signatures && m.num_signatures
                == 0)
        },
{
    if spec_inspect_signatures(data) is Ok {
        let doc = spec_load_pdf(data)->Some_0;
        let cat = spec_catalog(doc)->Some_0;
        let fos = spec_form_fields(doc, cat);
        if forall|i: int|
            0 <= i < fos.len() ==> spec_sig_field(doc, data.len() as i64, #[trigger] fos[i]) is None {
            lemma_no_sig_fields(doc, data.len() as i64, fos);
        }
    }
}

/// The data of the non-empty streams that the array under `key` in `d`
/// refers to, in the array's order; nothing when `key` holds no array.
pub open spec fn streams_listed(doc: PdfDocument, d: PdfDict, key: Seq<u8>) -> Seq<Seq<u8>> {
    match spec_dict_get(d, key) {
        Some(PdfObject::Array(a)) => a@.filter_map(|o: PdfObject| spec_stream_data(doc, o)),
        _ => Seq::empty(),
    }
}

proof fn lemma_stream_items_filter_map(doc: PdfDocument, items: Seq<PdfObject>)
    ensures
        spec_stream_items(doc, items) == items.filter_map(|o: PdfObject| spec_stream_data(doc, o)),
    decreases items.len(),
{
    if items.len() > 0 {
        lemma_stream_items_filter_map(doc, items.drop_last());
        let f = |o: PdfObject| spec_stream_data(doc, o);
        match spec_stream_data(doc, items.last()) {
            Some(d) => {
                assert(items.drop_last().filter_map(f).push(d) =~= items.drop_last().filter_map(f)
                    + seq![d]);
            },
            None => {},
        }
    }
}

/// **The DSS reports what it lists.** When the catalog has a Document
/// Security Store, the inspection reports its object number (when it is
/// held indirectly), as certificates the streams of its `/Certs` array, as
/// OCSP responses those of its `/OCSPs` array and as CRLs those of its
/// `/CRLs` array (each in the array's order, the non-empty streams), with
/// their counts; without one it reports none.
pub proof fn law_dss_reports_its_arrays(doc: PdfDocument, cat: PdfDict)
    ensures
        spec_dss(doc, cat) is Some <==> spec_dss_dict(doc, cat) is Some,
        spec_dss_dict(doc, cat) matches Some((dd, num)) ==> spec_dss(doc, cat) matches Some(x) && {
            &&& x.obj_num == num
            &&& x.certs == streams_listed(doc, dd, k_bytes("Certs"@))
            &&& x.ocsps == streams_listed(doc, dd, k_bytes("OCSPs"@))
            &&& x.crls == streams_listed(doc, dd, k_bytes("CRLs"@))
            &&& x.num_certs == x.certs.len() as usize
            &&& x.num_ocsps == x.ocsps.len() as usize
            &&& x.num_crls == x.crls.len() as usize
        },
{
    if let Some((dd, num)) = spec_dss_dict(doc, cat) {
        if let Some(PdfObject::Array(a)) = spec_dict_get(dd, k_bytes("Certs"@)) {
            lemma_stream_items_filter_map(doc, a@);
        }
        if let Some(PdfObject::Array(a)) = spec_dict_get(dd, k_bytes("OCSPs"@)) {
            lemma_stream_items_filter_map(doc, a@);
        }
        if let Some(PdfObject::Array(a)) = spec_dict_get(dd, k_bytes("CRLs"@)) {
            lemma_stream_items_filter_map(doc, a@);
        }
    }
}

} // verus!
