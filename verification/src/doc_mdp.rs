//! DocMDP: the permissions of a certification signature, and the catalog
//! entry that marks a signature as the certifying one.

use vstd::prelude::*;

use crate::inspect::pdf::{
    spec_dict_find, spec_find_object, PdfDict, PdfDocument, PdfObject,
};
use crate::cms::signed_data::slice_eq;

verus! {

/// Permitted changes level for a certification signature (DocMDP).
#[derive(Debug, Clone, Copy, PartialEq, Eq, Structural)]
pub enum DocMdpPermissions {
    /// No changes allowed.
    NoChanges,
    /// Form filling and signing only.
    FormFillingAndSigning,
    /// Form filling, signing, and annotation.
    FormFillingSigningAndAnnotation,
}

/// The `/P` value of `p`.
pub open spec fn spec_as_p(p: DocMdpPermissions) -> i64 {
    match p {
        DocMdpPermissions::NoChanges => 1,
        DocMdpPermissions::FormFillingAndSigning => 2,
        DocMdpPermissions::FormFillingSigningAndAnnotation => 3,
    }
}

impl DocMdpPermissions {
    /// The `/P` value used in the DocMDP `TransformParams` dictionary.
    pub fn as_p(self) -> (p: i64)
        ensures
            p == spec_as_p(self),
    {
        match self {
            DocMdpPermissions::NoChanges => 1,
            DocMdpPermissions::FormFillingAndSigning => 2,
            DocMdpPermissions::FormFillingSigningAndAnnotation => 3,
        }
    }
}

impl Default for DocMdpPermissions {
    /// Form filling and signing.
    fn default() -> (r: DocMdpPermissions)
        ensures
            r == DocMdpPermissions::FormFillingAndSigning,
    {
        DocMdpPermissions::FormFillingAndSigning
    }
}

/// The permission levels are the integers 1 to 3, in order.
pub proof fn law_permission_levels(p: DocMdpPermissions)
    ensures
        1 <= spec_as_p(p) <= 3,
        spec_as_p(p) == 1 <==> p == DocMdpPermissions::NoChanges,
        spec_as_p(p) == 3 <==> p == DocMdpPermissions::FormFillingSigningAndAnnotation,
{
}

/// Which class of failure a document edit reports.
pub enum CoreFault {
    InvalidStructure,
}

/// Errors from editing a document's structure.
#[derive(Debug)]
pub enum CoreError {
    /// The document is not shaped as the edit needs.
    InvalidStructure(String),
}

impl CoreError {
    /// The class of this error.
    pub open spec fn fault(&self) -> CoreFault {
        match self {
            CoreError::InvalidStructure(_) => CoreFault::InvalidStructure,
        }
    }
}

// --- names -------------------------------------------------------------------

pub open spec fn n_type() -> Seq<u8> {
    seq![0x54u8, 0x79, 0x70, 0x65]
}

pub open spec fn n_p() -> Seq<u8> {
    seq![0x50u8]
}

pub open spec fn n_v() -> Seq<u8> {
    seq![0x56u8]
}

pub open spec fn n_transform_params() -> Seq<u8> {
    seq![0x54u8, 0x72, 0x61, 0x6E, 0x73, 0x66, 0x6F, 0x72, 0x6D, 0x50, 0x61, 0x72, 0x61, 0x6D, 0x73]
}

pub open spec fn n_transform_method() -> Seq<u8> {
    seq![0x54u8, 0x72, 0x61, 0x6E, 0x73, 0x66, 0x6F, 0x72, 0x6D, 0x4D, 0x65, 0x74, 0x68, 0x6F, 0x64]
}

pub open spec fn n_sig_ref() -> Seq<u8> {
    seq![0x53u8, 0x69, 0x67, 0x52, 0x65, 0x66]
}

pub open spec fn n_docmdp() -> Seq<u8> {
    seq![0x44u8, 0x6F, 0x63, 0x4D, 0x44, 0x50]
}

pub open spec fn n_version() -> Seq<u8> {
    seq![0x31u8, 0x2E, 0x32]
}

pub open spec fn n_perms() -> Seq<u8> {
    seq![0x50u8, 0x65, 0x72, 0x6D, 0x73]
}

fn bytes_type() -> (r: Vec<u8>)
    ensures
        r@ == n_type(),
{
    let r = vec![0x54u8, 0x79, 0x70, 0x65];
    assert(r@ =~= n_type());
    r
}

fn bytes_p() -> (r: Vec<u8>)
    ensures
        r@ == n_p(),
{
    let r = vec![0x50u8];
    assert(r@ =~= n_p());
    r
}

fn bytes_v() -> (r: Vec<u8>)
    ensures
        r@ == n_v(),
{
    let r = vec![0x56u8];
    assert(r@ =~= n_v());
    r
}

fn bytes_transform_params() -> (r: Vec<u8>)
    ensures
        r@ == n_transform_params(),
{
    let r = vec![0x54u8, 0x72, 0x61, 0x6E, 0x73, 0x66, 0x6F, 0x72, 0x6D, 0x50, 0x61, 0x72, 0x61, 0x6D, 0x73];
    assert(r@ =~= n_transform_params());
    r
}

fn bytes_transform_method() -> (r: Vec<u8>)
    ensures
        r@ == n_transform_method(),
{
    let r = vec![0x54u8, 0x72, 0x61, 0x6E, 0x73, 0x66, 0x6F, 0x72, 0x6D, 0x4D, 0x65, 0x74, 0x68, 0x6F, 0x64];
    assert(r@ =~= n_transform_method());
    r
}

fn bytes_sig_ref() -> (r: Vec<u8>)
    ensures
        r@ == n_sig_ref(),
{
    let r = vec![0x53u8, 0x69, 0x67, 0x52, 0x65, 0x66];
    assert(r@ =~= n_sig_ref());
    r
}

fn bytes_docmdp() -> (r: Vec<u8>)
    ensures
        r@ == n_docmdp(),
{
    let r = vec![0x44u8, 0x6F, 0x63, 0x4D, 0x44, 0x50];
    assert(r@ =~= n_docmdp());
    r
}

fn bytes_version() -> (r: Vec<u8>)
    ensures
        r@ == n_version(),
{
    let r = vec![0x31u8, 0x2E, 0x32];
    assert(r@ =~= n_version());
    r
}

fn bytes_perms() -> (r: Vec<u8>)
    ensures
        r@ == n_perms(),
{
    let r = vec![0x50u8, 0x65, 0x72, 0x6D, 0x73];
    assert(r@ =~= n_perms());
    r
}

// --- the /Reference array --------------------------------------------------------

/// An object as plain values, to state what is built without speaking of
/// vectors.
pub enum ObjShape {
    Name(Seq<u8>),
    Integer(i64),
    Reference(u32, u16),
    Dict(Seq<(Seq<u8>, ObjShape)>),
    Array(Seq<ObjShape>),
    Other,
}

/// The shape of `o`, two levels of containers deep.
pub open spec fn shape(o: PdfObject, depth: nat) -> ObjShape
    decreases depth,
{
    match o {
        PdfObject::Name(n) => ObjShape::Name(n@),
        PdfObject::Integer(i) => ObjShape::Integer(i),
        PdfObject::Reference(n, g) => ObjShape::Reference(n, g),
        PdfObject::Dictionary(d) => {
            if depth == 0 {
                ObjShape::Other
            } else {
                ObjShape::Dict(
                    Seq::new(
                        d.entries@.len(),
                        |i: int| (d.entries@[i].0@, shape(d.entries@[i].1, (depth - 1) as nat)),
                    ),
                )
            }
        },
        PdfObject::Array(a) => {
            if depth == 0 {
                ObjShape::Other
            } else {
                ObjShape::Array(Seq::new(a@.len(), |i: int| shape(a@[i], (depth - 1) as nat)))
            }
        },
        _ => ObjShape::Other,
    }
}

/// The `/Reference` array of a certification signature with permission
/// level `p`:
///
/// ```text
/// [ << /Type /SigRef
///      /TransformMethod /DocMDP
///      /TransformParams << /Type /TransformParams /P p /V /1.2 >> >> ]
/// ```
pub open spec fn spec_docmdp_reference(p: DocMdpPermissions) -> ObjShape {
    ObjShape::Array(
        seq![
            ObjShape::Dict(
                seq![
                    (n_type(), ObjShape::Name(n_sig_ref())),
                    (n_transform_method(), ObjShape::Name(n_docmdp())),
                    (
                        n_transform_params(),
                        ObjShape::Dict(
                            seq![
                                (n_type(), ObjShape::Name(n_transform_params())),
                                (n_p(), ObjShape::Integer(spec_as_p(p))),
                                (n_v(), ObjShape::Name(n_version())),
                            ],
                        ),
                    ),
                ],
            ),
        ],
    )
}

/// Build the `/Reference` array for a certification (DocMDP) signature.
///
/// It goes in the signature dictionary and carries a single
/// signature-reference dictionary using the `DocMDP` transform method with a
/// `TransformParams` `/P` permission level and `/V 1.2` (PDF 32000-1
/// §12.8.2.2). The catalog must additionally carry `/Perms << /DocMDP ... >>`
/// (see [`set_docmdp_perms`]).
pub fn build_docmdp_reference(perms: DocMdpPermissions) -> (r: PdfObject)
    ensures
        shape(r, 3) == spec_docmdp_reference(perms),
{
    let mut params: Vec<(Vec<u8>, PdfObject)> = Vec::new();
    params.push((bytes_type(), PdfObject::Name(bytes_transform_params())));
    params.push((bytes_p(), PdfObject::Integer(perms.as_p())));
    params.push((bytes_v(), PdfObject::Name(bytes_version())));
    let ghost pv = params@;
    let params_obj = PdfObject::Dictionary(PdfDict { entries: params });
    proof {
        let s1 = ObjShape::Dict(
            seq![
                (n_type(), ObjShape::Name(n_transform_params())),
                (n_p(), ObjShape::Integer(spec_as_p(perms))),
                (n_v(), ObjShape::Name(n_version())),
            ],
        );
        assert(shape(pv[0].1, 0) == ObjShape::Name(n_transform_params()));
        assert(shape(pv[1].1, 0) == ObjShape::Integer(spec_as_p(perms)));
        assert(shape(pv[2].1, 0) == ObjShape::Name(n_version()));
        let inner = Seq::new(pv.len(), |i: int| (pv[i].0@, shape(pv[i].1, 0)));
        assert(pv.len() == 3);
        assert(inner[0] == (n_type(), ObjShape::Name(n_transform_params())));
        assert(inner[1] == (n_p(), ObjShape::Integer(spec_as_p(perms))));
        assert(inner[2] == (n_v(), ObjShape::Name(n_version())));
        assert(inner =~= seq![
            (n_type(), ObjShape::Name(n_transform_params())),
            (n_p(), ObjShape::Integer(spec_as_p(perms))),
            (n_v(), ObjShape::Name(n_version())),
        ]);
        if let ObjShape::Dict(x) = shape(params_obj, 1) {
            assert(x =~= inner);
        }
        assert(shape(params_obj, 1) == ObjShape::Dict(inner));
        assert(shape(params_obj, 1) == s1);
    }
    let mut sig_ref: Vec<(Vec<u8>, PdfObject)> = Vec::new();
    sig_ref.push((bytes_type(), PdfObject::Name(bytes_sig_ref())));
    sig_ref.push((bytes_transform_method(), PdfObject::Name(bytes_docmdp())));
    sig_ref.push((bytes_transform_params(), params_obj));
    let ghost sv = sig_ref@;
    let sig_obj = PdfObject::Dictionary(PdfDict { entries: sig_ref });
    proof {
        let s2 = match spec_docmdp_reference(perms) {
            ObjShape::Array(x) => x[0],
            _ => ObjShape::Other,
        };
        assert(shape(sv[0].1, 1) == ObjShape::Name(n_sig_ref()));
        assert(shape(sv[1].1, 1) == ObjShape::Name(n_docmdp()));
        assert(shape(sv[2].1, 1) == shape(params_obj, 1));
        let inner2 = Seq::new(sv.len(), |i: int| (sv[i].0@, shape(sv[i].1, 1)));
        assert(sv.len() == 3);
        assert(inner2[0] == (n_type(), ObjShape::Name(n_sig_ref())));
        assert(inner2[1] == (n_transform_method(), ObjShape::Name(n_docmdp())));
        assert(inner2[2] == (n_transform_params(), shape(params_obj, 1)));
        assert(inner2 =~= seq![
            (n_type(), ObjShape::Name(n_sig_ref())),
            (n_transform_method(), ObjShape::Name(n_docmdp())),
            (n_transform_params(), shape(params_obj, 1)),
        ]);
        if let ObjShape::Dict(x) = shape(sig_obj, 2) {
            assert(x =~= inner2);
        }
        assert(shape(sig_obj, 2) == ObjShape::Dict(inner2));
        assert(shape(sig_obj, 2) == s2);
    }
    let mut arr: Vec<PdfObject> = Vec::new();
    arr.push(sig_obj);
    let ghost av = arr@;
    let r = PdfObject::Array(arr);
    proof {
        assert(av[0] == sig_obj);
        let inner3 = Seq::new(av.len(), |i: int| shape(av[i], 2));
        assert(inner3 =~= seq![shape(sig_obj, 2)]);
        if let ObjShape::Array(x) = shape(r, 3) {
            assert(x =~= inner3);
        }
        assert(shape(r, 3) == ObjShape::Array(inner3));
    }
    r
}

// --- the catalog's /Perms -------------------------------------------------------

/// The index of the object that the object at `i` ends at once references
/// are followed, at most `fuel` of them (where lopdf's `get_object_mut`
/// lands).
pub open spec fn spec_deref_index(objs: Seq<(u32, u16, PdfObject)>, i: int, fuel: nat) -> Option<
    int,
>
    decreases fuel,
{
    if !(0 <= i < objs.len()) {
        None
    } else {
        match objs[i].2 {
            PdfObject::Reference(n, g) => {
                if fuel == 0 {
                    None
                } else {
                    match spec_find_object(objs, n, g) {
                        None => None,
                        Some(j) => spec_deref_index(objs, j, (fuel - 1) as nat),
                    }
                }
            },
            _ => Some(i),
        }
    }
}

/// The index of the catalog object `(n, g)` as lopdf's
/// `get_dictionary_mut` finds it.
pub open spec fn spec_catalog_index(objs: Seq<(u32, u16, PdfObject)>, n: u32, g: u16) -> Option<int> {
    match spec_find_object(objs, n, g) {
        None => None,
        Some(i) => spec_deref_index(objs, i, 128),
    }
}

/// The entries of the `/Perms` dictionary of `d`; none when it has none or
/// it is no dictionary.
pub open spec fn spec_perms_of(d: PdfDict) -> Seq<(Vec<u8>, PdfObject)> {
    match spec_dict_find(d.entries@, n_perms()) {
        Some(j) => match d.entries@[j].1 {
            PdfObject::Dictionary(pd) => pd.entries@,
            _ => Seq::empty(),
        },
        None => Seq::empty(),
    }
}

/// The index of the dictionary that the `/Perms` of the catalog `d` (the
/// object at index `k`) refers to, references followed, when `/Perms` is a
/// reference to a dictionary other than the catalog itself; `None` when
/// `/Perms` is absent, held inline, or refers to nothing usable.
pub open spec fn spec_perms_target(objs: Seq<(u32, u16, PdfObject)>, k: int, d: PdfDict) -> Option<
    int,
> {
    match spec_dict_find(d.entries@, n_perms()) {
        Some(j) => match d.entries@[j].1 {
            PdfObject::Reference(pn, pg) => match spec_catalog_index(objs, pn, pg) {
                Some(p) => if p != k && objs[p].2 is Dictionary {
                    Some(p)
                } else {
                    None
                },
                None => None,
            },
            _ => None,
        },
        None => None,
    }
}

/// The entries of the `/Perms` dictionary in force for the catalog `d` at
/// index `k`: those of the dictionary it refers to, else those held inline.
pub open spec fn spec_perms_in_force(objs: Seq<(u32, u16, PdfObject)>, k: int, d: PdfDict) -> Seq<
    (Vec<u8>, PdfObject),
> {
    match spec_perms_target(objs, k, d) {
        Some(p) => match objs[p].2 {
            PdfObject::Dictionary(pd) => pd.entries@,
            _ => Seq::empty(),
        },
        None => spec_perms_of(d),
    }
}

/// Setting the certification entry is refused: the catalog cannot be
/// found as a dictionary, or the `/Perms` in force already names a
/// certifying signature.
pub open spec fn spec_docmdp_refused(objs: Seq<(u32, u16, PdfObject)>, n: u32, g: u16) -> bool {
    match spec_catalog_index(objs, n, g) {
        None => true,
        Some(k) => match objs[k].2 {
            PdfObject::Dictionary(d) => spec_dict_find(spec_perms_in_force(objs, k, d), n_docmdp())
                is Some,
            _ => true,
        },
    }
}

/// `p2` is the permissions `old` with `/DocMDP` referring to `(sn, sg)`
/// added at the end.
pub open spec fn perms_with_docmdp(old: Seq<(Vec<u8>, PdfObject)>, p2: PdfDict, sn: u32, sg: u16) -> bool {
    &&& p2.entries@.len() == old.len() + 1
    &&& p2.entries@.take(old.len() as int) == old
    &&& p2.entries@.last().0@ == n_docmdp()
    &&& p2.entries@.last().1 == PdfObject::Reference(sn, sg)
}

/// The catalog `d2` is `d` with its `/Perms` replaced, in place or at the
/// end, by a dictionary that adds `/DocMDP` to the old permissions.
pub open spec fn catalog_with_docmdp(d: PdfDict, d2: PdfDict, sn: u32, sg: u16) -> bool {
    let es = d.entries@;
    let es2 = d2.entries@;
    match spec_dict_find(es, n_perms()) {
        Some(j) => {
            &&& es2.len() == es.len()
            &&& forall|i: int| 0 <= i < es.len() && i != j ==> #[trigger] es2[i] == es[i]
            &&& es2[j].0 == es[j].0
            &&& es2[j].1 matches PdfObject::Dictionary(p2) && perms_with_docmdp(spec_perms_of(d), p2, sn, sg)
        },
        None => {
            &&& es2.len() == es.len() + 1
            &&& es2.take(es.len() as int) == es
            &&& es2.last().0@ == n_perms()
            &&& es2.last().1 matches PdfObject::Dictionary(p2) && perms_with_docmdp(spec_perms_of(d), p2, sn, sg)
        },
    }
}

/// The objects `new` are `old` with the catalog `(n, g)` marked as certified
/// by the signature dictionary `(sn, sg)`: `/DocMDP` is added to the
/// `/Perms` dictionary that the catalog refers to, or else to the one it
/// holds inline (made when there is none).
pub open spec fn docmdp_applied(
    old: Seq<(u32, u16, PdfObject)>,
    new: Seq<(u32, u16, PdfObject)>,
    n: u32,
    g: u16,
    sn: u32,
    sg: u16,
) -> bool {
    let k = spec_catalog_index(old, n, g)->Some_0;
    let d = old[k].2->Dictionary_0;
    &&& new.len() == old.len()
    &&& old[k].2 is Dictionary
    &&& match spec_perms_target(old, k, d) {
        None => {
            &&& forall|i: int| 0 <= i < old.len() && i != k ==> #[trigger] new[i] == old[i]
            &&& new[k].0 == old[k].0
            &&& new[k].1 == old[k].1
            &&& new[k].2 matches PdfObject::Dictionary(d2) && catalog_with_docmdp(d, d2, sn, sg)
        },
        Some(p) => {
            &&& forall|i: int| 0 <= i < old.len() && i != p ==> #[trigger] new[i] == old[i]
            &&& new[p].0 == old[p].0
            &&& new[p].1 == old[p].1
            &&& new[p].2 matches PdfObject::Dictionary(p2) && perms_with_docmdp(
                spec_perms_in_force(old, k, d),
                p2,
                sn,
                sg,
            )
        },
    }
}

/// The index of the object with id `(n, g)`.
fn find_index(doc: &PdfDocument, n: u32, g: u16) -> (r: Option<usize>)
    ensures
        match r {
            None => spec_find_object(doc.objects@, n, g) is None,
            Some(i) => spec_find_object(doc.objects@, n, g) == Some(i as int) && i < doc.objects@.len(),
        },
{
    let ghost os = doc.objects@;
    let mut i: usize = 0;
    assert(os.skip(0) =~= os);
    while i < doc.objects.len()
        invariant
            i <= os.len(),
            os == doc.objects@,
            spec_find_object(os, n, g) == match spec_find_object(os.skip(i as int), n, g) {
                Some(k) => Some(k + i),
                None => None,
            },
        decreases os.len() - i,
    {
        assert(os.skip(i as int)[0] == os[i as int]);
        assert(os.skip(i as int).drop_first() =~= os.skip(i + 1));
        if doc.objects[i].0 == n && doc.objects[i].1 == g {
            return Some(i);
        }
        i = i + 1;
    }
    None
}

/// The index of the object `(n, g)`, references followed.
fn catalog_index(doc: &PdfDocument, n: u32, g: u16) -> (r: Option<usize>)
    ensures
        match r {
            None => spec_catalog_index(doc.objects@, n, g) is None,
            Some(k) => spec_catalog_index(doc.objects@, n, g) == Some(k as int) && k < doc.objects@.len(),
        },
{
    let mut i = match find_index(doc, n, g) {
        Some(i) => i,
        None => {
            return None;
        },
    };
    let mut fuel: usize = 128;
    loop
        invariant
            fuel <= 128,
            i < doc.objects@.len(),
            spec_catalog_index(doc.objects@, n, g) == spec_deref_index(doc.objects@, i as int, fuel as nat),
        decreases fuel,
    {
        match &doc.objects[i].2 {
            PdfObject::Reference(rn, rg) => {
                if fuel == 0 {
                    return None;
                }
                match find_index(doc, *rn, *rg) {
                    None => {
                        return None;
                    },
                    Some(j) => {
                        i = j;
                        fuel = fuel - 1;
                    },
                }
            },
            _ => {
                return Some(i);
            },
        }
    }
}

/// The index of the entry with key `key`.
fn dict_find(d: &PdfDict, key: &[u8]) -> (r: Option<usize>)
    ensures
        match r {
            None => spec_dict_find(d.entries@, key@) is None,
            Some(j) => spec_dict_find(d.entries@, key@) == Some(j as int) && j < d.entries@.len(),
        },
{
    let ghost es = d.entries@;
    let mut i: usize = 0;
    assert(es.skip(0) =~= es);
    while i < d.entries.len()
        invariant
            i <= es.len(),
            es == d.entries@,
            spec_dict_find(es, key@) == match spec_dict_find(es.skip(i as int), key@) {
                Some(k) => Some(k + i),
                None => None,
            },
        decreases es.len() - i,
    {
        assert(es.skip(i as int)[0] == es[i as int]);
        assert(es.skip(i as int).drop_first() =~= es.skip(i + 1));
        if slice_eq(d.entries[i].0.as_slice(), key) {
            return Some(i);
        }
        i = i + 1;
    }
    None
}

/// Point the document catalog's `/Perms` at the certifying signature.
///
/// A document may carry only one certification signature, and it must be the
/// first one applied (PDF 32000-1 §12.8.2.2): certifying an already
/// certified document is refused, and the document is left as it was. Any
/// other `/Perms` entries (such as `/UR3`) are kept: when `/Perms` is a
/// reference to a dictionary, `/DocMDP` is added to that dictionary and the
/// catalog is left as it is.
pub fn set_docmdp_perms(doc: &mut PdfDocument, catalog_id: (u32, u16), sig_dict_id: (u32, u16)) -> (r:
    Result<(), CoreError>)
    ensures
        r is Err <==> spec_docmdp_refused(old(doc).objects@, catalog_id.0, catalog_id.1),
        r matches Err(e) ==> e.fault() == CoreFault::InvalidStructure && final(doc).objects@ == old(
            doc,
        ).objects@,
        r is Ok ==> docmdp_applied(
            old(doc).objects@,
            final(doc).objects@,
            catalog_id.0,
            catalog_id.1,
            sig_dict_id.0,
            sig_dict_id.1,
        ),
        final(doc).version == old(doc).version,
        final(doc).trailer == old(doc).trailer,
{
    let ghost objs = doc.objects@;
    let k = match catalog_index(doc, catalog_id.0, catalog_id.1) {
        Some(k) => k,
        None => {
            return Err(CoreError::InvalidStructure(String::from_str("cannot read catalog")));
        },
    };
    let perms_key = bytes_perms();
    let docmdp_key = bytes_docmdp();
    let target: Option<usize> = match &doc.objects[k].2 {
        PdfObject::Dictionary(cd) => match dict_find(cd, perms_key.as_slice()) {
            Some(j) => match &cd.entries[j].1 {
                PdfObject::Reference(pn, pg) => match catalog_index(doc, *pn, *pg) {
                    Some(p) => {
                        if p != k && matches!(doc.objects[p].2, PdfObject::Dictionary(_)) {
                            Some(p)
                        } else {
                            None
                        }
                    },
                    None => None,
                },
                _ => None,
            },
            None => None,
        },
        _ => None,
    };
    if let Some(p) = target {
        let ghost cd = objs[k as int].2->Dictionary_0;
        assert(spec_perms_target(objs, k as int, cd) == Some(p as int));
        let refused = match &doc.objects[p].2 {
            PdfObject::Dictionary(pd) => dict_find(pd, docmdp_key.as_slice()).is_some(),
            _ => false,
        };
        if refused {
            return Err(
                CoreError::InvalidStructure(
                    String::from_str("document already has a certification signature"),
                ),
            );
        }
        let (pn, pg, pobj) = doc.objects.remove(p);
        let mut pd = match pobj {
            PdfObject::Dictionary(pd) => pd,
            other => {
                doc.objects.insert(p, (pn, pg, other));
                assert(doc.objects@ =~= objs);
                return Err(CoreError::InvalidStructure(String::from_str("/Perms is not a dictionary")));
            },
        };
        let ghost old_perms = pd.entries@;
        pd.entries.push((docmdp_key, PdfObject::Reference(sig_dict_id.0, sig_dict_id.1)));
        assert(pd.entries@.take(old_perms.len() as int) =~= old_perms);
        doc.objects.insert(p, (pn, pg, PdfObject::Dictionary(pd)));
        assert forall|i: int| 0 <= i < objs.len() && i != p implies #[trigger] doc.objects@[i]
            == objs[i] by {}
        return Ok(());
    }
    let (on, og, obj) = doc.objects.remove(k);
    let mut d = match obj {
        PdfObject::Dictionary(d) => d,
        other => {
            doc.objects.insert(k, (on, og, other));
            assert(doc.objects@ =~= objs);
            return Err(CoreError::InvalidStructure(String::from_str("catalog is not a dictionary")));
        },
    };
    let ghost d0 = d;
    assert(spec_perms_target(objs, k as int, d0) is None);
    let found = dict_find(&d, perms_key.as_slice());
    let refused = match found {
        Some(j) => match &d.entries[j].1 {
            PdfObject::Dictionary(pd) => dict_find(pd, docmdp_key.as_slice()).is_some(),
            _ => false,
        },
        None => false,
    };
    if refused {
        doc.objects.insert(k, (on, og, PdfObject::Dictionary(d)));
        assert(doc.objects@ =~= objs);
        return Err(
            CoreError::InvalidStructure(
                String::from_str("document already has a certification signature"),
            ),
        );
    }
    match found {
        Some(j) => {
            let (pk, pv) = d.entries.remove(j);
            let mut perms = match pv {
                PdfObject::Dictionary(pd) => pd,
                _ => PdfDict { entries: Vec::new() },
            };
            assert(perms.entries@ == spec_perms_of(d0));
            let ghost old_perms = perms.entries@;
            perms.entries.push((docmdp_key, PdfObject::Reference(sig_dict_id.0, sig_dict_id.1)));
            assert(perms.entries@.take(old_perms.len() as int) =~= old_perms);
            d.entries.insert(j, (pk, PdfObject::Dictionary(perms)));
            assert forall|i: int| 0 <= i < d0.entries@.len() && i != j implies #[trigger] d.entries@[i]
                == d0.entries@[i] by {}
        },
        None => {
            let mut entries: Vec<(Vec<u8>, PdfObject)> = Vec::new();
            entries.push((docmdp_key, PdfObject::Reference(sig_dict_id.0, sig_dict_id.1)));
            assert(spec_perms_of(d0) =~= Seq::<(Vec<u8>, PdfObject)>::empty());
            assert(entries@.take(0) =~= spec_perms_of(d0));
            d.entries.push((perms_key, PdfObject::Dictionary(PdfDict { entries })));
            assert(d.entries@.take(d0.entries@.len() as int) =~= d0.entries@);
        },
    }
    let ghost d1 = d;
    doc.objects.insert(k, (on, og, PdfObject::Dictionary(d)));
    assert forall|i: int| 0 <= i < objs.len() && i != k implies #[trigger] doc.objects@[i] == objs[i] by {}
    assert(catalog_with_docmdp(d0, d1, sig_dict_id.0, sig_dict_id.1));
    Ok(())
}

// --- laws ----------------------------------------------------------------------

/// Finding a key depends on the keys alone.
proof fn lemma_dict_find_keys(es: Seq<(Vec<u8>, PdfObject)>, es2: Seq<(Vec<u8>, PdfObject)>, key: Seq<u8>)
    requires
        es2.len() == es.len(),
        forall|i: int| 0 <= i < es.len() ==> (#[trigger] es2[i]).0@ == es[i].0@,
    ensures
        spec_dict_find(es2, key) == spec_dict_find(es, key),
    decreases es.len(),
{
    if es.len() > 0 {
        assert forall|i: int| 0 <= i < es.drop_first().len() implies (#[trigger] es2.drop_first()[i]).0@
            == es.drop_first()[i].0@ by {
            assert(es2.drop_first()[i] == es2[i + 1]);
            assert(es.drop_first()[i] == es[i + 1]);
        }
        lemma_dict_find_keys(es.drop_first(), es2.drop_first(), key);
    }
}

/// A key that is absent, then added at the end, is found at the end.
proof fn lemma_dict_find_push(es: Seq<(Vec<u8>, PdfObject)>, e: (Vec<u8>, PdfObject), key: Seq<u8>)
    requires
        spec_dict_find(es, key) is None,
        e.0@ == key,
    ensures
        spec_dict_find(es.push(e), key) == Some(es.len() as int),
    decreases es.len(),
{
    if es.len() == 0 {
        assert(es.push(e)[0] == e);
    } else {
        assert(es.push(e).drop_first() =~= es.drop_first().push(e));
        assert(es.push(e)[0] == es[0]);
        lemma_dict_find_push(es.drop_first(), e, key);
    }
}

/// A key that occurs is found.
proof fn lemma_dict_find_some(es: Seq<(Vec<u8>, PdfObject)>, key: Seq<u8>, i: int)
    requires
        0 <= i < es.len(),
        es[i].0@ == key,
    ensures
        spec_dict_find(es, key) is Some,
    decreases es.len(),
{
    if i > 0 && es[0].0@ != key {
        assert(es.drop_first()[i - 1] == es[i]);
        lemma_dict_find_some(es.drop_first(), key, i - 1);
    }
}

/// Finding an object depends on the ids alone.
proof fn lemma_find_object_ids(
    objs: Seq<(u32, u16, PdfObject)>,
    new: Seq<(u32, u16, PdfObject)>,
    n: u32,
    g: u16,
)
    requires
        new.len() == objs.len(),
        forall|i: int| 0 <= i < objs.len() ==> (#[trigger] new[i]).0 == objs[i].0 && new[i].1 == objs[i].1,
    ensures
        spec_find_object(new, n, g) == spec_find_object(objs, n, g),
    decreases objs.len(),
{
    if objs.len() > 0 {
        assert forall|i: int| 0 <= i < objs.drop_first().len() implies (#[trigger] new.drop_first()[i]).0
            == objs.drop_first()[i].0 && new.drop_first()[i].1 == objs.drop_first()[i].1 by {
            assert(new.drop_first()[i] == new[i + 1]);
            assert(objs.drop_first()[i] == objs[i + 1]);
        }
        lemma_find_object_ids(objs.drop_first(), new.drop_first(), n, g);
    }
}

/// Following references ends at an object of the document.
proof fn lemma_deref_index_range(objs: Seq<(u32, u16, PdfObject)>, i: int, fuel: nat)
    ensures
        spec_deref_index(objs, i, fuel) matches Some(k) ==> 0 <= k < objs.len(),
    decreases fuel,
{
    if 0 <= i < objs.len() {
        if let PdfObject::Reference(n, g) = objs[i].2 {
            if fuel > 0 {
                if let Some(j) = spec_find_object(objs, n, g) {
                    lemma_deref_index_range(objs, j, (fuel - 1) as nat);
                }
            }
        }
    }
}

/// Following references ends at the same object when only a dictionary,
/// which is no reference, changed.
proof fn lemma_deref_index_same(
    objs: Seq<(u32, u16, PdfObject)>,
    new: Seq<(u32, u16, PdfObject)>,
    k: int,
    i: int,
    fuel: nat,
)
    requires
        new.len() == objs.len(),
        0 <= k < objs.len(),
        forall|x: int| 0 <= x < objs.len() && x != k ==> #[trigger] new[x] == objs[x],
        new[k].0 == objs[k].0,
        new[k].1 == objs[k].1,
        objs[k].2 is Dictionary,
        new[k].2 is Dictionary,
    ensures
        spec_deref_index(new, i, fuel) == spec_deref_index(objs, i, fuel),
    decreases fuel,
{
    if 0 <= i < objs.len() {
        if i != k {
            assert(new[i] == objs[i]);
        }
        match objs[i].2 {
            PdfObject::Reference(n, g) => {
                if fuel > 0 {
                    lemma_find_object_ids(objs, new, n, g);
                    if let Some(j) = spec_find_object(objs, n, g) {
                        lemma_deref_index_same(objs, new, k, j, (fuel - 1) as nat);
                    }
                }
            },
            _ => {},
        }
    }
}

/// The `/Perms` of a catalog rewritten by [`set_docmdp_perms`] names the
/// certifying signature, and holds every entry it held before.
proof fn lemma_rewritten_perms(d: PdfDict, d2: PdfDict, sn: u32, sg: u16)
    requires
        catalog_with_docmdp(d, d2, sn, sg),
        spec_dict_find(spec_perms_of(d), n_docmdp()) is None,
    ensures
        spec_perms_of(d2).take(spec_perms_of(d).len() as int) == spec_perms_of(d),
        spec_dict_find(spec_perms_of(d2), n_docmdp()) == Some(spec_perms_of(d).len() as int),
        spec_perms_of(d2)[spec_perms_of(d).len() as int].1 == PdfObject::Reference(sn, sg),
        spec_dict_find(d2.entries@, n_perms()) matches Some(j2) && d2.entries@[j2].1 is Dictionary,
{
    let es = d.entries@;
    let es2 = d2.entries@;
    let old = spec_perms_of(d);
    match spec_dict_find(es, n_perms()) {
        Some(j) => {
            assert forall|i: int| 0 <= i < es.len() implies (#[trigger] es2[i]).0@ == es[i].0@ by {
                if i != j {
                    assert(es2[i] == es[i]);
                }
            }
            lemma_dict_find_keys(es, es2, n_perms());
        },
        None => {
            assert forall|i: int| 0 <= i < es.len() implies (#[trigger] es2.drop_last()[i]).0@
                == es[i].0@ by {
                assert(es2.drop_last()[i] == es2.take(es.len() as int)[i]);
            }
            lemma_dict_find_keys(es, es2.drop_last(), n_perms());
            assert(es2 == es2.drop_last().push(es2.last()));
            lemma_dict_find_push(es2.drop_last(), es2.last(), n_perms());
        },
    }
    let p2 = match es2[spec_dict_find(es2, n_perms())->Some_0].1 {
        PdfObject::Dictionary(p) => p,
        _ => d2,
    };
    let pe = p2.entries@;
    assert(spec_perms_of(d2) == pe);
    assert(pe == pe.drop_last().push(pe.last()));
    assert(pe.drop_last() =~= old);
    lemma_dict_find_push(pe.drop_last(), pe.last(), n_docmdp());
}

/// **One certification per document.** Once [`set_docmdp_perms`] has
/// marked a catalog as certified by a signature, the `/Perms` in force
/// (the dictionary the catalog refers to, or the one it holds) has its
/// `/DocMDP` refer to that signature dictionary, every other entry is still
/// there, and certifying the document again is refused.
pub proof fn law_certification_is_final(
    objs: Seq<(u32, u16, PdfObject)>,
    new: Seq<(u32, u16, PdfObject)>,
    n: u32,
    g: u16,
    sn: u32,
    sg: u16,
)
    requires
        !spec_docmdp_refused(objs, n, g),
        docmdp_applied(objs, new, n, g, sn, sg),
    ensures
        spec_catalog_index(new, n, g) == spec_catalog_index(objs, n, g),
        ({
            let k = spec_catalog_index(objs, n, g)->Some_0;
            let old_perms = spec_perms_in_force(objs, k, objs[k].2->Dictionary_0);
            let new_perms = spec_perms_in_force(new, k, new[k].2->Dictionary_0);
            &&& new_perms.take(old_perms.len() as int) == old_perms
            &&& spec_dict_find(new_perms, n_docmdp()) == Some(old_perms.len() as int)
            &&& new_perms[old_perms.len() as int].1 == PdfObject::Reference(sn, sg)
        }),
        spec_docmdp_refused(new, n, g),
{
    let k = spec_catalog_index(objs, n, g)->Some_0;
    let i = spec_find_object(objs, n, g)->Some_0;
    lemma_deref_index_range(objs, i, 128);
    let d = objs[k].2->Dictionary_0;
    match spec_perms_target(objs, k, d) {
        None => {
            assert forall|x: int| 0 <= x < objs.len() implies (#[trigger] new[x]).0 == objs[x].0
                && new[x].1 == objs[x].1 by {
                if x != k {
                    assert(new[x] == objs[x]);
                }
            }
            assert forall|x: int| 0 <= x < objs.len() && x != k implies #[trigger] new[x]
                == objs[x] by {}
            lemma_find_object_ids(objs, new, n, g);
            lemma_deref_index_same(objs, new, k, i, 128);
            let d2 = new[k].2->Dictionary_0;
            lemma_rewritten_perms(d, d2, sn, sg);
            assert(spec_perms_target(new, k, d2) is None);
        },
        Some(p) => {
            let j = spec_dict_find(d.entries@, n_perms())->Some_0;
            let (pn, pg) = match d.entries@[j].1 {
                PdfObject::Reference(pn, pg) => (pn, pg),
                _ => (0u32, 0u16),
            };
            let pi = spec_find_object(objs, pn, pg)->Some_0;
            lemma_deref_index_range(objs, pi, 128);
            assert forall|x: int| 0 <= x < objs.len() implies (#[trigger] new[x]).0 == objs[x].0
                && new[x].1 == objs[x].1 by {
                if x != p {
                    assert(new[x] == objs[x]);
                }
            }
            assert forall|x: int| 0 <= x < objs.len() && x != p implies #[trigger] new[x]
                == objs[x] by {}
            lemma_find_object_ids(objs, new, n, g);
            lemma_deref_index_same(objs, new, p, i, 128);
            lemma_find_object_ids(objs, new, pn, pg);
            lemma_deref_index_same(objs, new, p, pi, 128);
            assert(new[k] == objs[k]);
            assert(spec_perms_target(new, k, d) == Some(p));
            let pe = new[p].2->Dictionary_0.entries@;
            let old_perms = spec_perms_in_force(objs, k, d);
            assert(pe == pe.drop_last().push(pe.last()));
            assert(pe.drop_last() =~= old_perms);
            lemma_dict_find_push(pe.drop_last(), pe.last(), n_docmdp());
        },
    }
}

} // verus!
