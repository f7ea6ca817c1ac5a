//! A `SignedData` taken apart into its still-encoded pieces.
//!
//! A signature covers the exact bytes of its `signedAttrs`, and re-encoding a
//! parsed `SET OF` re-sorts its elements. So an existing CMS is rewritten here
//! without round-tripping it through a typed model: every byte covered by a
//! signature is copied verbatim, and only the `SET OF` wrappers are rebuilt.

use vstd::prelude::*;

use crate::error::{CmsError, CmsFault};
use super::tlv::{
    children, concat, copy_all, copy_bytes, implicit_context, sequence, is_single_tlv, lemma_tlv_bounds, read_tlv, slice_views,
    spec_children, spec_encode_tlv, spec_tlv, spec_value_of, value_of, vec_views,
};
use super::set_order::{set_of, spec_set_of};

verus! {

/// The DER of the `id-signedData` object identifier, 1.2.840.113549.1.7.2.
pub open spec fn spec_signed_data_oid() -> Seq<u8> {
    seq![0x06u8, 0x09, 0x2A, 0x86, 0x48, 0x86, 0xF7, 0x0D, 0x01, 0x07, 0x02]
}

/// Calls `const_oid::db::rfc5911::ID_SIGNED_DATA.to_der()` (der's `Encode`).
///
/// Claimed: the call succeeds and yields tag `0x06`, length `0x09` and the
/// nine content octets of 1.2.840.113549.1.7.2. der writes an object
/// identifier as its tag, its length and `as_bytes()`, and only fails when a
/// length overflows, which a nine-byte value cannot.
#[verifier::external_body]
fn signed_data_oid_der() -> (r: Option<Vec<u8>>)
    ensures
        r is Some && r.unwrap()@ == spec_signed_data_oid(),
{
    der::Encode::to_der(&const_oid::db::rfc5911::ID_SIGNED_DATA).ok()
}

/// The pieces of a `SignedData`, as byte strings.
pub struct SignedDataModel {
    /// The `contentType` TLV of the enclosing `ContentInfo`.
    pub content_type: Seq<u8>,
    /// The `version` TLV.
    pub version: Seq<u8>,
    /// The element TLVs of `digestAlgorithms`.
    pub digest_algorithms: Seq<Seq<u8>>,
    /// The `encapContentInfo` TLV.
    pub encap_content_info: Seq<u8>,
    /// The element TLVs of `certificates`, when present.
    pub certificates: Option<Seq<Seq<u8>>>,
    /// The whole `crls` TLV, when present.
    pub crls: Option<Seq<u8>>,
    /// The element TLVs of `signerInfos`.
    pub signer_infos: Seq<Seq<u8>>,
}

/// A `SignedData` taken apart into its still-encoded pieces.
pub struct RawSignedData {
    pub content_type: Vec<u8>,
    pub version: Vec<u8>,
    pub digest_algorithms: Vec<Vec<u8>>,
    pub encap_content_info: Vec<u8>,
    pub certificates: Option<Vec<Vec<u8>>>,
    pub crls: Option<Vec<u8>>,
    pub signer_infos: Vec<Vec<u8>>,
}

impl View for RawSignedData {
    type V = SignedDataModel;

    open spec fn view(&self) -> SignedDataModel {
        SignedDataModel {
            content_type: self.content_type@,
            version: self.version@,
            digest_algorithms: vec_views(self.digest_algorithms@),
            encap_content_info: self.encap_content_info@,
            certificates: match self.certificates {
                Some(c) => Some(vec_views(c@)),
                None => None,
            },
            crls: match self.crls {
                Some(c) => Some(c@),
                None => None,
            },
            signer_infos: vec_views(self.signer_infos@),
        }
    }
}

/// The children of the value of the TLV `t`.
pub open spec fn spec_children_of(t: Seq<u8>) -> Option<Seq<Seq<u8>>> {
    match spec_value_of(t) {
        Some(v) => spec_children(v),
        None => None,
    }
}

/// The optional trailing fields of a `SignedData`, as collected so far.
pub struct TailFields {
    pub certificates: Option<Seq<Seq<u8>>>,
    pub crls: Option<Seq<u8>>,
    pub signer_infos: Seq<Seq<u8>>,
}

/// One trailing field of `SignedData` taken into `acc`: `[0]` certificates,
/// `[1]` CRLs or the `signerInfos` SET; any other tag is refused.
pub open spec fn spec_tail_step(acc: TailFields, f: Seq<u8>) -> Result<TailFields, CmsFault> {
    if f[0] == 0xA0 {
        match spec_children_of(f) {
            Some(c) => Ok(TailFields { certificates: Some(c), ..acc }),
            None => Err(CmsFault::Der),
        }
    } else if f[0] == 0xA1 {
        Ok(TailFields { crls: Some(f), ..acc })
    } else if f[0] == 0x31 {
        match spec_children_of(f) {
            Some(c) => Ok(TailFields { signer_infos: c, ..acc }),
            None => Err(CmsFault::Der),
        }
    } else {
        Err(CmsFault::Der)
    }
}

/// The trailing fields `fs` taken in order.
pub open spec fn spec_tail(fs: Seq<Seq<u8>>) -> Result<TailFields, CmsFault>
    decreases fs.len(),
{
    if fs.len() == 0 {
        Ok(TailFields { certificates: None, crls: None, signer_infos: Seq::empty() })
    } else {
        match spec_tail(fs.drop_last()) {
            Ok(acc) => spec_tail_step(acc, fs.last()),
            Err(e) => Err(e),
        }
    }
}

/// Once the trailing fields fail, taking more of them fails the same way.
proof fn lemma_tail_error_sticks(fs: Seq<Seq<u8>>, k: int)
    requires
        0 <= k <= fs.len(),
        spec_tail(fs.take(k)) is Err,
    ensures
        spec_tail(fs) == spec_tail(fs.take(k)),
    decreases fs.len() - k,
{
    if k < fs.len() {
        assert(fs.take(k + 1).drop_last() =~= fs.take(k));
        lemma_tail_error_sticks(fs, k + 1);
    } else {
        assert(fs.take(k) =~= fs);
    }
}

/// The `ContentInfo` fields of `cms`: its `contentType` and `content`.
pub open spec fn spec_content_info(cms: Seq<u8>) -> Result<Seq<Seq<u8>>, CmsFault> {
    match spec_tlv(cms) {
        None => Err(CmsFault::Der),
        Some((tag, h, l)) => {
            if tag != 0x30 {
                Err(CmsFault::Der)
            } else {
                match spec_children(cms.subrange(h, h + l)) {
                    None => Err(CmsFault::Der),
                    Some(ci) => {
                        if ci.len() != 2 {
                            Err(CmsFault::Der)
                        } else if ci[0] != spec_signed_data_oid() {
                            Err(CmsFault::Builder)
                        } else {
                            Ok(ci)
                        }
                    },
                }
            }
        },
    }
}

/// The fields of the `SignedData` inside the `[0] EXPLICIT` content `c`.
pub open spec fn spec_signed_data_fields(c: Seq<u8>) -> Result<Seq<Seq<u8>>, CmsFault> {
    match spec_value_of(c) {
        None => Err(CmsFault::Der),
        Some(inner) => match spec_tlv(inner) {
            None => Err(CmsFault::Der),
            Some((tag, h, l)) => {
                if tag != 0x30 {
                    Err(CmsFault::Der)
                } else {
                    match spec_children(inner.subrange(h, h + l)) {
                        None => Err(CmsFault::Der),
                        Some(fields) => {
                            if fields.len() < 4 {
                                Err(CmsFault::Der)
                            } else {
                                Ok(fields)
                            }
                        },
                    }
                }
            },
        },
    }
}

/// The model assembled from the `contentType`, the `SignedData` fields, the
/// digest algorithms and the outcome of the trailing fields.
pub open spec fn spec_assemble(
    ct: Seq<u8>,
    fields: Seq<Seq<u8>>,
    algs: Seq<Seq<u8>>,
    tail: Result<TailFields, CmsFault>,
) -> Result<SignedDataModel, CmsFault> {
    match tail {
        Err(e) => Err(e),
        Ok(t) => {
            if t.signer_infos.len() == 0 {
                Err(CmsFault::Builder)
            } else {
                Ok(
                    SignedDataModel {
                        content_type: ct,
                        version: fields[0],
                        digest_algorithms: algs,
                        encap_content_info: fields[2],
                        certificates: t.certificates,
                        crls: t.crls,
                        signer_infos: t.signer_infos,
                    },
                )
            }
        },
    }
}

/// `cms` taken apart: a DER `ContentInfo` of type `id-signedData` whose
/// `SignedData` has at least four fields, its second field a constructed
/// set of algorithm identifiers, its optional fields tagged `[0]`, `[1]` or
/// `SET`, and at least one `SignerInfo`.
pub open spec fn spec_parse_signed_data(cms: Seq<u8>) -> Result<SignedDataModel, CmsFault> {
    match spec_content_info(cms) {
        Err(e) => Err(e),
        Ok(ci) => match spec_signed_data_fields(ci[1]) {
            Err(e) => Err(e),
            Ok(fields) => match spec_children_of(fields[1]) {
                None => Err(CmsFault::Der),
                Some(algs) => spec_assemble(ci[0], fields, algs, spec_tail(fields.skip(3))),
            },
        },
    }
}

/// The DER of `m`: the `ContentInfo` around the `SignedData`, with each
/// `SET OF` in DER order.
pub open spec fn spec_encode_signed_data(m: SignedDataModel) -> Seq<u8> {
    let head = seq![m.version, spec_set_of(0x31, m.digest_algorithms), m.encap_content_info];
    let certs = match m.certificates {
        Some(c) => seq![spec_set_of(0xA0, c)],
        None => Seq::empty(),
    };
    let crls = match m.crls {
        Some(c) => seq![c],
        None => Seq::empty(),
    };
    let fields = head + certs + crls + seq![spec_set_of(0x31, m.signer_infos)];
    let signed_data = spec_encode_tlv(0x30, fields.flatten());
    spec_encode_tlv(0x30, m.content_type + spec_encode_tlv(0xA0, signed_data))
}

/// The encapsulated content of the `encapContentInfo` TLV `eci`: `None` when
/// detached, the octets of its `[0] EXPLICIT OCTET STRING` otherwise.
pub open spec fn spec_econtent(eci: Seq<u8>) -> Result<Option<Seq<u8>>, CmsFault> {
    match spec_children_of(eci) {
        None => Err(CmsFault::Der),
        Some(fs) => {
            if fs.len() < 2 {
                Ok(None)
            } else {
                match spec_value_of(fs[1]) {
                    None => Err(CmsFault::Der),
                    Some(v) => match spec_tlv(v) {
                        None => Err(CmsFault::Der),
                        Some((tag, h, l)) => {
                            if tag != 0x04 {
                                Err(CmsFault::Der)
                            } else {
                                Ok(Some(v.subrange(h, h + l)))
                            }
                        },
                    },
                }
            }
        },
    }
}

/// The value of the first primitive OCTET STRING among `cs`.
pub open spec fn spec_first_octets(cs: Seq<Seq<u8>>) -> Option<Seq<u8>>
    decreases cs.len(),
{
    if cs.len() == 0 {
        None
    } else if cs[0].len() > 0 && cs[0][0] == 0x04 {
        spec_value_of(cs[0])
    } else {
        spec_first_octets(cs.drop_first())
    }
}

/// The `signature` value of the `SignerInfo` TLV `si`: the only primitive
/// OCTET STRING among its immediate children.
pub open spec fn spec_signer_info_signature(si: Seq<u8>) -> Result<Seq<u8>, CmsFault> {
    match spec_children_of(si) {
        None => Err(CmsFault::Der),
        Some(cs) => match spec_first_octets(cs) {
            None => Err(CmsFault::Der),
            Some(v) => Ok(v),
        },
    }
}

/// `new` added to `base`, skipping any element already present, in order.
pub open spec fn spec_add_absent(base: Seq<Seq<u8>>, new: Seq<Seq<u8>>) -> Seq<Seq<u8>>
    decreases new.len(),
{
    if new.len() == 0 {
        base
    } else {
        let acc = spec_add_absent(base, new.drop_last());
        if acc.contains(new.last()) {
            acc
        } else {
            acc.push(new.last())
        }
    }
}

/// The certificate set after merging `new` into `existing`.
pub open spec fn spec_merge_certificates(
    existing: Option<Seq<Seq<u8>>>,
    new: Option<Seq<Seq<u8>>>,
) -> Option<Seq<Seq<u8>>> {
    match new {
        None => existing,
        Some(n) => Some(
            spec_add_absent(
                match existing {
                    Some(e) => e,
                    None => Seq::empty(),
                },
                n,
            ),
        ),
    }
}

/// The signature value of the only signer of `cms`.
pub open spec fn spec_signature_value(cms: Seq<u8>) -> Result<Seq<u8>, CmsFault> {
    match spec_parse_signed_data(cms) {
        Err(e) => Err(e),
        Ok(m) => {
            if m.signer_infos.len() != 1 {
                Err(CmsFault::Builder)
            } else {
                spec_signer_info_signature(m.signer_infos[0])
            }
        },
    }
}

/// The signature value of the signer at `index` of `cms`.
pub open spec fn spec_signature_value_at(cms: Seq<u8>, index: int) -> Result<Seq<u8>, CmsFault> {
    match spec_parse_signed_data(cms) {
        Err(e) => Err(e),
        Ok(m) => {
            if index >= m.signer_infos.len() {
                Err(CmsFault::Builder)
            } else {
                spec_signer_info_signature(m.signer_infos[index])
            }
        },
    }
}

/// The content enveloped in `cms`; refused when `cms` is detached.
pub open spec fn spec_extract_content(cms: Seq<u8>) -> Result<Seq<u8>, CmsFault> {
    match spec_parse_signed_data(cms) {
        Err(e) => Err(e),
        Ok(m) => match spec_econtent(m.encap_content_info) {
            Err(e) => Err(e),
            Ok(None) => Err(CmsFault::Builder),
            Ok(Some(c)) => Ok(c),
        },
    }
}

/// A `Result` of the library taken to its model.
pub open spec fn result_model<T: View>(r: Result<T, CmsError>) -> Result<T::V, CmsFault> {
    match r {
        Ok(v) => Ok(v@),
        Err(e) => Err(e.fault()),
    }
}

/// A byte-vector `Result` taken to its model.
pub open spec fn bytes_result(r: Result<Vec<u8>, CmsError>) -> Result<Seq<u8>, CmsFault> {
    match r {
        Ok(v) => Ok(v@),
        Err(e) => Err(e.fault()),
    }
}

pub fn der_error(msg: &str) -> (e: CmsError)
    ensures
        e matches CmsError::Der(s) && s@ == msg@,
{
    CmsError::Der(String::from_str(msg))
}

pub fn builder_error(msg: &str) -> (e: CmsError)
    ensures
        e matches CmsError::Builder(s) && s@ == msg@,
{
    CmsError::Builder(String::from_str(msg))
}

/// The children of the value of the TLV `t`.
pub fn children_of(t: &[u8]) -> (r: Result<Vec<&[u8]>, CmsError>)
    ensures
        match spec_children_of(t@) {
            None => r matches Err(e) && e.fault() == CmsFault::Der,
            Some(c) => r matches Ok(v) && slice_views(v@) == c,
        },
        r matches Ok(v) ==> forall|i: int|
            0 <= i < v@.len() ==> is_single_tlv(#[trigger] slice_views(v@)[i]),
{
    let v = value_of(t)?;
    children(v)
}

/// Unwrap the `ContentInfo` and return the fields of its `SignedData`, with
/// the `contentType` TLV.
fn signed_data_fields(cms_der: &[u8]) -> (r: Result<(&[u8], Vec<&[u8]>), CmsError>)
    ensures
        match spec_content_info(cms_der@) {
            Err(f) => r matches Err(e) && e.fault() == f,
            Ok(ci) => match spec_signed_data_fields(ci[1]) {
                Err(f) => r matches Err(e) && e.fault() == f,
                Ok(fields) => r matches Ok((ct, fs)) && ct@ == ci[0] && slice_views(fs@) == fields,
            },
        },
        r matches Ok((ct, fs)) ==> forall|i: int|
            0 <= i < fs@.len() ==> is_single_tlv(#[trigger] slice_views(fs@)[i]),
{
    assert(cms_der@.skip(0) =~= cms_der@);
    let (tag, ci_body, _) = read_tlv(cms_der, 0)?;
    if tag != 0x30 {
        return Err(der_error("ContentInfo is not a SEQUENCE"));
    }
    let ci = children(ci_body)?;
    if ci.len() != 2 {
        return Err(der_error("ContentInfo does not have exactly contentType and content"));
    }
    let expected = match signed_data_oid_der() {
        Some(e) => e,
        None => {
            return Err(der_error("encode signedData OID"));
        },
    };
    let ghost civ = slice_views(ci@);
    assert(civ[0] == ci[0]@ && civ[1] == ci[1]@);
    if !slice_eq(ci[0], expected.as_slice()) {
        return Err(builder_error("not a SignedData ContentInfo"));
    }
    let inner = value_of(ci[1])?;
    assert(inner@.skip(0) =~= inner@);
    let (tag, sd_body, _) = read_tlv(inner, 0)?;
    if tag != 0x30 {
        return Err(der_error("SignedData is not a SEQUENCE"));
    }
    let fields = children(sd_body)?;
    if fields.len() < 4 {
        return Err(der_error("SignedData has fewer than 4 fields"));
    }
    Ok((ci[0], fields))
}

/// Whether two byte strings are equal.
pub fn slice_eq(a: &[u8], b: &[u8]) -> (r: bool)
    ensures
        r == (a@ == b@),
{
    if a.len() != b.len() {
        return false;
    }
    let mut i: usize = 0;
    while i < a.len()
        invariant
            i <= a@.len(),
            a@.len() == b@.len(),
            forall|k: int| 0 <= k < i ==> a@[k] == b@[k],
        decreases a.len() - i,
    {
        if a[i] != b[i] {
            return false;
        }
        i = i + 1;
    }
    assert(a@ =~= b@);
    true
}

impl RawSignedData {
    /// Take `cms_der` apart; see [`spec_parse_signed_data`].
    pub fn parse(cms_der: &[u8]) -> (r: Result<RawSignedData, CmsError>)
        ensures
            result_model(r) == spec_parse_signed_data(cms_der@),
    {
        let (content_type, fields) = signed_data_fields(cms_der)?;
        let ghost fv = slice_views(fields@);
        assert(fv[0] == fields[0]@ && fv[1] == fields[1]@ && fv[2] == fields[2]@);
        let algs = children_of(fields[1])?;
        let mut certificates: Option<Vec<Vec<u8>>> = None;
        let mut crls: Option<Vec<u8>> = None;
        let mut signer_infos: Vec<Vec<u8>> = Vec::new();
        let mut i: usize = 3;
        assert(fv.skip(3).take(0) =~= Seq::<Seq<u8>>::empty());
        assert(vec_views(signer_infos@) =~= Seq::<Seq<u8>>::empty());
        while i < fields.len()
            invariant
                3 <= i <= fields@.len(),
                fv == slice_views(fields@),
                spec_parse_signed_data(cms_der@) == spec_assemble(
                    content_type@,
                    fv,
                    slice_views(algs@),
                    spec_tail(fv.skip(3)),
                ),
                spec_tail(fv.skip(3).take(i - 3)) == Ok::<TailFields, CmsFault>(
                    TailFields {
                        certificates: match certificates {
                            Some(c) => Some(vec_views(c@)),
                            None => None,
                        },
                        crls: match crls {
                            Some(c) => Some(c@),
                            None => None,
                        },
                        signer_infos: vec_views(signer_infos@),
                    },
                ),
                forall|k: int| 0 <= k < fv.len() ==> is_single_tlv(#[trigger] fv[k]),
            decreases fields.len() - i,
        {
            let field = fields[i];
            let ghost prefix = fv.skip(3).take(i - 3);
            proof {
                assert(fv.skip(3).take(i + 1 - 3).drop_last() =~= prefix);
                assert(fv.skip(3).take(i + 1 - 3).last() == field@);
                assert(fv[i as int] == field@);
                lemma_tlv_bounds(field@);
            }
            let tag = field[0];
            if tag == 0xA0 {
                let c = match children_of(field) {
                    Ok(c) => c,
                    Err(e) => {
                        proof {
                            assert(spec_tail_step(spec_tail(prefix)->Ok_0, field@) == Err::<TailFields, CmsFault>(CmsFault::Der));
                            assert(spec_tail(fv.skip(3).take(i + 1 - 3)) == Err::<TailFields, CmsFault>(CmsFault::Der));
                            lemma_tail_error_sticks(fv.skip(3), i + 1 - 3);
                            assert(e.fault() == CmsFault::Der);
                            assert(spec_tail(fv.skip(3)) == Err::<TailFields, CmsFault>(CmsFault::Der));
                        }
                        return Err(e);
                    },
                };
                certificates = Some(copy_all(&c));
            } else if tag == 0xA1 {
                crls = Some(copy_bytes(field));
            } else if tag == 0x31 {
                let c = match children_of(field) {
                    Ok(c) => c,
                    Err(e) => {
                        proof {
                            assert(spec_tail_step(spec_tail(prefix)->Ok_0, field@) == Err::<TailFields, CmsFault>(CmsFault::Der));
                            assert(spec_tail(fv.skip(3).take(i + 1 - 3)) == Err::<TailFields, CmsFault>(CmsFault::Der));
                            lemma_tail_error_sticks(fv.skip(3), i + 1 - 3);
                            assert(e.fault() == CmsFault::Der);
                            assert(spec_tail(fv.skip(3)) == Err::<TailFields, CmsFault>(CmsFault::Der));
                        }
                        return Err(e);
                    },
                };
                signer_infos = copy_all(&c);
            } else {
                proof {
                    assert(spec_tail_step(spec_tail(prefix)->Ok_0, field@) == Err::<TailFields, CmsFault>(CmsFault::Der));
                    assert(spec_tail(fv.skip(3).take(i + 1 - 3)) == Err::<TailFields, CmsFault>(CmsFault::Der));
                    lemma_tail_error_sticks(fv.skip(3), i + 1 - 3);
                }
                return Err(der_error("unexpected SignedData field"));
            }
            i = i + 1;
        }
        assert(fv.skip(3).take(i - 3) =~= fv.skip(3));
        if signer_infos.len() == 0 {
            return Err(builder_error("SignedData has no SignerInfo"));
        }
        Ok(
            RawSignedData {
                content_type: copy_bytes(content_type),
                version: copy_bytes(fields[0]),
                digest_algorithms: copy_all(&algs),
                encap_content_info: copy_bytes(fields[2]),
                certificates,
                crls,
                signer_infos,
            },
        )
    }

    /// The DER of this `SignedData` inside its `ContentInfo`, each `SET OF`
    /// in DER order.
    pub fn encode(self) -> (r: Vec<u8>)
        ensures
            r@ == spec_encode_signed_data(self@),
    {
        let ghost m = self@;
        let RawSignedData {
            content_type,
            version,
            digest_algorithms,
            encap_content_info,
            certificates,
            crls,
            signer_infos,
        } = self;
        let mut fields: Vec<Vec<u8>> = Vec::new();
        fields.push(version);
        fields.push(set_of(0x31, digest_algorithms));
        fields.push(encap_content_info);
        let ghost head = vec_views(fields@);
        if let Some(c) = certificates {
            fields.push(set_of(0xA0, c));
        }
        let ghost with_certs = vec_views(fields@);
        if let Some(c) = crls {
            fields.push(c);
        }
        let ghost with_crls = vec_views(fields@);
        fields.push(set_of(0x31, signer_infos));
        proof {
            let certs_part = match m.certificates {
                Some(c) => seq![spec_set_of(0xA0, c)],
                None => Seq::<Seq<u8>>::empty(),
            };
            let crls_part = match m.crls {
                Some(c) => seq![c],
                None => Seq::<Seq<u8>>::empty(),
            };
            assert(head =~= seq![m.version, spec_set_of(0x31, m.digest_algorithms), m.encap_content_info]);
            assert(with_certs =~= head + certs_part);
            assert(with_crls =~= head + certs_part + crls_part);
            assert(vec_views(fields@) =~= head + certs_part + crls_part + seq![
                spec_set_of(0x31, m.signer_infos),
            ]);
        }
        let signed_data = sequence(fields.as_slice());
        let wrapped = implicit_context(0, signed_data.as_slice());
        let mut outer: Vec<Vec<u8>> = Vec::new();
        outer.push(content_type);
        outer.push(wrapped);
        proof {
            let o = vec_views(outer@);
            assert(o =~= seq![m.content_type, wrapped@]);
            reveal_with_fuel(Seq::flatten, 3);
            assert(o.drop_first().drop_first() =~= Seq::<Seq<u8>>::empty());
            assert(o.flatten() =~= m.content_type + wrapped@);
        }
        sequence(outer.as_slice())
    }

    /// The encapsulated content, or `None` when the CMS is detached.
    pub fn econtent(&self) -> (r: Result<Option<Vec<u8>>, CmsError>)
        ensures
            match spec_econtent(self.encap_content_info@) {
                Err(f) => r matches Err(e) && e.fault() == f,
                Ok(None) => r matches Ok(None),
                Ok(Some(c)) => r matches Ok(Some(v)) && v@ == c,
            },
    {
        let fields = children_of(self.encap_content_info.as_slice())?;
        if fields.len() < 2 {
            return Ok(None);
        }
        let ghost fv = slice_views(fields@);
        assert(fv[1] == fields[1]@);
        let explicit = value_of(fields[1])?;
        assert(explicit@.skip(0) =~= explicit@);
        let (tag, octets, _) = read_tlv(explicit, 0)?;
        if tag != 0x04 {
            return Err(der_error("encapsulated content is not a primitive OCTET STRING"));
        }
        Ok(Some(copy_bytes(octets)))
    }

    /// The `SignerInfo` at `index`, in encoded order.
    pub fn signer_info(&self, index: usize) -> (r: Result<&[u8], CmsError>)
        ensures
            index < self@.signer_infos.len() ==> (r matches Ok(si) && si@ == self@.signer_infos[index as int]),
            index >= self@.signer_infos.len() ==> (r matches Err(e) && e.fault() == CmsFault::Builder),
    {
        if index < self.signer_infos.len() {
            Ok(self.signer_infos[index].as_slice())
        } else {
            Err(builder_error("no SignerInfo at that index"))
        }
    }

    /// Add `certs` (DER `CertificateChoices`) that are not already present.
    pub fn merge_certificates(&mut self, certs: Option<Vec<Vec<u8>>>)
        ensures
            final(self)@ == (SignedDataModel {
                certificates: spec_merge_certificates(
                    old(self)@.certificates,
                    match certs {
                        Some(c) => Some(vec_views(c@)),
                        None => None,
                    },
                ),
                ..old(self)@
            }),
    {
        let certs = match certs {
            Some(c) => c,
            None => {
                return;
            },
        };
        let mut existing = match self.certificates.take() {
            Some(e) => e,
            None => Vec::new(),
        };
        let ghost base = vec_views(existing@);
        assert(base =~= match old(self)@.certificates {
            Some(e) => e,
            None => Seq::<Seq<u8>>::empty(),
        });
        let ghost n = vec_views(certs@);
        let mut i: usize = 0;
        assert(n.take(0) =~= Seq::<Seq<u8>>::empty());
        while i < certs.len()
            invariant
                i <= certs@.len(),
                n == vec_views(certs@),
                vec_views(existing@) == spec_add_absent(base, n.take(i as int)),
            decreases certs.len() - i,
        {
            let present = contains_bytes(&existing, certs[i].as_slice());
            proof {
                assert(n.take(i + 1).drop_last() =~= n.take(i as int));
                assert(n.take(i + 1).last() == certs@[i as int]@);
            }
            if !present {
                let c = copy_bytes(certs[i].as_slice());
                proof {
                    assert(vec_views(existing@.push(c)) =~= vec_views(existing@).push(c@));
                }
                existing.push(c);
            }
            i = i + 1;
        }
        assert(n.take(i as int) =~= n);
        self.certificates = Some(existing);
    }
}

/// Whether `items` holds an element equal to `x`.
pub fn contains_bytes(items: &Vec<Vec<u8>>, x: &[u8]) -> (r: bool)
    ensures
        r == vec_views(items@).contains(x@),
{
    let mut i: usize = 0;
    while i < items.len()
        invariant
            i <= items@.len(),
            forall|k: int| 0 <= k < i ==> vec_views(items@)[k] != x@,
        decreases items.len() - i,
    {
        if slice_eq(items[i].as_slice(), x) {
            assert(vec_views(items@)[i as int] == x@);
            return true;
        }
        i = i + 1;
    }
    false
}

/// The `signature` value of a raw `SignerInfo`.
///
/// It is the only primitive OCTET STRING among the immediate children: the
/// `subjectKeyIdentifier` form of `sid` is `[0]` and both attribute sets are
/// constructed context tags, so there is nothing to confuse it with.
pub fn signer_info_signature(signer_info: &[u8]) -> (r: Result<Vec<u8>, CmsError>)
    ensures
        bytes_result(r) == spec_signer_info_signature(signer_info@),
{
    let cs = children_of(signer_info)?;
    let ghost cv = slice_views(cs@);
    let mut i: usize = 0;
    assert(cv.skip(0) =~= cv);
    while i < cs.len()
        invariant
            i <= cs@.len(),
            cv == slice_views(cs@),
            spec_children_of(signer_info@) == Some(cv),
            spec_first_octets(cv) == spec_first_octets(cv.skip(i as int)),
            forall|k: int| 0 <= k < cv.len() ==> is_single_tlv(#[trigger] cv[k]),
        decreases cs.len() - i,
    {
        let child = cs[i];
        proof {
            assert(cv[i as int] == child@);
            lemma_tlv_bounds(child@);
            assert(cv.skip(i as int)[0] == child@);
            assert(cv.skip(i as int).drop_first() =~= cv.skip(i + 1));
        }
        if child[0] == 0x04 {
            let v = value_of(child)?;
            proof {
                let sk = cv.skip(i as int);
                assert(sk[0].len() > 0 && sk[0][0] == 0x04);
                assert(spec_first_octets(sk) == spec_value_of(child@));
            }
            let out = copy_bytes(v);
            assert(spec_first_octets(cv) == Some(out@));
            return Ok(out);
        }
        i = i + 1;
    }
    Err(der_error("SignerInfo has no signature value"))
}


} // verus!
