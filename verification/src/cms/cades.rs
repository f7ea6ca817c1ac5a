//! CAdES (ETSI EN 319 122-1) composition over an existing CMS.
//!
//! - **Enveloping signatures**: [`extract_content`] unwraps the content a
//!   `SignedData` carries.
//! - **CAdES-B-T**: a [`signature_timestamp_attr`] (an RFC 3161 token over the
//!   value that [`signature_value`] returns) is attached with
//!   [`add_unsigned_attributes`].
//! - **CAdES-B-LT**: [`certificate_values_attr`] and [`revocation_values_attr`]
//!   are attached the same way.
//! - **Multiple signatures**: [`add_signer`] for a parallel signature,
//!   [`countersign`] for a signature over another signature.
//!
//! Producing a signature needs a signing key, which this crate does not hold:
//! the composition functions take the freshly signed CMS as an argument and
//! transplant what it carries. [`signing_content`] and [`signature_value_at`]
//! give the bytes that such a signature has to cover.

use vstd::prelude::*;

use crate::error::{CmsError, CmsFault};
use super::tlv::{copy_bytes, implicit_context, sequence, slice_views, spec_encode_tlv, vec_views};
use super::signed_data::{
    builder_error, bytes_result, der_error, signer_info_signature, spec_add_absent,
    spec_econtent, spec_encode_signed_data, spec_extract_content, spec_merge_certificates,
    spec_parse_signed_data, spec_signature_value, spec_signature_value_at,
    spec_signer_info_signature, RawSignedData, SignedDataModel,
};
use super::attributes::{
    attr_result, attr_views, certificate_decodes, signer_info_with_unsigned, single_value_attr,
    spec_certificate_decodes, spec_single_value_attr, spec_with_unsigned, AttrModel,
    CmsAttribute,
};

verus! {

// --- object identifiers ------------------------------------------------------

/// `id-aa-signatureTimeStampToken`.
pub open spec fn oid_signature_time_stamp_token() -> Seq<char> {
    "1.2.840.113549.1.9.16.2.14"@
}

/// `id-aa-ets-certValues`.
pub open spec fn oid_cert_values() -> Seq<char> {
    "1.2.840.113549.1.9.16.2.23"@
}

/// `id-aa-ets-revocationValues`.
pub open spec fn oid_revocation_values() -> Seq<char> {
    "1.2.840.113549.1.9.16.2.24"@
}

/// `id-countersignature` (RFC 5652 §11.4).
pub open spec fn oid_countersignature() -> Seq<char> {
    "1.2.840.113549.1.9.6"@
}

fn owned(s: &str) -> (r: String)
    ensures
        r@ == s@,
{
    String::from_str(s)
}

// --- specifications ----------------------------------------------------------

/// The `certificate-values` attribute over `certs`: a `SEQUENCE OF
/// Certificate`, refused when one entry is not a certificate.
pub open spec fn spec_certificate_values_attr(certs: Seq<Seq<u8>>) -> Result<AttrModel, CmsFault> {
    if exists|i: int| 0 <= i < certs.len() && !spec_certificate_decodes(#[trigger] certs[i]) {
        Err(CmsFault::Der)
    } else {
        spec_single_value_attr(oid_cert_values(), spec_encode_tlv(0x30, certs.flatten()))
    }
}

/// The `RevocationValues` SEQUENCE: `[0]` with the CRLs and `[1]` with the
/// basic OCSP responses, each left out when its list is empty.
pub open spec fn spec_revocation_values(crls: Seq<Seq<u8>>, ocsp: Seq<Seq<u8>>) -> Seq<u8> {
    let f0 = if crls.len() > 0 {
        seq![spec_encode_tlv(0xA0, crls.flatten())]
    } else {
        Seq::<Seq<u8>>::empty()
    };
    let f1 = if ocsp.len() > 0 {
        seq![spec_encode_tlv(0xA1, ocsp.flatten())]
    } else {
        Seq::<Seq<u8>>::empty()
    };
    spec_encode_tlv(0x30, (f0 + f1).flatten())
}

/// `cms` with `new` merged into the unsigned attributes of its signer at
/// `index` (counted in encoded order).
pub open spec fn spec_add_unsigned_at(cms: Seq<u8>, index: int, new: Seq<AttrModel>) -> Result<
    Seq<u8>,
    CmsFault,
> {
    match spec_parse_signed_data(cms) {
        Err(e) => Err(e),
        Ok(m) => {
            if index >= m.signer_infos.len() {
                Err(CmsFault::Builder)
            } else {
                match spec_with_unsigned(m.signer_infos[index], new) {
                    Err(e) => Err(e),
                    Ok(si) => Ok(
                        spec_encode_signed_data(
                            SignedDataModel { signer_infos: m.signer_infos.update(index, si), ..m },
                        ),
                    ),
                }
            }
        },
    }
}

/// `cms` with `new` merged into the unsigned attributes of its only signer.
pub open spec fn spec_add_unsigned(cms: Seq<u8>, new: Seq<AttrModel>) -> Result<Seq<u8>, CmsFault> {
    match spec_parse_signed_data(cms) {
        Err(e) => Err(e),
        Ok(m) => {
            if m.signer_infos.len() != 1 {
                Err(CmsFault::Builder)
            } else {
                spec_add_unsigned_at(cms, 0, new)
            }
        },
    }
}

/// The content a new parallel signer of `cms` has to sign: `content` when
/// given, else what `cms` envelops; refused when `cms` is detached and no
/// content is given.
pub open spec fn spec_signing_content(cms: Seq<u8>, content: Option<Seq<u8>>) -> Result<
    Seq<u8>,
    CmsFault,
> {
    match spec_parse_signed_data(cms) {
        Err(e) => Err(e),
        Ok(m) => match content {
            Some(c) => Ok(c),
            None => match spec_econtent(m.encap_content_info) {
                Err(e) => Err(e),
                Ok(None) => Err(CmsFault::Builder),
                Ok(Some(c)) => Ok(c),
            },
        },
    }
}

/// `cms` with the signers of `fresh` added beside its own: their digest
/// algorithms and certificates are merged in, skipping those already present.
pub open spec fn spec_add_signer(cms: Seq<u8>, fresh: Seq<u8>) -> Result<Seq<u8>, CmsFault> {
    match spec_parse_signed_data(cms) {
        Err(e) => Err(e),
        Ok(m) => match spec_parse_signed_data(fresh) {
            Err(e) => Err(e),
            Ok(f) => Ok(
                spec_encode_signed_data(
                    SignedDataModel {
                        digest_algorithms: spec_add_absent(m.digest_algorithms, f.digest_algorithms),
                        certificates: spec_merge_certificates(m.certificates, f.certificates),
                        signer_infos: m.signer_infos + f.signer_infos,
                        ..m
                    },
                ),
            ),
        },
    }
}

/// `cms` with the first signer of `counter` attached to its signer at
/// `target` as a `countersignature` unsigned attribute, and the certificates
/// of `counter` merged in.
pub open spec fn spec_countersign(cms: Seq<u8>, target: int, counter: Seq<u8>) -> Result<
    Seq<u8>,
    CmsFault,
> {
    match spec_parse_signed_data(cms) {
        Err(e) => Err(e),
        Ok(m) => {
            if target >= m.signer_infos.len() {
                Err(CmsFault::Builder)
            } else {
                match spec_signer_info_signature(m.signer_infos[target]) {
                    Err(e) => Err(e),
                    Ok(_) => match spec_parse_signed_data(counter) {
                        Err(e) => Err(e),
                        Ok(c) => match spec_single_value_attr(
                            oid_countersignature(),
                            c.signer_infos[0],
                        ) {
                            Err(e) => Err(e),
                            Ok(a) => match spec_with_unsigned(m.signer_infos[target], seq![a]) {
                                Err(e) => Err(e),
                                Ok(si) => Ok(
                                    spec_encode_signed_data(
                                        SignedDataModel {
                                            signer_infos: m.signer_infos.update(target, si),
                                            certificates: spec_merge_certificates(
                                                m.certificates,
                                                c.certificates,
                                            ),
                                            ..m
                                        },
                                    ),
                                ),
                            },
                        },
                    },
                }
            }
        },
    }
}

// --- executable --------------------------------------------------------------

/// Recover the encapsulated content from an enveloping CMS `SignedData`.
///
/// This does **not** verify the signature; it only unwraps the envelope.
/// Errors if `cms_der` is not a `SignedData`, or if it is detached.
pub fn extract_content(cms_der: &[u8]) -> (r: Result<Vec<u8>, CmsError>)
    ensures
        bytes_result(r) == spec_extract_content(cms_der@),
{
    let raw = RawSignedData::parse(cms_der)?;
    match raw.econtent()? {
        Some(c) => Ok(c),
        None => Err(builder_error("CMS is detached: no encapsulated content")),
    }
}

/// Build the `signature-time-stamp-token` unsigned attribute (CAdES-B-T).
///
/// `tst_der` is the DER of the RFC 3161 timestamp token, embedded verbatim.
pub fn signature_timestamp_attr(tst_der: &[u8]) -> (r: Result<CmsAttribute, CmsError>)
    ensures
        attr_result(r) == spec_single_value_attr(oid_signature_time_stamp_token(), tst_der@),
{
    single_value_attr(owned("1.2.840.113549.1.9.16.2.14"), tst_der)
}

/// Build the `certificate-values` unsigned attribute (CAdES-B-LT) over the
/// DER certificates `certs_der`, each checked to parse as one.
pub fn certificate_values_attr(certs_der: &[&[u8]]) -> (r: Result<CmsAttribute, CmsError>)
    ensures
        attr_result(r) == spec_certificate_values_attr(slice_views(certs_der@)),
{
    let ghost cv = slice_views(certs_der@);
    let mut items: Vec<Vec<u8>> = Vec::new();
    let mut i: usize = 0;
    while i < certs_der.len()
        invariant
            i <= certs_der@.len(),
            cv == slice_views(certs_der@),
            vec_views(items@) == cv.take(i as int),
            forall|k: int| 0 <= k < i ==> spec_certificate_decodes(#[trigger] cv[k]),
        decreases certs_der.len() - i,
    {
        assert(cv[i as int] == certs_der@[i as int]@);
        if !certificate_decodes(certs_der[i]) {
            return Err(der_error("certificate-values entry parse"));
        }
        let c = copy_bytes(certs_der[i]);
        proof {
            assert(vec_views(items@.push(c)) =~= vec_views(items@).push(c@));
            assert(cv.take(i + 1) =~= cv.take(i as int).push(cv[i as int]));
        }
        items.push(c);
        i = i + 1;
    }
    assert(cv.take(i as int) =~= cv);
    let seq = sequence(items.as_slice());
    single_value_attr(owned("1.2.840.113549.1.9.16.2.23"), seq.as_slice())
}

/// The copies of `items` as one vector.
fn copy_list(items: &[&[u8]]) -> (r: Vec<Vec<u8>>)
    ensures
        vec_views(r@) == slice_views(items@),
{
    let mut out: Vec<Vec<u8>> = Vec::new();
    let mut i: usize = 0;
    while i < items.len()
        invariant
            i <= items@.len(),
            vec_views(out@) == slice_views(items@).take(i as int),
        decreases items.len() - i,
    {
        let c = copy_bytes(items[i]);
        proof {
            assert(vec_views(out@.push(c)) =~= vec_views(out@).push(c@));
            assert(slice_views(items@).take(i + 1) =~= slice_views(items@).take(i as int).push(
                items@[i as int]@,
            ));
        }
        out.push(c);
        i = i + 1;
    }
    assert(slice_views(items@).take(i as int) =~= slice_views(items@));
    out
}

/// Build the `revocation-values` unsigned attribute (CAdES-B-LT).
///
/// `crls_der` are DER `CertificateList`s and `ocsp_basic_der` DER
/// `BasicOCSPResponse`s; either list may be empty.
pub fn revocation_values_attr(crls_der: &[&[u8]], ocsp_basic_der: &[&[u8]]) -> (r: Result<
    CmsAttribute,
    CmsError,
>)
    ensures
        attr_result(r) == spec_single_value_attr(
            oid_revocation_values(),
            spec_revocation_values(slice_views(crls_der@), slice_views(ocsp_basic_der@)),
        ),
{
    let mut fields: Vec<Vec<u8>> = Vec::new();
    let ghost crls = slice_views(crls_der@);
    let ghost ocsp = slice_views(ocsp_basic_der@);
    if crls_der.len() > 0 {
        let items = copy_list(crls_der);
        let body = super::tlv::concat(items.as_slice());
        fields.push(implicit_context(0, body.as_slice()));
    }
    let ghost f0 = vec_views(fields@);
    if ocsp_basic_der.len() > 0 {
        let items = copy_list(ocsp_basic_der);
        let body = super::tlv::concat(items.as_slice());
        let f = implicit_context(1, body.as_slice());
        proof {
            assert(vec_views(fields@.push(f)) =~= vec_views(fields@).push(f@));
        }
        fields.push(f);
    }
    proof {
        let e0 = if crls.len() > 0 {
            seq![spec_encode_tlv(0xA0, crls.flatten())]
        } else {
            Seq::<Seq<u8>>::empty()
        };
        let e1 = if ocsp.len() > 0 {
            seq![spec_encode_tlv(0xA1, ocsp.flatten())]
        } else {
            Seq::<Seq<u8>>::empty()
        };
        assert(f0 =~= e0);
        assert(vec_views(fields@) =~= e0 + e1);
    }
    let seq = sequence(fields.as_slice());
    single_value_attr(owned("1.2.840.113549.1.9.16.2.24"), seq.as_slice())
}

/// Return the signature value (the `SignerInfo.signature` octets) of the
/// only signer of a CMS: the data a TSA timestamps for CAdES-B-T.
pub fn signature_value(cms_der: &[u8]) -> (r: Result<Vec<u8>, CmsError>)
    ensures
        bytes_result(r) == spec_signature_value(cms_der@),
{
    let raw = RawSignedData::parse(cms_der)?;
    if raw.signer_infos.len() != 1 {
        return Err(builder_error("expected exactly one SignerInfo"));
    }
    signer_info_signature(raw.signer_info(0)?)
}

/// Like [`signature_value`], for the signer at `index` of a CMS carrying
/// several parallel signatures.
pub fn signature_value_at(cms_der: &[u8], index: usize) -> (r: Result<Vec<u8>, CmsError>)
    ensures
        bytes_result(r) == spec_signature_value_at(cms_der@, index as int),
{
    let raw = RawSignedData::parse(cms_der)?;
    signer_info_signature(raw.signer_info(index)?)
}

/// Add unsigned attributes to the single `SignerInfo` of a CMS, keeping those
/// already present. Signed material is copied verbatim.
pub fn add_unsigned_attributes(cms_der: &[u8], new_attrs: Vec<CmsAttribute>) -> (r: Result<
    Vec<u8>,
    CmsError,
>)
    ensures
        bytes_result(r) == spec_add_unsigned(cms_der@, attr_views(new_attrs@)),
{
    let raw = RawSignedData::parse(cms_der)?;
    if raw.signer_infos.len() != 1 {
        return Err(builder_error("expected exactly one SignerInfo"));
    }
    add_unsigned_attributes_at(cms_der, 0, new_attrs)
}

/// Like [`add_unsigned_attributes`], for the signer at `index` (in encoded
/// `SET OF` order) of a CMS carrying several parallel signatures.
pub fn add_unsigned_attributes_at(cms_der: &[u8], index: usize, new_attrs: Vec<CmsAttribute>) -> (r:
    Result<Vec<u8>, CmsError>)
    ensures
        bytes_result(r) == spec_add_unsigned_at(cms_der@, index as int, attr_views(new_attrs@)),
{
    let mut raw = RawSignedData::parse(cms_der)?;
    let updated = signer_info_with_unsigned(raw.signer_info(index)?, new_attrs)?;
    let ghost m = raw@;
    raw.signer_infos.set(index, updated);
    proof {
        assert(raw@ == SignedDataModel {
            signer_infos: m.signer_infos.update(index as int, updated@),
            ..m
        }) by {
            assert(vec_views(raw.signer_infos@) =~= m.signer_infos.update(index as int, updated@));
        }
    }
    Ok(raw.encode())
}

/// The content that a new parallel signer of `cms_der` has to sign:
/// `content` when given, else the content `cms_der` envelops.
pub fn signing_content(cms_der: &[u8], content: Option<&[u8]>) -> (r: Result<Vec<u8>, CmsError>)
    ensures
        bytes_result(r) == spec_signing_content(
            cms_der@,
            match content {
                Some(c) => Some(c@),
                None => None,
            },
        ),
{
    let raw = RawSignedData::parse(cms_der)?;
    match content {
        Some(c) => Ok(copy_bytes(c)),
        None => match raw.econtent()? {
            Some(c) => Ok(c),
            None => Err(builder_error("CMS is detached: the signed content must be supplied")),
        },
    }
}

/// Add a **parallel** signature: the signers of `fresh_cms` (a CMS signed
/// over the same content) join those of `cms_der` in the same `SignedData`.
///
/// The signers already present are transplanted byte for byte; the digest
/// algorithms and certificates of `fresh_cms` are merged in without
/// duplicates.
pub fn add_signer(cms_der: &[u8], fresh_cms: &[u8]) -> (r: Result<Vec<u8>, CmsError>)
    ensures
        bytes_result(r) == spec_add_signer(cms_der@, fresh_cms@),
{
    let mut raw = RawSignedData::parse(cms_der)?;
    let fresh = RawSignedData::parse(fresh_cms)?;
    let ghost m = raw@;
    let ghost f = fresh@;
    let RawSignedData {
        content_type: _,
        version: _,
        digest_algorithms: fresh_algs,
        encap_content_info: _,
        certificates: fresh_certs,
        crls: _,
        signer_infos: fresh_signers,
    } = fresh;
    let mut fresh_signers = fresh_signers;
    let ghost before = vec_views(raw.signer_infos@);
    let ghost fs = vec_views(fresh_signers@);
    raw.signer_infos.append(&mut fresh_signers);
    assert(vec_views(raw.signer_infos@) =~= before + fs);
    let ghost algs0 = vec_views(raw.digest_algorithms@);
    let ghost na = vec_views(fresh_algs@);
    let mut i: usize = 0;
    assert(na.take(0) =~= Seq::<Seq<u8>>::empty());
    while i < fresh_algs.len()
        invariant
            i <= fresh_algs@.len(),
            na == vec_views(fresh_algs@),
            vec_views(raw.digest_algorithms@) == spec_add_absent(algs0, na.take(i as int)),
            raw@ == (SignedDataModel {
                digest_algorithms: vec_views(raw.digest_algorithms@),
                signer_infos: m.signer_infos + f.signer_infos,
                ..m
            }),
        decreases fresh_algs.len() - i,
    {
        let present = super::signed_data::contains_bytes(&raw.digest_algorithms, fresh_algs[i].as_slice());
        proof {
            assert(na.take(i + 1).drop_last() =~= na.take(i as int));
            assert(na.take(i + 1).last() == fresh_algs@[i as int]@);
        }
        if !present {
            let c = copy_bytes(fresh_algs[i].as_slice());
            proof {
                assert(vec_views(raw.digest_algorithms@.push(c)) =~= vec_views(
                    raw.digest_algorithms@,
                ).push(c@));
            }
            raw.digest_algorithms.push(c);
        }
        i = i + 1;
    }
    assert(na.take(i as int) =~= na);
    raw.merge_certificates(fresh_certs);
    Ok(raw.encode())
}

/// Countersign the signature at index `target`: the first signer of
/// `counter_cms` (a CMS whose signer signed the target's signature value, see
/// [`signature_value_at`]) is attached to the target as a `countersignature`
/// unsigned attribute, and its certificates are merged in.
///
/// Because it is an unsigned attribute, it does not disturb the signature it
/// countersigns; repeated calls stack countersignatures on the same target.
pub fn countersign(cms_der: &[u8], target: usize, counter_cms: &[u8]) -> (r: Result<
    Vec<u8>,
    CmsError,
>)
    ensures
        bytes_result(r) == spec_countersign(cms_der@, target as int, counter_cms@),
{
    let mut raw = RawSignedData::parse(cms_der)?;
    let _covered = signer_info_signature(raw.signer_info(target)?)?;
    let counter = RawSignedData::parse(counter_cms)?;
    let attr = single_value_attr(owned("1.2.840.113549.1.9.6"), counter.signer_info(0)?)?;
    let mut attrs: Vec<CmsAttribute> = Vec::new();
    attrs.push(attr);
    let ghost av = attr_views(attrs@);
    assert(av =~= seq![attr@]);
    let updated = signer_info_with_unsigned(raw.signer_info(target)?, attrs)?;
    let ghost m = raw@;
    raw.signer_infos.set(target, updated);
    assert(vec_views(raw.signer_infos@) =~= m.signer_infos.update(target as int, updated@));
    let RawSignedData {
        content_type: _,
        version: _,
        digest_algorithms: _,
        encap_content_info: _,
        certificates: counter_certs,
        crls: _,
        signer_infos: _,
    } = counter;
    raw.merge_certificates(counter_certs);
    Ok(raw.encode())
}

} // verus!
