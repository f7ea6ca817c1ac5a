//! Decoding of the AuthnContext extension (OID 1.2.752.201.5.1):
//!
//! ```text
//! AuthenticationContexts ::= SEQUENCE SIZE (1..MAX) OF AuthenticationContext
//! AuthenticationContext  ::= SEQUENCE {
//!     contextType  UTF8String,
//!     contextInfo  UTF8String OPTIONAL
//! }
//! ```

use vstd::prelude::*;
use vstd::utf8::{decode_utf8, valid_utf8};

use crate::cms::tlv::{be_uint, copy_bytes, spec_tlv};
use crate::text::utf8_string;
use crate::text::str_eq;
use super::types::{
    authn_context_oid, saci_context_type, RawAuthenticationContext, RawContextModel, SaciError,
    SaciFault,
};
use super::context::{
    parse_saml_auth_context, spec_parse_saml_auth_context, SAMLAuthContext, SAMLAuthContextModel,
};

verus! {

// --- specification -----------------------------------------------------------

/// The DER length field at the start of `d`: `(length, octets used)`.
/// Short form, or a long form of one to four octets; indefinite length and
/// longer forms are refused.
pub open spec fn spec_read_length(d: Seq<u8>) -> Option<(int, int)> {
    if d.len() == 0 {
        None
    } else if d[0] < 0x80 {
        Some((d[0] as int, 1))
    } else if d[0] == 0x80 {
        None
    } else {
        let n = d[0] - 0x80;
        if n > 4 || 1 + n > d.len() {
            None
        } else {
            Some((be_uint(d.subrange(1, 1 + n)) as int, 1 + n))
        }
    }
}

/// A UTF8String value as characters; refused when not UTF-8.
pub open spec fn spec_utf8(v: Seq<u8>) -> Result<Seq<char>, SaciFault> {
    if valid_utf8(v) {
        Ok(decode_utf8(v))
    } else {
        Err(SaciFault::Asn1)
    }
}

/// The optional `contextInfo` that follows the `contextType` in `rest`.
pub open spec fn spec_context_info(rest: Seq<u8>) -> Result<Option<Seq<char>>, SaciFault> {
    if rest.len() == 0 {
        Ok(None)
    } else {
        match spec_tlv(rest) {
            None => Err(SaciFault::Asn1),
            Some((t, h, l)) => {
                if t != 0x0C {
                    Err(SaciFault::Asn1)
                } else {
                    match spec_utf8(rest.subrange(h, h + l)) {
                        Err(e) => Err(e),
                        Ok(s) => Ok(Some(s)),
                    }
                }
            },
        }
    }
}

/// One `AuthenticationContext` from the value `body` of its SEQUENCE.
pub open spec fn spec_decode_context(body: Seq<u8>) -> Result<RawContextModel, SaciFault> {
    match spec_tlv(body) {
        None => Err(SaciFault::Asn1),
        Some((t, h, l)) => {
            if t != 0x0C {
                Err(SaciFault::Asn1)
            } else {
                match spec_utf8(body.subrange(h, h + l)) {
                    Err(e) => Err(e),
                    Ok(ct) => match spec_context_info(body.skip(h + l)) {
                        Err(e) => Err(e),
                        Ok(ci) => Ok(RawContextModel { context_type: ct, context_info: ci }),
                    },
                }
            }
        },
    }
}

/// The consecutive `AuthenticationContext` SEQUENCEs in `body`.
pub open spec fn spec_decode_list(body: Seq<u8>) -> Result<Seq<RawContextModel>, SaciFault>
    decreases body.len(),
{
    if body.len() == 0 {
        Ok(Seq::empty())
    } else {
        match spec_tlv(body) {
            None => Err(SaciFault::Asn1),
            Some((t, h, l)) => {
                if t != 0x30 {
                    Err(SaciFault::Asn1)
                } else if h + l <= 0 {
                    Err(SaciFault::Asn1)
                } else {
                    match spec_decode_context(body.subrange(h, h + l)) {
                        Err(e) => Err(e),
                        Ok(c) => match spec_decode_list(body.skip(h + l)) {
                            Err(e) => Err(e),
                            Ok(rest) => Ok(seq![c] + rest),
                        },
                    }
                }
            },
        }
    }
}

/// The contexts of an `AuthenticationContexts` value `der`, a
/// `SEQUENCE SIZE (1..MAX) OF AuthenticationContext`: an empty sequence is
/// refused.
pub open spec fn spec_decode_contexts(der: Seq<u8>) -> Result<Seq<RawContextModel>, SaciFault> {
    match spec_tlv(der) {
        None => Err(SaciFault::Asn1),
        Some((t, h, l)) => {
            if t != 0x30 || l == 0 {
                Err(SaciFault::Asn1)
            } else {
                spec_decode_list(der.subrange(h, h + l))
            }
        },
    }
}

/// The models of a sequence of raw contexts.
pub open spec fn raw_views(s: Seq<RawAuthenticationContext>) -> Seq<RawContextModel> {
    s.map_values(|c: RawAuthenticationContext| c@)
}

// --- executable --------------------------------------------------------------

fn asn1_error(msg: &str) -> (e: SaciError)
    ensures
        e matches SaciError::Asn1(s) && s@ == msg@,
{
    SaciError::Asn1(String::from_str(msg))
}

/// Read the DER length field at the start of `data`.
pub fn parse_der_length(data: &[u8]) -> (r: Result<(usize, usize), SaciError>)
    ensures
        match spec_read_length(data@) {
            None => r matches Err(e) && e.fault() == SaciFault::Asn1,
            Some((len, used)) => r matches Ok((l, u)) && l == len && u == used,
        },
{
    if data.len() == 0 {
        return Err(asn1_error("empty length"));
    }
    let first = data[0];
    if first < 0x80 {
        Ok((first as usize, 1))
    } else if first == 0x80 {
        Err(asn1_error("indefinite length not supported"))
    } else {
        let num_bytes = (first - 0x80) as usize;
        if num_bytes > 4 || 1 + num_bytes > data.len() {
            return Err(asn1_error("length encoding error"));
        }
        let mut len: u64 = 0;
        let mut i: usize = 0;
        let ghost bytes = data@.subrange(1, 1 + num_bytes as int);
        while i < num_bytes
            invariant
                i <= num_bytes <= 4,
                1 + num_bytes <= data@.len(),
                bytes == data@.subrange(1, 1 + num_bytes as int),
                len == be_uint(bytes.take(i as int)),
                len < crate::cms::tlv::pow256(i as nat),
            decreases num_bytes - i,
        {
            proof {
                assert(bytes.take(i + 1).drop_last() =~= bytes.take(i as int));
                assert(bytes.take(i + 1).last() == data@[1 + i]);
                crate::cms::tlv::lemma_pow256_values();
                assert(len * 256 + data@[1 + i] < crate::cms::tlv::pow256((i + 1) as nat)) by (nonlinear_arith)
                    requires
                        len < crate::cms::tlv::pow256(i as nat),
                        data@[1 + i] < 256,
                        crate::cms::tlv::pow256((i + 1) as nat) == 256 * crate::cms::tlv::pow256(i as nat),
                ;
            }
            len = len * 256 + data[1 + i] as u64;
            i = i + 1;
        }
        proof {
            assert(bytes.take(i as int) =~= bytes);
            crate::cms::tlv::lemma_pow256_values();
        }
        Ok((len as usize, 1 + num_bytes))
    }
}

/// Read the TLV at the start of `data`: its tag, a copy of its value, and
/// the bytes after it.
pub fn parse_tlv_with_rest(data: &[u8]) -> (r: Result<(u8, Vec<u8>, &[u8]), SaciError>)
    ensures
        match spec_tlv(data@) {
            None => r matches Err(e) && e.fault() == SaciFault::Asn1,
            Some((t, h, l)) => r matches Ok((tag, v, rest)) && tag == t && v@ == data@.subrange(
                h,
                h + l,
            ) && rest@ == data@.skip(h + l),
        },
{
    if data.len() == 0 {
        return Err(asn1_error("empty input"));
    }
    let tag = data[0];
    let tail = &data[1..data.len()];
    assert(tail@ =~= data@.skip(1));
    let (len, header_len) = match parse_der_length(tail) {
        Ok(x) => x,
        Err(e) => {
            proof {
                if data@.len() >= 2 && data@[1] > 0x80 && data@[1] - 0x80 <= 4 && 2 + (data@[1]
                    - 0x80) <= data@.len() {
                    let n = data@[1] - 0x80;
                    assert(tail@.subrange(1, 1 + n) =~= data@.subrange(2, 2 + n));
                }
            }
            return Err(e);
        },
    };
    proof {
        if data@[1] >= 0x80 {
            let n = data@[1] - 0x80;
            assert(tail@.subrange(1, 1 + n) =~= data@.subrange(2, 2 + n));
        }
    }
    let total_header = 1 + header_len;
    if len > data.len() - total_header {
        return Err(asn1_error("TLV overflow"));
    }
    let value = copy_bytes(&data[total_header..total_header + len]);
    let rest = &data[total_header + len..data.len()];
    Ok((tag, value, rest))
}

/// Read the TLV at the start of `data`: its tag and a copy of its value.
pub fn parse_tlv(data: &[u8]) -> (r: Result<(u8, Vec<u8>), SaciError>)
    ensures
        match spec_tlv(data@) {
            None => r matches Err(e) && e.fault() == SaciFault::Asn1,
            Some((t, h, l)) => r matches Ok((tag, v)) && tag == t && v@ == data@.subrange(h, h + l),
        },
{
    let (tag, body, _) = parse_tlv_with_rest(data)?;
    Ok((tag, body))
}

/// The text of a UTF8String value.
fn utf8_value(v: &[u8]) -> (r: Result<String, SaciError>)
    ensures
        match spec_utf8(v@) {
            Err(f) => r matches Err(e) && e.fault() == f,
            Ok(s) => r matches Ok(x) && x@ == s,
        },
{
    match utf8_string(v) {
        Some(s) => Ok(s),
        None => Err(asn1_error("UTF8String is not valid UTF-8")),
    }
}

/// Decode one `AuthenticationContext` from the value of its SEQUENCE.
fn decode_context(inner_body: &[u8]) -> (r: Result<RawAuthenticationContext, SaciError>)
    ensures
        match spec_decode_context(inner_body@) {
            Err(f) => r matches Err(e) && e.fault() == f,
            Ok(c) => r matches Ok(x) && x@ == c,
        },
{
    let (ct_tag, ct_body, inner_rest) = parse_tlv_with_rest(inner_body)?;
    if ct_tag != 0x0C {
        return Err(asn1_error("expected UTF8String (0x0C) for contextType"));
    }
    let context_type = utf8_value(ct_body.as_slice())?;
    let context_info = if inner_rest.len() > 0 {
        let (ci_tag, ci_body, _) = parse_tlv_with_rest(inner_rest)?;
        if ci_tag != 0x0C {
            return Err(asn1_error("expected UTF8String (0x0C) for contextInfo"));
        }
        Some(utf8_value(ci_body.as_slice())?)
    } else {
        None
    };
    Ok(RawAuthenticationContext { context_type, context_info })
}

/// Decode the ASN.1 `AuthenticationContexts` SEQUENCE, which holds at
/// least one `AuthenticationContext`.
pub fn decode_authentication_contexts(der_bytes: &[u8]) -> (r: Result<
    Vec<RawAuthenticationContext>,
    SaciError,
>)
    ensures
        match spec_decode_contexts(der_bytes@) {
            Err(f) => r matches Err(e) && e.fault() == f,
            Ok(cs) => r matches Ok(v) && raw_views(v@) == cs,
        },
{
    let mut results: Vec<RawAuthenticationContext> = Vec::new();
    let (tag, body) = parse_tlv(der_bytes)?;
    if tag != 0x30 {
        return Err(asn1_error("expected SEQUENCE (0x30)"));
    }
    if body.len() == 0 {
        return Err(asn1_error("AuthenticationContexts holds no AuthenticationContext"));
    }
    let mut pos: &[u8] = body.as_slice();
    let ghost whole = body@;
    assert(raw_views(results@) =~= Seq::<RawContextModel>::empty());
    while pos.len() > 0
        invariant
            spec_decode_contexts(der_bytes@) == spec_decode_list(whole),
            spec_decode_list(whole) == match spec_decode_list(pos@) {
                Ok(rest) => Ok::<Seq<RawContextModel>, SaciFault>(raw_views(results@) + rest),
                Err(e) => Err(e),
            },
        decreases pos@.len(),
    {
        let ghost d = pos@;
        proof {
            crate::cms::tlv::lemma_tlv_bounds(d);
        }
        let (inner_tag, inner_body, rest) = parse_tlv_with_rest(pos)?;
        if inner_tag != 0x30 {
            return Err(asn1_error("expected inner SEQUENCE (0x30)"));
        }
        let c = decode_context(inner_body.as_slice())?;
        proof {
            let (t, h, l) = spec_tlv(d).unwrap();
            assert(raw_views(results@.push(c)) =~= raw_views(results@).push(c@));
            match spec_decode_list(rest@) {
                Ok(r2) => {
                    assert(raw_views(results@) + (seq![c@] + r2) =~= raw_views(results@.push(c))
                        + r2);
                },
                Err(_) => {},
            }
        }
        results.push(c);
        pos = rest;
    }
    assert(raw_views(results@) + Seq::<RawContextModel>::empty() =~= raw_views(results@));
    Ok(results)
}

// --- the certificate ---------------------------------------------------------

/// What x509-cert makes of `cert_der` read as one DER certificate: the
/// extensions of its TBS certificate, each as its dotted object identifier
/// and the octets of its value, in order (none when the field is absent);
/// `None` when the bytes are not a certificate.
pub uninterp spec fn spec_certificate_extensions(cert_der: Seq<u8>) -> Option<
    Seq<(Seq<char>, Seq<u8>)>,
>;

/// The characters and bytes of a list of extensions.
pub open spec fn ext_views(s: Seq<(String, Vec<u8>)>) -> Seq<(Seq<char>, Seq<u8>)> {
    s.map_values(|e: (String, Vec<u8>)| (e.0@, e.1@))
}

/// Calls `x509_cert::Certificate::from_der` and lists the extensions of the
/// TBS certificate (`ObjectIdentifier`'s `Display`, `OctetString::as_bytes`).
///
/// Claimed: the result is a function of the bytes alone, named by
/// [`spec_certificate_extensions`].
#[verifier::external_body]
fn certificate_extensions(cert_der: &[u8]) -> (r: Option<Vec<(String, Vec<u8>)>>)
    ensures
        match r {
            Some(v) => spec_certificate_extensions(cert_der@) == Some(ext_views(v@)),
            None => spec_certificate_extensions(cert_der@) is None,
        },
{
    let cert = <x509_cert::Certificate as der::Decode>::from_der(cert_der).ok()?;
    let exts = cert.tbs_certificate.extensions.unwrap_or_default();
    Some(exts.iter().map(|e| (e.extn_id.to_string(), e.extn_value.as_bytes().to_vec())).collect())
}

/// The index of the first extension with object identifier `oid`.
pub open spec fn spec_find_extension(exts: Seq<(Seq<char>, Seq<u8>)>, oid: Seq<char>) -> Option<
    int,
>
    decreases exts.len(),
{
    if exts.len() == 0 {
        None
    } else if exts[0].0 == oid {
        Some(0)
    } else {
        match spec_find_extension(exts.drop_first(), oid) {
            Some(i) => Some(i + 1),
            None => None,
        }
    }
}

/// The raw contexts of the AuthnContext extension of the certificate
/// `cert_der`.
pub open spec fn spec_extract_raw_contexts(cert_der: Seq<u8>) -> Result<
    Seq<RawContextModel>,
    SaciFault,
> {
    match spec_certificate_extensions(cert_der) {
        None => Err(SaciFault::Asn1),
        Some(exts) => match spec_find_extension(exts, authn_context_oid()) {
            None => Err(SaciFault::ExtensionNotFound),
            Some(i) => spec_decode_contexts(exts[i].1),
        },
    }
}

/// Extract the raw `AuthenticationContext` entries of a certificate's
/// AuthnContext extension, without reading their XML.
pub fn extract_raw_contexts(cert_der: &[u8]) -> (r: Result<Vec<RawAuthenticationContext>, SaciError>)
    ensures
        match spec_extract_raw_contexts(cert_der@) {
            Err(f) => r matches Err(e) && e.fault() == f,
            Ok(cs) => r matches Ok(v) && raw_views(v@) == cs,
        },
{
    let exts = match certificate_extensions(cert_der) {
        Some(e) => e,
        None => {
            return Err(asn1_error("not a DER certificate"));
        },
    };
    let ghost ev = ext_views(exts@);
    let mut i: usize = 0;
    assert(ev.skip(0) =~= ev);
    while i < exts.len()
        invariant
            i <= exts@.len(),
            ev == ext_views(exts@),
            spec_certificate_extensions(cert_der@) == Some(ev),
            spec_find_extension(ev, authn_context_oid()) == match spec_find_extension(
                ev.skip(i as int),
                authn_context_oid(),
            ) {
                Some(k) => Some(k + i),
                None => None,
            },
        decreases exts.len() - i,
    {
        assert(ev.skip(i as int)[0] == ev[i as int]);
        assert(ev.skip(i as int).drop_first() =~= ev.skip(i + 1));
        if str_eq(exts[i].0.as_str(), "1.2.752.201.5.1") {
            assert(ev[i as int].1 == exts@[i as int].1@);
            return decode_authentication_contexts(exts[i].1.as_slice());
        }
        i = i + 1;
    }
    Err(SaciError::ExtensionNotFound)
}

/// The SACI contexts among `raws` read from their XML, in order.
pub open spec fn spec_saci_contexts(raws: Seq<RawContextModel>) -> Result<
    Seq<SAMLAuthContextModel>,
    SaciFault,
>
    decreases raws.len(),
{
    if raws.len() == 0 {
        Ok(Seq::empty())
    } else {
        match spec_saci_contexts(raws.drop_last()) {
            Err(e) => Err(e),
            Ok(acc) => {
                let r = raws.last();
                if r.context_type == saci_context_type() && r.context_info is Some {
                    match spec_parse_saml_auth_context(r.context_info.unwrap()) {
                        Err(e) => Err(e),
                        Ok(c) => Ok(acc.push(c)),
                    }
                } else {
                    Ok(acc)
                }
            },
        }
    }
}

/// All SACI contexts of the certificate `cert_der`.
pub open spec fn spec_extract_authn_contexts(cert_der: Seq<u8>) -> Result<
    Seq<SAMLAuthContextModel>,
    SaciFault,
> {
    match spec_extract_raw_contexts(cert_der) {
        Err(e) => Err(e),
        Ok(raws) => match spec_saci_contexts(raws) {
            Err(e) => Err(e),
            Ok(cs) => {
                if cs.len() == 0 && raws.len() == 0 {
                    Err(SaciFault::ExtensionNotFound)
                } else {
                    Ok(cs)
                }
            },
        },
    }
}

/// The models of a list of contexts.
pub open spec fn context_views(s: Seq<SAMLAuthContext>) -> Seq<SAMLAuthContextModel> {
    s.map_values(|c: SAMLAuthContext| c@)
}

/// Once reading contexts fails, reading more fails the same way.
proof fn lemma_saci_error_sticks(raws: Seq<RawContextModel>, k: int)
    requires
        0 <= k <= raws.len(),
        spec_saci_contexts(raws.take(k)) is Err,
    ensures
        spec_saci_contexts(raws) == spec_saci_contexts(raws.take(k)),
    decreases raws.len() - k,
{
    if k < raws.len() {
        assert(raws.take(k + 1).drop_last() =~= raws.take(k));
        lemma_saci_error_sticks(raws, k + 1);
    } else {
        assert(raws.take(k) =~= raws);
    }
}

/// Extract and parse all SACI AuthnContext entries of a certificate.
///
/// Finds the extension with OID `1.2.752.201.5.1`, decodes it, and parses
/// the XML of every SACI-typed context.
pub fn extract_authn_contexts(cert_der: &[u8]) -> (r: Result<Vec<SAMLAuthContext>, SaciError>)
    ensures
        match spec_extract_authn_contexts(cert_der@) {
            Err(f) => r matches Err(e) && e.fault() == f,
            Ok(cs) => r matches Ok(v) && context_views(v@) == cs,
        },
{
    let raw_contexts = extract_raw_contexts(cert_der)?;
    let ghost rv = raw_views(raw_contexts@);
    let mut results: Vec<SAMLAuthContext> = Vec::new();
    let mut i: usize = 0;
    assert(rv.take(0) =~= Seq::<RawContextModel>::empty());
    assert(context_views(results@) =~= Seq::<SAMLAuthContextModel>::empty());
    while i < raw_contexts.len()
        invariant
            i <= raw_contexts@.len(),
            rv == raw_views(raw_contexts@),
            spec_extract_raw_contexts(cert_der@) == Ok::<Seq<RawContextModel>, SaciFault>(rv),
            spec_saci_contexts(rv.take(i as int)) == Ok::<Seq<SAMLAuthContextModel>, SaciFault>(
                context_views(results@),
            ),
        decreases raw_contexts.len() - i,
    {
        let raw = &raw_contexts[i];
        proof {
            assert(rv[i as int] == raw@);
            assert(rv.take(i + 1).drop_last() =~= rv.take(i as int));
            assert(rv.take(i + 1).last() == raw@);
        }
        if str_eq(raw.context_type.as_str(), "http://id.elegnamnden.se/auth-cont/1.0/saci") {
            if let Some(xml) = &raw.context_info {
                match parse_saml_auth_context(xml.as_str()) {
                    Ok(parsed) => {
                        assert(context_views(results@.push(parsed)) =~= context_views(results@).push(
                            parsed@,
                        ));
                        results.push(parsed);
                    },
                    Err(e) => {
                        proof {
                            lemma_saci_error_sticks(rv, i + 1);
                        }
                        return Err(e);
                    },
                }
            }
        }
        i = i + 1;
    }
    assert(rv.take(i as int) =~= rv);
    if results.len() == 0 && raw_contexts.len() == 0 {
        return Err(SaciError::ExtensionNotFound);
    }
    Ok(results)
}

} // verus!
