use underskrift::cms::attributes::CmsAttribute;
use underskrift::cms::cades::{
    add_signer, add_unsigned_attributes, add_unsigned_attributes_at, certificate_values_attr, countersign,
    extract_content, revocation_values_attr, signature_timestamp_attr, signature_value, signature_value_at,
    signing_content,
};
use underskrift::cms::tlv::implicit_context;
use underskrift::error::CmsError;

/// An X.509 certificate (DER), from x509-cert's own test corpus.
const CERT_HEX: &[&str] = &[
    "308203233082028ca003020102020430000006300d06092a864886f70d0101050500305f310b30090603550406130255",
    "5331173015060355040a130e566572695369676e2c20496e632e31373035060355040b132e436c617373203320507562",
    "6c6963205072696d6172792043657274696669636174696f6e20417574686f72697479301e170d303430353133303030",
    "3030305a170d3135303531323233353935395a304c310b3009060355040613025a4131253023060355040a131c546861",
    "77746520436f6e73756c74696e67202850747929204c74642e311630140603550403130d546861777465205347432043",
    "4130819f300d06092a864886f70d010101050003818d0030818902818100d4d367d08d157faecd31fe7d1d91a13f0b71",
    "3cacccc864fb63fc324b0794bd6f80ba2fe10493c033fc093323e90b742b71c403c6d2cde22ff50963cdff48a500bfe0",
    "e7f388b72d32de9836e60aad007bc4644a3b847503f270927d0e62f521ab693684317590f8bfc76c881b06957cc9e5a8",
    "de75a12c7a68dfd5ca1c875860190203010001a381fe3081fb30120603551d130101ff040830060101ff020100300b06",
    "03551d0f040403020106301106096086480186f842010104040302010630280603551d110421301fa41d301b31193017",
    "06035504031310507269766174654c6162656c332d313530310603551d1f042a30283026a024a0228620687474703a2f",
    "2f63726c2e766572697369676e2e636f6d2f706361332e63726c303206082b0601050507010104263024302206082b06",
    "0105050730018616687474703a2f2f6f6373702e7468617774652e636f6d30340603551d25042d302b06082b06010505",
    "07030106082b0601050507030206096086480186f8420401060a6086480186f845010801300d06092a864886f70d0101",
    "0505000381810006a80b8f093517f52916c1b165a4461ca2c956c9222a952a865d63ea3642d99f84250eff9456ed95a0",
    "f03954aad5a22e9c680dbab6063850e3968b02d6cb9f0dcdbb63c2fd5420031ebad15b70ff58e76f69f2108f14a13db9",
    "b2cccb6cd94ea7efaa5643e2e222a38068b083aa62341193e0101f812199222e1ba2ca33f50961",];

const OID_SIGNED_DATA: [u8; 11] = [0x06, 0x09, 0x2A, 0x86, 0x48, 0x86, 0xF7, 0x0D, 0x01, 0x07, 0x02];
const OID_DATA: [u8; 11] = [0x06, 0x09, 0x2A, 0x86, 0x48, 0x86, 0xF7, 0x0D, 0x01, 0x07, 0x01];
const OID_TST: [u8; 13] = [0x06, 0x0B, 0x2A, 0x86, 0x48, 0x86, 0xF7, 0x0D, 0x01, 0x09, 0x10, 0x02, 0x0E];
const OID_COUNTERSIGNATURE: [u8; 11] = [0x06, 0x09, 0x2A, 0x86, 0x48, 0x86, 0xF7, 0x0D, 0x01, 0x09, 0x06];

fn cert() -> Vec<u8> {
    hex::decode(CERT_HEX.concat()).unwrap()
}

fn tlv(tag: u8, content: &[u8]) -> Vec<u8> {
    let mut out = vec![tag];
    let n = content.len();
    if n < 0x80 {
        out.push(n as u8);
    } else if n < 0x100 {
        out.extend_from_slice(&[0x81, n as u8]);
    } else {
        out.extend_from_slice(&[0x82, (n >> 8) as u8, n as u8]);
    }
    out.extend_from_slice(content);
    out
}

fn seq(parts: &[Vec<u8>]) -> Vec<u8> {
    tlv(0x30, &parts.concat())
}

fn sha256_alg() -> Vec<u8> {
    vec![0x30, 0x0D, 0x06, 0x09, 0x60, 0x86, 0x48, 0x01, 0x65, 0x03, 0x04, 0x02, 0x01, 0x05, 0x00]
}

fn rsa_alg() -> Vec<u8> {
    vec![0x30, 0x0D, 0x06, 0x09, 0x2A, 0x86, 0x48, 0x86, 0xF7, 0x0D, 0x01, 0x01, 0x01, 0x05, 0x00]
}

/// A SignerInfo with an IssuerAndSerialNumber `sid`, signed attributes
/// `signed` and signature value `sig`.
fn signer_info(serial: u8, signed: &[u8], sig: &[u8]) -> Vec<u8> {
    seq(&[
        vec![0x02, 0x01, 0x01],
        seq(&[seq(&[]), vec![0x02, 0x01, serial]]),
        sha256_alg(),
        tlv(0xA0, signed),
        rsa_alg(),
        tlv(0x04, sig),
    ])
}

fn signed_data(content: Option<&[u8]>, signers: &[Vec<u8>]) -> Vec<u8> {
    signed_data_with_certs(content, None, signers)
}

fn signed_data_with_certs(content: Option<&[u8]>, certs: Option<&[Vec<u8>]>, signers: &[Vec<u8>]) -> Vec<u8> {
    let mut encap = vec![OID_DATA.to_vec()];
    if let Some(c) = content {
        encap.push(tlv(0xA0, &tlv(0x04, c)));
    }
    let mut fields = vec![vec![0x02, 0x01, 0x01], tlv(0x31, &sha256_alg()), seq(&encap)];
    if let Some(cs) = certs {
        fields.push(tlv(0xA0, &cs.concat()));
    }
    fields.push(tlv(0x31, &signers.concat()));
    let sd = seq(&fields);
    seq(&[OID_SIGNED_DATA.to_vec(), tlv(0xA0, &sd)])
}

fn contains(haystack: &[u8], needle: &[u8]) -> bool {
    haystack.windows(needle.len()).any(|w| w == needle)
}

fn count(haystack: &[u8], needle: &[u8]) -> usize {
    haystack.windows(needle.len()).filter(|w| *w == needle).count()
}

fn signer_a() -> Vec<u8> {
    signer_info(1, &[0x31, 0x00], b"signature-of-a")
}

fn signer_b() -> Vec<u8> {
    signer_info(2, &[0x31, 0x00], b"signature-of-b")
}

/// What every signature covers in a SignerInfo: all of its fields.
fn signer_fields(si: &[u8]) -> &[u8] {
    &si[2..]
}

#[test]
fn attached_content_is_given_back() {
    let cms = signed_data(Some(b"documento da imbustare"), &[signer_a()]);
    assert_eq!(extract_content(&cms).unwrap(), b"documento da imbustare".to_vec());
    assert_eq!(signing_content(&cms, None).unwrap(), b"documento da imbustare".to_vec());
}

#[test]
fn a_detached_envelope_has_nothing_to_extract() {
    let cms = signed_data(None, &[signer_a()]);
    assert!(matches!(extract_content(&cms), Err(CmsError::Builder(_))));
    assert!(matches!(signing_content(&cms, None), Err(CmsError::Builder(_))));
    assert_eq!(signing_content(&cms, Some(b"the content")).unwrap(), b"the content".to_vec());
}

#[test]
fn signature_value_of_the_single_signer() {
    let cms = signed_data(None, &[signer_a()]);
    assert_eq!(signature_value(&cms).unwrap(), b"signature-of-a".to_vec());
    assert_eq!(signature_value_at(&cms, 0).unwrap(), b"signature-of-a".to_vec());
    assert!(matches!(signature_value_at(&cms, 1), Err(CmsError::Builder(_))));
}

#[test]
fn signature_value_wants_exactly_one_signer() {
    let cms = signed_data(None, &[signer_a(), signer_b()]);
    assert!(matches!(signature_value(&cms), Err(CmsError::Builder(_))));
    assert_eq!(signature_value_at(&cms, 0).unwrap(), b"signature-of-a".to_vec());
    assert_eq!(signature_value_at(&cms, 1).unwrap(), b"signature-of-b".to_vec());
}

#[test]
fn what_is_not_signed_data_is_refused() {
    let mut cms = signed_data(None, &[signer_a()]);
    let pos = cms.windows(OID_SIGNED_DATA.len()).position(|w| w == OID_SIGNED_DATA).unwrap();
    cms[pos + OID_SIGNED_DATA.len() - 1] = 0x01; // id-data in place of id-signedData
    assert!(matches!(signature_value(&cms), Err(CmsError::Builder(_))));
    assert!(matches!(signature_value(b"\x30\x05\x01"), Err(CmsError::Der(_))));
    assert!(matches!(signature_value(b""), Err(CmsError::Der(_))));
    let no_signers = signed_data(None, &[]);
    assert!(matches!(signature_value(&no_signers), Err(CmsError::Builder(_))));
}

#[test]
fn timestamp_attribute_carries_the_token_verbatim() {
    let tst = seq(&[OID_SIGNED_DATA.to_vec(), tlv(0xA0, &seq(&[]))]);
    let attr = signature_timestamp_attr(&tst).unwrap();
    assert_eq!(attr.oid, "1.2.840.113549.1.9.16.2.14");
    assert_eq!(attr.values, vec![tst]);
    assert!(matches!(signature_timestamp_attr(&[0x04, 0x05, 0x01]), Err(CmsError::Der(_))));
}

#[test]
fn adding_a_timestamp_keeps_the_signature() {
    let si = signer_a();
    let cms = signed_data(Some(b"hello"), &[si.clone()]);
    let tst = vec![0x04, 0x03, 0xAA, 0xBB, 0xCC];
    let out = add_unsigned_attributes(&cms, vec![signature_timestamp_attr(&tst).unwrap()]).unwrap();
    assert_eq!(signature_value(&out).unwrap(), b"signature-of-a".to_vec());
    assert!(contains(&out, signer_fields(&si)));
    assert!(contains(&out, &OID_TST));
    assert!(contains(&out, &tst));
    assert_eq!(extract_content(&out).unwrap(), b"hello".to_vec());
}

#[test]
fn adding_to_a_present_attribute_adds_a_value() {
    let cms = signed_data(None, &[signer_a()]);
    let first = add_unsigned_attributes(&cms, vec![signature_timestamp_attr(&[0x04, 0x01, 0x01]).unwrap()]).unwrap();
    let second =
        add_unsigned_attributes(&first, vec![signature_timestamp_attr(&[0x04, 0x01, 0x02]).unwrap()]).unwrap();
    assert_eq!(count(&second, &OID_TST), 1);
    assert!(contains(&second, &[0x04, 0x01, 0x01]));
    assert!(contains(&second, &[0x04, 0x01, 0x02]));
    assert_eq!(signature_value(&second).unwrap(), b"signature-of-a".to_vec());
}

#[test]
fn unsigned_attributes_need_one_signer_or_an_index() {
    let cms = signed_data(None, &[signer_a(), signer_b()]);
    let attr = || signature_timestamp_attr(&[0x04, 0x01, 0x07]).unwrap();
    assert!(matches!(add_unsigned_attributes(&cms, vec![attr()]), Err(CmsError::Builder(_))));
    assert!(matches!(add_unsigned_attributes_at(&cms, 2, vec![attr()]), Err(CmsError::Builder(_))));
    let out = add_unsigned_attributes_at(&cms, 1, vec![attr()]).unwrap();
    let sigs = [signature_value_at(&out, 0).unwrap(), signature_value_at(&out, 1).unwrap()];
    assert!(sigs.contains(&b"signature-of-a".to_vec()));
    assert!(sigs.contains(&b"signature-of-b".to_vec()));
    assert!(contains(&out, &[0x04, 0x01, 0x07]));
}

#[test]
fn certificate_values_take_certificates_only() {
    let c = cert();
    let attr = certificate_values_attr(&[c.as_slice()]).unwrap();
    assert_eq!(attr.oid, "1.2.840.113549.1.9.16.2.23");
    assert_eq!(attr.values, vec![seq(&[c.clone()])]);
    assert!(matches!(certificate_values_attr(&[c.as_slice(), b"\x30\x00"]), Err(CmsError::Der(_))));
}

#[test]
fn revocation_values_layout() {
    let empty = revocation_values_attr(&[], &[]).unwrap();
    assert_eq!(empty.oid, "1.2.840.113549.1.9.16.2.24");
    assert_eq!(empty.values, vec![vec![0x30, 0x00]]);
    let crl = seq(&[vec![0x02, 0x01, 0x05]]);
    let ocsp = seq(&[vec![0x02, 0x01, 0x06]]);
    let both = revocation_values_attr(&[crl.as_slice()], &[ocsp.as_slice()]).unwrap();
    assert_eq!(both.values, vec![seq(&[tlv(0xA0, &crl), tlv(0xA1, &ocsp)])]);
    let only_ocsp = revocation_values_attr(&[], &[ocsp.as_slice()]).unwrap();
    assert_eq!(only_ocsp.values, vec![seq(&[tlv(0xA1, &ocsp)])]);
}

#[test]
fn a_parallel_signer_joins_and_both_signatures_survive() {
    let a = signer_a();
    let b = signer_b();
    let cms = signed_data(Some(b"shared"), &[a.clone()]);
    let fresh = signed_data(None, &[b.clone()]);
    let out = add_signer(&cms, &fresh).unwrap();
    assert!(matches!(signature_value(&out), Err(CmsError::Builder(_))));
    let sigs = [signature_value_at(&out, 0).unwrap(), signature_value_at(&out, 1).unwrap()];
    assert!(sigs.contains(&b"signature-of-a".to_vec()));
    assert!(sigs.contains(&b"signature-of-b".to_vec()));
    assert!(contains(&out, &a));
    assert!(contains(&out, &b));
    assert_eq!(extract_content(&out).unwrap(), b"shared".to_vec());
    assert_eq!(count(&out, &sha256_alg()), 3);
}

#[test]
fn a_countersignature_leaves_the_signature_it_covers_intact() {
    let a = signer_a();
    let cms = signed_data(None, &[a.clone()]);
    let counter_si = signer_info(9, &[0x31, 0x00], b"counter");
    let counter = signed_data(None, &[counter_si.clone()]);
    let out = countersign(&cms, 0, &counter).unwrap();
    assert_eq!(signature_value(&out).unwrap(), b"signature-of-a".to_vec());
    assert!(contains(&out, signer_fields(&a)));
    assert!(contains(&out, &OID_COUNTERSIGNATURE));
    assert!(contains(&out, &counter_si));
    assert!(matches!(countersign(&cms, 1, &counter), Err(CmsError::Builder(_))));
}

#[test]
fn countersignatures_stack_on_one_target() {
    let cms = signed_data(None, &[signer_a()]);
    let c1 = signed_data(None, &[signer_info(7, &[0x31, 0x00], b"first")]);
    let c2 = signed_data(None, &[signer_info(8, &[0x31, 0x00], b"second")]);
    let once = countersign(&cms, 0, &c1).unwrap();
    let twice = countersign(&once, 0, &c2).unwrap();
    assert_eq!(count(&twice, &OID_COUNTERSIGNATURE), 1);
    assert!(contains(&twice, b"first"));
    assert!(contains(&twice, b"second"));
    assert_eq!(signature_value(&twice).unwrap(), b"signature-of-a".to_vec());
}

#[test]
fn attribute_values_are_kept_in_order() {
    let attr = CmsAttribute { oid: "1.2.3.4".to_string(), values: vec![vec![0x05, 0x00]] };
    let cms = signed_data(None, &[signer_a()]);
    let out = add_unsigned_attributes(&cms, vec![attr]).unwrap();
    assert!(contains(&out, &[0x06, 0x03, 0x2A, 0x03, 0x04, 0x31, 0x02, 0x05, 0x00]));
}

#[test]
fn certificates_are_merged_without_repetition() {
    let shared = cert();
    let own = vec![0x30, 0x03, 0x02, 0x01, 0x07];
    let theirs = vec![0x30, 0x03, 0x02, 0x01, 0x08];
    let cms = signed_data_with_certs(None, Some(&[shared.clone(), own.clone()]), &[signer_a()]);
    let fresh = signed_data_with_certs(None, Some(&[theirs.clone(), shared.clone()]), &[signer_b()]);
    let out = add_signer(&cms, &fresh).unwrap();
    assert_eq!(count(&out, &shared), 1);
    assert_eq!(count(&out, &own), 1);
    assert_eq!(count(&out, &theirs), 1);

    let counter = signed_data_with_certs(None, Some(&[shared.clone()]), &[signer_info(9, &[0x31, 0x00], b"c")]);
    let countersigned = countersign(&cms, 0, &counter).unwrap();
    assert_eq!(count(&countersigned, &shared), 1);
    assert_eq!(signature_value(&countersigned).unwrap(), b"signature-of-a".to_vec());
}

#[test]
fn implicit_context_tags_by_or() {
    assert_eq!(implicit_context(1, &[0x05]), vec![0xA1, 0x01, 0x05]);
    assert_eq!(implicit_context(0x41, &[]), vec![0xE1, 0x00]);
}
