use underskrift::saci::context::parse_saml_auth_context;
use underskrift::saci::parser::{decode_authentication_contexts, extract_authn_contexts, extract_raw_contexts, parse_der_length, parse_tlv};
use underskrift::saci::types::{MappingType, SaciError};

/// An X.509 certificate (DER) without an AuthnContext extension, from
/// x509-cert's own test corpus.
const CERT_HEX: &[&str] = &[
    "308203233082028ca003020102020430000006300d06092a864886f70d0101050500305f310b30090603550406130255",
    "5331173015060355040a130e566572695369676e2c20496e632e31373035060355040b132e436c617373203320507562",
    "6c6963205072696d6172792043657274696669636174696f6e20417574686f72697479301e170d303430353133303030",
    "3030305a170d3135303531323233353935395a304c310b3009060355040613025a4131253023060355040a131c546861",
    "77746520436f6e73756c74696e67202850747929204c74642e311630140603550403130d546861777465205347432043",
    "4130819f300d06092a864886f70d010101050003818d0030818902818100d4d367d08d157faecd31fe7d1d91a13f0b71",
    "3cacccc864fb63fc324b0794bd6f80ba2fe10493c033fc093323e90b742b71c403c6d2cde22ff50963cdff48a500bfe0",
    "e7f388b72d32de9836e60aad007bc4644a3b847503f270927d0e62f521ab693684317590f8bfc76c881b06957cc9e5a8",
    "de75a12c7a68dfd5ca1c875860190203010001a381fe3081fb30120603551d130101ff040830060101ff020100300b06",
    "03551d0f040403020106301106096086480186f842010104040302010630280603551d110421301fa41d301b31193017",
    "06035504031310507269766174654c6162656c332d313530310603551d1f042a30283026a024a0228620687474703a2f",
    "2f63726c2e766572697369676e2e636f6d2f706361332e63726c303206082b0601050507010104263024302206082b06",
    "0105050730018616687474703a2f2f6f6373702e7468617774652e636f6d30340603551d25042d302b06082b06010505",
    "07030106082b0601050507030206096086480186f8420401060a6086480186f845010801300d06092a864886f70d0101",
    "0505000381810006a80b8f093517f52916c1b165a4461ca2c956c9222a952a865d63ea3642d99f84250eff9456ed95a0",
    "f03954aad5a22e9c680dbab6063850e3968b02d6cb9f0dcdbb63c2fd5420031ebad15b70ff58e76f69f2108f14a13db9",
    "b2cccb6cd94ea7efaa5643e2e222a38068b083aa62341193e0101f812199222e1ba2ca33f50961",
];

const SACI_CONTEXT_TYPE: &str = "http://id.elegnamnden.se/auth-cont/1.0/saci";

const EXAMPLE_XML: &str = r#"<SAMLAuthContext xmlns="http://id.elegnamnden.se/auth-cont/1.0/saci" xmlns:saml="urn:oasis:names:tc:SAML:2.0:assertion"><AuthContextInfo IdentityProvider="http://dev.test.swedenconnect.se/idp" AuthenticationInstant="2023-01-11T13:46:00.435+01:00" AuthnContextClassRef="http://id.elegnamnden.se/loa/1.0/loa3" AssertionRef="_8db6eb9e8dc043d554eaa0dad145cfda" ServiceID="https://eid2cssp.3xasecurity.com/sign"/><IdAttributes><AttributeMapping Type="rdn" Ref="2.5.4.5"><saml:Attribute Name="urn:oid:1.2.752.29.4.13" FriendlyName="personalIdentityNumber"><saml:AttributeValue xsi:type="xs:string" xmlns:xs="http://www.w3.org/2001/XMLSchema" xmlns:xsi="http://www.w3.org/2001/XMLSchema-instance">197010632391</saml:AttributeValue></saml:Attribute></AttributeMapping><AttributeMapping Type="rdn" Ref="2.5.4.6"><saml:Attribute FriendlyName="country"><saml:AttributeValue xsi:type="xs:string" xmlns:xs="http://www.w3.org/2001/XMLSchema" xmlns:xsi="http://www.w3.org/2001/XMLSchema-instance">SE</saml:AttributeValue></saml:Attribute></AttributeMapping><AttributeMapping Type="rdn" Ref="2.5.4.42"><saml:Attribute Name="urn:oid:2.5.4.42" FriendlyName="givenName"><saml:AttributeValue xsi:type="xs:string" xmlns:xs="http://www.w3.org/2001/XMLSchema" xmlns:xsi="http://www.w3.org/2001/XMLSchema-instance">Sixten</saml:AttributeValue></saml:Attribute></AttributeMapping><AttributeMapping Type="rdn" Ref="2.5.4.4"><saml:Attribute Name="urn:oid:2.5.4.4" FriendlyName="sn"><saml:AttributeValue xsi:type="xs:string" xmlns:xs="http://www.w3.org/2001/XMLSchema" xmlns:xsi="http://www.w3.org/2001/XMLSchema-instance">von Samordnungsnummer</saml:AttributeValue></saml:Attribute></AttributeMapping><AttributeMapping Type="rdn" Ref="2.5.4.3"><saml:Attribute Name="urn:oid:2.16.840.1.113730.3.1.241" FriendlyName="displayName"><saml:AttributeValue xsi:type="xs:string" xmlns:xs="http://www.w3.org/2001/XMLSchema" xmlns:xsi="http://www.w3.org/2001/XMLSchema-instance">Sixten von Samordnungsnummer</saml:AttributeValue></saml:Attribute></AttributeMapping></IdAttributes></SAMLAuthContext>"#;

fn encode_tlv(tag: u8, value: &[u8]) -> Vec<u8> {
    let mut out = Vec::with_capacity(1 + 5 + value.len());
    out.push(tag);
    let len = value.len();
    if len < 0x80 {
        out.push(len as u8);
    } else if len <= 0xFF {
        out.push(0x81);
        out.push(len as u8);
    } else {
        out.push(0x82);
        out.push((len >> 8) as u8);
        out.push(len as u8);
    }
    out.extend_from_slice(value);
    out
}

#[test]
fn test_parse_example_xml() {
    let ctx = parse_saml_auth_context(EXAMPLE_XML).unwrap();
    let info = ctx.auth_context_info.as_ref().unwrap();
    assert_eq!(info.identity_provider, "http://dev.test.swedenconnect.se/idp");
    assert_eq!(info.authn_context_class_ref, "http://id.elegnamnden.se/loa/1.0/loa3");
    assert_eq!(info.authentication_instant, "2023-01-11T13:46:00.435+01:00");
    assert_eq!(info.assertion_ref.as_deref(), Some("_8db6eb9e8dc043d554eaa0dad145cfda"));
    assert_eq!(info.service_id.as_deref(), Some("https://eid2cssp.3xasecurity.com/sign"));
}

#[test]
fn test_parse_id_attributes() {
    let ctx = parse_saml_auth_context(EXAMPLE_XML).unwrap();
    let attrs = ctx.id_attributes.as_ref().unwrap();

    assert_eq!(attrs.mappings.len(), 5);

    let m0 = &attrs.mappings[0];
    assert_eq!(m0.mapping_type, MappingType::Rdn);
    assert_eq!(m0.reference, "2.5.4.5");
    assert_eq!(m0.attribute.name.as_deref(), Some("urn:oid:1.2.752.29.4.13"));
    assert_eq!(m0.attribute.friendly_name.as_deref(), Some("personalIdentityNumber"));
    assert_eq!(m0.attribute.values, vec!["197010632391"]);

    let m1 = &attrs.mappings[1];
    assert_eq!(m1.mapping_type, MappingType::Rdn);
    assert_eq!(m1.reference, "2.5.4.6");
    assert_eq!(m1.attribute.name, None);
    assert_eq!(m1.attribute.friendly_name.as_deref(), Some("country"));
    assert_eq!(m1.attribute.values, vec!["SE"]);

    let m2 = &attrs.mappings[2];
    assert_eq!(m2.reference, "2.5.4.42");
    assert_eq!(m2.attribute.values, vec!["Sixten"]);

    let m3 = &attrs.mappings[3];
    assert_eq!(m3.reference, "2.5.4.4");
    assert_eq!(m3.attribute.values, vec!["von Samordnungsnummer"]);

    let m4 = &attrs.mappings[4];
    assert_eq!(m4.reference, "2.5.4.3");
    assert_eq!(m4.attribute.values, vec!["Sixten von Samordnungsnummer"]);
}

#[test]
fn test_parse_minimal_xml() {
    let xml = r#"<SAMLAuthContext xmlns="http://id.elegnamnden.se/auth-cont/1.0/saci"/>"#;
    let ctx = parse_saml_auth_context(xml).unwrap();
    assert!(ctx.auth_context_info.is_none());
    assert!(ctx.id_attributes.is_none());
}

#[test]
fn test_parse_auth_context_info_only() {
    let xml = r#"<SAMLAuthContext xmlns="http://id.elegnamnden.se/auth-cont/1.0/saci">
            <AuthContextInfo
                IdentityProvider="http://example.com/idp"
                AuthenticationInstant="2024-06-15T10:30:00Z"
                AuthnContextClassRef="http://example.com/loa3"/>
        </SAMLAuthContext>"#;

    let ctx = parse_saml_auth_context(xml).unwrap();
    let info = ctx.auth_context_info.unwrap();
    assert_eq!(info.identity_provider, "http://example.com/idp");
    assert_eq!(info.authentication_instant, "2024-06-15T10:30:00Z");
    assert_eq!(info.authn_context_class_ref, "http://example.com/loa3");
    assert!(info.assertion_ref.is_none());
    assert!(info.service_id.is_none());
    assert!(ctx.id_attributes.is_none());
}

#[test]
fn test_mapping_type_roundtrip() {
    assert_eq!(MappingType::from_str("rdn"), Some(MappingType::Rdn));
    assert_eq!(MappingType::from_str("san"), Some(MappingType::San));
    assert_eq!(MappingType::from_str("sda"), Some(MappingType::Sda));
    assert_eq!(MappingType::from_str("unknown"), None);

    assert_eq!(MappingType::Rdn.as_str(), "rdn");
    assert_eq!(MappingType::San.as_str(), "san");
    assert_eq!(MappingType::Sda.as_str(), "sda");
}

#[test]
fn test_mapping_type_display() {
    assert_eq!(MappingType::Rdn.as_str(), "rdn");
    assert_eq!(MappingType::San.as_str(), "san");
}

#[test]
fn test_decode_authentication_contexts_synthetic() {
    let context_type = SACI_CONTEXT_TYPE.as_bytes();
    let context_info = b"<SAMLAuthContext xmlns=\"http://id.elegnamnden.se/auth-cont/1.0/saci\"/>";

    let ct_tlv = encode_tlv(0x0C, context_type);
    let ci_tlv = encode_tlv(0x0C, context_info);

    let mut inner_body = Vec::new();
    inner_body.extend_from_slice(&ct_tlv);
    inner_body.extend_from_slice(&ci_tlv);
    let inner_seq = encode_tlv(0x30, &inner_body);

    let outer_seq = encode_tlv(0x30, &inner_seq);

    let raw = decode_authentication_contexts(&outer_seq).unwrap();
    assert_eq!(raw.len(), 1);
    assert_eq!(raw[0].context_type, SACI_CONTEXT_TYPE);
    assert!(raw[0].context_info.is_some());
}

#[test]
fn test_missing_auth_context_info_attribute() {
    let xml = r#"<SAMLAuthContext xmlns="http://id.elegnamnden.se/auth-cont/1.0/saci">
            <AuthContextInfo
                AuthenticationInstant="2024-06-15T10:30:00Z"
                AuthnContextClassRef="http://example.com/loa3"/>
        </SAMLAuthContext>"#;

    let result = parse_saml_auth_context(xml);
    assert!(result.is_err());
    let err = result.unwrap_err();
    assert!(matches!(err, SaciError::MissingAttribute(_)));
}

#[test]
fn decoding_contexts_without_info_and_in_order() {
    let first = encode_tlv(0x30, &encode_tlv(0x0C, b"urn:a"));
    let mut second_body = encode_tlv(0x0C, b"urn:b");
    second_body.extend_from_slice(&encode_tlv(0x0C, b"<x/>"));
    let second = encode_tlv(0x30, &second_body);
    let mut body = first.clone();
    body.extend_from_slice(&second);
    let raw = decode_authentication_contexts(&encode_tlv(0x30, &body)).unwrap();
    assert_eq!(raw.len(), 2);
    assert_eq!(raw[0].context_type, "urn:a");
    assert_eq!(raw[0].context_info, None);
    assert_eq!(raw[1].context_type, "urn:b");
    assert_eq!(raw[1].context_info.as_deref(), Some("<x/>"));
}

#[test]
fn decoding_refuses_wrong_tags_and_bad_utf8() {
    // Outer tag is not a SEQUENCE.
    assert!(matches!(decode_authentication_contexts(&encode_tlv(0x31, &[])), Err(SaciError::Asn1(_))));
    // contextType is not a UTF8String.
    let bad_tag = encode_tlv(0x30, &encode_tlv(0x30, &encode_tlv(0x04, b"x")));
    assert!(matches!(decode_authentication_contexts(&bad_tag), Err(SaciError::Asn1(_))));
    // contextType is not UTF-8.
    let bad_utf8 = encode_tlv(0x30, &encode_tlv(0x30, &encode_tlv(0x0C, &[0xFF, 0xFE])));
    assert!(matches!(decode_authentication_contexts(&bad_utf8), Err(SaciError::Asn1(_))));
    // Truncated input.
    assert!(decode_authentication_contexts(&[0x30, 0x05, 0x30]).is_err());
    // An empty sequence is refused: the schema asks for at least one context.
    assert!(matches!(decode_authentication_contexts(&[0x30, 0x00]), Err(SaciError::Asn1(_))));
}

#[test]
fn der_length_forms() {
    assert_eq!(parse_der_length(&[0x05]).unwrap(), (5, 1));
    assert_eq!(parse_der_length(&[0x81, 0x80]).unwrap(), (128, 2));
    assert_eq!(parse_der_length(&[0x82, 0x01, 0x00]).unwrap(), (256, 3));
    assert!(parse_der_length(&[0x80]).is_err());
    assert!(parse_der_length(&[0x85, 1, 1, 1, 1, 1]).is_err());
    assert!(parse_der_length(&[]).is_err());
    assert_eq!(parse_tlv(&[0x04, 0x02, 0xAA, 0xBB, 0xCC]).unwrap(), (0x04, vec![0xAA, 0xBB]));
}

#[test]
fn attribute_mapping_errors() {
    let unknown_type = r#"<SAMLAuthContext><IdAttributes><AttributeMapping Type="xyz" Ref="1"><Attribute/></AttributeMapping></IdAttributes></SAMLAuthContext>"#;
    assert!(matches!(parse_saml_auth_context(unknown_type), Err(SaciError::Xml(_))));
    let no_attribute = r#"<SAMLAuthContext><IdAttributes><AttributeMapping Type="san" Ref="1"/></IdAttributes></SAMLAuthContext>"#;
    assert!(matches!(parse_saml_auth_context(no_attribute), Err(SaciError::MissingElement(_))));
    let no_ref = r#"<SAMLAuthContext><IdAttributes><AttributeMapping Type="san"><Attribute/></AttributeMapping></IdAttributes></SAMLAuthContext>"#;
    assert!(matches!(parse_saml_auth_context(no_ref), Err(SaciError::MissingAttribute(_))));
    assert!(matches!(parse_saml_auth_context("<unclosed"), Err(SaciError::Xml(_))));
}

#[test]
fn certificate_without_authn_context_extension() {
    assert!(matches!(extract_raw_contexts(b"not a certificate"), Err(SaciError::Asn1(_))));
    assert!(matches!(extract_authn_contexts(b"not a certificate"), Err(SaciError::Asn1(_))));
}

fn authn_extension_value() -> Vec<u8> {
    let mut body = encode_tlv(0x0C, SACI_CONTEXT_TYPE.as_bytes());
    body.extend_from_slice(&encode_tlv(0x0C, EXAMPLE_XML.as_bytes()));
    encode_tlv(0x30, &encode_tlv(0x30, &body))
}

/// The example certificate with an AuthnContext extension holding `value`.
fn certificate_with_authn_context(value: Vec<u8>) -> Vec<u8> {
    let der = hex::decode(CERT_HEX.concat()).unwrap();
    let mut cert = <x509_cert::Certificate as der::Decode>::from_der(&der).unwrap();
    let ext = x509_cert::ext::Extension {
        extn_id: const_oid::ObjectIdentifier::new_unwrap("1.2.752.201.5.1"),
        critical: false,
        extn_value: der::asn1::OctetString::new(value).unwrap(),
    };
    match &mut cert.tbs_certificate.extensions {
        Some(exts) => exts.push(ext),
        None => cert.tbs_certificate.extensions = Some(vec![ext]),
    }
    der::Encode::to_der(&cert).unwrap()
}

#[test]
fn certificate_lacking_the_extension_is_reported() {
    let der = hex::decode(CERT_HEX.concat()).unwrap();
    assert!(matches!(extract_raw_contexts(&der), Err(SaciError::ExtensionNotFound)));
    assert!(matches!(extract_authn_contexts(&der), Err(SaciError::ExtensionNotFound)));
}

#[test]
fn contexts_are_read_from_the_certificate_extension() {
    let cert = certificate_with_authn_context(authn_extension_value());
    let raw = extract_raw_contexts(&cert).unwrap();
    assert_eq!(raw.len(), 1);
    assert_eq!(raw[0].context_type, SACI_CONTEXT_TYPE);
    assert_eq!(raw[0].context_info.as_deref(), Some(EXAMPLE_XML));

    let contexts = extract_authn_contexts(&cert).unwrap();
    assert_eq!(contexts.len(), 1);
    let info = contexts[0].auth_context_info.as_ref().unwrap();
    assert_eq!(info.identity_provider, "http://dev.test.swedenconnect.se/idp");
    let ids = contexts[0].id_attributes.as_ref().unwrap();
    assert_eq!(ids.mappings.len(), 5);
}

#[test]
fn a_broken_extension_value_is_an_asn1_error() {
    let cert = certificate_with_authn_context(vec![0x04, 0x01, 0x00]);
    assert!(matches!(extract_raw_contexts(&cert), Err(SaciError::Asn1(_))));
}

#[test]
fn an_empty_authentication_contexts_is_refused() {
    assert!(matches!(decode_authentication_contexts(&[0x30, 0x00]), Err(SaciError::Asn1(_))));
}
