use lopdf::{Dictionary, Document, Object, Stream, StringFormat};
use underskrift::inspect::json::JsonValue;
use underskrift::inspect::objects::{inspect_pdf, serialize_dict, InspectError, ObjectKind};
use underskrift::inspect::pdf::{PdfDict, PdfObject};
use underskrift::inspect::revisions::{detect_revisions, find_bytes};
use underskrift::inspect::signatures::{compute_coverage, inspect_signatures};

fn name(s: &str) -> Object {
    Object::Name(s.as_bytes().to_vec())
}

fn text(s: &str) -> Object {
    Object::String(s.as_bytes().to_vec(), StringFormat::Literal)
}

/// A one-page document; with `signed`, it also carries a signature field
/// whose value is a certification signature, and a DSS.
fn build_pdf(signed: bool) -> Vec<u8> {
    let mut doc = Document::with_version("1.7");
    let pages_id = doc.new_object_id();
    let mut page = Dictionary::new();
    page.set("Type", name("Page"));
    page.set("Parent", Object::Reference(pages_id));
    page.set(
        "MediaBox",
        Object::Array(vec![0.into(), 0.into(), 612.into(), 792.into()]),
    );
    let page_id = doc.add_object(page);
    let mut pages = Dictionary::new();
    pages.set("Type", name("Pages"));
    pages.set("Kids", Object::Array(vec![Object::Reference(page_id)]));
    pages.set("Count", 1);
    doc.objects.insert(pages_id, Object::Dictionary(pages));

    let mut catalog = Dictionary::new();
    catalog.set("Type", name("Catalog"));
    catalog.set("Pages", Object::Reference(pages_id));

    if signed {
        let mut params = Dictionary::new();
        params.set("Type", name("TransformParams"));
        params.set("P", 1);
        let mut sig_ref = Dictionary::new();
        sig_ref.set("TransformMethod", name("DocMDP"));
        sig_ref.set("TransformParams", Object::Dictionary(params));
        let mut app = Dictionary::new();
        app.set("Name", name("Underskrift"));
        let mut build = Dictionary::new();
        build.set("App", Object::Dictionary(app));

        let contents: Vec<u8> = (0u8..40).collect();
        let mut sig = Dictionary::new();
        sig.set("Type", name("Sig"));
        sig.set("Filter", name("Adobe.PPKLite"));
        sig.set("SubFilter", name("ETSI.CAdES.detached"));
        sig.set("Name", text("Alice"));
        sig.set("Reason", text("Approval"));
        sig.set("Location", text("Uppsala"));
        sig.set("M", text("D:20240101120000Z"));
        sig.set(
            "ByteRange",
            Object::Array(vec![0.into(), 100.into(), 200.into(), 50.into()]),
        );
        sig.set("Contents", Object::String(contents, StringFormat::Hexadecimal));
        sig.set("Reference", Object::Array(vec![Object::Dictionary(sig_ref)]));
        sig.set("Prop_Build", Object::Dictionary(build));
        let sig_id = doc.add_object(sig);

        let mut field = Dictionary::new();
        field.set("FT", name("Sig"));
        field.set("T", text("Signature1"));
        field.set("V", Object::Reference(sig_id));
        let field_id = doc.add_object(field);

        let mut text_field = Dictionary::new();
        text_field.set("FT", name("Tx"));
        text_field.set("T", text("Comment"));
        let text_field_id = doc.add_object(text_field);

        let mut acroform = Dictionary::new();
        acroform.set(
            "Fields",
            Object::Array(vec![Object::Reference(field_id), Object::Reference(text_field_id)]),
        );
        catalog.set("AcroForm", Object::Dictionary(acroform));

        let cert_id = doc.add_object(Stream::new(Dictionary::new(), vec![0x30, 0x03, 0x02, 0x01, 0x05]));
        let ocsp_id = doc.add_object(Stream::new(Dictionary::new(), vec![0x30, 0x00]));
        let mut vri_entry = Dictionary::new();
        vri_entry.set("Cert", Object::Array(vec![Object::Reference(cert_id)]));
        let mut vri = Dictionary::new();
        vri.set("ABCD", Object::Dictionary(vri_entry));
        let mut dss = Dictionary::new();
        dss.set("Certs", Object::Array(vec![Object::Reference(cert_id)]));
        dss.set("OCSPs", Object::Array(vec![Object::Reference(ocsp_id)]));
        dss.set("VRI", Object::Dictionary(vri));
        let dss_id = doc.add_object(dss);
        catalog.set("DSS", Object::Reference(dss_id));
    }

    let catalog_id = doc.add_object(catalog);
    doc.trailer.set("Root", Object::Reference(catalog_id));
    let mut out = Vec::new();
    doc.save_to(&mut out).expect("save");
    out
}

#[test]
fn test_detect_revisions() {
    let data = b"%PDF-1.7\n%%EOF\nmore data\n%%EOF\n";
    let revisions = detect_revisions(data);
    assert_eq!(revisions.len(), 2);
    assert_eq!(revisions[0].index, 0);
    assert_eq!(revisions[1].index, 1);
    assert!(revisions[1].byte_start > 0);
}

#[test]
fn test_find_bytes() {
    assert_eq!(find_bytes(b"hello world", b"world", 0), Some(6));
    assert_eq!(find_bytes(b"hello world", b"world", 7), None);
    assert_eq!(find_bytes(b"hello", b"", 0), None);
}

#[test]
fn test_compute_coverage() {
    let br = [0, 1000, 2000, 500];
    let cov = compute_coverage(&br, 3000);
    assert_eq!(cov.signed_bytes, 1500);
    assert_eq!(cov.file_size, 3000);
    let percentage = (100.0 * cov.signed_bytes as f64 / cov.file_size as f64 * 10.0).round() / 10.0;
    assert!((percentage - 50.0).abs() < 0.1);
    assert_eq!(cov.gap_start, 1000);
    assert_eq!(cov.gap_end, 2000);
    assert_eq!(cov.gap_size, 1000);
}

#[test]
fn objects_test_invalid_pdf() {
    let result = inspect_pdf(b"not a pdf");
    assert!(result.is_err());
}

#[test]
fn signatures_test_invalid_pdf() {
    let result = inspect_signatures(b"not a pdf");
    assert!(result.is_err());
}

#[test]
fn test_depth_limit() {
    let dict = PdfDict { entries: vec![] };
    let val = serialize_dict(&dict, 7, 50);
    assert!(matches!(val, JsonValue::Str(ref s) if s == "<nested too deep>"));
}

#[test]
fn revisions_chain_and_swallow_line_ends() {
    let data = b"A%%EOF\r\nB%%EOF";
    let revisions = detect_revisions(data);
    assert_eq!(revisions.len(), 2);
    assert_eq!(revisions[0].byte_start, 0);
    assert_eq!(revisions[0].eof_offset, 6);
    assert_eq!(revisions[0].byte_end, 8);
    assert_eq!(revisions[1].byte_start, 8);
    assert_eq!(revisions[1].eof_offset, 14);
    assert_eq!(revisions[1].byte_end, 14);
    assert!(detect_revisions(b"no marker here").is_empty());
}

#[test]
fn find_bytes_edges() {
    assert_eq!(find_bytes(b"abcabc", b"abc", 1), Some(3));
    assert_eq!(find_bytes(b"abc", b"abcd", 0), None);
    assert_eq!(find_bytes(b"abc", b"c", 3), None);
    assert_eq!(find_bytes(b"abc", b"abc", 0), Some(0));
}

#[test]
fn coverage_of_a_gapless_range() {
    let cov = compute_coverage(&[0, 10, 10, 0], 0);
    assert_eq!(cov.signed_bytes, 10);
    assert_eq!(cov.gap_start, 10);
    assert_eq!(cov.gap_end, 10);
    assert_eq!(cov.gap_size, 0);
}

#[test]
fn invalid_pdf_is_a_parse_error() {
    assert!(matches!(inspect_pdf(b"%PDF-1.7 garbage"), Err(InspectError::PdfParse(_))));
}

#[test]
fn serialize_dict_lists_keys_and_truncates() {
    let dict = PdfDict {
        entries: vec![
            (b"A".to_vec(), PdfObject::Integer(1)),
            (b"B".to_vec(), PdfObject::Boolean(true)),
            (b"C".to_vec(), PdfObject::Name(b"X".to_vec())),
        ],
    };
    match serialize_dict(&dict, 0, 2) {
        JsonValue::Object(es) => {
            assert_eq!(es.len(), 3);
            assert_eq!(es[0].0, "/A");
            assert!(matches!(es[0].1, JsonValue::Int(1)));
            assert_eq!(es[1].0, "/B");
            assert!(matches!(es[1].1, JsonValue::Bool(true)));
            assert_eq!(es[2].0, "__truncated__");
            assert!(matches!(es[2].1, JsonValue::Str(ref s) if s == "1 more keys"));
        }
        other => panic!("not an object: {:?}", other),
    }
}

#[test]
fn inspect_a_one_page_document() {
    let data = build_pdf(false);
    let result = inspect_pdf(&data).expect("inspection failed");
    assert_eq!(result.pdf_version, "1.7");
    assert_eq!(result.num_pages, 1);
    assert_eq!(result.num_objects, result.objects.len());
    assert!(result.objects.len() >= 3);
    assert!(result.objects.iter().any(|o| o.kind == ObjectKind::Dictionary));
    assert!(result.objects.iter().all(|o| o.obj_num > 0));
    assert!(result.objects.iter().any(|o| o.type_entry.as_deref() == Some("/Page")));
    let page = result.objects.iter().find(|o| o.type_entry.as_deref() == Some("/Page")).unwrap();
    assert!(page.keys.contains(&"/MediaBox".to_string()));
    assert!(matches!(result.catalog, JsonValue::Object(_)));
    for w in result.objects.windows(2) {
        assert!((w[0].obj_num, w[0].gen_num) < (w[1].obj_num, w[1].gen_num));
    }
}

#[test]
fn inspect_an_unsigned_document() {
    let data = build_pdf(false);
    let result = inspect_signatures(&data).expect("inspection failed");
    assert!(!result.has_signatures);
    assert_eq!(result.num_signatures, 0);
    assert!(result.signatures.is_empty());
    assert!(result.dss.is_none());
    assert_eq!(result.file_size, data.len());
    assert_eq!(result.revisions.len(), 1);
}

#[test]
fn inspect_a_certified_signature_and_its_dss() {
    let data = build_pdf(true);
    let result = inspect_signatures(&data).expect("inspection failed");
    assert!(result.has_signatures);
    assert_eq!(result.num_signatures, 1);
    let sig = &result.signatures[0];
    assert_eq!(sig.field_name.as_deref(), Some("Signature1"));
    assert!(sig.obj_num.is_some());
    assert_eq!(sig.filter.as_deref(), Some("/Adobe.PPKLite"));
    assert_eq!(sig.sub_filter.as_deref(), Some("/ETSI.CAdES.detached"));
    assert_eq!(sig.name.as_deref(), Some("Alice"));
    assert_eq!(sig.reason.as_deref(), Some("Approval"));
    assert_eq!(sig.location.as_deref(), Some("Uppsala"));
    assert_eq!(sig.signing_time.as_deref(), Some("D:20240101120000Z"));
    assert_eq!(sig.byte_range, Some([0, 100, 200, 50]));
    let cov = sig.coverage.as_ref().expect("coverage");
    assert_eq!(cov.signed_bytes, 150);
    assert_eq!(cov.file_size, data.len() as i64);
    assert_eq!(cov.gap_start, 100);
    assert_eq!(cov.gap_end, 200);
    assert_eq!(cov.gap_size, 100);
    assert_eq!(sig.contents_length, Some(40));
    let expected: String = (0u8..32).map(|b| format!("{:02x}", b)).collect();
    assert_eq!(sig.contents_hex_preview.as_deref(), Some(expected.as_str()));
    assert_eq!(sig.doc_mdp_permissions, Some(1));
    assert_eq!(sig.build_app_name.as_deref(), Some("/Underskrift"));

    let dss = result.dss.as_ref().expect("dss");
    assert!(dss.obj_num.is_some());
    assert_eq!(dss.num_certs, 1);
    assert_eq!(dss.certs, vec![vec![0x30, 0x03, 0x02, 0x01, 0x05]]);
    assert_eq!(dss.num_ocsps, 1);
    assert_eq!(dss.num_crls, 0);
    assert_eq!(dss.vri.len(), 1);
    assert_eq!(dss.vri[0].hash_key, "ABCD");
    assert_eq!(dss.vri[0].num_certs, 1);
    assert_eq!(dss.vri[0].num_ocsps, 0);
}
