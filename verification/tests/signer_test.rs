use underskrift::signer::{inject_signature, PadesLevel, SignError, SubFilter};
use underskrift::visual::appearance::{font_resources, write_fmt, write_op};
use underskrift::visual::layout::Standard14Font;

#[test]
fn signature_is_written_as_padded_uppercase_hex() {
    let mut output = b"<<\n/Contents <0000000000>\n>>".to_vec();
    let offset = 14;
    inject_signature(&mut output, offset, 10, &[0xAB, 0x01], 5).unwrap();
    assert_eq!(output, b"<<\n/Contents <AB01000000>\n>>".to_vec());
}

#[test]
fn a_signature_that_fills_the_placeholder_exactly() {
    let mut output = vec![b'x'; 8];
    inject_signature(&mut output, 2, 4, &[0xFF, 0x0A], 2).unwrap();
    assert_eq!(output, b"xxFF0Axx".to_vec());
}

#[test]
fn a_signature_larger_than_the_placeholder_is_refused() {
    let mut output = vec![b'0'; 6];
    let r = inject_signature(&mut output, 0, 6, &[1, 2, 3, 4], 3);
    assert_eq!(r, Err(SignError::SignatureTooLarge { actual: 4, allocated: 3 }));
    assert_eq!(output, vec![b'0'; 6]);
}

#[test]
fn an_empty_signature_leaves_zero_digits() {
    let mut output = b"[aaaa]".to_vec();
    inject_signature(&mut output, 1, 4, &[], 2).unwrap();
    assert_eq!(output, b"[0000]".to_vec());
}

#[test]
fn sub_filter_names_and_defaults() {
    assert_eq!(SubFilter::Pades.pdf_name(), "ETSI.CAdES.detached");
    assert_eq!(SubFilter::Pkcs7.pdf_name(), "adbe.pkcs7.detached");
    assert_eq!(SubFilter::default(), SubFilter::Pades);
    assert_eq!(PadesLevel::default(), PadesLevel::BB);
}

#[test]
fn content_stream_lines_end_with_a_newline() {
    let mut stream = Vec::new();
    write_op(&mut stream, "q");
    write_fmt(&mut stream, "1 0 0 1 0 0 cm");
    write_op(&mut stream, "Q");
    assert_eq!(stream, b"q\n1 0 0 1 0 0 cm\nQ\n".to_vec());
}

#[test]
fn font_resources_name_the_bold_face_when_there_is_one() {
    let (fonts, bold) = font_resources(Standard14Font::Helvetica);
    assert_eq!(
        fonts,
        vec![
            ("F1".to_string(), "Helvetica".to_string()),
            ("F2".to_string(), "Helvetica-Bold".to_string())
        ]
    );
    assert_eq!(bold, "F2");
    let (fonts, bold) = font_resources(Standard14Font::HelveticaBold);
    assert_eq!(fonts, vec![("F1".to_string(), "Helvetica-Bold".to_string())]);
    assert_eq!(bold, "F1");
}
