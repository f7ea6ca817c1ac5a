use underskrift::visual::font::{encode_pdf_text, FontMetrics};
use underskrift::visual::layout::Standard14Font;

#[test]
fn test_helvetica_space_width() {
    assert_eq!(FontMetrics::char_width(Standard14Font::Helvetica, ' '), 278);
}

#[test]
fn test_helvetica_uppercase_a() {
    assert_eq!(FontMetrics::char_width(Standard14Font::Helvetica, 'A'), 667);
}

#[test]
fn test_courier_is_monospace() {
    let a = FontMetrics::char_width(Standard14Font::Courier, 'A');
    let m = FontMetrics::char_width(Standard14Font::Courier, 'm');
    let period = FontMetrics::char_width(Standard14Font::Courier, '.');
    assert_eq!(a, 600);
    assert_eq!(m, 600);
    assert_eq!(period, 600);
}

#[test]
fn test_non_latin_falls_back_to_space() {
    let cjk_width = FontMetrics::char_width(Standard14Font::Helvetica, '\u{4e00}');
    let space_width = FontMetrics::char_width(Standard14Font::Helvetica, ' ');
    assert_eq!(cjk_width, space_width);
}

#[test]
fn test_encode_pdf_text_simple() {
    assert_eq!(encode_pdf_text("Hello"), "(Hello)");
}

#[test]
fn test_encode_pdf_text_escaping() {
    assert_eq!(encode_pdf_text("a(b)c\\d"), "(a\\(b\\)c\\\\d)");
}

#[test]
fn test_encode_pdf_text_non_latin() {
    assert_eq!(encode_pdf_text("日本語"), "(???)");
}

#[test]
fn test_ascent_descent() {
    let asc = FontMetrics::ascent(Standard14Font::Helvetica);
    let desc = FontMetrics::descent(Standard14Font::Helvetica);
    assert!(asc > 0);
    assert!(desc < 0);
    assert!((asc - desc) > 800);
    assert!((asc - desc) < 1100);
}

#[test]
fn test_times_roman_widths() {
    assert_eq!(FontMetrics::char_width(Standard14Font::TimesRoman, ' '), 250);
    assert_eq!(FontMetrics::char_width(Standard14Font::TimesRoman, 'M'), 889);
}

#[test]
fn test_standard14_font_names() {
    assert_eq!(Standard14Font::Helvetica.pdf_name(), "Helvetica");
    assert_eq!(Standard14Font::HelveticaBold.pdf_name(), "Helvetica-Bold");
    assert_eq!(Standard14Font::TimesRoman.pdf_name(), "Times-Roman");
    assert_eq!(Standard14Font::Courier.pdf_name(), "Courier");
}

#[test]
fn test_bold_variant() {
    assert_eq!(Standard14Font::Helvetica.bold_variant(), Standard14Font::HelveticaBold);
    assert_eq!(Standard14Font::TimesRoman.bold_variant(), Standard14Font::TimesBold);
    assert_eq!(Standard14Font::CourierOblique.bold_variant(), Standard14Font::CourierBoldOblique);
    assert_eq!(Standard14Font::Symbol.bold_variant(), Standard14Font::Symbol);
}

#[test]
fn bold_variant_of_a_bold_font_is_itself() {
    for f in [
        Standard14Font::HelveticaBold,
        Standard14Font::TimesBoldItalic,
        Standard14Font::CourierBoldOblique,
        Standard14Font::ZapfDingbats,
    ] {
        assert_eq!(f.bold_variant(), f);
        assert_eq!(f.bold_variant().bold_variant(), f.bold_variant());
    }
}

#[test]
fn text_width_sums_character_widths() {
    // H=722 e=556 l=222 l=222 o=556
    assert_eq!(FontMetrics::text_width_units(Standard14Font::Helvetica, "Hello"), 2278);
    assert_eq!(FontMetrics::text_width_units(Standard14Font::Courier, "abc"), 1800);
    assert_eq!(FontMetrics::text_width_units(Standard14Font::Helvetica, ""), 0);
}

#[test]
fn symbol_fonts_have_no_ascent() {
    assert_eq!(FontMetrics::ascent(Standard14Font::Symbol), 0);
    assert_eq!(FontMetrics::descent(Standard14Font::ZapfDingbats), 0);
    assert_eq!(FontMetrics::ascent(Standard14Font::TimesBold), 683);
    assert_eq!(FontMetrics::descent(Standard14Font::CourierBold), -157);
    assert_eq!(FontMetrics::char_width(Standard14Font::Symbol, 'x'), 500);
}

#[test]
fn encode_pdf_text_keeps_latin1() {
    assert_eq!(encode_pdf_text("é"), "(é)");
    assert_eq!(encode_pdf_text(""), "()");
}

#[test]
fn default_font_is_helvetica() {
    assert_eq!(
        underskrift::visual::layout::FontSpec::default(),
        underskrift::visual::layout::FontSpec::Standard14(Standard14Font::Helvetica)
    );
}
