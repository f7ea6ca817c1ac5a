//! The parts of appearance streams (`/AP /N`) that carry no measurements:
//! writing content-stream operators and choosing the font resources.

use vstd::prelude::*;
use vstd::utf8::encode_utf8;

use super::layout::{spec_bold_variant, spec_pdf_name, Standard14Font};

verus! {

/// Append one content-stream line: `op` and a newline.
pub fn write_op(stream: &mut Vec<u8>, op: &str)
    ensures
        final(stream)@ == old(stream)@ + encode_utf8(op@) + seq![0x0Au8],
{
    crate::cms::tlv::append_bytes(stream, op.as_bytes());
    stream.push(0x0A);
}

/// Append one content-stream line built from formatted text: `text` and a
/// newline.
pub fn write_fmt(stream: &mut Vec<u8>, text: &str)
    ensures
        final(stream)@ == old(stream)@ + encode_utf8(text@) + seq![0x0Au8],
{
    crate::cms::tlv::append_bytes(stream, text.as_bytes());
    stream.push(0x0A);
}

/// The font resources of a text appearance in `base`: `F1` is the base
/// font, and `F2` its bold variant when that is another font.
pub open spec fn spec_font_resources(base: Standard14Font) -> Seq<(Seq<char>, Seq<char>)> {
    let bold = spec_bold_variant(base);
    if bold != base {
        seq![("F1"@, spec_pdf_name(base)), ("F2"@, spec_pdf_name(bold))]
    } else {
        seq![("F1"@, spec_pdf_name(base))]
    }
}

/// The resource name that bold lines of a text appearance in `base` use.
pub open spec fn spec_bold_resource(base: Standard14Font) -> Seq<char> {
    if spec_bold_variant(base) != base {
        "F2"@
    } else {
        "F1"@
    }
}

pub open spec fn pair_views(s: Seq<(String, String)>) -> Seq<(Seq<char>, Seq<char>)> {
    s.map_values(|p: (String, String)| (p.0@, p.1@))
}

/// Register the fonts of a text appearance in `base`: the font resources
/// `(resource name, PDF font name)` and the resource name for bold lines.
pub fn font_resources(base: Standard14Font) -> (r: (Vec<(String, String)>, String))
    ensures
        pair_views(r.0@) == spec_font_resources(base),
        r.1@ == spec_bold_resource(base),
{
    let bold = base.bold_variant();
    let mut fonts: Vec<(String, String)> = Vec::new();
    fonts.push((String::from_str("F1"), String::from_str(base.pdf_name())));
    if bold != base {
        fonts.push((String::from_str("F2"), String::from_str(bold.pdf_name())));
        assert(pair_views(fonts@) =~= spec_font_resources(base));
        (fonts, String::from_str("F2"))
    } else {
        assert(pair_views(fonts@) =~= spec_font_resources(base));
        (fonts, String::from_str("F1"))
    }
}

} // verus!
