//! The layout vocabulary of visible signatures that carries no measurements:
//! fonts, alignment, arrangement and image formats.

use vstd::prelude::*;

verus! {

/// How to arrange image and text in a combined layout.
#[derive(Debug, Clone, Copy, PartialEq, Eq, Structural)]
pub enum Arrangement {
    /// Image on the left, text on the right.
    ImageLeftTextRight,
    /// Image on the right, text on the left.
    ImageRightTextLeft,
    /// Image on top, text below.
    ImageTopTextBottom,
    /// Image below, text on top.
    ImageBottomTextTop,
}

/// Font specification for text rendering.
#[derive(Debug, Clone, Copy, PartialEq, Eq, Structural)]
pub enum FontSpec {
    /// One of the PDF standard 14 fonts. No embedding needed.
    Standard14(Standard14Font),
}

impl Default for FontSpec {
    /// Helvetica.
    fn default() -> (f: FontSpec)
        ensures
            f == FontSpec::Standard14(Standard14Font::Helvetica),
    {
        FontSpec::Standard14(Standard14Font::Helvetica)
    }
}

/// The PDF standard 14 fonts.
///
/// These fonts are available in all PDF viewers without embedding. They only
/// support WinAnsiEncoding (basic Latin characters).
#[derive(Debug, Clone, Copy, PartialEq, Eq, Structural)]
pub enum Standard14Font {
    /// Helvetica (sans-serif).
    Helvetica,
    /// Helvetica-Bold.
    HelveticaBold,
    /// Helvetica-Oblique.
    HelveticaOblique,
    /// Helvetica-BoldOblique.
    HelveticaBoldOblique,
    /// Times-Roman (serif).
    TimesRoman,
    /// Times-Bold.
    TimesBold,
    /// Times-Italic.
    TimesItalic,
    /// Times-BoldItalic.
    TimesBoldItalic,
    /// Courier (monospace).
    Courier,
    /// Courier-Bold.
    CourierBold,
    /// Courier-Oblique.
    CourierOblique,
    /// Courier-BoldOblique.
    CourierBoldOblique,
    /// Symbol (Symbol encoding).
    Symbol,
    /// ZapfDingbats (ZapfDingbats encoding).
    ZapfDingbats,
}

/// The PDF name of `f`, as used in font dictionaries.
pub open spec fn spec_pdf_name(f: Standard14Font) -> Seq<char> {
    match f {
        Standard14Font::Helvetica => "Helvetica"@,
        Standard14Font::HelveticaBold => "Helvetica-Bold"@,
        Standard14Font::HelveticaOblique => "Helvetica-Oblique"@,
        Standard14Font::HelveticaBoldOblique => "Helvetica-BoldOblique"@,
        Standard14Font::TimesRoman => "Times-Roman"@,
        Standard14Font::TimesBold => "Times-Bold"@,
        Standard14Font::TimesItalic => "Times-Italic"@,
        Standard14Font::TimesBoldItalic => "Times-BoldItalic"@,
        Standard14Font::Courier => "Courier"@,
        Standard14Font::CourierBold => "Courier-Bold"@,
        Standard14Font::CourierOblique => "Courier-Oblique"@,
        Standard14Font::CourierBoldOblique => "Courier-BoldOblique"@,
        Standard14Font::Symbol => "Symbol"@,
        Standard14Font::ZapfDingbats => "ZapfDingbats"@,
    }
}

/// The bold variant of `f`; `f` itself when it is bold or has none.
pub open spec fn spec_bold_variant(f: Standard14Font) -> Standard14Font {
    match f {
        Standard14Font::Helvetica | Standard14Font::HelveticaBold => Standard14Font::HelveticaBold,
        Standard14Font::HelveticaOblique | Standard14Font::HelveticaBoldOblique => {
            Standard14Font::HelveticaBoldOblique
        },
        Standard14Font::TimesRoman | Standard14Font::TimesBold => Standard14Font::TimesBold,
        Standard14Font::TimesItalic | Standard14Font::TimesBoldItalic => {
            Standard14Font::TimesBoldItalic
        },
        Standard14Font::Courier | Standard14Font::CourierBold => Standard14Font::CourierBold,
        Standard14Font::CourierOblique | Standard14Font::CourierBoldOblique => {
            Standard14Font::CourierBoldOblique
        },
        Standard14Font::Symbol => Standard14Font::Symbol,
        Standard14Font::ZapfDingbats => Standard14Font::ZapfDingbats,
    }
}

impl Standard14Font {
    /// Returns the PDF font name as used in font dictionaries.
    pub fn pdf_name(&self) -> (r: &'static str)
        ensures
            r@ == spec_pdf_name(*self),
    {
        match self {
            Standard14Font::Helvetica => "Helvetica",
            Standard14Font::HelveticaBold => "Helvetica-Bold",
            Standard14Font::HelveticaOblique => "Helvetica-Oblique",
            Standard14Font::HelveticaBoldOblique => "Helvetica-BoldOblique",
            Standard14Font::TimesRoman => "Times-Roman",
            Standard14Font::TimesBold => "Times-Bold",
            Standard14Font::TimesItalic => "Times-Italic",
            Standard14Font::TimesBoldItalic => "Times-BoldItalic",
            Standard14Font::Courier => "Courier",
            Standard14Font::CourierBold => "Courier-Bold",
            Standard14Font::CourierOblique => "Courier-Oblique",
            Standard14Font::CourierBoldOblique => "Courier-BoldOblique",
            Standard14Font::Symbol => "Symbol",
            Standard14Font::ZapfDingbats => "ZapfDingbats",
        }
    }

    /// Returns the bold variant, if any. Falls back to self.
    pub fn bold_variant(&self) -> (r: Standard14Font)
        ensures
            r == spec_bold_variant(*self),
    {
        match self {
            Standard14Font::Helvetica | Standard14Font::HelveticaBold => {
                Standard14Font::HelveticaBold
            },
            Standard14Font::HelveticaOblique | Standard14Font::HelveticaBoldOblique => {
                Standard14Font::HelveticaBoldOblique
            },
            Standard14Font::TimesRoman | Standard14Font::TimesBold => Standard14Font::TimesBold,
            Standard14Font::TimesItalic | Standard14Font::TimesBoldItalic => {
                Standard14Font::TimesBoldItalic
            },
            Standard14Font::Courier | Standard14Font::CourierBold => Standard14Font::CourierBold,
            Standard14Font::CourierOblique | Standard14Font::CourierBoldOblique => {
                Standard14Font::CourierBoldOblique
            },
            Standard14Font::Symbol => Standard14Font::Symbol,
            Standard14Font::ZapfDingbats => Standard14Font::ZapfDingbats,
        }
    }
}

/// Taking the bold variant twice is taking it once: a bold font is its own
/// bold variant.
pub proof fn law_bold_variant_idempotent(f: Standard14Font)
    ensures
        spec_bold_variant(spec_bold_variant(f)) == spec_bold_variant(f),
{
}

/// Supported image formats for embedding.
#[derive(Debug, Clone, Copy, PartialEq, Eq, Structural)]
pub enum ImageFormat {
    /// JPEG image (passed through directly to PDF).
    Jpeg,
    /// PNG image (decoded and re-encoded for PDF).
    Png,
}

/// Text alignment within the signature rectangle.
#[derive(Debug, Clone, Copy, PartialEq, Eq, Structural)]
pub enum TextAlignment {
    /// Left-aligned text.
    Left,
    /// Center-aligned text.
    Center,
    /// Right-aligned text.
    Right,
}

} // verus!
