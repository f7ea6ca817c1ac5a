//! Metrics of the PDF standard 14 fonts and the encoding of text for the
//! `Tj` operator.
//!
//! Widths are in units of 1/1000 of the font size (the PDF font metric
//! convention); a width in points is `units * font_size / 1000`.

use vstd::prelude::*;

use super::layout::Standard14Font;
use crate::text::push_char;

verus! {

/// Helvetica character widths (WinAnsiEncoding, codes 0-255), from the
/// Adobe Font Metrics files.
pub const HELVETICA_WIDTHS: [u16; 256] = [
    0, 0, 0, 0, 0, 0, 0, 0, 0, 0, 0, 0, 0, 0, 0, 0,
    0, 0, 0, 0, 0, 0, 0, 0, 0, 0, 0, 0, 0, 0, 0, 0,
    278, 278, 355, 556, 556, 889, 667, 191, 333, 333, 389, 584, 278, 333, 278, 278,
    556, 556, 556, 556, 556, 556, 556, 556, 556, 556, 278, 278, 584, 584, 584, 556,
    1015, 667, 667, 722, 722, 667, 611, 778, 722, 278, 500, 667, 556, 833, 722, 778,
    667, 778, 722, 667, 611, 722, 667, 944, 667, 667, 611, 278, 278, 278, 469, 556,
    333, 556, 556, 500, 556, 556, 278, 556, 556, 222, 222, 500, 222, 833, 556, 556,
    556, 556, 333, 500, 278, 556, 500, 722, 500, 500, 500, 334, 260, 334, 584, 0,
    556, 0, 222, 556, 333, 1000, 556, 556, 333, 1000, 667, 333, 1000, 0, 611, 0,
    0, 222, 222, 333, 333, 350, 556, 1000, 333, 1000, 500, 333, 944, 0, 500, 667,
    278, 333, 556, 556, 556, 556, 260, 556, 333, 737, 370, 556, 584, 333, 737, 333,
    400, 584, 333, 333, 333, 556, 537, 278, 333, 333, 365, 556, 834, 834, 834, 611,
    667, 667, 667, 667, 667, 667, 1000, 722, 667, 667, 667, 667, 278, 278, 278, 278,
    722, 722, 778, 778, 778, 778, 778, 584, 778, 722, 722, 722, 722, 667, 667, 611,
    556, 556, 556, 556, 556, 556, 889, 500, 556, 556, 556, 556, 278, 278, 278, 278,
    556, 556, 556, 556, 556, 556, 556, 584, 611, 556, 556, 556, 556, 500, 556, 500,
];

/// Helvetica-Bold character widths (WinAnsiEncoding, codes 0-255).
pub const HELVETICA_BOLD_WIDTHS: [u16; 256] = [
    0, 0, 0, 0, 0, 0, 0, 0, 0, 0, 0, 0, 0, 0, 0, 0,
    0, 0, 0, 0, 0, 0, 0, 0, 0, 0, 0, 0, 0, 0, 0, 0,
    278, 333, 474, 556, 556, 889, 722, 238, 333, 333, 389, 584, 278, 333, 278, 278,
    556, 556, 556, 556, 556, 556, 556, 556, 556, 556, 333, 333, 584, 584, 584, 611,
    975, 722, 722, 722, 722, 667, 611, 778, 722, 278, 556, 722, 611, 833, 722, 778,
    667, 778, 722, 667, 611, 722, 667, 944, 667, 667, 611, 333, 278, 333, 584, 556,
    333, 556, 611, 556, 611, 556, 333, 611, 611, 278, 278, 556, 278, 889, 611, 611,
    611, 611, 389, 556, 333, 611, 556, 778, 556, 556, 500, 389, 280, 389, 584, 0,
    556, 0, 278, 556, 500, 1000, 556, 556, 333, 1000, 667, 333, 1000, 0, 611, 0,
    0, 278, 278, 500, 500, 350, 556, 1000, 333, 1000, 556, 333, 944, 0, 500, 667,
    278, 333, 556, 556, 556, 556, 280, 556, 333, 737, 370, 556, 584, 333, 737, 333,
    400, 584, 333, 333, 333, 611, 556, 278, 333, 333, 365, 556, 834, 834, 834, 611,
    722, 722, 722, 722, 722, 722, 1000, 722, 667, 667, 667, 667, 278, 278, 278, 278,
    722, 722, 778, 778, 778, 778, 778, 584, 778, 722, 722, 722, 722, 667, 667, 611,
    556, 556, 556, 556, 556, 556, 889, 556, 556, 556, 556, 556, 278, 278, 278, 278,
    611, 611, 611, 611, 611, 611, 611, 584, 611, 611, 611, 611, 611, 556, 611, 556,
];

/// Times-Roman character widths (WinAnsiEncoding, codes 0-255).
pub const TIMES_ROMAN_WIDTHS: [u16; 256] = [
    0, 0, 0, 0, 0, 0, 0, 0, 0, 0, 0, 0, 0, 0, 0, 0,
    0, 0, 0, 0, 0, 0, 0, 0, 0, 0, 0, 0, 0, 0, 0, 0,
    250, 333, 408, 500, 500, 833, 778, 180, 333, 333, 500, 564, 250, 333, 250, 278,
    500, 500, 500, 500, 500, 500, 500, 500, 500, 500, 278, 278, 564, 564, 564, 444,
    921, 722, 667, 667, 722, 611, 556, 722, 722, 333, 389, 722, 611, 889, 722, 722,
    556, 722, 667, 556, 611, 722, 722, 944, 722, 722, 611, 333, 278, 333, 469, 500,
    333, 444, 500, 444, 500, 444, 333, 500, 500, 278, 278, 500, 278, 778, 500, 500,
    500, 500, 333, 389, 278, 500, 500, 722, 500, 500, 444, 480, 200, 480, 541, 0,
    500, 0, 333, 500, 444, 1000, 500, 500, 333, 1000, 556, 333, 889, 0, 611, 0,
    0, 333, 333, 444, 444, 350, 500, 1000, 333, 980, 389, 333, 722, 0, 444, 722,
    250, 333, 500, 500, 500, 500, 200, 500, 333, 760, 276, 500, 564, 333, 760, 333,
    400, 564, 300, 300, 333, 500, 453, 250, 333, 300, 310, 500, 750, 750, 750, 444,
    722, 722, 722, 722, 722, 722, 889, 667, 611, 611, 611, 611, 333, 333, 333, 333,
    722, 722, 722, 722, 722, 722, 722, 564, 722, 722, 722, 722, 722, 722, 556, 500,
    444, 444, 444, 444, 444, 444, 667, 444, 444, 444, 444, 444, 278, 278, 278, 278,
    500, 500, 500, 500, 500, 500, 500, 564, 500, 500, 500, 500, 500, 500, 500, 500,
];

/// Times-Bold character widths (WinAnsiEncoding, codes 0-255).
pub const TIMES_BOLD_WIDTHS: [u16; 256] = [
    0, 0, 0, 0, 0, 0, 0, 0, 0, 0, 0, 0, 0, 0, 0, 0,
    0, 0, 0, 0, 0, 0, 0, 0, 0, 0, 0, 0, 0, 0, 0, 0,
    250, 333, 555, 500, 500, 1000, 833, 278, 333, 333, 500, 570, 250, 333, 250, 278,
    500, 500, 500, 500, 500, 500, 500, 500, 500, 500, 333, 333, 570, 570, 570, 500,
    930, 722, 667, 722, 722, 667, 611, 778, 778, 389, 500, 778, 667, 944, 722, 778,
    611, 778, 722, 556, 667, 722, 722, 1000, 722, 722, 667, 333, 278, 333, 581, 500,
    333, 500, 556, 444, 556, 444, 333, 500, 556, 278, 333, 556, 278, 833, 556, 500,
    556, 556, 444, 389, 333, 556, 500, 722, 500, 500, 444, 394, 220, 394, 520, 0,
    500, 0, 333, 500, 500, 1000, 500, 500, 333, 1000, 556, 333, 1000, 0, 667, 0,
    0, 333, 333, 500, 500, 350, 500, 1000, 333, 1000, 389, 333, 722, 0, 444, 722,
    250, 333, 500, 500, 500, 500, 220, 500, 333, 747, 300, 500, 570, 333, 747, 333,
    400, 570, 300, 300, 333, 556, 540, 250, 333, 300, 330, 500, 750, 750, 750, 500,
    722, 722, 722, 722, 722, 722, 1000, 722, 667, 667, 667, 667, 389, 389, 389, 389,
    722, 722, 778, 778, 778, 778, 778, 570, 778, 722, 722, 722, 722, 722, 611, 556,
    500, 500, 500, 500, 500, 500, 722, 444, 444, 444, 444, 444, 278, 278, 278, 278,
    500, 556, 500, 500, 500, 500, 500, 570, 500, 556, 556, 556, 556, 500, 556, 500,
];
/// The table code a character is measured by: its own code inside
/// WinAnsiEncoding, the space otherwise.
pub open spec fn width_code(c: char) -> int {
    if (c as u32) > 255 {
        32
    } else {
        c as u32 as int
    }
}

/// The width of `c` in `font`, in 1/1000 units.
pub open spec fn spec_char_width(font: Standard14Font, c: char) -> u16 {
    let i = width_code(c);
    match font {
        Standard14Font::Helvetica | Standard14Font::HelveticaOblique => HELVETICA_WIDTHS@[i],
        Standard14Font::HelveticaBold | Standard14Font::HelveticaBoldOblique => {
            HELVETICA_BOLD_WIDTHS@[i]
        },
        Standard14Font::TimesRoman | Standard14Font::TimesItalic => TIMES_ROMAN_WIDTHS@[i],
        Standard14Font::TimesBold | Standard14Font::TimesBoldItalic => TIMES_BOLD_WIDTHS@[i],
        Standard14Font::Courier | Standard14Font::CourierBold | Standard14Font::CourierOblique
        | Standard14Font::CourierBoldOblique => 600,
        Standard14Font::Symbol | Standard14Font::ZapfDingbats => 500,
    }
}

/// The ascent of `font`, in 1/1000 units.
pub open spec fn spec_ascent(font: Standard14Font) -> i16 {
    match font {
        Standard14Font::Helvetica | Standard14Font::HelveticaOblique | Standard14Font::HelveticaBold
        | Standard14Font::HelveticaBoldOblique => 718,
        Standard14Font::TimesRoman | Standard14Font::TimesItalic | Standard14Font::TimesBold
        | Standard14Font::TimesBoldItalic => 683,
        Standard14Font::Courier | Standard14Font::CourierBold | Standard14Font::CourierOblique
        | Standard14Font::CourierBoldOblique => 629,
        Standard14Font::Symbol | Standard14Font::ZapfDingbats => 0,
    }
}

/// The descent of `font`, in 1/1000 units.
pub open spec fn spec_descent(font: Standard14Font) -> i16 {
    match font {
        Standard14Font::Helvetica | Standard14Font::HelveticaOblique | Standard14Font::HelveticaBold
        | Standard14Font::HelveticaBoldOblique => -207i16,
        Standard14Font::TimesRoman | Standard14Font::TimesItalic | Standard14Font::TimesBold
        | Standard14Font::TimesBoldItalic => -217i16,
        Standard14Font::Courier | Standard14Font::CourierBold | Standard14Font::CourierOblique
        | Standard14Font::CourierBoldOblique => -157i16,
        Standard14Font::Symbol | Standard14Font::ZapfDingbats => 0i16,
    }
}

/// The total width of `s` in `font`, in 1/1000 units.
pub open spec fn spec_text_width_units(font: Standard14Font, s: Seq<char>) -> nat
    decreases s.len(),
{
    if s.len() == 0 {
        0
    } else {
        spec_text_width_units(font, s.drop_last()) + spec_char_width(font, s.last()) as nat
    }
}

/// Font metrics of the standard 14 fonts.
pub struct FontMetrics;

impl FontMetrics {
    /// Get the width of a character in the given font, in 1/1000 units.
    ///
    /// For characters outside WinAnsiEncoding (> 0xFF), returns the width of
    /// the replacement character (space).
    pub fn char_width(font: Standard14Font, ch: char) -> (w: u16)
        ensures
            w == spec_char_width(font, ch),
    {
        let code = ch as u32;
        let idx: usize = if code > 255 {
            32
        } else {
            code as usize
        };
        match font {
            Standard14Font::Helvetica | Standard14Font::HelveticaOblique => HELVETICA_WIDTHS[idx],
            Standard14Font::HelveticaBold | Standard14Font::HelveticaBoldOblique => {
                HELVETICA_BOLD_WIDTHS[idx]
            },
            Standard14Font::TimesRoman | Standard14Font::TimesItalic => TIMES_ROMAN_WIDTHS[idx],
            Standard14Font::TimesBold | Standard14Font::TimesBoldItalic => TIMES_BOLD_WIDTHS[idx],
            Standard14Font::Courier | Standard14Font::CourierBold | Standard14Font::CourierOblique
            | Standard14Font::CourierBoldOblique => 600,
            Standard14Font::Symbol | Standard14Font::ZapfDingbats => 500,
        }
    }

    /// The width of `text` in `font`, in 1/1000 units: the sum of the widths
    /// of its characters.
    pub fn text_width_units(font: Standard14Font, text: &str) -> (w: u64)
        requires
            text@.len() < 0x1_0000_0000,
        ensures
            w == spec_text_width_units(font, text@),
    {
        let mut total: u64 = 0;
        let ghost s = text@;
        let mut n: usize = 0;
        for ch in it: text.chars()
            invariant
                s == text@,
                it.seq() == s,
                n == it.index(),
                total == spec_text_width_units(font, s.take(n as int)),
                total <= 65535 * n,
                n <= s.len(),
                s.len() < 0x1_0000_0000,
        {
            proof {
                assert(s.take(n + 1).drop_last() =~= s.take(n as int));
                assert(s.take(n + 1).last() == ch);
            }
            total = total + Self::char_width(font, ch) as u64;
            n = n + 1;
        }
        assert(s.take(n as int) =~= s);
        total
    }

    /// Get the font's ascent in 1/1000 units: the distance from the baseline
    /// to the top of the tallest character.
    pub fn ascent(font: Standard14Font) -> (a: i16)
        ensures
            a == spec_ascent(font),
    {
        match font {
            Standard14Font::Helvetica | Standard14Font::HelveticaOblique
            | Standard14Font::HelveticaBold | Standard14Font::HelveticaBoldOblique => 718,
            Standard14Font::TimesRoman | Standard14Font::TimesItalic | Standard14Font::TimesBold
            | Standard14Font::TimesBoldItalic => 683,
            Standard14Font::Courier | Standard14Font::CourierBold | Standard14Font::CourierOblique
            | Standard14Font::CourierBoldOblique => 629,
            Standard14Font::Symbol | Standard14Font::ZapfDingbats => 0,
        }
    }

    /// Get the font's descent in 1/1000 units (typically negative).
    pub fn descent(font: Standard14Font) -> (d: i16)
        ensures
            d == spec_descent(font),
    {
        match font {
            Standard14Font::Helvetica | Standard14Font::HelveticaOblique
            | Standard14Font::HelveticaBold | Standard14Font::HelveticaBoldOblique => -207,
            Standard14Font::TimesRoman | Standard14Font::TimesItalic | Standard14Font::TimesBold
            | Standard14Font::TimesBoldItalic => -217,
            Standard14Font::Courier | Standard14Font::CourierBold | Standard14Font::CourierOblique
            | Standard14Font::CourierBoldOblique => -157,
            Standard14Font::Symbol | Standard14Font::ZapfDingbats => 0,
        }
    }
}

/// A character outside WinAnsiEncoding is measured as a space.
pub proof fn law_non_latin_measures_as_space(font: Standard14Font, c: char)
    requires
        (c as u32) > 255,
    ensures
        spec_char_width(font, c) == spec_char_width(font, ' '),
{
}

/// The Courier family is monospaced: every character is 600 units wide.
pub proof fn law_courier_is_monospace(font: Standard14Font, c: char)
    requires
        font == Standard14Font::Courier || font == Standard14Font::CourierBold || font
            == Standard14Font::CourierOblique || font == Standard14Font::CourierBoldOblique,
    ensures
        spec_char_width(font, c) == 600,
{
}

/// Each face is measured by its own Adobe Font Metrics table: Helvetica and
/// Helvetica-Oblique by the Helvetica widths, the two bold Helvetica faces
/// by the Helvetica-Bold widths, Times-Roman and Times-Italic by the
/// Times-Roman widths, the two bold Times faces by the Times-Bold widths.
pub proof fn law_widths_come_from_the_face_table(c: char)
    ensures
        spec_char_width(Standard14Font::Helvetica, c) == HELVETICA_WIDTHS@[width_code(c)],
        spec_char_width(Standard14Font::HelveticaOblique, c) == HELVETICA_WIDTHS@[width_code(c)],
        spec_char_width(Standard14Font::HelveticaBold, c) == HELVETICA_BOLD_WIDTHS@[width_code(c)],
        spec_char_width(Standard14Font::HelveticaBoldOblique, c)
            == HELVETICA_BOLD_WIDTHS@[width_code(c)],
        spec_char_width(Standard14Font::TimesRoman, c) == TIMES_ROMAN_WIDTHS@[width_code(c)],
        spec_char_width(Standard14Font::TimesItalic, c) == TIMES_ROMAN_WIDTHS@[width_code(c)],
        spec_char_width(Standard14Font::TimesBold, c) == TIMES_BOLD_WIDTHS@[width_code(c)],
        spec_char_width(Standard14Font::TimesBoldItalic, c) == TIMES_BOLD_WIDTHS@[width_code(c)],
{
}

/// The lowercase letters that Times-Bold sets wider than Times-Roman.
pub open spec fn times_bold_widens(c: char) -> bool {
    c == 'a' || c == 'b' || c == 'd' || c == 'h' || c == 'j' || c == 'k' || c == 'm' || c == 'n'
        || c == 'p' || c == 'q' || c == 'r' || c == 't' || c == 'u'
}

/// **A bold face is a wider face.** Every lowercase letter from `b` to `y`
/// but `e` is wider in Helvetica-Bold than in Helvetica (upright or
/// oblique alike), and the letters `a b d h j k m n p q r t u` are wider in
/// Times-Bold than in Times-Roman: the bold faces are not measured as the
/// regular ones.
pub proof fn law_bold_faces_are_wider(c: char)
    ensures
        'b' <= c <= 'y' && c != 'e' ==> spec_char_width(Standard14Font::HelveticaBold, c)
            > spec_char_width(Standard14Font::Helvetica, c),
        'b' <= c <= 'y' && c != 'e' ==> spec_char_width(Standard14Font::HelveticaBoldOblique, c)
            > spec_char_width(Standard14Font::HelveticaOblique, c),
        times_bold_widens(c) ==> spec_char_width(Standard14Font::TimesBold, c)
            > spec_char_width(Standard14Font::TimesRoman, c),
        times_bold_widens(c) ==> spec_char_width(Standard14Font::TimesBoldItalic, c)
            > spec_char_width(Standard14Font::TimesItalic, c),
{
    let x = c as u32 as int;
    if 'b' <= c <= 'y' && c != 'e' {
        assert(HELVETICA_BOLD_WIDTHS@[x] > HELVETICA_WIDTHS@[x]);
    }
    if times_bold_widens(c) {
        assert(TIMES_BOLD_WIDTHS@[x] > TIMES_ROMAN_WIDTHS@[x]);
    }
}

// --- text strings ------------------------------------------------------------

/// How one character is written inside a PDF literal string: `(`, `)` and
/// `\` are escaped with a backslash, characters outside WinAnsiEncoding
/// become `?`.
pub open spec fn escape_char(c: char) -> Seq<char> {
    if (c as u32) > 255 {
        seq!['?']
    } else if c == '(' {
        seq!['\\', '(']
    } else if c == ')' {
        seq!['\\', ')']
    } else if c == '\\' {
        seq!['\\', '\\']
    } else {
        seq![c]
    }
}

/// The escaped characters of `s`, in order.
pub open spec fn spec_escape(s: Seq<char>) -> Seq<char>
    decreases s.len(),
{
    if s.len() == 0 {
        Seq::empty()
    } else {
        spec_escape(s.drop_last()) + escape_char(s.last())
    }
}

/// The PDF literal string for `s`.
pub open spec fn spec_encode_pdf_text(s: Seq<char>) -> Seq<char> {
    seq!['('] + spec_escape(s) + seq![')']
}

/// Encode a string for use in a PDF text string (`Tj` operator).
///
/// Characters that need escaping in the literal string form `(text)` are
/// `(`, `)` and `\`; characters outside WinAnsiEncoding are replaced with
/// `?`.
pub fn encode_pdf_text(text: &str) -> (r: String)
    ensures
        r@ == spec_encode_pdf_text(text@),
{
    let mut result = String::new();
    push_char(&mut result, '(');
    let ghost s = text@;
    assert(s.take(0) =~= Seq::<char>::empty());
    for ch in it: text.chars()
        invariant
            s == text@,
            it.seq() == s,
            it.index() <= s.len(),
            result@ == seq!['('] + spec_escape(s.take(it.index() as int)),
    {
        let ghost n = it.index() as int;
        proof {
            assert(s.take(n + 1).drop_last() =~= s.take(n));
            assert(s.take(n + 1).last() == ch);
        }
        let code = ch as u32;
        if code > 255 {
            push_char(&mut result, '?');
        } else if ch == '(' {
            push_char(&mut result, '\\');
            push_char(&mut result, '(');
        } else if ch == ')' {
            push_char(&mut result, '\\');
            push_char(&mut result, ')');
        } else if ch == '\\' {
            push_char(&mut result, '\\');
            push_char(&mut result, '\\');
        } else {
            push_char(&mut result, ch);
        }
        assert(result@ =~= seq!['('] + spec_escape(s.take(n + 1)));
    }
    assert(s.take(s.len() as int) =~= s);
    push_char(&mut result, ')');
    result
}

} // verus!
