//! Signing options, and the last step of signing a PDF: writing the CMS
//! signature into the `/Contents` placeholder.

use vstd::prelude::*;

verus! {

/// PAdES conformance level.
#[derive(Debug, Clone, Copy, PartialEq, Eq, Structural)]
pub enum PadesLevel {
    /// PAdES Baseline B-B (basic signature).
    BB,
    /// PAdES Baseline B-T (with timestamp).
    BT,
    /// PAdES Baseline B-LT (with LTV data).
    BLT,
    /// PAdES Baseline B-LTA (with archive timestamp).
    BLTA,
}

impl Default for PadesLevel {
    /// Baseline B-B.
    fn default() -> (r: PadesLevel)
        ensures
            r == PadesLevel::BB,
    {
        PadesLevel::BB
    }
}

/// SubFilter selection for the public API.
#[derive(Debug, Clone, Copy, PartialEq, Eq, Structural)]
pub enum SubFilter {
    /// PAdES: `ETSI.CAdES.detached`.
    Pades,
    /// Traditional: `adbe.pkcs7.detached`.
    Pkcs7,
}

impl Default for SubFilter {
    /// PAdES.
    fn default() -> (r: SubFilter)
        ensures
            r == SubFilter::Pades,
    {
        SubFilter::Pades
    }
}

/// The `/SubFilter` name written for `s`.
pub open spec fn spec_sub_filter_name(s: SubFilter) -> Seq<char> {
    match s {
        SubFilter::Pades => "ETSI.CAdES.detached"@,
        SubFilter::Pkcs7 => "adbe.pkcs7.detached"@,
    }
}

impl SubFilter {
    /// The `/SubFilter` name written for this selection.
    pub fn pdf_name(&self) -> (r: &'static str)
        ensures
            r@ == spec_sub_filter_name(*self),
    {
        match self {
            SubFilter::Pades => "ETSI.CAdES.detached",
            SubFilter::Pkcs7 => "adbe.pkcs7.detached",
        }
    }
}

/// Errors from writing a signature into a prepared PDF.
#[derive(Debug, Clone, Copy, PartialEq, Eq, Structural)]
pub enum SignError {
    /// The CMS is larger than the space reserved for it.
    SignatureTooLarge { actual: usize, allocated: usize },
}

/// The uppercase hexadecimal digit of `d`.
pub open spec fn hex_upper_digit(d: int) -> u8 {
    if d < 10 {
        (0x30 + d) as u8
    } else {
        (0x41 + d - 10) as u8
    }
}

/// `b` in uppercase hexadecimal, as ASCII bytes, two a byte.
pub open spec fn spec_hex_upper(b: Seq<u8>) -> Seq<u8>
    decreases b.len(),
{
    if b.len() == 0 {
        Seq::empty()
    } else {
        spec_hex_upper(b.drop_last()) + seq![
            hex_upper_digit((b.last() / 16) as int),
            hex_upper_digit((b.last() % 16) as int),
        ]
    }
}

/// Calls `hex::encode_upper` and takes the bytes of the text.
///
/// Claimed: each byte becomes two uppercase hexadecimal digits, high nibble
/// first, as hex's `HEX_CHARS_UPPER` table writes them.
#[verifier::external_body]
fn hex_upper(b: &[u8]) -> (r: Vec<u8>)
    ensures
        r@ == spec_hex_upper(b@),
{
    hex::encode_upper(b).into_bytes()
}

/// The hexadecimal form is two digits a byte.
proof fn lemma_hex_upper_len(b: Seq<u8>)
    ensures
        spec_hex_upper(b).len() == 2 * b.len(),
    decreases b.len(),
{
    if b.len() > 0 {
        lemma_hex_upper_len(b.drop_last());
    }
}

/// `out` with the placeholder of `len` bytes at `off` holding the hex form
/// of `cms`, padded with `0` digits.
pub open spec fn spec_injected(out: Seq<u8>, off: int, len: int, cms: Seq<u8>) -> Seq<u8> {
    let h = spec_hex_upper(cms);
    out.take(off) + h + Seq::new((len - h.len()) as nat, |i: int| 0x30u8) + out.skip(off + len)
}

/// Write the CMS signature `cms_der` into the `/Contents` placeholder of
/// `output`: uppercase hex, left-aligned, padded with `0` digits.
///
/// The placeholder holds `content_size` bytes, `2 * content_size` hex
/// digits; a larger CMS is refused and `output` left as it was.
pub fn inject_signature(
    output: &mut Vec<u8>,
    contents_offset: usize,
    contents_length: usize,
    cms_der: &[u8],
    content_size: usize,
) -> (r: Result<(), SignError>)
    requires
        contents_offset + contents_length <= old(output)@.len(),
        contents_length == 2 * content_size,
    ensures
        r is Err <==> cms_der@.len() > content_size,
        r matches Err(e) ==> e == (SignError::SignatureTooLarge {
            actual: cms_der@.len() as usize,
            allocated: content_size,
        }) && final(output)@ == old(output)@,
        r is Ok ==> final(output)@ == spec_injected(
            old(output)@,
            contents_offset as int,
            contents_length as int,
            cms_der@,
        ),
{
    if cms_der.len() > content_size {
        return Err(SignError::SignatureTooLarge { actual: cms_der.len(), allocated: content_size });
    }
    let hex = hex_upper(cms_der);
    proof {
        lemma_hex_upper_len(cms_der@);
    }
    let ghost before = output@;
    let n = output.len();
    assert(contents_offset + contents_length <= n);
    let end = contents_offset + contents_length;
    let mut i: usize = 0;
    while i < contents_length
        invariant
            contents_offset + contents_length <= before.len(),
            end == contents_offset + contents_length,
            hex@.len() <= contents_length,
            i <= contents_length,
            output@.len() == before.len(),
            forall|k: int| 0 <= k < contents_offset ==> output@[k] == before[k],
            forall|k: int| end <= k < before.len() ==> output@[k] == before[k],
            forall|k: int| 0 <= k < i ==> #[trigger] output@[contents_offset + k] == if k < hex@.len() {
                hex@[k]
            } else {
                0x30u8
            },
        decreases contents_length - i,
    {
        let b = if i < hex.len() {
            hex[i]
        } else {
            0x30u8
        };
        let ghost prev = output@;
        output.set(contents_offset + i, b);
        proof {
            assert(output@ == prev.update(contents_offset + i, b));
            assert(output@[contents_offset + i] == b);
            assert(b == if (i as int) < hex@.len() { hex@[i as int] } else { 0x30u8 });
            assert forall|k: int| 0 <= k < i + 1 implies output@[contents_offset + k] == if k < hex@.len() {
                hex@[k]
            } else {
                0x30u8
            } by {
                if k < i {
                    assert(output@[contents_offset + k] == prev[contents_offset + k]);
                    assert(prev[contents_offset + k] == if k < hex@.len() {
                        hex@[k]
                    } else {
                        0x30u8
                    });
                }
            }
        }
        i = i + 1;
    }
    proof {
        let expected = spec_injected(before, contents_offset as int, contents_length as int, cms_der@);
        assert(output@ =~= expected) by {
            assert forall|k: int| 0 <= k < output@.len() implies output@[k] == expected[k] by {
                if k < contents_offset {
                } else if k < end {
                    let j = k - contents_offset;
                    assert(0 <= j < i);
                    assert(output@[contents_offset + j] == if j < hex@.len() {
                        hex@[j]
                    } else {
                        0x30u8
                    });
                } else {
                }
            }
        }
    }
    Ok(())
}

} // verus!
