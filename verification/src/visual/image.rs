//! JPEG and PNG images prepared as PDF image XObjects.
//!
//! A JPEG is passed through as it is (PDF reads DCT-compressed streams). A
//! PNG is decoded into raw RGB samples; an alpha channel is split off into a
//! separate soft-mask stream.

use vstd::prelude::*;

use super::layout::ImageFormat;

verus! {

/// Which class of failure preparing a visible signature reports.
pub enum VisualFault {
    Image,
    Dimensions,
    Appearance,
}

/// Errors from preparing a visible signature.
#[derive(Debug)]
pub enum VisualError {
    /// The image could not be read or decoded.
    ImageError(String),
    /// The signature rectangle has no area.
    InvalidDimensions(String),
    /// The requested appearance cannot be drawn.
    AppearanceError(String),
}

impl VisualError {
    /// The class of this error.
    pub open spec fn fault(&self) -> VisualFault {
        match self {
            VisualError::ImageError(_) => VisualFault::Image,
            VisualError::InvalidDimensions(_) => VisualFault::Dimensions,
            VisualError::AppearanceError(_) => VisualFault::Appearance,
        }
    }
}

/// What the image crate makes of an encoded image.
pub struct DecodedImage {
    pub width: u32,
    pub height: u32,
    /// The decoded colour type has an alpha channel.
    pub has_alpha: bool,
    /// The decoded colour type is not grayscale.
    pub has_color: bool,
    /// Bytes per pixel of the decoded colour type.
    pub bytes_per_pixel: u8,
    /// The pixels as 8-bit RGBA, row by row.
    pub rgba: Vec<u8>,
    /// The pixels as 8-bit RGB, row by row.
    pub rgb: Vec<u8>,
}

/// A decoded image as plain values.
pub struct DecodedModel {
    pub width: u32,
    pub height: u32,
    pub has_alpha: bool,
    pub has_color: bool,
    pub bytes_per_pixel: u8,
    pub rgba: Seq<u8>,
    pub rgb: Seq<u8>,
}

impl View for DecodedImage {
    type V = DecodedModel;

    open spec fn view(&self) -> DecodedModel {
        DecodedModel {
            width: self.width,
            height: self.height,
            has_alpha: self.has_alpha,
            has_color: self.has_color,
            bytes_per_pixel: self.bytes_per_pixel,
            rgba: self.rgba@,
            rgb: self.rgb@,
        }
    }
}

/// What the image crate decodes `data` into, its format guessed from the
/// bytes; `None` when it cannot.
pub uninterp spec fn spec_decode_image(data: Seq<u8>) -> Option<DecodedModel>;

/// Calls `image::guess_format` (the built-in magic bytes only, no
/// registered hooks), `ImageReader::set_format` and `decode`, and reads the
/// result through `width`, `height`, the `ColorType`'s `has_alpha`, `has_color` and `bytes_per_pixel`, and
/// `to_rgba8` / `to_rgb8` with `into_raw`.
///
/// Claimed: the result is a function of the bytes alone, named by
/// [`spec_decode_image`]; the RGBA samples are four bytes per pixel and the
/// RGB samples three (an `ImageBuffer` holds `width * height` pixels).
#[verifier::external_body]
fn decode_image(data: &[u8]) -> (r: Option<DecodedImage>)
    ensures
        match r {
            Some(d) => spec_decode_image(data@) == Some(d@) && d.rgba@.len() == 4 * d.width
                * d.height && d.rgb@.len() == 3 * d.width * d.height,
            None => spec_decode_image(data@) is None,
        },
{
    let mut reader = image::ImageReader::new(std::io::Cursor::new(data));
    reader.set_format(image::guess_format(data).ok()?);
    let img = reader.decode().ok()?;
    Some(DecodedImage {
        width: img.width(),
        height: img.height(),
        has_alpha: img.color().has_alpha(),
        has_color: img.color().has_color(),
        bytes_per_pixel: img.color().bytes_per_pixel(),
        rgba: img.to_rgba8().into_raw(),
        rgb: img.to_rgb8().into_raw(),
    })
}

/// Information about an embedded image, ready for PDF XObject creation.
#[derive(Debug)]
pub struct EmbeddedImage {
    /// The stream data: the JPEG itself, or the RGB samples of a PNG.
    pub data: Vec<u8>,
    /// Image width in pixels.
    pub width: u32,
    /// Image height in pixels.
    pub height: u32,
    /// Bits per color component.
    pub bits_per_component: u8,
    /// PDF color space name (`DeviceRGB` or `DeviceGray`).
    pub color_space: String,
    /// PDF stream filter name (`DCTDecode` or `FlateDecode`).
    pub filter: String,
    /// Whether the image has an alpha channel (requires an SMask).
    pub has_alpha: bool,
    /// The alpha samples, when `has_alpha`.
    pub alpha_data: Option<Vec<u8>>,
}

/// An embedded image as plain values.
pub struct EmbeddedModel {
    pub data: Seq<u8>,
    pub width: u32,
    pub height: u32,
    pub bits_per_component: u8,
    pub color_space: Seq<char>,
    pub filter: Seq<char>,
    pub has_alpha: bool,
    pub alpha_data: Option<Seq<u8>>,
}

impl View for EmbeddedImage {
    type V = EmbeddedModel;

    open spec fn view(&self) -> EmbeddedModel {
        EmbeddedModel {
            data: self.data@,
            width: self.width,
            height: self.height,
            bits_per_component: self.bits_per_component,
            color_space: self.color_space@,
            filter: self.filter@,
            has_alpha: self.has_alpha,
            alpha_data: match self.alpha_data {
                Some(a) => Some(a@),
                None => None,
            },
        }
    }
}

/// The colour samples of the RGBA pixels `rgba`: the first three bytes of
/// each four.
pub open spec fn rgb_of(rgba: Seq<u8>) -> Seq<u8>
    decreases rgba.len(),
{
    if rgba.len() < 4 {
        Seq::empty()
    } else {
        rgb_of(rgba.take(rgba.len() - 4)) + rgba.subrange(rgba.len() - 4, rgba.len() - 1)
    }
}

/// The alpha samples of the RGBA pixels `rgba`: the last byte of each four.
pub open spec fn alpha_of(rgba: Seq<u8>) -> Seq<u8>
    decreases rgba.len(),
{
    if rgba.len() < 4 {
        Seq::empty()
    } else {
        alpha_of(rgba.take(rgba.len() - 4)).push(rgba[rgba.len() - 1])
    }
}

/// `data` prepared as a JPEG image: passed through, gray when the decoder
/// found a gray image without alpha, RGB otherwise.
pub open spec fn spec_prepare_jpeg(data: Seq<u8>) -> Result<EmbeddedModel, VisualFault> {
    match spec_decode_image(data) {
        None => Err(VisualFault::Image),
        Some(d) => Ok(
            EmbeddedModel {
                data,
                width: d.width,
                height: d.height,
                bits_per_component: 8,
                color_space: if !d.has_color && !d.has_alpha {
                    "DeviceGray"@
                } else {
                    "DeviceRGB"@
                },
                filter: "DCTDecode"@,
                has_alpha: false,
                alpha_data: None,
            },
        ),
    }
}

/// `data` prepared as a PNG image: RGB samples, with the alpha channel split
/// off when the decoded colour type has one of 8 or 16 bits.
pub open spec fn spec_prepare_png(data: Seq<u8>) -> Result<EmbeddedModel, VisualFault> {
    match spec_decode_image(data) {
        None => Err(VisualFault::Image),
        Some(d) => {
            if d.has_alpha && d.bytes_per_pixel <= 8 {
                Ok(
                    EmbeddedModel {
                        data: rgb_of(d.rgba),
                        width: d.width,
                        height: d.height,
                        bits_per_component: 8,
                        color_space: "DeviceRGB"@,
                        filter: "FlateDecode"@,
                        has_alpha: true,
                        alpha_data: Some(alpha_of(d.rgba)),
                    },
                )
            } else {
                Ok(
                    EmbeddedModel {
                        data: d.rgb,
                        width: d.width,
                        height: d.height,
                        bits_per_component: 8,
                        color_space: "DeviceRGB"@,
                        filter: "FlateDecode"@,
                        has_alpha: false,
                        alpha_data: None,
                    },
                )
            }
        },
    }
}

/// Three colour bytes a pixel, and one alpha byte a pixel when there is an
/// alpha channel.
pub open spec fn png_sample_lengths(e: EmbeddedModel) -> bool {
    &&& e.data.len() == 3 * e.width * e.height
    &&& e.alpha_data matches Some(a) ==> a.len() == e.width * e.height
}

/// `data` prepared in `format`.
pub open spec fn spec_prepare_image(data: Seq<u8>, format: ImageFormat) -> Result<
    EmbeddedModel,
    VisualFault,
> {
    match format {
        ImageFormat::Jpeg => spec_prepare_jpeg(data),
        ImageFormat::Png => spec_prepare_png(data),
    }
}

/// An image `Result` taken to its model.
pub open spec fn image_result(r: Result<EmbeddedImage, VisualError>) -> Result<
    EmbeddedModel,
    VisualFault,
> {
    match r {
        Ok(i) => Ok(i@),
        Err(e) => Err(e.fault()),
    }
}

fn owned(s: &str) -> (r: String)
    ensures
        r@ == s@,
{
    String::from_str(s)
}

fn image_error(msg: &str) -> (e: VisualError)
    ensures
        e matches VisualError::ImageError(s) && s@ == msg@,
{
    VisualError::ImageError(String::from_str(msg))
}

/// Split RGBA pixels into their colour and alpha samples.
pub fn split_alpha(rgba: &[u8]) -> (r: (Vec<u8>, Vec<u8>))
    requires
        rgba@.len() % 4 == 0,
    ensures
        r.0@ == rgb_of(rgba@),
        r.1@ == alpha_of(rgba@),
{
    let mut rgb: Vec<u8> = Vec::new();
    let mut alpha: Vec<u8> = Vec::new();
    let mut i: usize = 0;
    let ghost s = rgba@;
    while i < rgba.len()
        invariant
            s == rgba@,
            s.len() % 4 == 0,
            i <= s.len(),
            i % 4 == 0,
            rgb@ == rgb_of(s.take(i as int)),
            alpha@ == alpha_of(s.take(i as int)),
        decreases rgba.len() - i,
    {
        let ghost t = s.take(i + 4);
        proof {
            assert(t.take(t.len() - 4) =~= s.take(i as int));
            assert(t.subrange(t.len() - 4, t.len() - 1) =~= s.subrange(i as int, i + 3));
            assert(t[t.len() - 1] == s[i + 3]);
        }
        rgb.push(rgba[i]);
        rgb.push(rgba[i + 1]);
        rgb.push(rgba[i + 2]);
        alpha.push(rgba[i + 3]);
        assert(rgb@ =~= rgb_of(t));
        assert(alpha@ =~= alpha_of(t));
        i = i + 4;
    }
    assert(s.take(i as int) =~= s);
    (rgb, alpha)
}

/// Prepare a JPEG image: the data is passed through, with its dimensions and
/// colour space read from the decoded image.
fn prepare_jpeg(data: &[u8]) -> (r: Result<EmbeddedImage, VisualError>)
    ensures
        image_result(r) == spec_prepare_jpeg(data@),
{
    let img = match decode_image(data) {
        Some(i) => i,
        None => {
            return Err(image_error("Failed to decode JPEG"));
        },
    };
    let color_space = if !img.has_color && !img.has_alpha {
        owned("DeviceGray")
    } else {
        owned("DeviceRGB")
    };
    Ok(
        EmbeddedImage {
            data: crate::cms::tlv::copy_bytes(data),
            width: img.width,
            height: img.height,
            bits_per_component: 8,
            color_space,
            filter: owned("DCTDecode"),
            has_alpha: false,
            alpha_data: None,
        },
    )
}

/// Prepare a PNG image: decoded into RGB samples, with an alpha channel split
/// off into its own samples.
fn prepare_png(data: &[u8]) -> (r: Result<EmbeddedImage, VisualError>)
    ensures
        image_result(r) == spec_prepare_png(data@),
        r matches Ok(e) ==> png_sample_lengths(e@),
{
    let img = match decode_image(data) {
        Some(i) => i,
        None => {
            return Err(image_error("Failed to decode PNG"));
        },
    };
    if img.has_alpha && img.bytes_per_pixel <= 8 {
        proof {
            assert(4 * img.width * img.height == 4 * (img.width * img.height)) by (nonlinear_arith);
            assert((4 * (img.width * img.height)) % 4 == 0) by (nonlinear_arith);
        }
        let (rgb, alpha) = split_alpha(img.rgba.as_slice());
        proof {
            law_split_sizes(img.rgba@);
            assert(4 * (img.width * img.height) / 4 * 3 == 3 * img.width * img.height)
                by (nonlinear_arith);
            assert(4 * (img.width * img.height) / 4 == img.width * img.height) by (nonlinear_arith);
        }
        Ok(
            EmbeddedImage {
                data: rgb,
                width: img.width,
                height: img.height,
                bits_per_component: 8,
                color_space: owned("DeviceRGB"),
                filter: owned("FlateDecode"),
                has_alpha: true,
                alpha_data: Some(alpha),
            },
        )
    } else {
        Ok(
            EmbeddedImage {
                data: img.rgb,
                width: img.width,
                height: img.height,
                bits_per_component: 8,
                color_space: owned("DeviceRGB"),
                filter: owned("FlateDecode"),
                has_alpha: false,
                alpha_data: None,
            },
        )
    }
}

/// Decode image data and prepare it for PDF embedding.
pub fn prepare_image(data: &[u8], format: ImageFormat) -> (r: Result<EmbeddedImage, VisualError>)
    ensures
        image_result(r) == spec_prepare_image(data@, format),
        format == ImageFormat::Png ==> (r matches Ok(e) ==> png_sample_lengths(e@)),
{
    match format {
        ImageFormat::Jpeg => prepare_jpeg(data),
        ImageFormat::Png => prepare_png(data),
    }
}

/// Splitting RGBA pixels gives three colour samples and one alpha sample per
/// pixel.
pub proof fn law_split_sizes(rgba: Seq<u8>)
    requires
        rgba.len() % 4 == 0,
    ensures
        rgb_of(rgba).len() == rgba.len() / 4 * 3,
        alpha_of(rgba).len() == rgba.len() / 4,
    decreases rgba.len(),
{
    if rgba.len() >= 4 {
        law_split_sizes(rgba.take(rgba.len() - 4));
    }
}

} // verus!
