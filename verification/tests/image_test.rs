use std::io::Cursor;

use image::{GrayImage, ImageFormat as ImgFmt, Luma, Rgb, RgbImage, Rgba, RgbaImage};
use underskrift::visual::image::{prepare_image, split_alpha, VisualError};
use underskrift::visual::layout::ImageFormat;

fn encode_rgb(img: &RgbImage, fmt: ImgFmt) -> Vec<u8> {
    let mut buf = Cursor::new(Vec::new());
    img.write_to(&mut buf, fmt).unwrap();
    buf.into_inner()
}

#[test]
fn test_prepare_jpeg_minimal() {
    let img = RgbImage::from_pixel(2, 2, Rgb([255, 0, 0]));
    let jpeg_data = encode_rgb(&img, ImgFmt::Jpeg);

    let embedded = prepare_image(&jpeg_data, ImageFormat::Jpeg).unwrap();
    assert_eq!(embedded.width, 2);
    assert_eq!(embedded.height, 2);
    assert_eq!(embedded.filter, "DCTDecode");
    assert_eq!(embedded.color_space, "DeviceRGB");
    assert!(!embedded.has_alpha);
}

#[test]
fn test_prepare_png_rgb() {
    let img = RgbImage::from_pixel(3, 3, Rgb([0, 128, 255]));
    let png_data = encode_rgb(&img, ImgFmt::Png);

    let embedded = prepare_image(&png_data, ImageFormat::Png).unwrap();
    assert_eq!(embedded.width, 3);
    assert_eq!(embedded.height, 3);
    assert_eq!(embedded.filter, "FlateDecode");
    assert!(!embedded.has_alpha);
    assert_eq!(embedded.data.len(), 3 * 3 * 3);
}

#[test]
fn test_prepare_png_rgba() {
    let img = RgbaImage::from_pixel(2, 2, Rgba([255, 0, 0, 128]));
    let mut buf = Cursor::new(Vec::new());
    img.write_to(&mut buf, ImgFmt::Png).unwrap();
    let png_data = buf.into_inner();

    let embedded = prepare_image(&png_data, ImageFormat::Png).unwrap();
    assert_eq!(embedded.width, 2);
    assert_eq!(embedded.height, 2);
    assert!(embedded.has_alpha);
    assert!(embedded.alpha_data.is_some());
    assert_eq!(embedded.data.len(), 2 * 2 * 3);
    assert_eq!(embedded.alpha_data.unwrap().len(), 2 * 2);
}

#[test]
fn jpeg_is_passed_through_unchanged() {
    let img = RgbImage::from_pixel(4, 1, Rgb([10, 20, 30]));
    let jpeg_data = encode_rgb(&img, ImgFmt::Jpeg);
    let embedded = prepare_image(&jpeg_data, ImageFormat::Jpeg).unwrap();
    assert_eq!(embedded.data, jpeg_data);
    assert_eq!(embedded.bits_per_component, 8);
    assert!(embedded.alpha_data.is_none());
}

#[test]
fn grey_jpeg_is_device_gray() {
    let img = GrayImage::from_pixel(2, 3, Luma([90]));
    let mut buf = Cursor::new(Vec::new());
    img.write_to(&mut buf, ImgFmt::Jpeg).unwrap();
    let embedded = prepare_image(&buf.into_inner(), ImageFormat::Jpeg).unwrap();
    assert_eq!(embedded.color_space, "DeviceGray");
    assert_eq!(embedded.width, 2);
    assert_eq!(embedded.height, 3);
}

#[test]
fn png_samples_are_the_pixels_in_order() {
    let mut img = RgbImage::new(2, 1);
    img.put_pixel(0, 0, Rgb([1, 2, 3]));
    img.put_pixel(1, 0, Rgb([4, 5, 6]));
    let embedded = prepare_image(&encode_rgb(&img, ImgFmt::Png), ImageFormat::Png).unwrap();
    assert_eq!(embedded.data, vec![1, 2, 3, 4, 5, 6]);
    assert_eq!(embedded.color_space, "DeviceRGB");
}

#[test]
fn rgba_png_splits_colour_and_alpha() {
    let mut img = RgbaImage::new(2, 1);
    img.put_pixel(0, 0, Rgba([1, 2, 3, 4]));
    img.put_pixel(1, 0, Rgba([5, 6, 7, 8]));
    let mut buf = Cursor::new(Vec::new());
    img.write_to(&mut buf, ImgFmt::Png).unwrap();
    let embedded = prepare_image(&buf.into_inner(), ImageFormat::Png).unwrap();
    assert_eq!(embedded.data, vec![1, 2, 3, 5, 6, 7]);
    assert_eq!(embedded.alpha_data, Some(vec![4, 8]));
}

#[test]
fn undecodable_data_is_an_image_error() {
    assert!(matches!(
        prepare_image(b"definitely not an image", ImageFormat::Png),
        Err(VisualError::ImageError(_))
    ));
    assert!(matches!(
        prepare_image(b"", ImageFormat::Jpeg),
        Err(VisualError::ImageError(_))
    ));
}

#[test]
fn split_alpha_sizes() {
    let (rgb, alpha) = split_alpha(&[1, 2, 3, 4, 5, 6, 7, 8]);
    assert_eq!(rgb, vec![1, 2, 3, 5, 6, 7]);
    assert_eq!(alpha, vec![4, 8]);
    let (rgb, alpha) = split_alpha(&[]);
    assert!(rgb.is_empty() && alpha.is_empty());
}
