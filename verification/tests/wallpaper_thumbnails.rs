use coconut::wallpaper::{wallpaper_thumbnail, THUMBNAIL_QUALITY, THUMBNAIL_SIZE};
use image::codecs::jpeg::JpegEncoder;
use image::{DynamicImage, GenericImageView, ImageFormat, Rgb, RgbImage};
use std::io::Cursor;

fn png_of(width: u32, height: u32) -> Vec<u8> {
    let picture = DynamicImage::ImageRgb8(RgbImage::from_pixel(width, height, Rgb([200, 40, 40])));
    let mut bytes = Vec::new();
    picture.write_to(&mut Cursor::new(&mut bytes), ImageFormat::Png).unwrap();
    bytes
}

#[test]
fn previews_are_jpeg_files() {
    let source = png_of(448, 112);
    let jpeg = wallpaper_thumbnail(&source).unwrap();
    assert_ne!(jpeg, source);
    assert_eq!(&jpeg[..2], &[0xFF, 0xD8]);
    assert_eq!(image::guess_format(&jpeg).unwrap(), ImageFormat::Jpeg);
}

#[test]
fn a_wide_picture_is_scaled_down_to_the_preview_width() {
    let jpeg = wallpaper_thumbnail(&png_of(448, 112)).unwrap();
    let preview = image::load_from_memory(&jpeg).unwrap();
    assert_eq!(preview.dimensions(), (224, 56));
}

#[test]
fn a_tall_picture_is_scaled_down_to_the_preview_height() {
    let jpeg = wallpaper_thumbnail(&png_of(100, 400)).unwrap();
    let preview = image::load_from_memory(&jpeg).unwrap();
    assert_eq!(preview.dimensions(), (56, 224));
}

#[test]
fn a_small_picture_is_scaled_up_to_fill_the_preview_square() {
    let jpeg = wallpaper_thumbnail(&png_of(100, 50)).unwrap();
    let preview = image::load_from_memory(&jpeg).unwrap();
    assert_eq!(preview.dimensions(), (224, 112));
}

#[test]
fn previews_use_the_gallery_size_and_quality() {
    assert_eq!(THUMBNAIL_SIZE, 224);
    assert_eq!(THUMBNAIL_QUALITY, 82);
    let source = png_of(300, 200);
    let scaled = image::load_from_memory(&source).unwrap().thumbnail(224, 224);
    let mut expected = Vec::new();
    JpegEncoder::new_with_quality(&mut expected, 82).encode_image(&scaled).unwrap();
    assert_eq!(wallpaper_thumbnail(&source).unwrap(), expected);
}

#[test]
fn bytes_that_are_no_picture_give_no_preview() {
    assert_eq!(wallpaper_thumbnail(b"not a picture at all"), None);
    assert_eq!(wallpaper_thumbnail(&[]), None);
}

#[test]
fn a_truncated_picture_gives_no_preview() {
    let source = png_of(64, 64);
    assert_eq!(wallpaper_thumbnail(&source[..source.len() / 2]), None);
}
