use gem_keep::thumbs::{
    generate_thumbnail_from_image, jpeg_thumbnail_image, raw_thumbnail_image, SizedImage,
};
use image::GenericImageView;
use std::io::Cursor;

fn sized(image: image::DynamicImage) -> SizedImage {
    let (width, height) = image.dimensions();
    SizedImage { image, width, height }
}

fn jpeg_bytes(width: u32, height: u32) -> Vec<u8> {
    let img = image::DynamicImage::new_rgb8(width, height);
    let mut buf = Cursor::new(Vec::new());
    img.write_to(&mut buf, image::ImageFormat::Jpeg).unwrap();
    buf.into_inner()
}

#[test]
fn test_thumbnail_output_is_256x256() {
    let bytes = jpeg_bytes(600, 200);
    let thumb = jpeg_thumbnail_image(&bytes, None).expect("plain JPEG must decode");
    assert_eq!((thumb.width, thumb.height), (256, 256), "preview must exactly fill the square");
    assert_eq!(thumb.image.dimensions(), (256, 256), "tracked dimensions match the pixels");
}

#[test]
fn test_thumbnail_nonsense_bytes_do_not_panic() {
    let garbage = b"this is not a jpeg at all -- garbage data".to_vec();
    assert!(jpeg_thumbnail_image(&garbage, Some(6)).is_none());
    assert!(raw_thumbnail_image(&garbage).is_none());
}

#[test]
fn test_raw_preview_resizes_to_square() {
    // A raw file's embedded preview is handed in as plain JPEG bytes.
    let bytes = jpeg_bytes(1620, 1080);
    let thumb = raw_thumbnail_image(&bytes).expect("embedded preview must decode");
    assert_eq!((thumb.width, thumb.height), (256, 256));
    assert_eq!(thumb.image.dimensions(), (256, 256));
}

#[test]
fn test_orientation_rotation_applied_after_resize() {
    let img = image::DynamicImage::new_rgb8(600, 200);
    let upright = generate_thumbnail_from_image(sized(img.clone()), None);
    let rotated = generate_thumbnail_from_image(sized(img), Some(6));
    // Both fill the square; the rotation must not change that.
    assert_eq!(upright.image.dimensions(), (256, 256));
    assert_eq!(rotated.image.dimensions(), (256, 256));
}

#[test]
fn test_mirror_orientation_left_unrotated() {
    let bytes = jpeg_bytes(300, 300);
    let thumb = jpeg_thumbnail_image(&bytes, Some(2)).expect("must decode");
    assert_eq!(thumb.image.dimensions(), (256, 256));
}
