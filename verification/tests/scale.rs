use cbz_thumbnailer::picture::SampleKind;
use cbz_thumbnailer::scale::{box_fits_in_memory, choose_scaler, decode_image, fit, Scaler};

fn encode(source: &image::DynamicImage, format: image::ImageFormat) -> Vec<u8> {
    let mut out = std::io::Cursor::new(Vec::new());
    source.write_to(&mut out, format).unwrap();
    out.into_inner()
}

fn shaded(width: u32, height: u32) -> image::DynamicImage {
    image::DynamicImage::ImageRgb8(image::RgbImage::from_fn(width, height, |x, y| {
        image::Rgb([(x * 5) as u8, (y * 9) as u8, (x + y) as u8])
    }))
}

#[test]
fn averaging_is_chosen_while_sums_fit() {
    assert_eq!(choose_scaler(4095, 4096, SampleKind::Eight, 64, 64), Some(Scaler::Averaging));
    assert_eq!(choose_scaler(4096, 4096, SampleKind::Eight, 64, 64), Some(Scaler::Sampling));
    assert_eq!(choose_scaler(256, 255, SampleKind::Sixteen, 64, 64), Some(Scaler::Averaging));
    assert_eq!(choose_scaler(256, 256, SampleKind::Sixteen, 64, 64), Some(Scaler::Sampling));
    assert_eq!(choose_scaler(65535, 65537, SampleKind::Float, 64, 64), Some(Scaler::Averaging));
    assert_eq!(choose_scaler(65536, 65536, SampleKind::Float, 64, 64), Some(Scaler::Sampling));
    assert_eq!(choose_scaler(1, 1, SampleKind::Other, 64, 64), Some(Scaler::Sampling));
    assert_eq!(choose_scaler(0, 1, SampleKind::Other, 64, 64), None);
    assert_eq!(choose_scaler(1, 0, SampleKind::Other, 64, 64), None);
    assert_eq!(choose_scaler(0, 0, SampleKind::Eight, 0, 0), Some(Scaler::Averaging));
    assert_eq!(choose_scaler(u32::MAX, 0, SampleKind::Sixteen, 1, 1), Some(Scaler::Averaging));
}

#[test]
fn no_scaler_is_chosen_for_a_box_beyond_memory() {
    assert_eq!(choose_scaler(10, 10, SampleKind::Eight, u32::MAX, u32::MAX), None);
    assert_eq!(choose_scaler(10, 10, SampleKind::Other, u32::MAX, u32::MAX), None);
    assert!(!box_fits_in_memory(u32::MAX, u32::MAX));
    assert!(box_fits_in_memory(0, 0));
    assert!(box_fits_in_memory(128, 128));
    assert!(box_fits_in_memory(4096, 4096));
}

#[test]
fn box_fits_as_the_address_space_allows() {
    let limit = usize::MAX as u128;
    for (width, height) in [(1u32, 1u32), (65536, 65536), (u32::MAX, 1), (1, u32::MAX), (0, u32::MAX)] {
        let expected = 32 * (width as u128) <= limit
            && 32 * (height as u128) <= limit
            && 32 * (width as u128) * (height as u128) <= limit;
        assert_eq!(box_fits_in_memory(width, height), expected);
    }
}

#[test]
fn images_are_decoded_by_their_content() {
    let source = shaded(12, 7);
    for format in [image::ImageFormat::Png, image::ImageFormat::Bmp, image::ImageFormat::Gif] {
        let decoded = decode_image(&encode(&source, format)).unwrap();
        assert_eq!((decoded.width(), decoded.height()), (12, 7));
    }
    let decoded = decode_image(&encode(&source, image::ImageFormat::Png)).unwrap();
    assert_eq!(decoded.as_bytes(), source.as_bytes());
}

#[test]
fn what_is_no_image_does_not_decode() {
    assert!(decode_image(b"").is_none());
    assert!(decode_image(b"plain text").is_none());
    let png = encode(&shaded(12, 7), image::ImageFormat::Png);
    assert!(decode_image(&png[..png.len() / 2]).is_none());
    assert!(decode_image(&png[1..]).is_none());
}

#[test]
fn decoding_agrees_with_the_guessing_loader() {
    let png = encode(&shaded(9, 9), image::ImageFormat::Png);
    let jpeg = encode(&shaded(9, 9), image::ImageFormat::Jpeg);
    for bytes in [&png[..], &jpeg[..], b"nothing", &png[..20]] {
        let ours = decode_image(bytes);
        let theirs = image::load_from_memory(bytes).ok();
        assert_eq!(ours.is_some(), theirs.is_some());
        if let (Some(ours), Some(theirs)) = (ours, theirs) {
            assert_eq!(ours.as_bytes(), theirs.as_bytes());
        }
    }
}

#[test]
fn small_images_are_averaged() {
    let source = shaded(200, 100);
    let scaled = fit(&source, 64, 64).unwrap();
    assert_eq!((scaled.width(), scaled.height()), (64, 32));
    assert_eq!(scaled.as_bytes(), source.thumbnail(64, 64).as_bytes());
}

#[test]
fn large_images_are_sampled() {
    let white = image::DynamicImage::ImageLuma8(image::ImageBuffer::from_pixel(
        4096,
        4096,
        image::Luma([u8::MAX]),
    ));
    let scaled = fit(&white, 2, 1).unwrap();
    assert_eq!((scaled.width(), scaled.height()), (1, 1));
    assert_eq!(scaled.as_bytes(), &[u8::MAX]);
    let deep = image::DynamicImage::ImageRgb16(image::ImageBuffer::from_pixel(
        300,
        300,
        image::Rgb([u16::MAX, 0, 7]),
    ));
    let scaled = fit(&deep, 30, 60).unwrap();
    assert_eq!((scaled.width(), scaled.height()), (30, 30));
    assert_eq!(scaled.as_rgb16().unwrap().get_pixel(29, 29).0, [u16::MAX, 0, 7]);
}

#[test]
fn scaled_sides_keep_the_shape() {
    let cases = [
        (200u32, 100u32, 64u32, 64u32, 64u32, 32u32),
        (100, 200, 64, 64, 32, 64),
        (100, 300, 128, 128, 43, 128),
        (3, 3, 7, 5, 5, 5),
        (1000, 1, 10, 10, 10, 1),
        (7, 5, 7, 5, 7, 5),
        (20, 10, 0, 0, 1, 1),
        (20, 10, 0, 64, 1, 1),
    ];
    for (width, height, box_width, box_height, new_width, new_height) in cases {
        let scaled = fit(&shaded(width, height), box_width, box_height).unwrap();
        assert_eq!((scaled.width(), scaled.height()), (new_width, new_height));
    }
    let deep = image::DynamicImage::ImageLuma16(image::ImageBuffer::new(300, 500));
    let scaled = fit(&deep, 30, 30).unwrap();
    assert_eq!((scaled.width(), scaled.height()), (18, 30));
}

#[test]
fn box_beyond_memory_is_not_scaled_to() {
    assert!(fit(&shaded(4, 4), u32::MAX, u32::MAX).is_none());
}
