use titan::render::image::{Color, Image};
use titan::render::png::{rgba_from_frame, ImageDecodeError, ImageDecodeLimits, PngBitDepth, PngColor, PngFrame};

fn encode(color: png::ColorType, depth: png::BitDepth, pixels: &[u8]) -> Vec<u8> {
    let mut bytes = Vec::new();
    {
        let mut encoder = png::Encoder::new(&mut bytes, 2, 1);
        encoder.set_color(color);
        encoder.set_depth(depth);
        let mut writer = encoder.write_header().unwrap();
        writer.write_image_data(pixels).unwrap();
    }
    bytes
}

#[test]
fn exact_rgba_and_common_color_formats() {
    let rgba = [255, 2, 3, 0, 4, 5, 6, 128];
    assert_eq!(
        Image::from_png(&encode(png::ColorType::Rgba, png::BitDepth::Eight, &rgba), ImageDecodeLimits::default())
            .unwrap(),
        Image::new(2, 1, rgba.to_vec()).unwrap()
    );
    for (color, depth, encoded, expected) in [
        (png::ColorType::Rgb, png::BitDepth::Eight, vec![1, 2, 3, 4, 5, 6], vec![1, 2, 3, 255, 4, 5, 6, 255]),
        (png::ColorType::Grayscale, png::BitDepth::Eight, vec![1, 2], vec![1, 1, 1, 255, 2, 2, 2, 255]),
        (png::ColorType::GrayscaleAlpha, png::BitDepth::Eight, vec![1, 2, 3, 4], vec![1, 1, 1, 2, 3, 3, 3, 4]),
        (png::ColorType::Grayscale, png::BitDepth::Sixteen, vec![1, 255, 2, 0], vec![1, 1, 1, 255, 2, 2, 2, 255]),
        (png::ColorType::Grayscale, png::BitDepth::One, vec![0b01000000], vec![0, 0, 0, 255, 255, 255, 255, 255]),
    ] {
        assert_eq!(
            Image::from_png(&encode(color, depth, &encoded), ImageDecodeLimits::default()).unwrap().pixels(),
            expected
        );
    }
}

#[test]
fn palette_transparency_and_apng_rejection() {
    let mut bytes = Vec::new();
    {
        let mut encoder = png::Encoder::new(&mut bytes, 2, 1);
        encoder.set_color(png::ColorType::Indexed);
        encoder.set_depth(png::BitDepth::Eight);
        encoder.set_palette(vec![1, 2, 3, 4, 5, 6]);
        encoder.set_trns(vec![0, 128]);
        encoder.write_header().unwrap().write_image_data(&[0, 1]).unwrap();
    }
    let image = Image::from_png(&bytes, ImageDecodeLimits::default()).unwrap();
    assert_eq!(image.pixel(0, 0), Some(Color::rgba(1, 2, 3, 0)));
    assert_eq!(image.pixel(1, 0), Some(Color::rgba(4, 5, 6, 128)));
    let mut animated = Vec::new();
    {
        let mut encoder = png::Encoder::new(&mut animated, 2, 1);
        encoder.set_animated(1, 0).unwrap();
        encoder.write_header().unwrap().write_image_data(&[0, 1]).unwrap();
    }
    assert!(matches!(
        Image::from_png(&animated, ImageDecodeLimits::default()),
        Err(ImageDecodeError::Animated)
    ));
}

#[test]
fn rejects_corruption_truncation_and_all_limit_boundaries() {
    let bytes = encode(png::ColorType::Rgba, png::BitDepth::Eight, &[0; 8]);
    for end in 0..bytes.len() {
        assert!(Image::from_png(&bytes[..end], ImageDecodeLimits::default()).is_err(), "accepted prefix {end}");
    }
    let mut corrupt = bytes.clone();
    corrupt[29] ^= 1; // IHDR CRC
    assert!(Image::from_png(&corrupt, ImageDecodeLimits::default()).is_err());
    let defaults = ImageDecodeLimits::default();
    for limits in [
        ImageDecodeLimits { max_encoded_bytes: bytes.len() - 1, ..defaults },
        ImageDecodeLimits { max_width: 1, ..defaults },
        ImageDecodeLimits { max_height: 0, ..defaults },
        ImageDecodeLimits { max_decoded_bytes: 7, ..defaults },
        ImageDecodeLimits { max_allocation_bytes: 15, ..defaults },
        ImageDecodeLimits { max_allocation_bytes: 16, ..defaults },
    ] {
        assert!(Image::from_png(&bytes, limits).is_err());
    }
    assert!(Image::from_png(
        &bytes,
        ImageDecodeLimits {
            max_encoded_bytes: bytes.len(),
            max_width: 2,
            max_height: 1,
            max_decoded_bytes: 8,
            ..defaults
        }
    )
    .is_ok());
    let mut huge = bytes.clone();
    huge[16..20].copy_from_slice(&u32::MAX.to_be_bytes());
    huge[20..24].copy_from_slice(&u32::MAX.to_be_bytes());
    assert!(matches!(Image::from_png(&huge, defaults), Err(ImageDecodeError::DimensionLimit { .. })));
    assert!(matches!(
        Image::from_png(
            &huge,
            ImageDecodeLimits { max_width: u32::MAX, max_height: u32::MAX, max_decoded_bytes: usize::MAX, ..defaults }
        ),
        Err(ImageDecodeError::DecodedLimit)
    ));
}

#[test]
fn preflight_reports_each_limit_with_its_values() {
    let bytes = encode(png::ColorType::Rgba, png::BitDepth::Eight, &[0; 8]);
    let defaults = ImageDecodeLimits::default();
    assert!(matches!(
        Image::from_png(&bytes, ImageDecodeLimits { max_encoded_bytes: 3, ..defaults }),
        Err(ImageDecodeError::EncodedLimit { actual, maximum: 3 }) if actual == bytes.len()
    ));
    assert!(matches!(
        Image::from_png(&bytes, ImageDecodeLimits { max_width: 1, ..defaults }),
        Err(ImageDecodeError::DimensionLimit { width: 2, height: 1 })
    ));
    assert!(matches!(
        Image::from_png(&bytes, ImageDecodeLimits { max_allocation_bytes: 15, ..defaults }),
        Err(ImageDecodeError::AllocationLimit)
    ));
    assert!(matches!(Image::from_png(&bytes[..20], defaults), Err(ImageDecodeError::InvalidHeader)));
    assert_eq!(defaults.max_width, 4096);
    assert_eq!(defaults.max_allocation_bytes, 160 * 1024 * 1024);
}

fn frame(color: PngColor, bit_depth: PngBitDepth, line_size: usize, height: u32) -> PngFrame {
    PngFrame { color, bit_depth, line_size, height }
}

#[test]
fn decoded_frames_are_checked_then_expanded() {
    let gray = frame(PngColor::Grayscale, PngBitDepth::Eight, 2, 1);
    assert_eq!(rgba_from_frame(gray, &[10, 20, 99], 8).unwrap(), vec![10, 10, 10, 255, 20, 20, 20, 255]);
    let pair = frame(PngColor::GrayscaleAlpha, PngBitDepth::Eight, 4, 1);
    assert_eq!(rgba_from_frame(pair, &[10, 1, 20, 2], 8).unwrap(), vec![10, 10, 10, 1, 20, 20, 20, 2]);
    assert!(matches!(
        rgba_from_frame(frame(PngColor::Rgb, PngBitDepth::Sixteen, 6, 1), &[0; 12], 8),
        Err(ImageDecodeError::UnsupportedColor)
    ));
    assert!(matches!(
        rgba_from_frame(frame(PngColor::Rgb, PngBitDepth::Eight, 6, 2), &[0; 6], 8),
        Err(ImageDecodeError::DecodedLimit)
    ));
    assert!(matches!(
        rgba_from_frame(frame(PngColor::Rgba, PngBitDepth::Eight, 4, 1), &[0; 8], 8),
        Err(ImageDecodeError::DecodedLimit)
    ));
    assert!(matches!(
        rgba_from_frame(frame(PngColor::Indexed, PngBitDepth::Eight, 2, 1), &[0; 2], 8),
        Err(ImageDecodeError::UnsupportedColor)
    ));
    assert!(matches!(
        rgba_from_frame(frame(PngColor::Grayscale, PngBitDepth::Eight, usize::MAX, 2), &[0; 2], 8),
        Err(ImageDecodeError::DecodedLimit)
    ));
}
