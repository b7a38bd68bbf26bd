use seagul_core::encoder::{bytes_needed_for_data, ByteEncodeMap, ColorChange, ImageEncoder};
use seagul_core::pixels::RgbImage;
use seagul_core::prelude::{ImageFormat, ImagePosition, ImageRules, Rgb, RgbChannel, StegError};

const VERSES: &[u8] = b"
                Midway upon the journey of our life
                I found myself within a forest dark,
                For the straightforward pathway had been lost.
                Ah me! how hard a thing it is to say
                What was this forest savage, rough, and stern,
                Which in the very thought renews the fear.
                So bitter is it, death is little more;
                But of the good to treat, which there I found,
                Speak will I of the other things I saw there.
                I cannot well repeat how there I entered,
                So full was I of slumber at the moment
                In which I had abandoned the true way.";

fn gradient(width: u32, height: u32) -> RgbImage {
    let mut data = Vec::new();
    for i in 0..(width * height) {
        data.push((i % 251) as u8);
        data.push((i * 7 % 253) as u8);
        data.push((i * 13 % 255) as u8);
    }
    RgbImage::from_raw(width, height, data).unwrap()
}

#[test]
fn target_byte_size_calc() {
    let mut encoder = ImageEncoder::default();
    assert_eq!(bytes_needed_for_data(&[8, 1, 2, 3], &encoder), 32);
    encoder.set_use_n_lsb(2);
    assert_eq!(bytes_needed_for_data(&[8, 1, 2, 3], &encoder), 16);
    encoder.set_step_by_n_pixels(2);
    assert_eq!(bytes_needed_for_data(&[8, 1, 2, 3], &encoder), 32);
}

#[test]
fn simple_encoding() {
    let encode_result = ImageEncoder::from_pixels(gradient(120, 80))
        .set_use_n_lsb(2)
        .set_use_channel(RgbChannel::Blue)
        .encode_bytes(VERSES);

    assert!(encode_result.is_ok(), "Encoding failed");

    let file = encode_result.unwrap().to_bytes(ImageFormat::Jpeg).expect("Could not create output file");
    assert_eq!(&file[1..4], b"PNG");
}

#[test]
fn four_by_four_letter_a() {
    let encoded = ImageEncoder::from_pixels(RgbImage::new(4, 4))
        .set_use_n_lsb(1)
        .set_use_channel(RgbChannel::Blue)
        .set_offset(0)
        .set_step_by_n_pixels(1)
        .encode_bytes(&[0x41])
        .unwrap();
    let altered = encoded.altered_image().as_raw().clone();
    let expected_blue = [1u8, 0, 0, 0, 0, 0, 1, 0];
    for p in 0..16 {
        assert_eq!(altered[3 * p], 0);
        assert_eq!(altered[3 * p + 1], 0);
        let blue = if p < 8 { expected_blue[p] } else { 0 };
        assert_eq!(altered[3 * p + 2], blue, "pixel {}", p);
    }
    assert_eq!(encoded.pixels_changed(), 8);
    assert_eq!(encoded.changes().len(), 1);
    assert_eq!(encoded.changes()[0].encoded_byte, 0x41);
}

#[test]
fn change_records_name_each_pixel() {
    let encoded = ImageEncoder::from_pixels(RgbImage::new(3, 4))
        .set_use_n_lsb(4)
        .set_step_by_n_pixels(2)
        .encode_bytes(&[0xa5, 0x0f])
        .unwrap();
    let maps = encoded.changes();
    assert_eq!(maps.len(), 2);
    assert_eq!(maps[0].len(), 2);
    assert_eq!(maps[1].len(), 2);
    // visits at pixels 0, 2, 4, 6: (x, y) = (0,0), (2,0), (1,1), (0,2)
    assert_eq!(maps[0].affected_points[0], ColorChange(0, 0, Rgb(0, 0, 0), Rgb(0, 0, 5)));
    assert_eq!(maps[0].affected_points[1], ColorChange(2, 0, Rgb(0, 0, 0), Rgb(0, 0, 10)));
    assert_eq!(maps[1].affected_points[0], ColorChange(1, 1, Rgb(0, 0, 0), Rgb(0, 0, 15)));
    assert_eq!(maps[1].affected_points[1], ColorChange(0, 2, Rgb(0, 0, 0), Rgb(0, 0, 0)));
    assert_eq!(encoded.pixels_changed(), 4);
}

#[test]
fn other_channels_untouched() {
    let source = gradient(20, 10);
    let original = source.as_raw().clone();
    let encoded = ImageEncoder::from_pixels(source)
        .set_use_n_lsb(3)
        .set_use_channel(RgbChannel::Green)
        .encode_bytes(b"isolation")
        .unwrap();
    let altered = encoded.altered_image().as_raw();
    assert_ne!(altered, &original);
    for p in 0..200 {
        assert_eq!(altered[3 * p], original[3 * p]);
        assert_eq!(altered[3 * p + 2], original[3 * p + 2]);
    }
    assert_eq!(encoded.original_image().as_raw(), &original);
}

#[test]
fn high_bits_kept() {
    let source = gradient(16, 16);
    let original = source.as_raw().clone();
    for k in 1..=8usize {
        let encoded = ImageEncoder::from_pixels(source.duplicate())
            .set_use_n_lsb(k)
            .encode_bytes(b"top bits stay")
            .unwrap();
        let altered = encoded.altered_image().as_raw();
        let keep: u8 = if k == 8 { 0 } else { 0xffu8 << k };
        for p in 0..256 {
            assert_eq!(altered[3 * p + 2] & keep, original[3 * p + 2] & keep);
        }
    }
}

#[test]
fn capacity_exact_fit_and_one_more() {
    // 16 pixels, 8 bits per pixel: one pixel per byte.
    let exact = ImageEncoder::from_pixels(RgbImage::new(4, 4)).set_use_n_lsb(8).encode_bytes(&[7u8; 16]);
    assert!(exact.is_ok());
    let over = ImageEncoder::from_pixels(RgbImage::new(4, 4)).set_use_n_lsb(8).encode_bytes(&[7u8; 17]);
    assert_eq!(over.err(), Some(StegError::CapacityExceeded));
}

#[test]
fn capacity_one_more_with_spread() {
    // Offset 4 leaves 12 visits in the first pass.
    let fits = ImageEncoder::from_pixels(RgbImage::new(4, 4)).set_use_n_lsb(8).set_offset(4).encode_bytes(&[1u8; 12]);
    assert!(fits.is_ok());
    let over = ImageEncoder::from_pixels(RgbImage::new(4, 4)).set_use_n_lsb(8).set_offset(4).encode_bytes(&[1u8; 13]);
    assert_eq!(over.err(), Some(StegError::CapacityExceeded));
    let spread = ImageEncoder::from_pixels(RgbImage::new(4, 4))
        .set_use_n_lsb(8)
        .set_offset(4)
        .set_spread(true)
        .encode_bytes(&[1u8; 13])
        .unwrap();
    // The thirteenth byte wraps around to pixel 0.
    assert_eq!(spread.altered_image().as_raw()[2], 1);
    let too_many = ImageEncoder::from_pixels(RgbImage::new(4, 4)).set_use_n_lsb(8).set_spread(true).encode_bytes(&[1u8; 17]);
    assert_eq!(too_many.err(), Some(StegError::CapacityExceeded));
}

#[test]
fn capacity_error_leaves_nothing() {
    let result = ImageEncoder::from_pixels(RgbImage::new(2, 2)).encode_bytes(b"too long");
    assert!(matches!(result, Err(StegError::CapacityExceeded)));
}

#[test]
fn empty_payload() {
    let encoded = ImageEncoder::from_pixels(gradient(2, 2)).encode_bytes(&[]).unwrap();
    assert_eq!(encoded.pixels_changed(), 0);
    assert_eq!(encoded.altered_image().as_raw(), encoded.original_image().as_raw());
}

#[test]
fn start_positions() {
    // 4 wide, 3 high: TopRight starts at 4, BottomLeft at 3, BottomRight at 7,
    // Center at 3, At(2, 5) at 10.
    let cases = [
        (ImagePosition::TopLeft, 0usize),
        (ImagePosition::TopRight, 4),
        (ImagePosition::BottomLeft, 3),
        (ImagePosition::BottomRight, 7),
        (ImagePosition::Center, 3),
        (ImagePosition::At(2, 5), 10),
    ];
    for (position, start) in cases {
        let encoded = ImageEncoder::from_pixels(RgbImage::new(4, 3))
            .set_use_n_lsb(8)
            .set_position(position)
            .encode_bytes(&[9])
            .unwrap();
        let raw = encoded.altered_image().as_raw();
        for p in 0..12 {
            assert_eq!(raw[3 * p + 2], if p == start { 9 } else { 0 }, "{:?} pixel {}", position, p);
        }
    }
}

#[test]
fn position_past_the_end_fits_nothing() {
    let result = ImageEncoder::from_pixels(RgbImage::new(4, 3)).set_position(ImagePosition::At(5, 5)).encode_bytes(&[1]);
    assert_eq!(result.err(), Some(StegError::CapacityExceeded));
}

#[test]
fn uneven_bit_counts() {
    // Three bits per pixel: chunks of 3, 3 and 2 bits.
    let encoded = ImageEncoder::from_pixels(RgbImage::new(3, 1)).set_use_n_lsb(3).encode_bytes(&[0b1101_0110]).unwrap();
    let raw = encoded.altered_image().as_raw();
    assert_eq!(raw[2], 0b110);
    assert_eq!(raw[5], 0b010);
    assert_eq!(raw[8], 0b11);
}

#[test]
fn encode_string_uses_utf8_bytes() {
    let a = ImageEncoder::from_pixels(RgbImage::new(8, 8)).encode_string(String::from("hé")).unwrap();
    let b = ImageEncoder::from_pixels(RgbImage::new(8, 8)).encode_bytes("hé".as_bytes()).unwrap();
    assert_eq!(a.altered_image().as_raw(), b.altered_image().as_raw());
    assert_eq!(a.changes().len(), 3);
}

#[test]
fn default_encoder_settings() {
    let encoder = ImageEncoder::default();
    assert_eq!(encoder.get_use_n_lsb(), 1);
    assert_eq!(encoder.get_offset(), 0);
    assert_eq!(encoder.get_step_by_n_pixels(), 1);
    assert_eq!(*encoder.get_use_channel(), RgbChannel::Blue);
    assert!(!encoder.get_spread());
    assert_eq!(*encoder.get_position(), ImagePosition::TopLeft);
    assert_eq!(encoder.source_image().width(), 16);
    assert_eq!(encoder.source_image().height(), 16);
}

#[test]
fn step_below_one_clamps() {
    let mut encoder = ImageEncoder::default();
    encoder.set_step_by_n_pixels(0);
    assert_eq!(encoder.get_step_by_n_pixels(), 1);
    encoder.set_step_by_n_pixels(5);
    assert_eq!(encoder.get_step_by_n_pixels(), 5);
}

#[test]
fn byte_encode_map_new() {
    let m = ByteEncodeMap::new();
    assert_eq!(m.encoded_byte, 0);
    assert_eq!(m.len(), 0);
}

#[test]
fn png_and_bmp_files() {
    let encoded = ImageEncoder::from_pixels(gradient(5, 3)).encode_bytes(b"x").unwrap();
    let png = encoded.to_bytes(ImageFormat::Png).unwrap();
    assert_eq!(&png[0..8], &[0x89, b'P', b'N', b'G', 0x0d, 0x0a, 0x1a, 0x0a]);
    let bmp = encoded.to_bytes(ImageFormat::Bmp).unwrap();
    assert_eq!(&bmp[0..2], b"BM");
    // 54 header bytes, then 3 rows of 15 bytes padded to 16.
    assert_eq!(bmp.len(), 54 + 3 * 16);
}

#[test]
fn write_failure_on_empty_png() {
    let encoded = ImageEncoder::from_pixels(RgbImage::new(0, 4)).encode_bytes(&[]).unwrap();
    assert_eq!(encoded.to_bytes(ImageFormat::Png).err(), Some(StegError::WriteFailed));
}

#[test]
fn invalid_image_bytes() {
    assert_eq!(ImageEncoder::from_bytes(b"not an image").err(), Some(StegError::InvalidImage));
}

#[test]
fn jpeg_request_writes_png() {
    let encoded = ImageEncoder::from_pixels(gradient(6, 4)).encode_bytes(b"j").unwrap();
    assert_eq!(encoded.to_bytes(ImageFormat::Jpeg).unwrap(), encoded.to_bytes(ImageFormat::Png).unwrap());
}

#[test]
fn loaded_source_is_the_file_image() {
    let encoded = ImageEncoder::from_pixels(gradient(7, 5)).encode_bytes(b"q").unwrap();
    for format in [ImageFormat::Png, ImageFormat::Bmp] {
        let file = encoded.to_bytes(format).unwrap();
        let loaded = ImageEncoder::from_bytes(&file).unwrap();
        assert_eq!(loaded.source_image().width(), 7);
        assert_eq!(loaded.source_image().height(), 5);
        assert_eq!(loaded.source_image().as_raw(), encoded.altered_image().as_raw());
    }
}

#[test]
fn png_needs_rows_and_bmp_takes_empty() {
    let encoded = ImageEncoder::from_pixels(RgbImage::new(4, 0)).encode_bytes(&[]).unwrap();
    assert_eq!(encoded.to_bytes(ImageFormat::Jpeg).err(), Some(StegError::WriteFailed));
    assert!(encoded.to_bytes(ImageFormat::Bmp).is_ok());
}
