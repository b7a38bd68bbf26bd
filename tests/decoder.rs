use seagul_core::decoder::{ImageDecoder, MarkerWindow};
use seagul_core::encoder::ImageEncoder;
use seagul_core::pixels::RgbImage;
use seagul_core::prelude::{ImageFormat, ImagePosition, ImageRules, RgbChannel, StegError};

const VERSES: &[u8] = b"Midway upon the journey of our life
I found myself within a forest dark,
For the straightforward pathway had been lost.
Ah me! how hard a thing it is to say
What was this forest savage, rough, and stern,
Which in the very thought renews the fear.
So bitter is it, death is little more;
But of the good to treat, which there I found,
Speak will I of the other things I saw there.
I cannot well repeat how there I entered,
So full was I of slumber at the moment
In which I had abandoned the true way.--";

fn gradient(width: u32, height: u32) -> RgbImage {
    let mut data = Vec::new();
    for i in 0..(width * height) {
        data.push((i % 251) as u8);
        data.push((i * 7 % 253) as u8);
        data.push((i * 13 % 255) as u8);
    }
    RgbImage::from_raw(width, height, data).unwrap()
}

#[test]
fn encode_bytes() {
    let encode_result = ImageEncoder::from_pixels(gradient(120, 80)).set_offset(0).set_use_n_lsb(2).encode_bytes(VERSES);
    if let Err(e) = encode_result {
        panic!("{:?}", e);
    }
    let file = encode_result.unwrap().to_bytes(ImageFormat::Png).expect("Could not create output file");

    let decoded = ImageDecoder::from_bytes(&file)
        .expect("Failed to open created image")
        .set_offset(0)
        .set_use_n_lsb(2)
        .until_marker(Some(b"--"))
        .decode();
    assert!(decoded.is_ok());
    let decoded = decoded.unwrap();
    println!("Raw decoded:\n{}", decoded.as_raw());
    assert_eq!(decoded.hit_marker(), true);
    assert_eq!(decoded.embedded_data().as_slice(), VERSES);
}

#[test]
fn encode_bytes_spread() {
    let encode_result = ImageEncoder::from_pixels(gradient(120, 80))
        .set_offset(0)
        .set_spread(true)
        .set_use_n_lsb(2)
        .encode_bytes(VERSES);
    if let Err(e) = encode_result {
        panic!("{:?}", e);
    }
    let file = encode_result.unwrap().to_bytes(ImageFormat::Png).expect("Could not create output file");

    let decoded = ImageDecoder::from_bytes(&file).expect("Failed to open created image").set_offset(0).set_use_n_lsb(2).decode();
    assert!(decoded.is_ok());
    let decoded = decoded.unwrap();
    println!("Raw decoded:\n{}", decoded.as_raw());
    assert_eq!(decoded.hit_marker(), false);
    assert!(decoded.embedded_data().starts_with(VERSES));
}

#[test]
fn four_by_four_reads_letter_a() {
    let encoded = ImageEncoder::from_pixels(RgbImage::new(4, 4)).encode_bytes(&[0x41]).unwrap();
    let decoded = ImageDecoder::from_pixels(encoded.altered_image().duplicate()).decode().unwrap();
    assert_eq!(decoded.embedded_data()[0], 0x41);
    assert_eq!(decoded.embedded_data().as_slice(), &[0x41, 0x00]);
    assert!(!decoded.hit_marker());
}

#[test]
fn round_trip_with_marker() {
    let payload = b"hidden payload";
    let marker = b"#END#";
    let mut message = payload.to_vec();
    message.extend_from_slice(marker);
    for k in 1..=8usize {
        let encoded = ImageEncoder::from_pixels(gradient(30, 20))
            .set_use_n_lsb(k)
            .set_use_channel(RgbChannel::Red)
            .set_step_by_n_pixels(3)
            .set_position(ImagePosition::Center)
            .encode_bytes(&message)
            .unwrap();
        let decoded = ImageDecoder::from_pixels(encoded.altered_image().duplicate())
            .set_use_n_lsb(k)
            .set_use_channel(RgbChannel::Red)
            .set_step_by_n_pixels(3)
            .set_position(ImagePosition::Center)
            .until_marker(Some(marker))
            .decode()
            .unwrap();
        assert!(decoded.hit_marker());
        assert_eq!(decoded.embedded_data(), &message);
    }
}

#[test]
fn marker_stops_at_first_occurrence() {
    let encoded = ImageEncoder::from_pixels(RgbImage::new(16, 16)).encode_bytes(b"ab--cd--").unwrap();
    let decoded = ImageDecoder::from_pixels(encoded.altered_image().duplicate()).until_marker(Some(b"--")).decode().unwrap();
    assert!(decoded.hit_marker());
    assert_eq!(decoded.embedded_data().as_slice(), b"ab--");
}

#[test]
fn no_marker_reads_everything() {
    // 16 pixels, 2 bits each: 32 bits, 4 bytes.
    let decoded = ImageDecoder::from_pixels(gradient(4, 4)).set_use_n_lsb(2).decode().unwrap();
    assert_eq!(decoded.embedded_data().len(), 4);
    assert!(!decoded.hit_marker());
    // 3 bits each: three pixels per byte, 5 whole bytes.
    let decoded = ImageDecoder::from_pixels(gradient(4, 4)).set_use_n_lsb(3).decode().unwrap();
    assert_eq!(decoded.embedded_data().len(), 5);
    // With a step of 2: offsets 6 and 7 leave 5 visits, 9 leaves 4 (one byte
    // at 2 bits each), 10 leaves 3 (no whole byte).
    let decoded = ImageDecoder::from_pixels(gradient(4, 4)).set_use_n_lsb(2).set_offset(6).set_step_by_n_pixels(2).decode().unwrap();
    assert_eq!(decoded.embedded_data().len(), 1);
    let decoded = ImageDecoder::from_pixels(gradient(4, 4)).set_use_n_lsb(2).set_offset(7).set_step_by_n_pixels(2).decode().unwrap();
    assert_eq!(decoded.embedded_data().len(), 1);
    let decoded = ImageDecoder::from_pixels(gradient(4, 4)).set_use_n_lsb(2).set_offset(9).set_step_by_n_pixels(2).decode().unwrap();
    assert_eq!(decoded.embedded_data().len(), 1);
    let decoded = ImageDecoder::from_pixels(gradient(4, 4)).set_use_n_lsb(2).set_offset(10).set_step_by_n_pixels(2).decode().unwrap();
    assert_eq!(decoded.embedded_data().len(), 0);
}

#[test]
fn absent_marker_runs_to_the_end() {
    let decoded = ImageDecoder::from_pixels(RgbImage::new(8, 8)).until_marker(Some(b"zz")).decode().unwrap();
    assert!(!decoded.hit_marker());
    assert_eq!(decoded.embedded_data(), &vec![0u8; 8]);
}

#[test]
fn empty_marker_never_stops() {
    let decoded = ImageDecoder::from_pixels(RgbImage::new(8, 8)).until_marker(Some(b"")).decode().unwrap();
    assert!(!decoded.hit_marker());
    assert_eq!(decoded.embedded_data().len(), 8);
}

#[test]
fn spread_decoding_wraps() {
    // Offset 8 on 16 pixels at 8 bits: 8 visits without spread, 16 with.
    let plain = ImageDecoder::from_pixels(gradient(4, 4)).set_use_n_lsb(8).set_offset(8).decode().unwrap();
    assert_eq!(plain.embedded_data().len(), 8);
    let spread = ImageDecoder::from_pixels(gradient(4, 4)).set_use_n_lsb(8).set_offset(8).set_spread(true).decode().unwrap();
    assert_eq!(spread.embedded_data().len(), 16);
    // Blue channel of pixel 8, then of pixel 0 after the wrap.
    assert_eq!(spread.embedded_data()[0], (8 * 13 % 255) as u8);
    assert_eq!(spread.embedded_data()[8], 0);
}

#[test]
fn text_views() {
    let encoded = ImageEncoder::from_pixels(RgbImage::new(8, 8)).set_use_n_lsb(8).encode_bytes(&[b'o', b'k', 0xff]).unwrap();
    let decoded = ImageDecoder::from_pixels(encoded.altered_image().duplicate()).set_use_n_lsb(8).until_marker(Some(&[0xff])).decode().unwrap();
    assert_eq!(decoded.as_raw(), "ok\u{fffd}");
    assert_eq!(decoded.as_string(), Err(StegError::InvalidUtf8));
    let decoded = ImageDecoder::from_pixels(encoded.altered_image().duplicate()).set_use_n_lsb(8).until_marker(Some(b"k")).decode().unwrap();
    assert_eq!(decoded.as_string(), Ok(String::from("ok")));
    assert_eq!(decoded.as_raw(), "ok");
}

#[test]
fn write_copies_bytes() {
    let decoded = ImageDecoder::from_pixels(gradient(4, 4)).set_use_n_lsb(8).set_offset(14).decode().unwrap();
    let mut sink: Vec<u8> = Vec::new();
    decoded.write(&mut sink).unwrap();
    assert_eq!(&sink, decoded.embedded_data());
    let _ = decoded.decode_time();
}

#[test]
fn decoder_defaults() {
    let decoder = ImageDecoder::new();
    assert_eq!(decoder.get_use_n_lsb(), 1);
    assert_eq!(*decoder.get_use_channel(), RgbChannel::Blue);
    assert_eq!(decoder.decode().unwrap().embedded_data().len(), 32);
}

#[test]
fn decoder_rejects_garbage() {
    assert_eq!(ImageDecoder::from_bytes(&[1, 2, 3]).err(), Some(StegError::InvalidImage));
}

#[test]
fn marker_window_slides() {
    let marker = [1u8, 2, 3];
    let mut window = MarkerWindow::new(&marker);
    assert!(!window.push(1));
    assert!(!window.push(2));
    assert!(!window.push(1));
    assert!(!window.push(2));
    assert!(window.push(3));
    let mut none = MarkerWindow::new(&[]);
    assert!(!none.push(0));
}

#[test]
fn round_trip_reader_with_spread() {
    let message = b"payload+END";
    let encoded = ImageEncoder::from_pixels(gradient(10, 10))
        .set_use_n_lsb(2)
        .set_offset(30)
        .encode_bytes(message)
        .unwrap();
    let decoded = ImageDecoder::from_pixels(encoded.altered_image().duplicate())
        .set_use_n_lsb(2)
        .set_offset(30)
        .set_spread(true)
        .until_marker(Some(b"END"))
        .decode()
        .unwrap();
    assert!(decoded.hit_marker());
    assert_eq!(decoded.embedded_data().as_slice(), message);
}
