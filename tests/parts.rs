use seagul_core::bits::{get_bits, mask_of, pixels_per_byte, put_bits, required_pixel_visits};
use seagul_core::cursor::{first_pixel, next_pixel, start_pixel, visit_count};
use seagul_core::pixels::RgbImage;
use seagul_core::prelude::{Config, ImagePosition, Rgb, RgbChannel};

#[test]
fn bit_utilities() {
    assert_eq!(mask_of(0), 0);
    assert_eq!(mask_of(3), 0b111);
    assert_eq!(mask_of(8), 0xff);
    assert_eq!(get_bits(0b1011_0110, 3), 0b110);
    assert_eq!(get_bits(0xab, 8), 0xab);
    assert_eq!(put_bits(0b1111_0000, 0, 2, 0b01), 0b1111_0001);
    assert_eq!(put_bits(0b1111_1111, 2, 3, 0b010), 0b1110_1011);
    assert_eq!(put_bits(0, 4, 4, 0xff), 0xf0);
}

#[test]
fn pixels_per_byte_table() {
    let expected = [8usize, 4, 3, 2, 2, 2, 2, 1];
    for k in 1..=8 {
        assert_eq!(pixels_per_byte(k), expected[k - 1]);
    }
    assert_eq!(required_pixel_visits(5, 3), 15);
    assert_eq!(required_pixel_visits(4, 2), 16);
}

#[test]
fn cursor_steps() {
    let mut cfg = Config::default();
    cfg.offset = 2;
    cfg.step_by_n_pixels = 3;
    // 3 x 3 image: visits 2, 5, 8 in the first pass.
    assert_eq!(start_pixel(&cfg, 3, 3, 9), Some(2));
    assert_eq!(first_pixel(&cfg, 3, 3, 9), 2);
    assert_eq!(next_pixel(&cfg, 9, 2), 5);
    assert_eq!(next_pixel(&cfg, 9, 8), 0);
    assert_eq!(visit_count(&cfg, 3, 3, 9), 3);
    cfg.spread = true;
    assert_eq!(visit_count(&cfg, 3, 3, 9), 9);
    cfg.spread = false;
    cfg.position = ImagePosition::BottomRight;
    assert_eq!(start_pixel(&cfg, 3, 3, 9), Some(8));
    cfg.offset = 3;
    assert_eq!(start_pixel(&cfg, 3, 3, 9), None);
    assert_eq!(first_pixel(&cfg, 3, 3, 9), 0);
    assert_eq!(visit_count(&cfg, 3, 3, 9), 0);
}

#[test]
fn pixel_buffer() {
    assert!(RgbImage::from_raw(2, 2, vec![0; 11]).is_none());
    let mut img = RgbImage::from_raw(2, 1, vec![1, 2, 3, 4, 5, 6]).unwrap();
    assert_eq!(img.pixel_count(), 2);
    assert_eq!(img.pixel(1), Rgb(4, 5, 6));
    assert_eq!(img.channel(0, 2), 3);
    img.set_channel(1, 0, 9);
    assert_eq!(img.as_raw(), &vec![1, 2, 3, 9, 5, 6]);
}

#[test]
fn conversions() {
    assert_eq!(Rgb::from([1u8, 2, 3]), Rgb(1, 2, 3));
    assert_eq!(u8::from(RgbChannel::Red), 0);
    assert_eq!(u8::from(RgbChannel::Green), 1);
    assert_eq!(usize::from(RgbChannel::Blue), 2);
    assert_eq!(usize::from(&RgbChannel::Green), 1);
    assert_eq!(RgbChannel::Red.index(), 0);
    assert_eq!(RgbChannel::from("red"), RgbChannel::Red);
    assert_eq!(RgbChannel::from("r"), RgbChannel::Red);
    assert_eq!(RgbChannel::from("green"), RgbChannel::Green);
    assert_eq!(RgbChannel::from("g"), RgbChannel::Green);
    assert_eq!(RgbChannel::from("blue"), RgbChannel::Blue);
    assert_eq!(RgbChannel::from("b"), RgbChannel::Blue);
    assert_eq!(RgbChannel::from("Red"), RgbChannel::Blue);
    assert_eq!(RgbChannel::from("rouge"), RgbChannel::Blue);
    assert_eq!(RgbChannel::from("gré"), RgbChannel::Blue);
}
