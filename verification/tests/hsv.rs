use mobiumata::display::hsv::{hsv, hsv_at, BRIGHTNESS};
use mobiumata::display::rgb::Rgb;
use mobiumata::display::stream::Colors;
use mobiumata::display::ws2812::{pack, words};

#[test]
fn hues_at_the_brightness_of_the_panel() {
    assert_eq!(BRIGHTNESS, 16);
    // A value of 255 is scaled to 255 * 17 / 256 = 16.
    assert_eq!(hsv(0, 255, 255), Rgb { r: 16, g: 0, b: 0 });
    assert_eq!(hsv(170, 255, 255), Rgb { r: 0, g: 0, b: 16 });
    assert_eq!(hsv(15, 255, 255), Rgb { r: 16, g: 5, b: 0 });
    assert_eq!(hsv(85, 255, 255), Rgb { r: 0, g: 16, b: 0 });
}

#[test]
fn value_is_scaled_before_the_conversion() {
    assert_eq!(hsv(0, 255, 0), Rgb { r: 0, g: 0, b: 0 });
    // 15 * 17 / 256 is 0, 16 * 17 / 256 is 1.
    assert_eq!(hsv(0, 255, 15), Rgb { r: 0, g: 0, b: 0 });
    assert_eq!(hsv(0, 255, 16), Rgb { r: 1, g: 0, b: 0 });
    assert_eq!(hsv(0, 0, 255), Rgb { r: 16, g: 16, b: 16 });
}

#[test]
fn full_brightness_leaves_the_value_alone() {
    assert_eq!(hsv_at(0, 255, 255, 255), Rgb { r: 255, g: 0, b: 0 });
    assert_eq!(hsv_at(170, 255, 255, 255), Rgb { r: 0, g: 0, b: 255 });
    assert_eq!(hsv_at(0, 255, 200, 255), Rgb { r: 200, g: 0, b: 0 });
    assert_eq!(hsv_at(0, 255, 255, 0), Rgb { r: 0, g: 0, b: 0 });
    assert_eq!(hsv_at(0, 255, 255, 127), Rgb { r: 127, g: 0, b: 0 });
    assert_eq!(hsv_at(0, 255, 255, BRIGHTNESS), hsv(0, 255, 255));
}

#[test]
fn word_is_green_red_blue_and_a_zero_byte() {
    assert_eq!(pack(Rgb { r: 1, g: 2, b: 3 }), 0x0201_0300);
    assert_eq!(pack(Rgb { r: 0xff, g: 0, b: 0 }), 0x00ff_0000);
    assert_eq!(pack(Rgb { r: 0, g: 0xff, b: 0 }), 0xff00_0000);
    assert_eq!(pack(Rgb { r: 0, g: 0, b: 0xff }), 0x0000_ff00);
    assert_eq!(pack(Rgb { r: 0xff, g: 0xff, b: 0xff }), 0xffff_ff00);
    assert_eq!(pack(Rgb { r: 0, g: 0, b: 0 }), 0);
}

#[test]
fn transfer_is_padded_with_zero_words() {
    let colors = [Rgb { r: 1, g: 2, b: 3 }, Rgb { r: 4, g: 5, b: 6 }];
    let packed: [u32; 4] = words(Colors::new(&colors));
    assert_eq!(packed, [0x0201_0300, 0x0504_0600, 0, 0]);
    let exact: [u32; 2] = words(Colors::new(&colors));
    assert_eq!(exact, [0x0201_0300, 0x0504_0600]);
    let none: [u32; 3] = words(Colors::new(&[]));
    assert_eq!(none, [0, 0, 0]);
}
