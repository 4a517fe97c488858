use mobiumata::display::compressor::{Compressor, Ratio};
use mobiumata::display::rgb::Rgb;
use mobiumata::display::stream::{ColorStream, Colors};
use mobiumata::display::Display;

fn total(colors: &[Rgb]) -> usize {
    colors
        .iter()
        .map(|c| c.r as usize + c.g as usize + c.b as usize)
        .sum()
}

#[test]
fn frame_within_budget_passes_unchanged() {
    let colors = vec![
        Rgb { r: 10, g: 20, b: 30 },
        Rgb { r: 0, g: 0, b: 0 },
        Rgb { r: 255, g: 1, b: 4 },
    ];
    let dimmed = Compressor::new(1000).compress(&colors);
    assert_eq!(dimmed, colors);
}

#[test]
fn frame_at_the_budget_passes_unchanged() {
    let colors = vec![Rgb { r: 10, g: 20, b: 30 }, Rgb { r: 255, g: 1, b: 4 }];
    assert_eq!(total(&colors), 320);
    let dimmed = Compressor::new(320).compress(&colors);
    assert_eq!(dimmed, colors);
}

#[test]
fn frame_over_budget_is_divided_by_the_ratio() {
    let colors = vec![Rgb { r: 100, g: 100, b: 100 }, Rgb { r: 50, g: 50, b: 50 }];
    let dimmed = Compressor::new(225).compress(&colors);
    assert_eq!(
        dimmed,
        vec![Rgb { r: 50, g: 50, b: 50 }, Rgb { r: 25, g: 25, b: 25 }]
    );
}

#[test]
fn division_rounds_towards_zero() {
    // The frame draws 120 under a budget of 50: 10 becomes 4.17, 20 becomes
    // 8.33 and 30 becomes 12.5, each cut off.
    let colors = vec![Rgb { r: 10, g: 20, b: 30 }, Rgb { r: 30, g: 20, b: 10 }];
    let dimmed = Compressor::new(50).compress(&colors);
    assert_eq!(
        dimmed,
        vec![Rgb { r: 4, g: 8, b: 12 }, Rgb { r: 12, g: 8, b: 4 }]
    );
    assert!(total(&dimmed) <= 50);
}

#[test]
fn compressed_frame_stays_within_budget() {
    let mut colors = Vec::new();
    for i in 0..200u32 {
        colors.push(Rgb {
            r: (i * 37 % 256) as u8,
            g: (i * 91 % 256) as u8,
            b: (i * 13 % 256) as u8,
        });
    }
    for budget in [1usize, 2, 3, 100, 765, 5000, 76_499, 76_500, 1_000_000] {
        let dimmed = Compressor::new(budget).compress(&colors);
        assert_eq!(dimmed.len(), colors.len());
        assert!(total(&dimmed) <= budget);
        if total(&colors) <= budget {
            assert_eq!(dimmed, colors);
        }
        for (before, after) in colors.iter().zip(dimmed.iter()) {
            assert!(after.r <= before.r && after.g <= before.g && after.b <= before.b);
        }
    }
}

#[test]
fn all_black_frame_stays_black() {
    let colors = vec![Rgb { r: 0, g: 0, b: 0 }; 4];
    let compressor = Compressor::new(10);
    let inner = compressor.calculate(Colors::new(&colors));
    assert_eq!(inner.sum, 0);
    assert_eq!(compressor.compress(&colors), colors);
}

#[test]
fn empty_frame_stays_empty() {
    let colors: Vec<Rgb> = Vec::new();
    let compressor = Compressor::new(10);
    assert_eq!(compressor.calculate(Colors::new(&colors)).sum, 0);
    assert_eq!(compressor.compress(&colors), colors);
}

#[test]
fn calculate_sums_every_channel() {
    let colors = vec![Rgb { r: 1, g: 2, b: 3 }, Rgb { r: 255, g: 255, b: 255 }];
    let inner = Compressor::new(100).calculate(Colors::new(&colors));
    assert_eq!(inner.sum, 771);
    // 771 / 100: a channel of 200 becomes 25.94, cut off to 25.
    assert_eq!(inner.ratio.divide(200), 25);
    let inner = Compressor::new(1000).calculate(Colors::new(&colors));
    assert_eq!(inner.sum, 771);
    assert_eq!(inner.ratio.divide(200), 200);
}

#[test]
fn second_pass_divides_any_stream_by_the_ratio_of_the_first() {
    let frame = vec![Rgb { r: 90, g: 60, b: 30 }, Rgb { r: 9, g: 6, b: 3 }];
    let inner = Compressor::new(66).calculate(Colors::new(&frame));
    assert_eq!(inner.sum, 198);
    let other = vec![Rgb { r: 3, g: 4, b: 5 }, Rgb { r: 255, g: 0, b: 31 }];
    let mut stream = inner.compress(Colors::new(&other));
    assert_eq!(stream.next(), Some(Rgb { r: 1, g: 1, b: 1 }));
    assert_eq!(stream.next(), Some(Rgb { r: 85, g: 0, b: 10 }));
    assert_eq!(stream.next(), None);
    assert_eq!(stream.next(), None);
}

#[test]
fn second_pass_runs_over_a_range_of_the_surface() {
    let mut display: Display<Rgb> = Display::new();
    display.set_pixel(7, 0, Rgb { r: 200, g: 100, b: 0 });
    display.set_pixel(6, 0, Rgb { r: 0, g: 100, b: 200 });
    let inner = Compressor::new(150).calculate(display.data(0..8));
    assert_eq!(inner.sum, 600);
    let mut stream = inner.compress(display.data(0..3));
    assert_eq!(stream.next_color(), Some(Rgb { r: 50, g: 25, b: 0 }));
    assert_eq!(stream.next_color(), Some(Rgb { r: 0, g: 25, b: 50 }));
    assert_eq!(stream.next_color(), Some(Rgb { r: 0, g: 0, b: 0 }));
    assert_eq!(stream.next_color(), None);
}

#[test]
fn ratio_divides_and_rounds_down() {
    let third = Ratio::new(3, 1);
    assert_eq!(third.divide(0), 0);
    assert_eq!(third.divide(2), 0);
    assert_eq!(third.divide(3), 1);
    assert_eq!(third.divide(255), 85);
    let one = Ratio::new(7, 7);
    assert_eq!(one.divide(255), 255);
    let odd = Ratio::new(10, 3);
    // 10 * 3 / 10 is exactly 3.
    assert_eq!(odd.divide(10), 3);
    assert_eq!(odd.dim(Rgb { r: 10, g: 11, b: 255 }), Rgb { r: 3, g: 3, b: 76 });
    let huge = Ratio::new(usize::MAX, usize::MAX / 2);
    assert_eq!(huge.divide(255), 127);
}

#[test]
fn dimming_keeps_proportions_up_to_rounding() {
    let ratio = Ratio::new(1234, 567);
    for c1 in 0..=255u8 {
        for c2 in [0u8, 1, 2, 17, 100, 254, 255] {
            let a = ratio.divide(c1) as i64;
            let b = ratio.divide(c2) as i64;
            let cross = a * c2 as i64 - b * c1 as i64;
            assert!(-(c2 as i64) <= cross && cross <= c1 as i64);
        }
    }
}

#[test]
fn colors_stream_hands_out_the_slice_in_order() {
    let colors = [Rgb { r: 1, g: 0, b: 0 }, Rgb { r: 2, g: 0, b: 0 }];
    let mut stream = Colors::new(&colors);
    assert_eq!(stream.next_color(), Some(Rgb { r: 1, g: 0, b: 0 }));
    assert_eq!(stream.next_color(), Some(Rgb { r: 2, g: 0, b: 0 }));
    assert_eq!(stream.next_color(), None);
    assert_eq!(stream.next_color(), None);
}
