use mobiumata::automaton::{Rule, Wrap};
use mobiumata::display::rgb::Rgb;
use mobiumata::display::{HEIGHT, LANE_LEDS, WIDTH};
use mobiumata::render::{Renderer, Trail, DEAD_HUE, LIVE_HUE};
use mobiumata::state::{State, Step};

const NO_TRAIL: Trail = Trail { rows: 0, head: 0 };
const DEAD: Rgb = Rgb { r: 16, g: 5, b: 0 };
const LIVE: Rgb = Rgb { r: 0, g: 0, b: 16 };

fn drain(renderer: &Renderer) -> Vec<Rgb> {
    let (mut first, mut second) = renderer.lanes();
    let mut strip = Vec::new();
    while let Some(color) = first.next() {
        strip.push(color);
    }
    assert_eq!(strip.len(), LANE_LEDS);
    while let Some(color) = second.next() {
        strip.push(color);
    }
    assert_eq!(strip.len(), 2 * LANE_LEDS);
    strip
}

fn place(x: usize, y: usize) -> usize {
    if y % 2 == 1 {
        x + WIDTH * y
    } else {
        (WIDTH - 1 - x) + WIDTH * y
    }
}

fn seeded() -> [[bool; WIDTH]; HEIGHT] {
    let mut universe = [[false; WIDTH]; HEIGHT];
    universe[HEIGHT - 1] = [false, false, false, false, true, false, false, false];
    universe
}

#[test]
fn hues_of_the_two_cell_states() {
    assert_eq!(LIVE_HUE, 170);
    assert_eq!(DEAD_HUE, 15);
}

#[test]
fn new_renderer_shows_nothing_yet() {
    let renderer = Renderer::new(seeded(), 1_000_000, NO_TRAIL);
    assert_eq!(renderer.current_state(), State::default());
    let strip = drain(&renderer);
    assert!(strip.iter().all(|&c| c == Rgb { r: 0, g: 0, b: 0 }));
}

#[test]
fn first_frame_advances_the_first_row_from_the_last() {
    let mut renderer = Renderer::new(seeded(), 1_000_000, NO_TRAIL);
    renderer.frame(None);
    assert_eq!(renderer.current_state(), State::default());
    let strip = drain(&renderer);
    for y in 0..HEIGHT {
        for x in 0..WIDTH {
            let alive = (y == 0 && (3..=5).contains(&x)) || (y == HEIGHT - 1 && x == 4);
            let expected = if alive { LIVE } else { DEAD };
            assert_eq!(strip[place(x, y)], expected);
        }
    }
    // Row 0 runs against x on the strip, row 191 with it.
    assert_eq!(&strip[0..8], &[DEAD, DEAD, LIVE, LIVE, LIVE, DEAD, DEAD, DEAD]);
    assert_eq!(strip[1532], LIVE);
}

#[test]
fn frame_is_compressed_as_a_whole() {
    // Four live cells draw 16 each and 1532 dead cells 21 each: 32236.
    let mut renderer = Renderer::new(seeded(), 16_118, NO_TRAIL);
    renderer.frame(None);
    let strip = drain(&renderer);
    for y in 0..HEIGHT {
        for x in 0..WIDTH {
            let alive = (y == 0 && (3..=5).contains(&x)) || (y == HEIGHT - 1 && x == 4);
            let expected = if alive {
                Rgb { r: 0, g: 0, b: 8 }
            } else {
                Rgb { r: 8, g: 2, b: 0 }
            };
            assert_eq!(strip[place(x, y)], expected);
        }
    }
    let total: usize = strip
        .iter()
        .map(|c| c.r as usize + c.g as usize + c.b as usize)
        .sum();
    assert!(total <= 16_118);

    let mut exact = Renderer::new(seeded(), 32_236, NO_TRAIL);
    exact.frame(None);
    assert_eq!(drain(&exact)[0], DEAD);
}

#[test]
fn update_is_adopted_before_the_row_is_advanced() {
    let mut renderer = Renderer::new(seeded(), 1_000_000, NO_TRAIL);
    let copy = State {
        rule: Rule::new(204),
        wrap: Wrap::Zero,
        step: Step::new(true),
    };
    renderer.frame(Some(copy));
    assert_eq!(renderer.current_state(), copy);
    let strip = drain(&renderer);
    for x in 0..WIDTH {
        let expected = if x == 4 { LIVE } else { DEAD };
        assert_eq!(strip[place(x, 0)], expected);
    }
    renderer.frame(None);
    assert_eq!(renderer.current_state(), copy);
}

#[test]
fn rows_are_advanced_in_turn_round_the_ring() {
    let mut renderer = Renderer::new(seeded(), 1_000_000, NO_TRAIL);
    let shift = State {
        rule: Rule::new(2),
        wrap: Wrap::Wrap,
        step: Step::new(false),
    };
    renderer.frame(Some(shift));
    for _ in 1..HEIGHT {
        renderer.frame(None);
    }
    // Rule 2 moves the lone cell of row 191, at x = 4, one place down per
    // row: row y holds it at x = (4 - 1 - y) mod 8.
    let strip = drain(&renderer);
    for y in 0..HEIGHT {
        for x in 0..WIDTH {
            let alive = (x + 1 + y) % WIDTH == 4;
            let expected = if alive { LIVE } else { DEAD };
            assert_eq!(strip[place(x, y)], expected);
        }
    }
    // The next frame starts over at row 0 and reads row 191.
    renderer.frame(None);
    let strip = drain(&renderer);
    for x in 0..WIDTH {
        let alive = (x + 1 + 192) % WIDTH == 4;
        let expected = if alive { LIVE } else { DEAD };
        assert_eq!(strip[place(x, 0)], expected);
    }
}

#[test]
fn trail_runs_from_the_head_to_the_brightness_of_the_panel() {
    let bright = Trail { rows: 16, head: 255 };
    assert_eq!(bright.brightness_at(0), 255);
    assert_eq!(bright.brightness_at(1), 240);
    assert_eq!(bright.brightness_at(8), 135);
    assert_eq!(bright.brightness_at(15), 30);
    assert_eq!(bright.brightness_at(16), 16);
    assert_eq!(bright.brightness_at(100), 16);

    let dark = Trail { rows: 16, head: 0 };
    assert_eq!(dark.brightness_at(0), 0);
    assert_eq!(dark.brightness_at(8), 8);
    assert_eq!(dark.brightness_at(15), 15);
    assert_eq!(dark.brightness_at(16), 16);

    assert_eq!(NO_TRAIL.brightness_at(0), 16);
    assert_eq!(Trail { rows: 192, head: 16 }.brightness_at(5), 16);
}

#[test]
fn closer_rows_are_brighter() {
    let trail = Trail { rows: 16, head: 255 };
    for distance in 1..HEIGHT {
        assert!(trail.brightness_at(distance - 1) >= trail.brightness_at(distance));
    }
}

#[test]
fn newest_rows_are_painted_along_the_trail() {
    let mut renderer = Renderer::new(seeded(), 10_000_000, Trail { rows: 16, head: 255 });
    renderer.frame(None);
    let strip = drain(&renderer);
    // Row 0 is the newest, row 191 lies one row behind it, row 1 is the
    // oldest.
    assert_eq!(strip[place(0, 0)], Rgb { r: 255, g: 90, b: 0 });
    assert_eq!(strip[place(4, 0)], Rgb { r: 0, g: 0, b: 255 });
    assert_eq!(strip[place(0, 191)], Rgb { r: 240, g: 84, b: 0 });
    assert_eq!(strip[place(4, 191)], Rgb { r: 0, g: 0, b: 240 });
    assert_eq!(strip[place(0, 1)], DEAD);
    assert_eq!(strip[place(0, 176)], DEAD);
    assert_eq!(strip[place(0, 177)], Rgb { r: 30, g: 10, b: 0 });

    renderer.frame(None);
    let strip = drain(&renderer);
    assert_eq!(strip[place(0, 1)], Rgb { r: 255, g: 90, b: 0 });
    assert_eq!(strip[place(0, 0)], Rgb { r: 240, g: 84, b: 0 });
    assert_eq!(strip[place(0, 2)], DEAD);
}
