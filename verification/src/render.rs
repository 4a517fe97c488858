//! The render loop, one frame at a time: adopt a new control state, advance
//! one row of the universe, paint the universe onto the surface, and hand out
//! the compressed samples for the two lanes.

use crate::automaton::{advance_row, generations, ElementaryCellularAutomaton};
use crate::display::canvas::{lemma_cell_lands_on_itself, Pixel};
use crate::display::compressor::{compressed, dim_all, total_draw, Compressor, InnerInner};
use crate::display::hsv::{hsv_at, hsv_color, BRIGHTNESS};
use crate::display::rgb::Rgb;
use crate::display::serpentine::{
    cell_at,
    lemma_serpentine_injective,
    lemma_serpentine_into,
    lemma_serpentine_onto,
    serpentine,
};
use crate::display::stream::ColorStream;
use crate::display::{Display, DisplayIterator, HEIGHT, LANE_LEDS, NUM_LEDS, WIDTH};
use crate::state::State;
use vstd::prelude::*;

verus! {

/// The hue of a live cell.
pub const LIVE_HUE: u8 = 170;

/// The hue of a dead cell.
pub const DEAD_HUE: u8 = 15;

/// The trail behind the row that was advanced last: over `rows` rows the
/// brightness runs in a straight line from `head`, at the newest row, to the
/// brightness of the panel, which every row further back is shown at.
#[derive(Clone, Copy, Debug, PartialEq, Eq, Structural)]
pub struct Trail {
    pub rows: usize,
    pub head: u8,
}

impl Trail {
    /// A trail is no longer than the ring.
    pub open spec fn wf(self) -> bool {
        self.rows <= HEIGHT
    }

    /// The brightness of a row that lies `distance` rows behind the newest.
    pub open spec fn brightness(self, distance: int) -> u8 {
        if 0 <= distance < self.rows {
            let rows = self.rows as int;
            if self.head >= BRIGHTNESS {
                (BRIGHTNESS + (self.head - BRIGHTNESS) * (rows - distance) / rows) as u8
            } else {
                (BRIGHTNESS - (BRIGHTNESS - self.head) * (rows - distance) / rows) as u8
            }
        } else {
            BRIGHTNESS
        }
    }

    /// The brightness of a row that lies `distance` rows behind the newest.
    pub fn brightness_at(&self, distance: usize) -> (brightness: u8)
        requires
            self.wf(),
        ensures
            brightness == self.brightness(distance as int),
    {
        if distance < self.rows {
            let left: u64 = (self.rows - distance) as u64;
            let rows: u64 = self.rows as u64;
            if self.head >= BRIGHTNESS {
                let span: u64 = (self.head - BRIGHTNESS) as u64;
                proof {
                    lemma_ramp_within_span(span as int, left as int, rows as int);
                }
                BRIGHTNESS + (span * left / rows) as u8
            } else {
                let span: u64 = (BRIGHTNESS - self.head) as u64;
                proof {
                    lemma_ramp_within_span(span as int, left as int, rows as int);
                }
                BRIGHTNESS - (span * left / rows) as u8
            }
        } else {
            BRIGHTNESS
        }
    }
}

/// A share `span * left / rows` with `left <= rows` lies within the span.
proof fn lemma_ramp_within_span(span: int, left: int, rows: int)
    requires
        0 <= span <= 255,
        0 <= left <= rows,
        0 < rows <= HEIGHT,
    ensures
        0 <= span * left <= 255 * HEIGHT,
        0 <= span * left / rows <= span,
{
    assert(0 <= span * left <= span * rows) by (nonlinear_arith)
        requires
            0 <= span,
            0 <= left <= rows,
    ;
    assert(span * rows <= 255 * HEIGHT) by (nonlinear_arith)
        requires
            0 <= span <= 255,
            0 < rows <= HEIGHT,
    ;
    vstd::arithmetic::div_mod::lemma_div_is_ordered(span * left, span * rows, rows);
    vstd::arithmetic::div_mod::lemma_div_multiples_vanish(span, rows);
    assert(span * rows == rows * span) by (nonlinear_arith);
    vstd::arithmetic::div_mod::lemma_div_pos_is_pos(span * left, rows);
}

/// Behind a head that is at least as bright as the panel, no row is dimmer
/// than a row further back, and beyond the trail every row is shown at the
/// brightness of the panel.
pub proof fn lemma_closer_rows_brighter(trail: Trail, near: int, far: int)
    requires
        trail.wf(),
        trail.head >= BRIGHTNESS,
        0 <= near <= far,
    ensures
        trail.brightness(near) >= trail.brightness(far) >= BRIGHTNESS,
        far >= trail.rows ==> trail.brightness(far) == BRIGHTNESS,
        trail.rows > 0 ==> trail.brightness(0) == trail.head,
{
    let span = trail.head - BRIGHTNESS;
    let rows = trail.rows as int;
    if rows > 0 {
        lemma_ramp_within_span(span, rows, rows);
        vstd::arithmetic::div_mod::lemma_div_multiples_vanish(span, rows);
        assert(span * rows == rows * span) by (nonlinear_arith);
    }
    if near < rows {
        lemma_ramp_within_span(span, rows - near, rows);
        if far < rows {
            lemma_ramp_within_span(span, rows - far, rows);
            assert(span * (rows - far) <= span * (rows - near)) by (nonlinear_arith)
                requires
                    0 <= span,
                    near <= far,
            ;
            vstd::arithmetic::div_mod::lemma_div_is_ordered(
                span * (rows - far),
                span * (rows - near),
                rows,
            );
        }
    }
}

/// How many rows behind the newest row `current` the row `y` lies, counted
/// round the ring.
pub open spec fn trailing_distance(current: int, y: int) -> int {
    (current - y) % (HEIGHT as int)
}

/// The colour of a cell at a brightness.
pub open spec fn cell_color(alive: bool, brightness: u8) -> Rgb {
    hsv_color(
        if alive {
            LIVE_HUE
        } else {
            DEAD_HUE
        },
        255,
        255,
        brightness,
    )
}

/// The surface on which every cell of the universe is painted, `current`
/// being the newest row.
pub open spec fn painted(universe: Seq<Seq<bool>>, current: int, trail: Trail) -> Seq<Rgb> {
    Seq::new(
        NUM_LEDS as nat,
        |i: int|
            {
                let cell = cell_at(WIDTH as int, i);
                cell_color(
                    universe[cell.1][cell.0],
                    trail.brightness(trailing_distance(current, cell.1)),
                )
            },
    )
}

/// A frame can draw at most 765 for each of its samples.
pub proof fn lemma_total_draw_bound(colors: Seq<Rgb>)
    ensures
        total_draw(colors) <= 765 * colors.len(),
    decreases colors.len(),
{
    if colors.len() > 0 {
        lemma_total_draw_bound(colors.drop_first());
    }
}

fn distance_behind(current: usize, y: usize) -> (distance: usize)
    requires
        current < HEIGHT,
        y < HEIGHT,
    ensures
        distance == trailing_distance(current as int, y as int),
        distance < HEIGHT,
{
    if y <= current {
        proof {
            vstd::arithmetic::div_mod::lemma_small_mod((current - y) as nat, HEIGHT as nat);
        }
        current - y
    } else {
        proof {
            vstd::arithmetic::div_mod::lemma_small_mod(
                (current + HEIGHT - y) as nat,
                HEIGHT as nat,
            );
            vstd::arithmetic::div_mod::lemma_mod_add_multiples_vanish(
                current - y,
                HEIGHT as int,
            );
        }
        current + HEIGHT - y
    }
}

/// The state of the render loop between two frames.
pub struct Renderer {
    universe: [[bool; WIDTH]; HEIGHT],
    display: Display<Rgb>,
    state: State,
    row: usize,
    compressor: Compressor,
    trail: Trail,
}

impl Renderer {
    /// The next row to advance is a row of the ring, and the trail fits.
    pub closed spec fn wf(&self) -> bool {
        self.row < HEIGHT && self.trail.wf()
    }

    /// The generations in the ring.
    pub closed spec fn universe(&self) -> Seq<Seq<bool>> {
        generations(self.universe)
    }

    /// The surface, in strip order.
    pub closed spec fn surface(&self) -> Seq<Rgb> {
        self.display@
    }

    /// The control state in force.
    pub closed spec fn state(&self) -> State {
        self.state
    }

    /// The row that the next frame advances.
    pub closed spec fn row(&self) -> int {
        self.row as int
    }

    /// The current budget of a frame.
    pub closed spec fn budget(&self) -> nat {
        self.compressor.budget()
    }

    /// The trail that frames are painted with.
    pub closed spec fn trail(&self) -> Trail {
        self.trail
    }

    /// A render loop that starts at the first row, in the default control
    /// state, on a black surface.
    pub fn new(universe: [[bool; WIDTH]; HEIGHT], budget: usize, trail: Trail) -> (renderer: Self)
        requires
            budget > 0,
            trail.wf(),
        ensures
            renderer.wf(),
            renderer.universe() == generations(universe),
            renderer.surface() == Seq::new(NUM_LEDS as nat, |i: int| Rgb { r: 0, g: 0, b: 0 }),
            renderer.state().is_default(),
            renderer.row() == 0,
            renderer.budget() == budget,
            renderer.trail() == trail,
    {
        let display: Display<Rgb> = Display::new();
        proof {
            display.lemma_len();
            assert(display@ =~= Seq::new(NUM_LEDS as nat, |i: int| Rgb { r: 0, g: 0, b: 0 }));
        }
        Self {
            universe,
            display,
            state: State::default(),
            row: 0,
            compressor: Compressor::new(budget),
            trail,
        }
    }

    /// The control state in force.
    pub fn current_state(&self) -> (state: State)
        ensures
            state == self.state(),
    {
        self.state
    }

    /// One frame: adopts `update` where there is one, advances the row that
    /// is due under the state then in force, paints the whole universe with
    /// that row as the newest, and moves on to the next row of the ring.
    pub fn frame(&mut self, update: Option<State>)
        requires
            old(self).wf(),
        ensures
            final(self).wf(),
            final(self).state() == match update {
                Some(state) => state,
                None => old(self).state(),
            },
            final(self).universe() == advance_row(
                final(self).state().wrap,
                final(self).state().rule@,
                old(self).universe(),
                old(self).row(),
            ),
            final(self).surface() == painted(
                final(self).universe(),
                old(self).row(),
                old(self).trail(),
            ),
            final(self).row() == (old(self).row() + 1) % (HEIGHT as int),
            final(self).budget() == old(self).budget(),
            final(self).trail() == old(self).trail(),
    {
        if let Some(new_state) = update {
            self.state = new_state;
        }
        let automaton = ElementaryCellularAutomaton::new(self.state.wrap, self.state.rule);
        let current = self.row;
        automaton.next_row(&mut self.universe, current);
        self.paint(current);
        if current + 1 == HEIGHT {
            proof {
                vstd::arithmetic::div_mod::lemma_mod_self_0(HEIGHT as int);
            }
            self.row = 0;
        } else {
            proof {
                vstd::arithmetic::div_mod::lemma_small_mod((current + 1) as nat, HEIGHT as nat);
            }
            self.row = current + 1;
        }
    }

    /// Paints every cell of the universe onto the surface.
    fn paint(&mut self, current: usize)
        requires
            current < HEIGHT,
            old(self).trail.wf(),
        ensures
            final(self).display@ == painted(
                generations(old(self).universe),
                current as int,
                old(self).trail,
            ),
            final(self).universe == old(self).universe,
            final(self).state == old(self).state,
            final(self).row == old(self).row,
            final(self).compressor == old(self).compressor,
            final(self).trail == old(self).trail,
    {
        let ghost target = painted(generations(self.universe), current as int, self.trail);
        for y in 0..HEIGHT
            invariant
                current < HEIGHT,
                self.trail.wf(),
                self.universe == old(self).universe,
                self.state == old(self).state,
                self.row == old(self).row,
                self.compressor == old(self).compressor,
                self.trail == old(self).trail,
                target == painted(generations(self.universe), current as int, self.trail),
                forall|cx: int, cy: int|
                    0 <= cx < WIDTH && 0 <= cy < y ==> self.display@[#[trigger] serpentine(
                        WIDTH as int,
                        cx,
                        cy,
                    )] == target[serpentine(WIDTH as int, cx, cy)],
        {
            let brightness = self.trail.brightness_at(distance_behind(current, y));
            for x in 0..WIDTH
                invariant
                    current < HEIGHT,
                    y < HEIGHT,
                    self.trail.wf(),
                    self.universe == old(self).universe,
                    self.state == old(self).state,
                    self.row == old(self).row,
                    self.compressor == old(self).compressor,
                    self.trail == old(self).trail,
                    target == painted(generations(self.universe), current as int, self.trail),
                    brightness == self.trail.brightness(
                        trailing_distance(current as int, y as int),
                    ),
                    forall|cx: int, cy: int|
                        0 <= cx < WIDTH && (0 <= cy < y || (cy == y && cx < x))
                            ==> self.display@[#[trigger] serpentine(WIDTH as int, cx, cy)]
                            == target[serpentine(WIDTH as int, cx, cy)],
            {
                let hue = if self.universe[y][x] {
                    LIVE_HUE
                } else {
                    DEAD_HUE
                };
                let color = hsv_at(hue, 255, 255, brightness);
                let ghost before = self.display@;
                proof {
                    self.display.lemma_len();
                }
                let pixel = Pixel { x: y as i32, y: (WIDTH - 1 - x) as i32, color };
                self.display.draw(&pixel);
                proof {
                    lemma_cell_lands_on_itself(x as int, y as int);
                    lemma_serpentine_into(WIDTH as int, HEIGHT as int, x as int, y as int);
                    let place = serpentine(WIDTH as int, x as int, y as int);
                    assert(0 <= place < NUM_LEDS);
                    assert(self.display@ == before.update(place, color));
                    assert(self.display@[place] == color);
                    assert(generations(self.universe)[y as int][x as int]
                        == self.universe@[y as int]@[x as int]);
                    assert(target[place] == color);
                    assert forall|cx: int, cy: int|
                        0 <= cx < WIDTH && (0 <= cy < y || (cy == y && cx < x + 1))
                        implies self.display@[#[trigger] serpentine(WIDTH as int, cx, cy)]
                        == target[serpentine(WIDTH as int, cx, cy)] by {
                        if cx != x || cy != y {
                            if serpentine(WIDTH as int, cx, cy) == place {
                                lemma_serpentine_injective(WIDTH as int, cx, cy, x as int, y as int);
                            }
                            lemma_serpentine_into(WIDTH as int, HEIGHT as int, cx, cy);
                        }
                    }
                }
            }
        }
        proof {
            self.display.lemma_len();
            assert forall|i: int| 0 <= i < NUM_LEDS implies self.display@[i] == target[i] by {
                lemma_serpentine_onto(WIDTH as int, HEIGHT as int, i);
                let cell = cell_at(WIDTH as int, i);
                assert(serpentine(WIDTH as int, cell.0, cell.1) == i);
            }
            assert(self.display@ =~= target);
        }
    }

    /// The samples for the two lanes: the first and the second half of the
    /// surface in strip order, compressed as one frame. Nothing is copied.
    pub fn lanes(&self) -> (lanes: (
        InnerInner<DisplayIterator<'_, Rgb>>,
        InnerInner<DisplayIterator<'_, Rgb>>,
    ))
        ensures
            lanes.0.pending() == compressed(self.surface(), self.budget()).subrange(
                0,
                LANE_LEDS as int,
            ),
            lanes.1.pending() == compressed(self.surface(), self.budget()).subrange(
                LANE_LEDS as int,
                NUM_LEDS as int,
            ),
    {
        proof {
            self.display.lemma_len();
            lemma_total_draw_bound(self.display@);
            assert(self.display@.subrange(0, NUM_LEDS as int) =~= self.display@);
        }
        let inner = self.compressor.calculate(self.display.data(0..NUM_LEDS));
        let first = inner.compress(self.display.data(0..LANE_LEDS));
        let second = inner.compress(self.display.data(LANE_LEDS..NUM_LEDS));
        proof {
            let n = inner.ratio.numerator();
            let d = inner.ratio.denominator();
            assert(dim_all(self.display@.subrange(0, LANE_LEDS as int), n, d) =~= dim_all(
                self.display@,
                n,
                d,
            ).subrange(0, LANE_LEDS as int));
            assert(dim_all(self.display@.subrange(LANE_LEDS as int, NUM_LEDS as int), n, d) =~= dim_all(
                self.display@,
                n,
                d,
            ).subrange(LANE_LEDS as int, NUM_LEDS as int));
        }
        (first, second)
    }
}

} // verus!
