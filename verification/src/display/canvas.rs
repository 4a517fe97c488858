//! Drawing onto the surface in canvas coordinates: the panel lies on its
//! side, so the canvas is `HEIGHT` wide and `WIDTH` tall, and its horizontal
//! axis wraps round.

use super::serpentine::serpentine;
use super::{Display, HEIGHT, WIDTH};
use vstd::prelude::*;

verus! {

/// A colour to draw and the canvas coordinate to draw it at.
#[derive(Debug)]
pub struct Pixel<T> {
    pub x: i32,
    pub y: i32,
    pub color: T,
}

/// The cell `(x, y)` of the surface on which canvas coordinate `(px, py)`
/// lands: the canvas column, taken round the ring of rows, is the row, and
/// the canvas row, counted from the far side, is the column. A coordinate
/// above or below the canvas lands nowhere.
pub open spec fn landing(px: int, py: int) -> Option<(int, int)> {
    let x = WIDTH - 1 - py;
    let y = px % (HEIGHT as int);
    if 0 <= x < WIDTH {
        Some((x, y))
    } else {
        None
    }
}

/// The backing store after one pixel has been drawn.
pub open spec fn draw_one<T>(strip: Seq<T>, pixel: Pixel<T>) -> Seq<T> {
    match landing(pixel.x as int, pixel.y as int) {
        Some((x, y)) => strip.update(serpentine(WIDTH as int, x, y), pixel.color),
        None => strip,
    }
}

/// The backing store after `pixels` have been drawn in order, so that of two
/// pixels on one cell the later one stays.
pub open spec fn draw_all<T>(strip: Seq<T>, pixels: Seq<Pixel<T>>) -> Seq<T>
    decreases pixels.len(),
{
    if pixels.len() == 0 {
        strip
    } else {
        draw_one(draw_all(strip, pixels.drop_last()), pixels.last())
    }
}

/// The canvas coordinate of a cell of the surface lands on that cell.
pub proof fn lemma_cell_lands_on_itself(x: int, y: int)
    requires
        0 <= x < WIDTH,
        0 <= y < HEIGHT,
    ensures
        landing(y, WIDTH - 1 - x) == Some((x, y)),
{
    vstd::arithmetic::div_mod::lemma_small_mod(y as nat, HEIGHT as nat);
}

/// The cell on which a canvas coordinate lands, if it lands on any.
pub fn locate(px: i32, py: i32) -> (cell: Option<(usize, usize)>)
    ensures
        match cell {
            Some((x, y)) => x < WIDTH && y < HEIGHT && landing(px as int, py as int) == Some(
                (x as int, y as int),
            ),
            None => landing(px as int, py as int).is_none(),
        },
{
    let x: i64 = (WIDTH as i64 - 1) - py as i64;
    let mut y: i64 = px as i64 % HEIGHT as i64;
    if y < 0 {
        y += HEIGHT as i64;
    }
    if x < 0 || x >= WIDTH as i64 {
        return None;
    }
    Some((x as usize, y as usize))
}

impl<T: Copy + Default> Display<T> {
    /// Draws one pixel, or nothing where it lands nowhere.
    pub fn draw(&mut self, pixel: &Pixel<T>)
        ensures
            final(self)@ == draw_one(old(self)@, *pixel),
    {
        if let Some((x, y)) = locate(pixel.x, pixel.y) {
            self.set_pixel(x, y, pixel.color);
        }
    }

    /// Draws `pixels` in order. Those that land nowhere are skipped.
    pub fn draw_iter(&mut self, pixels: &[Pixel<T>])
        ensures
            final(self)@ == draw_all(old(self)@, pixels@),
    {
        for i in 0..pixels.len()
            invariant
                self@ == draw_all(old(self)@, pixels@.take(i as int)),
        {
            self.draw(&pixels[i]);
            proof {
                assert(pixels@.take(i + 1).drop_last() =~= pixels@.take(i as int));
            }
        }
        assert(pixels@.take(pixels@.len() as int) =~= pixels@);
    }

    /// The extent of the canvas: `HEIGHT` across and `WIDTH` down.
    pub fn size(&self) -> (extent: (u32, u32))
        ensures
            extent.0 == HEIGHT,
            extent.1 == WIDTH,
    {
        (HEIGHT as u32, WIDTH as u32)
    }
}

} // verus!
