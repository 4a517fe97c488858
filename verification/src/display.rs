//! The display surface: a fixed grid of colour samples, stored in the order
//! in which the LED strip is wired.

use core::ops::Range;
use vstd::prelude::*;

pub mod canvas;
pub mod compressor;
pub mod hsv;
pub mod rgb;
pub mod serpentine;
pub mod stream;
pub mod ws2812;

use serpentine::serpentine;

verus! {

/// Columns of the panel, and cells of a generation.
pub const WIDTH: usize = 8;

/// Rows of the panel, and generations in view.
pub const HEIGHT: usize = 32 * 6;

/// Samples in the backing store.
pub const NUM_LEDS: usize = WIDTH * HEIGHT;

/// Samples on each of the two lanes that the strip is fed through.
pub const LANE_LEDS: usize = NUM_LEDS / 2;

/// The grid of samples. `T` is the colour type.
#[derive(Debug)]
pub struct Display<T> {
    data: [T; NUM_LEDS],
}

impl<T> View for Display<T> {
    type V = Seq<T>;

    /// The backing store, in strip order.
    closed spec fn view(&self) -> Seq<T> {
        self.data@
    }
}

impl<T: Copy + Default> Display<T> {
    /// The sample at `(x, y)`.
    pub open spec fn pixel(&self, x: int, y: int) -> T {
        self@[serpentine(WIDTH as int, x, y)]
    }

    /// The backing store holds one sample for each cell.
    pub proof fn lemma_len(&self)
        ensures
            self@.len() == NUM_LEDS,
    {
    }

    /// A surface on which every sample is the colour type's default value.
    pub fn new() -> (display: Self)
        ensures
            display@.len() == NUM_LEDS,
            forall|i: int| 0 <= i < NUM_LEDS ==> #[trigger] display@[i] == display@[0],
            call_ensures(T::default, (), display@[0]),
    {
        let fill = T::default();
        Self { data: [fill;NUM_LEDS] }
    }

    /// The samples at the strip positions in `range`, in strip order, as a
    /// cursor that copies nothing.
    pub fn data(&self, range: Range<usize>) -> (samples: DisplayIterator<'_, T>)
        requires
            range.end <= NUM_LEDS,
        ensures
            samples.remaining() == strip_range(self@, range.start as int, range.end as int),
    {
        DisplayIterator::new(self, range)
    }

    /// The strip position of cell `(x, y)`.
    pub fn get_index(x: usize, y: usize) -> (index: usize)
        requires
            x < WIDTH,
            y < HEIGHT,
        ensures
            index == serpentine(WIDTH as int, x as int, y as int),
            index < NUM_LEDS,
    {
        if y % 2 == 1 {
            x + WIDTH * y
        } else {
            (WIDTH - 1 - x) + WIDTH * y
        }
    }

    /// The sample at `(x, y)`.
    pub fn get_pixel(&self, x: usize, y: usize) -> (color: T)
        requires
            x < WIDTH,
            y < HEIGHT,
        ensures
            color == self.pixel(x as int, y as int),
    {
        let index = Self::get_index(x, y);
        self.data[index]
    }

    /// Stores `color` at `(x, y)` and leaves every other sample as it was.
    pub fn set_pixel(&mut self, x: usize, y: usize, color: T)
        requires
            x < WIDTH,
            y < HEIGHT,
        ensures
            final(self)@ == old(self)@.update(serpentine(WIDTH as int, x as int, y as int), color),
    {
        let index = Self::get_index(x, y);
        self.data[index] = color;
    }
}

/// The part of `strip` from `start` up to `end`; nothing where `start` is not
/// before `end`.
pub open spec fn strip_range<T>(strip: Seq<T>, start: int, end: int) -> Seq<T> {
    if 0 <= start < end <= strip.len() {
        strip.subrange(start, end)
    } else {
        Seq::empty()
    }
}

/// A cursor over a range of the backing store.
pub struct DisplayIterator<'a, T> {
    display: &'a Display<T>,
    range: Range<usize>,
    index: usize,
}

impl<'a, T> DisplayIterator<'a, T> {
    /// A cursor never reaches beyond the backing store.
    #[verifier::type_invariant]
    spec fn within_store(&self) -> bool {
        self.range.end <= NUM_LEDS
    }
}

impl<'a, T: Copy + Default> DisplayIterator<'a, T> {
    /// The samples that the cursor has yet to hand out.
    pub closed spec fn remaining(&self) -> Seq<T> {
        strip_range(self.display@, self.index as int, self.range.end as int)
    }

    /// A cursor that hands out the samples at the strip positions in
    /// `range`, or none where the range is empty or runs backwards.
    pub fn new(display: &'a Display<T>, range: Range<usize>) -> (samples: Self)
        requires
            range.end <= NUM_LEDS,
        ensures
            samples.remaining() == strip_range(display@, range.start as int, range.end as int),
    {
        let index = range.start;
        Self { display, range, index }
    }

    /// Hands out the next sample, if one is left.
    pub fn next(&mut self) -> (sample: Option<T>)
        ensures
            old(self).remaining().len() == 0 ==> sample.is_none() && final(self).remaining()
                == old(self).remaining(),
            old(self).remaining().len() > 0 ==> sample == Some(old(self).remaining()[0])
                && final(self).remaining() == old(self).remaining().drop_first(),
    {
        proof {
            use_type_invariant(&*self);
        }
        if self.index >= self.range.end {
            return None;
        }
        self.index += 1;

        Some(self.display.data[self.index - 1])
    }
}

} // verus!
