//! Streams of colour samples: sources that hand out one sample at a time and
//! cannot be rewound.

use super::rgb::Rgb;
use super::DisplayIterator;
use vstd::prelude::*;

verus! {

/// A source of colour samples that is read front to back.
pub trait ColorStream {
    /// The samples that are still to come, in order.
    spec fn pending(&self) -> Seq<Rgb>;

    /// Hands out the first pending sample, or nothing once the stream is
    /// exhausted.
    fn next_color(&mut self) -> (sample: Option<Rgb>)
        ensures
            old(self).pending().len() == 0 ==> sample.is_none()
                && final(self).pending() == old(self).pending(),
            old(self).pending().len() > 0 ==> sample == Some(old(self).pending()[0])
                && final(self).pending() == old(self).pending().drop_first(),
    ;
}

impl<'a> ColorStream for DisplayIterator<'a, Rgb> {
    open spec fn pending(&self) -> Seq<Rgb> {
        self.remaining()
    }

    fn next_color(&mut self) -> (sample: Option<Rgb>) {
        self.next()
    }
}

/// A stream over a slice of samples.
pub struct Colors<'a> {
    samples: &'a [Rgb],
    position: usize,
}

impl<'a> Colors<'a> {
    /// A cursor never passes the end of its slice.
    #[verifier::type_invariant]
    spec fn within_slice(&self) -> bool {
        self.position <= self.samples@.len()
    }

    /// A stream that hands out `samples` from the first to the last.
    pub fn new(samples: &'a [Rgb]) -> (stream: Self)
        ensures
            stream.pending() == samples@,
    {
        let stream = Self { samples, position: 0 };
        assert(samples@.skip(0) =~= samples@);
        stream
    }
}

impl<'a> ColorStream for Colors<'a> {
    closed spec fn pending(&self) -> Seq<Rgb> {
        self.samples@.skip(self.position as int)
    }

    fn next_color(&mut self) -> (sample: Option<Rgb>) {
        proof {
            use_type_invariant(&*self);
        }
        if self.position >= self.samples.len() {
            return None;
        }
        let sample = self.samples[self.position];
        proof {
            assert(self.samples@.skip(self.position as int).drop_first() =~= self.samples@.skip(
                self.position + 1,
            ));
        }
        self.position += 1;
        Some(sample)
    }
}

} // verus!
