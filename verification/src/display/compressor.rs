//! The current compressor: dims a frame as a whole so that the current it is
//! taken to draw stays within a budget.

use super::rgb::Rgb;
use super::stream::{ColorStream, Colors};
use vstd::arithmetic::div_mod::lemma_fundamental_div_mod;
use vstd::prelude::*;

verus! {

/// The current that a sequence of colours is taken to draw: the sum of all
/// channels of all colours.
pub open spec fn total_draw(colors: Seq<Rgb>) -> nat
    decreases colors.len(),
{
    if colors.len() == 0 {
        0
    } else {
        colors[0].draw() + total_draw(colors.drop_first())
    }
}

/// The numerator of the ratio by which a frame that draws `sum` is divided
/// under `budget`, the budget being the denominator: the sum itself, or the
/// budget where the sum is less, so that the ratio is never below one.
pub open spec fn overdraw(sum: nat, budget: nat) -> nat {
    if sum < budget {
        budget
    } else {
        sum
    }
}

/// A channel divided by `numerator / denominator`, rounded towards zero.
pub open spec fn divide(channel: u8, numerator: nat, denominator: nat) -> u8 {
    (channel as int * denominator as int / numerator as int) as u8
}

/// A colour with each channel divided by `numerator / denominator`.
pub open spec fn dim(color: Rgb, numerator: nat, denominator: nat) -> Rgb {
    Rgb {
        r: divide(color.r, numerator, denominator),
        g: divide(color.g, numerator, denominator),
        b: divide(color.b, numerator, denominator),
    }
}

/// The colours, each divided by `numerator / denominator`.
pub open spec fn dim_all(colors: Seq<Rgb>, numerator: nat, denominator: nat) -> Seq<Rgb> {
    colors.map_values(|color: Rgb| dim(color, numerator, denominator))
}

/// What `colors` become under a budget: each channel divided by the ratio of
/// the total draw to the budget where that ratio is above one, and unchanged
/// where it is not.
pub open spec fn compressed(colors: Seq<Rgb>, budget: nat) -> Seq<Rgb> {
    dim_all(colors, overdraw(total_draw(colors), budget), budget)
}

/// A quotient `c * d / n` with `0 < d <= n` lies between zero and `c`, and is
/// the largest integer whose product with `n` does not exceed `c * d`.
pub proof fn lemma_quotient_bounds(c: int, d: int, n: int)
    requires
        0 <= c,
        0 < d <= n,
    ensures
        0 <= c * d / n <= c,
        (c * d / n) * n <= c * d < (c * d / n + 1) * n,
{
    let q = c * d / n;
    assert(0 <= c * d) by (nonlinear_arith)
        requires
            0 <= c,
            0 < d,
    ;
    lemma_fundamental_div_mod(c * d, n);
    assert(n * q == q * n) by (nonlinear_arith);
    assert(0 <= (c * d) % n < n);
    assert((q + 1) * n == q * n + n) by (nonlinear_arith);
    assert(0 <= q) by (nonlinear_arith)
        requires
            0 <= c * d < (q + 1) * n,
            0 < n,
    ;
    assert(q <= c) by (nonlinear_arith)
        requires
            q * n <= c * d,
            0 < d <= n,
            0 <= c,
            0 <= q,
    ;
}

/// Dimming never draws more than the ratio allows: the draw of the dimmed
/// colours, multiplied by the numerator, is at most the draw of the colours
/// multiplied by the denominator.
pub proof fn lemma_dimmed_draw(colors: Seq<Rgb>, numerator: nat, denominator: nat)
    requires
        0 < denominator <= numerator,
    ensures
        total_draw(dim_all(colors, numerator, denominator)) * numerator <= total_draw(colors)
            * denominator,
    decreases colors.len(),
{
    let dimmed = dim_all(colors, numerator, denominator);
    if colors.len() > 0 {
        let rest = colors.drop_first();
        assert(dimmed.drop_first() =~= dim_all(rest, numerator, denominator));
        lemma_dimmed_draw(rest, numerator, denominator);
        let n = numerator as int;
        let d = denominator as int;
        let first = colors[0];
        let r = divide(first.r, numerator, denominator) as int;
        let g = divide(first.g, numerator, denominator) as int;
        let b = divide(first.b, numerator, denominator) as int;
        lemma_quotient_bounds(first.r as int, d, n);
        lemma_quotient_bounds(first.g as int, d, n);
        lemma_quotient_bounds(first.b as int, d, n);
        assert(dimmed[0].draw() == r + g + b);
        let tail_out = total_draw(dimmed.drop_first()) as int;
        let tail_in = total_draw(rest) as int;
        assert((r + g + b + tail_out) * n <= (first.r + first.g + first.b + tail_in) * d)
            by (nonlinear_arith)
            requires
                r * n <= first.r * d,
                g * n <= first.g * d,
                b * n <= first.b * d,
                tail_out * n <= tail_in * d,
        ;
        assert(total_draw(dimmed) == r + g + b + tail_out);
        assert(total_draw(colors) == first.r + first.g + first.b + tail_in);
    } else {
        assert(total_draw(dimmed) == 0);
        assert(total_draw(colors) == 0);
    }
}

/// A frame that draws no more than the budget passes through unchanged.
pub proof fn lemma_within_budget_unchanged(colors: Seq<Rgb>, budget: nat)
    requires
        0 < budget,
        total_draw(colors) <= budget,
    ensures
        compressed(colors, budget) == colors,
{
    let numerator = overdraw(total_draw(colors), budget);
    assert forall|channel: u8| #[trigger] divide(channel, numerator, budget) == channel by {
        if total_draw(colors) < budget {
            vstd::arithmetic::div_mod::lemma_div_multiples_vanish(channel as int, budget as int);
            assert(channel as int * budget as int == budget as int * channel as int)
                by (nonlinear_arith);
        } else {
            vstd::arithmetic::div_mod::lemma_div_multiples_vanish(channel as int, budget as int);
            assert(channel as int * budget as int == budget as int * channel as int)
                by (nonlinear_arith);
        }
    }
    assert(compressed(colors, budget) =~= colors);
}

/// The compressed frame never draws more than the budget.
pub proof fn lemma_compressed_within_budget(colors: Seq<Rgb>, budget: nat)
    requires
        0 < budget,
    ensures
        compressed(colors, budget).len() == colors.len(),
        total_draw(compressed(colors, budget)) <= budget,
{
    let sum = total_draw(colors) as int;
    let numerator = overdraw(total_draw(colors), budget);
    let out = total_draw(compressed(colors, budget)) as int;
    lemma_dimmed_draw(colors, numerator, budget);
    if sum < budget {
        assert(out <= sum) by (nonlinear_arith)
            requires
                out * budget <= sum * budget,
                0 < budget,
        ;
    } else {
        assert(out <= budget) by (nonlinear_arith)
            requires
                out * sum <= sum * budget,
                0 < sum,
        ;
    }
}

/// Dimming keeps the proportions of any two channels up to rounding: with
/// `a` and `b` the dimmed values of `c1` and `c2`, the cross products `a * c2`
/// and `b * c1`, which are equal where the proportion is kept exactly, differ
/// by no more than the channel on the other side.
pub proof fn lemma_dimming_keeps_proportions(c1: u8, c2: u8, numerator: nat, denominator: nat)
    requires
        0 < denominator <= numerator,
    ensures
        -(c2 as int) <= divide(c1, numerator, denominator) * c2 - divide(
            c2,
            numerator,
            denominator,
        ) * c1 <= c1 as int,
{
    let n = numerator as int;
    let d = denominator as int;
    let a = divide(c1, numerator, denominator) as int;
    let b = divide(c2, numerator, denominator) as int;
    lemma_quotient_bounds(c1 as int, d, n);
    lemma_quotient_bounds(c2 as int, d, n);
    assert((a * c2 - b * c1) * n <= c1 * n) by (nonlinear_arith)
        requires
            a * n <= c1 * d,
            c2 * d < (b + 1) * n,
            0 <= c1,
            0 <= c2,
    ;
    assert((a * c2 - b * c1) * n >= -(c2 * n)) by (nonlinear_arith)
        requires
            b * n <= c2 * d,
            c1 * d < (a + 1) * n,
            0 <= c1,
            0 <= c2,
    ;
    assert(a * c2 - b * c1 <= c1) by (nonlinear_arith)
        requires
            (a * c2 - b * c1) * n <= c1 * n,
            0 < n,
    ;
    assert(a * c2 - b * c1 >= -c2) by (nonlinear_arith)
        requires
            (a * c2 - b * c1) * n >= -(c2 * n),
            0 < n,
    ;
}

/// An exact fraction that is not below one.
#[derive(Clone, Copy, Debug)]
pub struct Ratio {
    numerator: usize,
    denominator: usize,
}

impl Ratio {
    /// The denominator is positive and does not exceed the numerator.
    #[verifier::type_invariant]
    spec fn at_least_one(&self) -> bool {
        0 < self.denominator <= self.numerator
    }

    /// The numerator of the fraction.
    pub closed spec fn numerator(&self) -> nat {
        self.numerator as nat
    }

    /// The denominator of the fraction.
    pub closed spec fn denominator(&self) -> nat {
        self.denominator as nat
    }

    /// The fraction `numerator / denominator`.
    pub fn new(numerator: usize, denominator: usize) -> (ratio: Self)
        requires
            0 < denominator <= numerator,
        ensures
            ratio.numerator() == numerator,
            ratio.denominator() == denominator,
    {
        Self { numerator, denominator }
    }

    /// Divides a channel by the ratio, rounding towards zero.
    pub fn divide(&self, channel: u8) -> (dimmed: u8)
        ensures
            dimmed == divide(channel, self.numerator(), self.denominator()),
            dimmed <= channel,
    {
        proof {
            use_type_invariant(self);
            lemma_quotient_bounds(channel as int, self.denominator as int, self.numerator as int);
            assert(channel * self.denominator <= 255 * 0xffff_ffff_ffff_ffff) by (nonlinear_arith)
                requires
                    channel <= 255,
                    self.denominator <= 0xffff_ffff_ffff_ffff,
            ;
        }
        let scaled: u128 = channel as u128 * self.denominator as u128;
        let quotient: u128 = scaled / self.numerator as u128;
        quotient as u8
    }

    /// Divides every channel of a colour by the ratio.
    pub fn dim(&self, color: Rgb) -> (dimmed: Rgb)
        ensures
            dimmed == dim(color, self.numerator(), self.denominator()),
    {
        Rgb { r: self.divide(color.r), g: self.divide(color.g), b: self.divide(color.b) }
    }
}

/// The current budget of a frame.
pub struct Compressor {
    max: usize,
}

/// The outcome of the first pass over a frame: its total draw, and the ratio
/// by which the second pass divides.
pub struct Inner {
    pub ratio: Ratio,
    pub sum: usize,
}

/// The second pass: a stream that hands out the samples of another stream,
/// each divided by a ratio.
pub struct InnerInner<T: ColorStream> {
    ratio: Ratio,
    iterator: T,
}

impl Compressor {
    /// A budget is positive.
    #[verifier::type_invariant]
    spec fn positive(&self) -> bool {
        self.max > 0
    }

    /// The budget.
    pub closed spec fn budget(&self) -> nat {
        self.max as nat
    }

    /// A compressor that holds frames to the budget `max`.
    pub fn new(max: usize) -> (compressor: Self)
        requires
            max > 0,
        ensures
            compressor.budget() == max,
    {
        Compressor { max }
    }

    /// The first pass: sums the channels of the whole frame and derives the
    /// ratio from the sum and the budget.
    pub fn calculate<T: ColorStream>(&self, data: T) -> (inner: Inner)
        requires
            total_draw(data.pending()) <= usize::MAX,
        ensures
            inner.sum == total_draw(data.pending()),
            inner.ratio.numerator() == overdraw(total_draw(data.pending()), self.budget()),
            inner.ratio.denominator() == self.budget(),
    {
        proof {
            use_type_invariant(self);
        }
        let mut data = data;
        let ghost frame = data.pending();
        let mut sum: usize = 0;
        loop
            invariant
                sum + total_draw(data.pending()) == total_draw(frame),
                total_draw(frame) <= usize::MAX,
            ensures
                data.pending().len() == 0,
            decreases data.pending().len(),
        {
            match data.next_color() {
                Some(color) => {
                    sum += color.r as usize + color.g as usize + color.b as usize;
                },
                None => {
                    break ;
                },
            }
        }
        if sum < self.max {
            Inner { ratio: Ratio::new(self.max, self.max), sum }
        } else {
            Inner { ratio: Ratio::new(sum, self.max), sum }
        }
    }

    /// Both passes over a slice: the frame as it is to be sent.
    pub fn compress(&self, colors: &[Rgb]) -> (dimmed: Vec<Rgb>)
        requires
            total_draw(colors@) <= usize::MAX,
        ensures
            dimmed@ == compressed(colors@, self.budget()),
    {
        let inner = self.calculate(Colors::new(colors));
        let mut stream = inner.compress(Colors::new(colors));
        let mut dimmed: Vec<Rgb> = Vec::new();
        loop
            invariant
                dimmed@ + stream.pending() == compressed(colors@, self.budget()),
            ensures
                stream.pending().len() == 0,
            decreases stream.pending().len(),
        {
            let ghost before = stream.pending();
            match stream.next() {
                Some(color) => {
                    dimmed.push(color);
                    assert(dimmed@ + stream.pending() =~= dimmed@.drop_last() + before);
                },
                None => {
                    break ;
                },
            }
        }
        assert(dimmed@ + stream.pending() =~= dimmed@);
        dimmed
    }
}

impl Inner {
    /// The second pass over `data`, as a stream.
    pub fn compress<T: ColorStream>(&self, data: T) -> (stream: InnerInner<T>)
        ensures
            stream.pending() == dim_all(
                data.pending(),
                self.ratio.numerator(),
                self.ratio.denominator(),
            ),
    {
        InnerInner { ratio: self.ratio, iterator: data }
    }
}

impl<T: ColorStream> InnerInner<T> {
    /// Hands out the next sample of the underlying stream, divided by the
    /// ratio.
    pub fn next(&mut self) -> (sample: Option<Rgb>)
        ensures
            old(self).pending().len() == 0 ==> sample.is_none()
                && final(self).pending() == old(self).pending(),
            old(self).pending().len() > 0 ==> sample == Some(old(self).pending()[0])
                && final(self).pending() == old(self).pending().drop_first(),
    {
        self.next_color()
    }
}

impl<T: ColorStream> ColorStream for InnerInner<T> {
    closed spec fn pending(&self) -> Seq<Rgb> {
        dim_all(self.iterator.pending(), self.ratio.numerator(), self.ratio.denominator())
    }

    fn next_color(&mut self) -> (sample: Option<Rgb>) {
        let ghost before = self.iterator.pending();
        match self.iterator.next_color() {
            Some(color) => {
                assert(dim_all(
                    before,
                    self.ratio.numerator(),
                    self.ratio.denominator(),
                ).drop_first() =~= dim_all(
                    before.drop_first(),
                    self.ratio.numerator(),
                    self.ratio.denominator(),
                ));
                Some(self.ratio.dim(color))
            },
            None => None,
        }
    }
}

} // verus!
