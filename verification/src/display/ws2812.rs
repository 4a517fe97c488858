//! The words that a WS2812 strip is fed: one per sample, green first.

use super::rgb::Rgb;
use super::stream::ColorStream;
use vstd::prelude::*;

verus! {

/// The word for a colour: green in the highest byte, then red, then blue,
/// and nothing in the lowest.
pub open spec fn word(color: Rgb) -> u32 {
    (color.g as int * 0x100_0000 + color.r as int * 0x1_0000 + color.b as int * 0x100) as u32
}

/// What the strip is fed for `colors` where it is fed `count` words: the
/// word of each colour in order, and zero from there on.
pub open spec fn words_of(colors: Seq<Rgb>, count: nat) -> Seq<u32> {
    Seq::new(
        count,
        |i: int|
            if i < colors.len() {
                word(colors[i])
            } else {
                0u32
            },
    )
}

/// Packs a colour into its word.
pub fn pack(color: Rgb) -> (packed: u32)
    ensures
        packed == word(color),
{
    let g: u32 = color.g as u32;
    let r: u32 = color.r as u32;
    let b: u32 = color.b as u32;
    assert(g <= 255 && r <= 255 && b <= 255 ==> ((g << 24) | (r << 16) | (b << 8)) == g
        * 0x100_0000 + r * 0x1_0000 + b * 0x100) by (bit_vector);
    (g << 24) | (r << 16) | (b << 8)
}

/// Drains a stream into the `N` words of one transfer. The stream must not
/// hold more samples than the transfer has words.
pub fn words<const N: usize, T: ColorStream>(colors: T) -> (packed: [u32; N])
    requires
        colors.pending().len() <= N,
    ensures
        packed@ == words_of(colors.pending(), N as nat),
{
    let mut colors = colors;
    let ghost all = colors.pending();
    let mut packed = [0u32;N];
    let mut i: usize = 0;
    loop
        invariant
            all.len() <= N,
            i <= all.len(),
            colors.pending() == all.skip(i as int),
            forall|k: int| 0 <= k < i ==> packed@[k] == word(all[k]),
            forall|k: int| i <= k < N ==> packed@[k] == 0,
        ensures
            i == all.len(),
        decreases colors.pending().len(),
    {
        match colors.next_color() {
            Some(color) => {
                assert(all.skip(i as int).drop_first() =~= all.skip(i + 1));
                packed[i] = pack(color);
                i += 1;
            },
            None => {
                break ;
            },
        }
    }
    assert(packed@ =~= words_of(all, N as nat));
    packed
}

} // verus!
