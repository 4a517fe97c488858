//! Colours by hue, at the brightness that the panel is run at.

use super::rgb::Rgb;
use smart_leds::hsv::{hsv2rgb, Hsv};
use vstd::prelude::*;

verus! {

/// The brightness of the panel: a value of 255 comes out as this.
pub const BRIGHTNESS: u8 = 16;

/// The channels `(r, g, b)` that `smart_leds::hsv::hsv2rgb` computes for a
/// hue, a saturation and a value.
pub uninterp spec fn hsv2rgb_channels(hue: u8, sat: u8, val: u8) -> (u8, u8, u8);

/// A value scaled down to a brightness, of which 255 leaves it as it is.
pub open spec fn dimmed_value(val: u8, brightness: u8) -> u8 {
    (val as int * (brightness as int + 1) / 256) as u8
}

/// The colour of a hue, a saturation and a value at a brightness.
pub open spec fn hsv_color(hue: u8, sat: u8, val: u8, brightness: u8) -> Rgb {
    let channels = hsv2rgb_channels(hue, sat, dimmed_value(val, brightness));
    Rgb { r: channels.0, g: channels.1, b: channels.2 }
}

/// Calls `smart_leds::hsv::hsv2rgb`. Nothing is proved of the conversion: the
/// contract gives its result a name, on the ground that the function computes
/// it from its three arguments alone, in integer arithmetic that cannot
/// overflow.
#[verifier::external_body]
fn hsv_to_rgb(hue: u8, sat: u8, val: u8) -> (color: Rgb)
    ensures
        (color.r, color.g, color.b) == hsv2rgb_channels(hue, sat, val),
{
    let rgb = hsv2rgb(Hsv { hue, sat, val });
    Rgb { r: rgb.r, g: rgb.g, b: rgb.b }
}

/// The colour of a hue, a saturation and a value, the value scaled down to
/// a brightness first.
pub fn hsv_at(hue: u8, sat: u8, val: u8, brightness: u8) -> (color: Rgb)
    ensures
        color == hsv_color(hue, sat, val, brightness),
{
    let factor: u16 = brightness as u16 + 1;
    assert(val * factor <= 255 * 256) by (nonlinear_arith)
        requires
            val <= 255,
            factor <= 256,
    ;
    let scaled: u16 = val as u16 * factor / 256;
    hsv_to_rgb(hue, sat, scaled as u8)
}

/// The colour of a hue, a saturation and a value at the brightness of the
/// panel.
pub fn hsv(hue: u8, sat: u8, val: u8) -> (color: Rgb)
    ensures
        color == hsv_color(hue, sat, val, BRIGHTNESS),
{
    hsv_at(hue, sat, val, BRIGHTNESS)
}

} // verus!
