//! The pixel color rule: an escape result and a palette choice become an
//! 8-bit grayscale intensity.
//!
//! A point that escapes after k iterations is shaded by the caller's
//! nonlinear formula (a floating-point sine of k, computed outside the
//! verified core and handed in as the shade for k); a point that never
//! escapes is white on the light palette and black on the dark one. The
//! rule is a function of the escape result, the palette and the shade
//! alone: no other state enters it, so which worker evaluated a pixel
//! cannot change its color.

use vstd::prelude::*;

verus! {

/// A grayscale palette choice for points that never escape.
#[derive(Clone, Copy, PartialEq, Eq, Structural, Debug)]
pub enum Palette {
    Light,
    Dark,
}

/// Intensity of a pixel whose point never escaped: white on the light
/// palette, black on the dark one.
pub open spec fn palette_intensity(p: Palette) -> u8 {
    match p {
        Palette::Light => 255,
        Palette::Dark => 0,
    }
}

/// The color rule: an escaping point takes its shade, a non-escaping
/// point takes the palette's intensity.
pub open spec fn pixel_intensity(escape: Option<u32>, p: Palette, shade: u8) -> u8 {
    match escape {
        Some(_) => shade,
        None => palette_intensity(p),
    }
}

/// Returns the intensity for a point that stayed within the escape bound
/// for the whole iteration budget.
pub fn non_escape_color(palette: Palette) -> (r: u8)
    ensures
        r == palette_intensity(palette),
{
    match palette {
        Palette::Light => 255,
        Palette::Dark => 0,
    }
}

/// Apply the color rule. `escape_shade` is the shade the caller computed
/// for the escape count; it is read only when the point escaped.
pub fn pixel_color(escape: Option<u32>, palette: Palette, escape_shade: u8) -> (r: u8)
    ensures
        r == pixel_intensity(escape, palette, escape_shade),
{
    match escape {
        Some(_) => escape_shade,
        None => non_escape_color(palette),
    }
}

/// The color rule is deterministic: the intensity of an escaping point
/// depends on its shade alone (never on the palette), and the intensity
/// of a non-escaping point depends on the palette alone (never on the
/// shade). Together with the rule being a function of its arguments,
/// identical escape results under identical settings always color alike.
pub proof fn lemma_color_deterministic(k: u32, p1: Palette, p2: Palette, s1: u8, s2: u8)
    ensures
        pixel_intensity(Some(k), p1, s1) == pixel_intensity(Some(k), p2, s1),
        pixel_intensity(None, p1, s1) == pixel_intensity(None, p1, s2),
{
}

} // verus!
