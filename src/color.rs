//! Per-pixel colour mappings from RGB pixels to packed colours.
use vstd::prelude::*;
use crate::pixel::{Rgb, Hex, gray_of, hex_of, rgb2gray, rgb2hex};

verus! {

/// Pseudo-colour ramp of a gray level: blue rising, then green rising, then blue falling,
/// then red rising, in four bands of 64 levels.
pub open spec fn color_ramp(g: u8) -> u32 {
    if g <= 63 {
        hex_of(0, 0, (g * 4) as u8)
    } else if g <= 127 {
        hex_of(0, ((g - 64) * 4) as u8, 255)
    } else if g <= 191 {
        hex_of(0, 255, (255 - (g - 128) * 4) as u8)
    } else {
        hex_of(((g - 192) * 4) as u8, 255, 0)
    }
}

/// One channel of a pixel kept, the others cleared; an unknown channel clears all three.
pub open spec fn channel_only(p: Rgb, channel: int) -> u32 {
    if channel == 0 {
        hex_of(p[0], 0, 0)
    } else if channel == 1 {
        hex_of(0, p[1], 0)
    } else if channel == 2 {
        hex_of(0, 0, p[2])
    } else {
        hex_of(0, 0, 0)
    }
}

/// Maps the gray level of each pixel onto the pseudo-colour ramp.
pub fn gray_to_color_scale(image: Vec<Rgb>) -> (res: Vec<Hex>)
    ensures
        res@.len() == image@.len(),
        forall|i: int|
            0 <= i < image@.len() ==> #[trigger] res@[i] == color_ramp(
                gray_of(image@[i][0], image@[i][1], image@[i][2]),
            ),
{
    let mut out: Vec<Hex> = Vec::new();
    let mut i: usize = 0;
    while i < image.len()
        invariant
            i <= image@.len(),
            out@.len() == i,
            forall|k: int|
                0 <= k < i ==> #[trigger] out@[k] == color_ramp(
                    gray_of(image@[k][0], image@[k][1], image@[k][2]),
                ),
        decreases image@.len() - i,
    {
        let p = image[i];
        let gray = rgb2gray(p[0], p[1], p[2]);
        let color = if gray <= 63 {
            rgb2hex(0, 0, gray * 4)
        } else if gray <= 127 {
            rgb2hex(0, (gray - 64) * 4, 255)
        } else if gray <= 191 {
            rgb2hex(0, 255, 255 - (gray - 128) * 4)
        } else {
            rgb2hex((gray - 192) * 4, 255, 0)
        };
        out.push(color);
        i += 1;
    }
    out
}

/// Keeps one colour channel of each pixel (0 red, 1 green, 2 blue).
pub fn split_color_channel(image: Vec<Rgb>, channel: usize) -> (res: Vec<Hex>)
    ensures
        res@.len() == image@.len(),
        forall|i: int|
            0 <= i < image@.len() ==> #[trigger] res@[i] == channel_only(image@[i], channel as int),
{
    let mut out: Vec<Hex> = Vec::new();
    let mut i: usize = 0;
    while i < image.len()
        invariant
            i <= image@.len(),
            out@.len() == i,
            forall|k: int|
                0 <= k < i ==> #[trigger] out@[k] == channel_only(image@[k], channel as int),
        decreases image@.len() - i,
    {
        let p = image[i];
        let color = if channel == 0 {
            rgb2hex(p[0], 0, 0)
        } else if channel == 1 {
            rgb2hex(0, p[1], 0)
        } else if channel == 2 {
            rgb2hex(0, 0, p[2])
        } else {
            rgb2hex(0, 0, 0)
        };
        out.push(color);
        i += 1;
    }
    out
}

} // verus!
