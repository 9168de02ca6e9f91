//! Binary morphology with a cross-shaped structuring element on images stored row by row
//! (`y * width + x`). A pixel is lit when its gray level is above zero. Only pixels off the
//! border act as centres; the output is white (`0xFFFFFFFF`) where the operation holds and
//! fully transparent black (`0`) elsewhere.
use vstd::prelude::*;
use crate::pixel::{Rgb, Hex, WHITE, gray_of, rgb2gray};
use crate::grid::{interior, lemma_interior_index};

verus! {

pub open spec fn lit(image: Seq<Rgb>, t: int) -> bool {
    gray_of(image[t][0], image[t][1], image[t][2]) > 0
}

/// Erosion: an off-border pixel stays when it and its four edge neighbours are lit.
pub open spec fn erosion_spec(image: Seq<Rgb>, width: int, height: int) -> Seq<u32> {
    Seq::new(
        image.len(),
        |t: int|
            if interior(t, width, height) && lit(image, t) && lit(image, t - 1) && lit(image, t + 1)
                && lit(image, t - width) && lit(image, t + width) {
                WHITE
            } else {
                0u32
            },
    )
}

/// A pixel position that is an off-border lit centre.
pub open spec fn lit_centre(image: Seq<Rgb>, width: int, height: int, s: int) -> bool {
    0 <= s < image.len() && interior(s, width, height) && lit(image, s)
}

/// Dilation: a pixel turns white when it or one of its four edge neighbours is an off-border
/// lit centre.
pub open spec fn dilation_spec(image: Seq<Rgb>, width: int, height: int) -> Seq<u32> {
    Seq::new(
        image.len(),
        |t: int|
            if lit_centre(image, width, height, t) || lit_centre(image, width, height, t - 1)
                || lit_centre(image, width, height, t + 1) || lit_centre(image, width, height, t
                - width) || lit_centre(image, width, height, t + width) {
                WHITE
            } else {
                0u32
            },
    )
}

/// Requirements shared by erosion and dilation.
pub open spec fn morphology_ok(image: Seq<Rgb>, width: int, height: int) -> bool {
    &&& 0 <= width
    &&& 0 <= height
    &&& image.len() == width * height
}

fn is_interior(t: usize, w: usize, h: usize) -> (res: bool)
    requires
        w > 0,
    ensures
        res == interior(t as int, w as int, h as int),
{
    let x = t % w;
    let y = t / w;
    0 < x && x + 1 < w && 0 < y && y < h && h - y > 1
}

fn is_lit(image: &Vec<Rgb>, t: usize) -> (res: bool)
    requires
        t < image@.len(),
    ensures
        res == lit(image@, t as int),
{
    let p = image[t];
    rgb2gray(p[0], p[1], p[2]) > 0
}

fn is_lit_centre(image: &Vec<Rgb>, w: usize, h: usize, s: usize) -> (res: bool)
    requires
        w > 0,
    ensures
        res == lit_centre(image@, w as int, h as int, s as int),
{
    s < image.len() && is_interior(s, w, h) && is_lit(image, s)
}

/// Erodes the lit region by a cross.
pub fn erosion(image: Vec<Rgb>, width: i32, height: i32) -> (res: Vec<Hex>)
    requires
        morphology_ok(image@, width as int, height as int),
    ensures
        res@ == erosion_spec(image@, width as int, height as int),
{
    let n = image.len();
    let w = width as usize;
    let h = height as usize;
    let mut out: Vec<Hex> = Vec::new();
    let mut t: usize = 0;
    while t < n
        invariant
            n == image@.len(),
            morphology_ok(image@, width as int, height as int),
            w == width,
            h == height,
            t <= n,
            out@.len() == t,
            forall|k: int|
                0 <= k < t ==> #[trigger] out@[k] == erosion_spec(
                    image@,
                    width as int,
                    height as int,
                )[k],
        decreases n - t,
    {
        let keep = if w > 0 && is_interior(t, w, h) {
            proof {
                lemma_interior_index(t as int, w as int, h as int);
            }
            is_lit(&image, t) && is_lit(&image, t - 1) && is_lit(&image, t + 1) && is_lit(
                &image,
                t - w,
            ) && is_lit(&image, t + w)
        } else {
            false
        };
        out.push(if keep { WHITE } else { 0 });
        t += 1;
    }
    proof {
        assert(out@ =~= erosion_spec(image@, width as int, height as int));
    }
    out
}

/// Dilates the lit off-border pixels by a cross.
pub fn dilation(image: Vec<Rgb>, width: i32, height: i32) -> (res: Vec<Hex>)
    requires
        morphology_ok(image@, width as int, height as int),
    ensures
        res@ == dilation_spec(image@, width as int, height as int),
{
    let n = image.len();
    let w = width as usize;
    let h = height as usize;
    let mut out: Vec<Hex> = Vec::new();
    let mut t: usize = 0;
    while t < n
        invariant
            n == image@.len(),
            morphology_ok(image@, width as int, height as int),
            w == width,
            h == height,
            t <= n,
            out@.len() == t,
            forall|k: int|
                0 <= k < t ==> #[trigger] out@[k] == dilation_spec(
                    image@,
                    width as int,
                    height as int,
                )[k],
        decreases n - t,
    {
        let hit = if w == 0 {
            false
        } else {
            is_lit_centre(&image, w, h, t) || (t >= 1 && is_lit_centre(&image, w, h, t - 1))
                || is_lit_centre(&image, w, h, t + 1) || (t >= w && is_lit_centre(
                &image,
                w,
                h,
                t - w,
            )) || (n - t > w && is_lit_centre(&image, w, h, t + w))
        };
        out.push(if hit { WHITE } else { 0 });
        t += 1;
    }
    proof {
        assert(out@ =~= dilation_spec(image@, width as int, height as int));
    }
    out
}

} // verus!
