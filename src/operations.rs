//! Point operations on column-major RGBA images (`image[x][y]`).
//!
//! Each operation maps every pixel on its own; alpha is carried over unchanged.
use vstd::prelude::*;
use vstd::arithmetic::div_mod::{lemma_div_is_ordered, lemma_fundamental_div_mod_converse};
use crate::pixel::{Rgba, Image, gray_of, rgb2gray};

verus! {

/// Every column of the image has the same length, and there is at least one column.
pub open spec fn is_rect(image: Seq<Vec<Rgba>>) -> bool {
    &&& image.len() > 0
    &&& forall|x: int| 0 <= x < image.len() ==> #[trigger] image[x]@.len() == image[0]@.len()
}

/// `res` has the shape of `image` and holds `f` of each of its pixels.
pub open spec fn maps_pixels(
    image: Seq<Vec<Rgba>>,
    res: Seq<Vec<Rgba>>,
    f: spec_fn(Rgba) -> Rgba,
) -> bool {
    &&& res.len() == image.len()
    &&& forall|x: int| 0 <= x < image.len() ==> #[trigger] res[x]@.len() == image[x]@.len()
    &&& forall|x: int, y: int|
        0 <= x < image.len() && 0 <= y < image[x]@.len() ==> #[trigger] res[x]@[y] == f(
            image[x]@[y],
        )
}

fn map_pixels<F: Fn(Rgba) -> Rgba>(image: &Image, f: F, Ghost(spec_f): Ghost<
    spec_fn(Rgba) -> Rgba,
>) -> (res: Image)
    requires
        forall|x: int, y: int|
            0 <= x < image@.len() && 0 <= y < image@[x]@.len() ==> #[trigger] f.requires(
                (image@[x]@[y],),
            ),
        forall|p: Rgba, q: Rgba| #[trigger] f.ensures((p,), q) ==> q == spec_f(p),
    ensures
        maps_pixels(image@, res@, spec_f),
{
    let mut out: Image = Vec::new();
    let mut x: usize = 0;
    while x < image.len()
        invariant
            x <= image@.len(),
            forall|x: int, y: int|
                0 <= x < image@.len() && 0 <= y < image@[x]@.len() ==> #[trigger] f.requires(
                    (image@[x]@[y],),
                ),
            forall|p: Rgba, q: Rgba| #[trigger] f.ensures((p,), q) ==> q == spec_f(p),
            out@.len() == x,
            forall|k: int| 0 <= k < x ==> #[trigger] out@[k]@.len() == image@[k]@.len(),
            forall|k: int, y: int|
                0 <= k < x && 0 <= y < image@[k]@.len() ==> #[trigger] out@[k]@[y] == spec_f(
                    image@[k]@[y],
                ),
        decreases image@.len() - x,
    {
        let col = &image[x];
        let mut new_col: Vec<Rgba> = Vec::new();
        let mut y: usize = 0;
        while y < col.len()
            invariant
                x < image@.len(),
                col == image@[x as int],
                y <= col@.len(),
                forall|x: int, y: int|
                    0 <= x < image@.len() && 0 <= y < image@[x]@.len() ==> #[trigger] f.requires(
                        (image@[x]@[y],),
                    ),
                forall|p: Rgba, q: Rgba| #[trigger] f.ensures((p,), q) ==> q == spec_f(p),
                new_col@.len() == y,
                forall|j: int| 0 <= j < y ==> #[trigger] new_col@[j] == spec_f(col@[j]),
            decreases col@.len() - y,
        {
            let q = f(col[y]);
            new_col.push(q);
            y += 1;
        }
        out.push(new_col);
        x += 1;
    }
    out
}

pub open spec fn grayscale_px(p: Rgba) -> Rgba {
    let g = gray_of(p[0], p[1], p[2]);
    [g, g, g, p[3]]
}

pub open spec fn negative_px(p: Rgba) -> Rgba {
    [(255 - p[0]) as u8, (255 - p[1]) as u8, (255 - p[2]) as u8, p[3]]
}

/// A channel below `limiar` drops to zero; the others stay.
pub open spec fn limiarize_channel(v: u8, limiar: u8) -> u8 {
    if v < limiar {
        0
    } else {
        v
    }
}

pub open spec fn limiarize_px(p: Rgba, limiar: u8) -> Rgba {
    [
        limiarize_channel(p[0], limiar),
        limiarize_channel(p[1], limiar),
        limiarize_channel(p[2], limiar),
        p[3],
    ]
}

/// A channel below `limiar` drops to zero; the others rise to 255.
pub open spec fn binarize_channel(v: u8, limiar: u8) -> u8 {
    if v < limiar {
        0
    } else {
        255
    }
}

pub open spec fn binarize_px(p: Rgba, limiar: u8) -> Rgba {
    [
        binarize_channel(p[0], limiar),
        binarize_channel(p[1], limiar),
        binarize_channel(p[2], limiar),
        p[3],
    ]
}

/// Replaces each colour by its gray level.
pub fn grayscale(image: Image) -> (res: Image)
    requires
        is_rect(image@),
    ensures
        maps_pixels(image@, res@, |p: Rgba| grayscale_px(p)),
{
    map_pixels(
        &image,
        (|p: Rgba| -> (q: Rgba)
            ensures
                q == grayscale_px(p),
            {
                let g = rgb2gray(p[0], p[1], p[2]);
                [g, g, g, p[3]]
            }),
        Ghost(|p: Rgba| grayscale_px(p)),
    )
}

/// Inverts each colour channel.
pub fn negative(image: Image) -> (res: Image)
    requires
        is_rect(image@),
    ensures
        maps_pixels(image@, res@, |p: Rgba| negative_px(p)),
{
    map_pixels(
        &image,
        (|p: Rgba| -> (q: Rgba)
            ensures
                q == negative_px(p),
            { [255 - p[0], 255 - p[1], 255 - p[2], p[3]] }),
        Ghost(|p: Rgba| negative_px(p)),
    )
}

/// Zeroes every colour channel below `limiar`.
pub fn limiarize(image: Image, limiar: u8) -> (res: Image)
    requires
        is_rect(image@),
    ensures
        maps_pixels(image@, res@, |p: Rgba| limiarize_px(p, limiar)),
{
    map_pixels(
        &image,
        (|p: Rgba| -> (q: Rgba)
            ensures
                q == limiarize_px(p, limiar),
            {
                [
                    if p[0] < limiar {
                        0
                    } else {
                        p[0]
                    },
                    if p[1] < limiar {
                        0
                    } else {
                        p[1]
                    },
                    if p[2] < limiar {
                        0
                    } else {
                        p[2]
                    },
                    p[3],
                ]
            }),
        Ghost(|p: Rgba| limiarize_px(p, limiar)),
    )
}

/// Sends every colour channel to 0 below `limiar` and to 255 from it on.
pub fn binarize(image: Image, limiar: u8) -> (res: Image)
    requires
        is_rect(image@),
    ensures
        maps_pixels(image@, res@, |p: Rgba| binarize_px(p, limiar)),
{
    map_pixels(
        &image,
        (|p: Rgba| -> (q: Rgba)
            ensures
                q == binarize_px(p, limiar),
            {
                [
                    if p[0] < limiar {
                        0
                    } else {
                        255
                    },
                    if p[1] < limiar {
                        0
                    } else {
                        255
                    },
                    if p[2] < limiar {
                        0
                    } else {
                        255
                    },
                    p[3],
                ]
            }),
        Ghost(|p: Rgba| binarize_px(p, limiar)),
    )
}

/// Lowest value of channel `c` in a column; 255 for an empty column.
pub open spec fn column_min(col: Seq<Rgba>, c: int) -> int
    decreases col.len(),
{
    if col.len() == 0 {
        255
    } else {
        let m = column_min(col.drop_last(), c);
        let v = col.last()[c] as int;
        if v < m {
            v
        } else {
            m
        }
    }
}

/// Highest value of channel `c` in a column; 0 for an empty column.
pub open spec fn column_max(col: Seq<Rgba>, c: int) -> int
    decreases col.len(),
{
    if col.len() == 0 {
        0
    } else {
        let m = column_max(col.drop_last(), c);
        let v = col.last()[c] as int;
        if v > m {
            v
        } else {
            m
        }
    }
}

/// Lowest value of channel `c` over the image; 255 when it has no pixel.
pub open spec fn image_min(image: Seq<Vec<Rgba>>, c: int) -> int
    decreases image.len(),
{
    if image.len() == 0 {
        255
    } else {
        let m = image_min(image.drop_last(), c);
        let v = column_min(image.last()@, c);
        if v < m {
            v
        } else {
            m
        }
    }
}

/// Highest value of channel `c` over the image; 0 when it has no pixel.
pub open spec fn image_max(image: Seq<Vec<Rgba>>, c: int) -> int
    decreases image.len(),
{
    if image.len() == 0 {
        0
    } else {
        let m = image_max(image.drop_last(), c);
        let v = column_max(image.last()@, c);
        if v > m {
            v
        } else {
            m
        }
    }
}

/// `round(255 * (v - lo) / (hi - lo))`, halves rounded up; 0 for a flat range.
pub open spec fn scale_spec(v: int, lo: int, hi: int) -> int {
    if lo < hi {
        (510 * (v - lo) + (hi - lo)) / (2 * (hi - lo))
    } else {
        0
    }
}

pub open spec fn normalize_px(p: Rgba, image: Seq<Vec<Rgba>>) -> Rgba {
    [
        scale_spec(p[0] as int, image_min(image, 0), image_max(image, 0)) as u8,
        scale_spec(p[1] as int, image_min(image, 1), image_max(image, 1)) as u8,
        scale_spec(p[2] as int, image_min(image, 2), image_max(image, 2)) as u8,
        p[3],
    ]
}

proof fn lemma_column_range(col: Seq<Rgba>, c: int)
    requires
        0 <= c < 4,
    ensures
        0 <= column_min(col, c) <= 255,
        0 <= column_max(col, c) <= 255,
        forall|y: int|
            0 <= y < col.len() ==> column_min(col, c) <= #[trigger] col[y][c] <= column_max(col, c),
    decreases col.len(),
{
    if col.len() > 0 {
        let rest = col.drop_last();
        lemma_column_range(rest, c);
        assert forall|y: int| 0 <= y < col.len() implies column_min(col, c) <= #[trigger] col[y][c]
            <= column_max(col, c) by {
            if y < rest.len() {
                assert(rest[y] == col[y]);
            }
        }
    }
}

proof fn lemma_column_bounded(col: Seq<Rgba>, c: int, lo: int, hi: int)
    requires
        0 <= c < 4,
        lo <= 255,
        0 <= hi,
        forall|y: int| 0 <= y < col.len() ==> lo <= #[trigger] col[y][c] <= hi,
    ensures
        lo <= column_min(col, c),
        column_max(col, c) <= hi,
    decreases col.len(),
{
    if col.len() > 0 {
        let rest = col.drop_last();
        assert forall|y: int| 0 <= y < rest.len() implies lo <= #[trigger] rest[y][c] <= hi by {
            assert(rest[y] == col[y]);
        }
        lemma_column_bounded(rest, c, lo, hi);
        assert(lo <= col[col.len() - 1][c] <= hi);
    }
}

proof fn lemma_image_range(image: Seq<Vec<Rgba>>, c: int)
    requires
        0 <= c < 4,
    ensures
        0 <= image_min(image, c) <= 255,
        0 <= image_max(image, c) <= 255,
        forall|x: int, y: int|
            0 <= x < image.len() && 0 <= y < image[x]@.len() ==> image_min(image, c)
                <= #[trigger] image[x]@[y][c] <= image_max(image, c),
    decreases image.len(),
{
    if image.len() > 0 {
        let rest = image.drop_last();
        let last = image.last()@;
        lemma_image_range(rest, c);
        lemma_column_range(last, c);
        assert forall|x: int, y: int|
            0 <= x < image.len() && 0 <= y < image[x]@.len() implies image_min(image, c)
                <= #[trigger] image[x]@[y][c] <= image_max(image, c) by {
            if x < rest.len() {
                assert(rest[x] == image[x]);
            } else {
                assert(last[y] == image[x]@[y]);
            }
        }
    }
}

proof fn lemma_image_bounded(image: Seq<Vec<Rgba>>, c: int, lo: int, hi: int)
    requires
        0 <= c < 4,
        lo <= 255,
        0 <= hi,
        forall|x: int, y: int|
            0 <= x < image.len() && 0 <= y < image[x]@.len() ==> lo <= #[trigger] image[x]@[y][c]
                <= hi,
    ensures
        lo <= image_min(image, c),
        image_max(image, c) <= hi,
    decreases image.len(),
{
    if image.len() > 0 {
        let rest = image.drop_last();
        let last = image.last()@;
        assert forall|x: int, y: int|
            0 <= x < rest.len() && 0 <= y < rest[x]@.len() implies lo <= #[trigger] rest[x]@[y][c]
                <= hi by {
            assert(rest[x] == image[x]);
            assert(lo <= image[x]@[y][c] <= hi);
        }
        lemma_image_bounded(rest, c, lo, hi);
        assert forall|y: int| 0 <= y < last.len() implies lo <= #[trigger] last[y][c] <= hi by {
            assert(lo <= image[image.len() - 1]@[y][c] <= hi);
        }
        lemma_column_bounded(last, c, lo, hi);
    }
}

/// Lowest and highest value of channel `c` over the image.
fn channel_range(image: &Image, c: usize) -> (res: (u8, u8))
    requires
        c < 3,
    ensures
        res.0 == image_min(image@, c as int),
        res.1 == image_max(image@, c as int),
{
    let mut lo: u8 = 255;
    let mut hi: u8 = 0;
    let mut x: usize = 0;
    while x < image.len()
        invariant
            c < 3,
            x <= image@.len(),
            lo == image_min(image@.take(x as int), c as int),
            hi == image_max(image@.take(x as int), c as int),
        decreases image@.len() - x,
    {
        let col = &image[x];
        let ghost before_lo = lo;
        let ghost before_hi = hi;
        let mut clo: u8 = 255;
        let mut chi: u8 = 0;
        let mut y: usize = 0;
        while y < col.len()
            invariant
                c < 3,
                y <= col@.len(),
                clo == column_min(col@.take(y as int), c as int),
                chi == column_max(col@.take(y as int), c as int),
            decreases col@.len() - y,
        {
            let v = col[y][c];
            proof {
                assert(col@.take(y + 1).drop_last() =~= col@.take(y as int));
            }
            if v < clo {
                clo = v;
            }
            if v > chi {
                chi = v;
            }
            y += 1;
        }
        proof {
            assert(col@.take(col@.len() as int) =~= col@);
            assert(image@.take(x + 1).drop_last() =~= image@.take(x as int));
        }
        if clo < lo {
            lo = clo;
        }
        if chi > hi {
            hi = chi;
        }
        x += 1;
    }
    proof {
        assert(image@.take(image@.len() as int) =~= image@);
    }
    (lo, hi)
}

fn scale_channel(v: u8, lo: u8, hi: u8) -> (res: u8)
    requires
        lo <= v <= hi,
    ensures
        res == scale_spec(v as int, lo as int, hi as int),
{
    if lo < hi {
        let d = (v - lo) as u32;
        let r = (hi - lo) as u32;
        proof {
            lemma_div_is_ordered(510 * d + r, 511 * r, 2 * r);
            lemma_fundamental_div_mod_converse(511 * r, 2 * r, 255, r as int);
        }
        ((510 * d + r) / (2 * r)) as u8
    } else {
        0
    }
}

/// Stretches each colour channel so that its lowest value becomes 0 and its highest 255,
/// rounding to the nearest level. A channel whose values are all equal becomes 0.
pub fn normalize(image: Image) -> (res: Image)
    requires
        is_rect(image@),
    ensures
        maps_pixels(image@, res@, |p: Rgba| normalize_px(p, image@)),
{
    let (lo0, hi0) = channel_range(&image, 0);
    let (lo1, hi1) = channel_range(&image, 1);
    let (lo2, hi2) = channel_range(&image, 2);
    proof {
        lemma_image_range(image@, 0);
        lemma_image_range(image@, 1);
        lemma_image_range(image@, 2);
    }
    let ghost img = image@;
    map_pixels(
        &image,
        (|p: Rgba| -> (q: Rgba)
            requires
                lo0 <= p[0] <= hi0,
                lo1 <= p[1] <= hi1,
                lo2 <= p[2] <= hi2,
            ensures
                q == [
                    scale_spec(p[0] as int, lo0 as int, hi0 as int) as u8,
                    scale_spec(p[1] as int, lo1 as int, hi1 as int) as u8,
                    scale_spec(p[2] as int, lo2 as int, hi2 as int) as u8,
                    p[3],
                ],
            {
                [
                    scale_channel(p[0], lo0, hi0),
                    scale_channel(p[1], lo1, hi1),
                    scale_channel(p[2], lo2, hi2),
                    p[3],
                ]
            }),
        Ghost(|p: Rgba| normalize_px(p, img)),
    )
}

/// Normalizer extremes: in a channel whose lowest value `m` is below its highest value `big`,
/// the pixels holding `m` come out as 0 and those holding `big` as 255.
pub proof fn lemma_normalize_extremes(image: Seq<Vec<Rgba>>, c: int, m: int, big: int, x: int, y: int)
    requires
        0 <= c < 3,
        m < big,
        forall|i: int, j: int|
            0 <= i < image.len() && 0 <= j < image[i]@.len() ==> m <= #[trigger] image[i]@[j][c]
                <= big,
        exists|i: int, j: int|
            0 <= i < image.len() && 0 <= j < image[i]@.len() && #[trigger] image[i]@[j][c] == m,
        exists|i: int, j: int|
            0 <= i < image.len() && 0 <= j < image[i]@.len() && #[trigger] image[i]@[j][c] == big,
        0 <= x < image.len(),
        0 <= y < image[x]@.len(),
    ensures
        image[x]@[y][c] == m ==> normalize_px(image[x]@[y], image)[c] == 0,
        image[x]@[y][c] == big ==> normalize_px(image[x]@[y], image)[c] == 255,
{
    lemma_image_range(image, c);
    lemma_image_bounded(image, c, m, big);
    let (i0, j0) = choose|i: int, j: int|
        0 <= i < image.len() && 0 <= j < image[i]@.len() && #[trigger] image[i]@[j][c] == m;
    let (i1, j1) = choose|i: int, j: int|
        0 <= i < image.len() && 0 <= j < image[i]@.len() && #[trigger] image[i]@[j][c] == big;
    assert(image_min(image, c) <= m);
    assert(image_max(image, c) >= big);
    assert(m <= 255 && big >= 0);
    assert(image_min(image, c) == m);
    assert(image_max(image, c) == big);
    let r = big - m;
    lemma_fundamental_div_mod_converse(r, 2 * r, 0, r);
    lemma_fundamental_div_mod_converse(510 * r + r, 2 * r, 255, r);
}

/// Degenerate range: when every pixel holds the same value in channel `c`, the channel comes
/// out as the fallback value 0 everywhere, with no division by a zero range.
pub proof fn lemma_normalize_flat(image: Seq<Vec<Rgba>>, c: int, v: int, x: int, y: int)
    requires
        0 <= c < 3,
        0 <= v <= 255,
        forall|i: int, j: int|
            0 <= i < image.len() && 0 <= j < image[i]@.len() ==> #[trigger] image[i]@[j][c] == v,
        0 <= x < image.len(),
        0 <= y < image[x]@.len(),
    ensures
        normalize_px(image[x]@[y], image)[c] == 0,
{
    lemma_image_bounded(image, c, v, v);
    assert(v <= image_min(image, c));
    assert(image_max(image, c) <= v);
}

/// Channels of `p` among red, green and blue that equal `k`.
pub open spec fn px_count_eq(p: Rgba, k: int) -> int {
    (if p[0] as int == k {
        1int
    } else {
        0int
    }) + (if p[1] as int == k {
        1int
    } else {
        0int
    }) + (if p[2] as int == k {
        1int
    } else {
        0int
    })
}

pub open spec fn column_count_eq(col: Seq<Rgba>, k: int) -> int
    decreases col.len(),
{
    if col.len() == 0 {
        0
    } else {
        column_count_eq(col.drop_last(), k) + px_count_eq(col.last(), k)
    }
}

/// Histogram of the image: colour channels, over all pixels, that equal `k`.
pub open spec fn image_count_eq(image: Seq<Vec<Rgba>>, k: int) -> int
    decreases image.len(),
{
    if image.len() == 0 {
        0
    } else {
        image_count_eq(image.drop_last(), k) + column_count_eq(image.last()@, k)
    }
}

/// Cumulative histogram: colour channels, over all pixels, whose value is at most `v`.
pub open spec fn cumulative(image: Seq<Vec<Rgba>>, v: int) -> int
    decreases v + 1,
{
    if v < 0 {
        0
    } else {
        cumulative(image, v - 1) + image_count_eq(image, v)
    }
}

/// A channel value mapped through the cumulative histogram onto `[0, 255]`.
pub open spec fn equalize_channel(image: Seq<Vec<Rgba>>, v: u8) -> u8 {
    (cumulative(image, v as int) * 255 / cumulative(image, 255)) as u8
}

pub open spec fn equalize_px(p: Rgba, image: Seq<Vec<Rgba>>) -> Rgba {
    [
        equalize_channel(image, p[0]),
        equalize_channel(image, p[1]),
        equalize_channel(image, p[2]),
        p[3],
    ]
}

/// Number of pixels of an image with at least one column, all as long as the first.
pub open spec fn pixel_count(image: Seq<Vec<Rgba>>) -> int {
    (image.len() * image[0]@.len()) as int
}

proof fn lemma_column_count(col: Seq<Rgba>, k: int)
    ensures
        0 <= column_count_eq(col, k) <= 3 * col.len(),
        forall|y: int| 0 <= y < col.len() && #[trigger] col[y][0] as int == k ==> column_count_eq(col, k) >= 1,
    decreases col.len(),
{
    if col.len() > 0 {
        let rest = col.drop_last();
        lemma_column_count(rest, k);
        assert forall|y: int| 0 <= y < col.len() && #[trigger] col[y][0] as int == k implies column_count_eq(col, k) >= 1 by {
            if y < rest.len() {
                assert(rest[y] == col[y]);
            }
        }
    }
}

proof fn lemma_image_count(image: Seq<Vec<Rgba>>, k: int, h: int)
    requires
        forall|x: int| 0 <= x < image.len() ==> #[trigger] image[x]@.len() == h,
        0 <= h,
    ensures
        0 <= image_count_eq(image, k) <= 3 * image.len() * h,
        forall|x: int, y: int|
            0 <= x < image.len() && 0 <= y < h && #[trigger] image[x]@[y][0] as int == k
                ==> image_count_eq(image, k) >= 1,
    decreases image.len(),
{
    if image.len() > 0 {
        let rest = image.drop_last();
        assert forall|x: int| 0 <= x < rest.len() implies #[trigger] rest[x]@.len() == h by {
            assert(rest[x] == image[x]);
        }
        lemma_image_count(rest, k, h);
        lemma_column_count(image.last()@, k);
        assert(3 * rest.len() * h + 3 * h == 3 * image.len() * h) by (nonlinear_arith)
            requires
                rest.len() == image.len() - 1,
        ;
        assert forall|x: int, y: int|
            0 <= x < image.len() && 0 <= y < h && #[trigger] image[x]@[y][0] as int == k
                implies image_count_eq(image, k) >= 1 by {
            if x < rest.len() {
                assert(rest[x] == image[x]);
            } else {
                assert(image.last()@[y][0] as int == k);
            }
        }
    }
}

proof fn lemma_cumulative_bounds(image: Seq<Vec<Rgba>>, v: int, h: int)
    requires
        forall|x: int| 0 <= x < image.len() ==> #[trigger] image[x]@.len() == h,
        0 <= h,
        0 <= v <= 255,
    ensures
        0 <= cumulative(image, v) <= (v + 1) * (3 * image.len() * h),
        forall|w: int| 0 <= w <= v ==> #[trigger] cumulative(image, w) <= cumulative(image, v),
        forall|w: int| 0 <= w <= v ==> #[trigger] image_count_eq(image, w) <= cumulative(image, v),
    decreases v,
{
    lemma_image_count(image, v, h);
    if v > 0 {
        lemma_cumulative_bounds(image, v - 1, h);
        assert(v * (3 * image.len() * h) + 3 * image.len() * h == (v + 1) * (3 * image.len() * h))
            by (nonlinear_arith);
    } else {
        assert(cumulative(image, -1) == 0);
    }
}

/// Adds the red, green and blue values of `p` to a 256-bin histogram.
fn add_pixel(hist: &mut Vec<u64>, p: Rgba)
    requires
        old(hist)@.len() == 256,
        forall|k: int| 0 <= k < 256 ==> #[trigger] old(hist)@[k] <= u64::MAX - 3,
    ensures
        final(hist)@.len() == 256,
        forall|k: int| 0 <= k < 256 ==> #[trigger] final(hist)@[k] == old(hist)@[k] + px_count_eq(p, k),
{
    let a = p[0] as usize;
    let va = hist[a];
    hist.set(a, va + 1);
    let b = p[1] as usize;
    let vb = hist[b];
    hist.set(b, vb + 1);
    let c = p[2] as usize;
    let vc = hist[c];
    hist.set(c, vc + 1);
}

fn histogram(image: &Image) -> (res: Vec<u64>)
    requires
        is_rect(image@),
        pixel_count(image@) <= u32::MAX,
    ensures
        res@.len() == 256,
        forall|k: int| 0 <= k < 256 ==> #[trigger] res@[k] == image_count_eq(image@, k),
{
    let ghost h = image@[0]@.len() as int;
    let mut hist: Vec<u64> = Vec::new();
    let mut k: usize = 0;
    while k < 256
        invariant
            k <= 256,
            hist@.len() == k,
            forall|j: int| 0 <= j < k ==> #[trigger] hist@[j] == 0,
        decreases 256 - k,
    {
        hist.push(0);
        k += 1;
    }
    let mut x: usize = 0;
    while x < image.len()
        invariant
            is_rect(image@),
            h == image@[0]@.len(),
            pixel_count(image@) <= u32::MAX,
            x <= image@.len(),
            hist@.len() == 256,
            forall|k: int| 0 <= k < 256 ==> #[trigger] hist@[k] == image_count_eq(image@.take(x as int), k),
        decreases image@.len() - x,
    {
        let col = &image[x];
        let mut y: usize = 0;
        while y < col.len()
            invariant
                is_rect(image@),
                h == image@[0]@.len(),
                pixel_count(image@) <= u32::MAX,
                x < image@.len(),
                col == image@[x as int],
                y <= col@.len(),
                hist@.len() == 256,
                forall|k: int|
                    0 <= k < 256 ==> #[trigger] hist@[k] == image_count_eq(image@.take(x as int), k)
                        + column_count_eq(col@.take(y as int), k),
            decreases col@.len() - y,
        {
            proof {
                assert forall|k: int| 0 <= k < 256 implies #[trigger] hist@[k] <= u64::MAX - 3 by {
                    let pre = image@.take(x as int);
                    assert forall|i: int| 0 <= i < pre.len() implies #[trigger] pre[i]@.len() == h by {
                        assert(pre[i] == image@[i]);
                    }
                    lemma_image_count(pre, k, h);
                    lemma_column_count(col@.take(y as int), k);
                    assert(3 * x * h + 3 * y <= 3 * pixel_count(image@)) by (nonlinear_arith)
                        requires
                            x < image@.len(),
                            y < h,
                            pixel_count(image@) == image@.len() * h,
                    ;
                }
                assert(col@.take(y + 1).drop_last() =~= col@.take(y as int));
            }
            add_pixel(&mut hist, col[y]);
            y += 1;
        }
        proof {
            assert(col@.take(col@.len() as int) =~= col@);
            assert(image@.take(x + 1).drop_last() =~= image@.take(x as int));
        }
        x += 1;
    }
    proof {
        assert(image@.take(image@.len() as int) =~= image@);
    }
    hist
}

/// Spreads the colour channels over `[0, 255]` by the cumulative histogram of all red, green
/// and blue values: value `v` becomes `255 * cdf(v) / cdf(255)`, rounded down.
pub fn equalize(image: Image) -> (res: Image)
    requires
        is_rect(image@),
        pixel_count(image@) <= u32::MAX,
    ensures
        maps_pixels(image@, res@, |p: Rgba| equalize_px(p, image@)),
{
    let hist = histogram(&image);
    let ghost h = image@[0]@.len() as int;
    let mut cum: Vec<u64> = Vec::new();
    let mut sum: u64 = 0;
    let mut v: usize = 0;
    while v < 256
        invariant
            is_rect(image@),
            h == image@[0]@.len(),
            pixel_count(image@) <= u32::MAX,
            v <= 256,
            hist@.len() == 256,
            forall|k: int| 0 <= k < 256 ==> #[trigger] hist@[k] == image_count_eq(image@, k),
            cum@.len() == v,
            sum == cumulative(image@, v - 1),
            forall|k: int| 0 <= k < v ==> #[trigger] cum@[k] == cumulative(image@, k),
        decreases 256 - v,
    {
        proof {
            assert(forall|x: int| 0 <= x < image@.len() ==> #[trigger] image@[x]@.len() == h);
            lemma_cumulative_bounds(image@, v as int, h);
            assert((v + 1) * (3 * image@.len() * h) <= 256 * (3 * pixel_count(image@))) by (nonlinear_arith)
                requires
                    v < 256,
                    pixel_count(image@) == image@.len() * h,
                    h >= 0,
            ;
        }
        sum = sum + hist[v];
        cum.push(sum);
        v += 1;
    }
    proof {
        assert(forall|x: int| 0 <= x < image@.len() ==> #[trigger] image@[x]@.len() == h);
        lemma_cumulative_bounds(image@, 255, h);
        assert(256 * (3 * image@.len() * h) <= 256 * 3 * u32::MAX) by (nonlinear_arith)
            requires
                image@.len() * h <= u32::MAX,
                h >= 0,
        ;
        if h > 0 {
            lemma_image_count(image@, image@[0]@[0][0] as int, h);
        }
    }
    let ghost img = image@;
    map_pixels(
        &image,
        (|p: Rgba| -> (q: Rgba)
            requires
                sum > 0,
                sum == cumulative(img, 255),
                cum@.len() == 256,
                forall|k: int| 0 <= k < 256 ==> #[trigger] cum@[k] == cumulative(img, k),
                forall|k: int| 0 <= k < 256 ==> #[trigger] cum@[k] <= 256 * 3 * u32::MAX,
            ensures
                q == equalize_px(p, img),
            {
                [
                    (cum[p[0] as usize] * 255 / sum) as u8,
                    (cum[p[1] as usize] * 255 / sum) as u8,
                    (cum[p[2] as usize] * 255 / sum) as u8,
                    p[3],
                ]
            }),
        Ghost(|p: Rgba| equalize_px(p, img)),
    )
}

} // verus!
