//! Neighbourhood filters on images stored row by row (`y * width + x`).
//!
//! A filter of distance `d` looks at the `(2d + 1) x (2d + 1)` window centred on each pixel
//! that lies at least `d` pixels from every border. Windows are read row by row, and the
//! results are emitted column by column: all of the first usable column, top to bottom, then
//! the next column.
use vstd::prelude::*;
use vstd::relations::sorted_by;
use vstd::seq_lib::{lemma_sorted_unique, to_multiset_insert, to_multiset_build};
use vstd::arithmetic::div_mod::{lemma_fundamental_div_mod, lemma_fundamental_div_mod_converse};
use crate::pixel::{Rgb, Hex, hex_of, rgb2hex};

verus! {

pub open spec fn ints(s: Seq<u32>) -> Seq<int> {
    s.map_values(|v: u32| v as int)
}

/// Keys in increasing order.
fn sort_keys(keys: &Vec<u32>) -> (res: Vec<u32>)
    ensures
        ints(res@) == ints(keys@).sort(),
        res@.len() == keys@.len(),
{
    let mut out: Vec<u32> = Vec::new();
    let mut i: usize = 0;
    proof {
        assert(ints(out@) =~= ints(keys@.take(0)));
    }
    while i < keys.len()
        invariant
            i <= keys@.len(),
            out@.len() == i,
            forall|a: int, b: int| 0 <= a < b < out@.len() ==> #[trigger] out@[a] <= #[trigger] out@[b],
            ints(out@).to_multiset() == ints(keys@.take(i as int)).to_multiset(),
        decreases keys@.len() - i,
    {
        let v = keys[i];
        let mut j: usize = 0;
        while j < out.len() && out[j] <= v
            invariant
                j <= out@.len(),
                forall|k: int| 0 <= k < j ==> #[trigger] out@[k] <= v,
            decreases out@.len() - j,
        {
            j += 1;
        }
        let ghost before = out@;
        out.insert(j, v);
        proof {
            assert(ints(out@) =~= ints(before).insert(j as int, v as int));
            to_multiset_insert(ints(before), j as int, v as int);
            assert(ints(keys@.take(i + 1)) =~= ints(keys@.take(i as int)).push(v as int));
            to_multiset_build(ints(keys@.take(i as int)), v as int);
            assert forall|a: int, b: int| 0 <= a < b < out@.len() implies #[trigger] out@[a]
                <= #[trigger] out@[b] by {
                if b < j {
                    assert(out@[a] == before[a] && out@[b] == before[b]);
                } else if b == j {
                    assert(out@[a] == before[a]);
                } else if a == j {
                    assert(out@[b] == before[b - 1]);
                    assert(before[j as int] > v);
                    if b - 1 > j {
                        assert(before[j as int] <= before[b - 1]);
                    }
                } else if a < j {
                    assert(out@[a] == before[a] && out@[b] == before[b - 1]);
                } else {
                    assert(out@[a] == before[a - 1] && out@[b] == before[b - 1]);
                }
            }
        }
        i += 1;
    }
    proof {
        assert(keys@.take(keys@.len() as int) =~= keys@);
        ints(keys@).lemma_sort_ensures();
        assert(sorted_by(ints(out@), |x: int, y: int| x <= y)) by {
            assert forall|a: int, b: int| 0 <= a < b < ints(out@).len() implies (|x: int, y: int|
                x <= y)(ints(out@)[a], ints(out@)[b]) by {
                assert(out@[a] <= out@[b]);
            }
        }
        lemma_sorted_unique(ints(out@), ints(keys@).sort(), |x: int, y: int| x <= y);
    }
    out
}

/// What a filter keeps of its window, once the window's keys are sorted.
#[derive(Clone, Copy, Debug, PartialEq, Eq, Structural)]
pub enum Selection {
    /// The pixel of middle rank by `median_key`.
    Median,
    /// The pixel of highest rank by `order_key`.
    Max,
    /// The pixel of lowest rank by `order_key`.
    Min,
    /// Per channel, the halves of the lowest- and highest-ranked pixels by `order_key`, summed.
    Midpoint,
}

/// Sort key of the median filter: blue, then green, then red.
pub open spec fn median_key(p: Rgb) -> int {
    hex_of(p[2], p[1], p[0]) as int
}

/// Sort key of the other filters: red, then green, then blue.
pub open spec fn order_key(p: Rgb) -> int {
    hex_of(p[0], p[1], p[2]) as int
}

pub open spec fn byte0(k: int) -> u8 {
    (k % 256) as u8
}

pub open spec fn byte1(k: int) -> u8 {
    ((k / 256) % 256) as u8
}

pub open spec fn byte2(k: int) -> u8 {
    ((k / 65536) % 256) as u8
}

/// Pixel `i` of the window of distance `d` around `(x, y)`, windows read row by row.
pub open spec fn window_pixel(image: Seq<Rgb>, width: int, d: int, x: int, y: int, i: int) -> Rgb {
    let side = 2 * d + 1;
    image[(y + i / side - d) * width + (x + i % side - d)]
}

/// Number of usable centres along an axis of `len` positions.
pub open spec fn span(len: int, d: int) -> int {
    if len >= 2 * d {
        len - 2 * d
    } else {
        0
    }
}

pub open spec fn key_of(sel: Selection, p: Rgb) -> int {
    if sel == Selection::Median {
        median_key(p)
    } else {
        order_key(p)
    }
}

/// Keys of the window around `(x, y)`, in window order.
pub open spec fn window_keys(sel: Selection, image: Seq<Rgb>, width: int, d: int, x: int, y: int) -> Seq<
    int,
> {
    Seq::new(
        ((2 * d + 1) * (2 * d + 1)) as nat,
        |i: int| key_of(sel, window_pixel(image, width, d, x, y, i)),
    )
}

pub open spec fn select_spec(sel: Selection, s: Seq<int>) -> u32 {
    match sel {
        Selection::Median => pick_median(s),
        Selection::Max => pick_max(s),
        Selection::Min => pick_min(s),
        Selection::Midpoint => pick_midpoint(s),
    }
}

/// Output of a window filter: for each usable centre, column by column, the selection made
/// from its window's sorted keys.
pub open spec fn filter_spec(sel: Selection, image: Seq<Rgb>, width: int, height: int, d: int) -> Seq<u32> {
    let rows = span(height, d);
    Seq::new(
        (span(width, d) * rows) as nat,
        |k: int| select_spec(sel, window_keys(sel, image, width, d, d + k / rows, d + k % rows).sort()),
    )
}

/// The key of middle rank, its bytes read back in the order red, green, blue.
pub open spec fn pick_median(s: Seq<int>) -> u32 {
    let mid = s.len() as int / 2;
    hex_of(byte0(s[mid]), byte1(s[mid]), byte2(s[mid]))
}

/// The greatest key, which is the packed colour itself.
pub open spec fn pick_max(s: Seq<int>) -> u32 {
    s[s.len() - 1] as u32
}

/// The least key, which is the packed colour itself.
pub open spec fn pick_min(s: Seq<int>) -> u32 {
    s[0] as u32
}

/// Per channel, half the least key's value plus half the greatest key's value, each halved
/// before the sum.
pub open spec fn pick_midpoint(s: Seq<int>) -> u32 {
    let last = s.len() - 1;
    hex_of(
        (byte2(s[0]) / 2 + byte2(s[last]) / 2) as u8,
        (byte1(s[0]) / 2 + byte1(s[last]) / 2) as u8,
        (byte0(s[0]) / 2 + byte0(s[last]) / 2) as u8,
    )
}

/// Requirements shared by the window filters.
pub open spec fn window_ok(image: Seq<Rgb>, width: int, height: int, d: int) -> bool {
    &&& image.len() == width * height
    &&& d <= width
    &&& d <= height
    &&& (2 * d + 1) * (2 * d + 1) <= u32::MAX
}

fn gather_keys(image: &Vec<Rgb>, width: usize, height: usize, d: usize, x: usize, y: usize, sel: Selection) -> (res: Vec<u32>)
    requires
        image@.len() == width * height,
        d <= x,
        x + d < width,
        d <= y,
        y + d < height,
        (2 * d + 1) * (2 * d + 1) <= u32::MAX,
    ensures
        ints(res@) == window_keys(sel, image@, width as int, d as int, x as int, y as int),
        res@.len() == (2 * d + 1) * (2 * d + 1),
{
    let n = image.len();
    let side = 2 * d + 1;
    let m = side * side;
    let mut keys: Vec<u32> = Vec::new();
    let mut i: usize = 0;
    while i < m
        invariant
            image@.len() == width * height,
            n == image@.len(),
            d <= x,
            x + d < width,
            d <= y,
            y + d < height,
            side == 2 * d + 1,
            m == side * side,
            i <= m,
            keys@.len() == i,
            forall|k: int|
                0 <= k < i ==> #[trigger] keys@[k] as int == key_of(
                    sel,
                    window_pixel(image@, width as int, d as int, x as int, y as int, k),
                ),
        decreases m - i,
    {
        proof {
            lemma_fundamental_div_mod(i as int, side as int);
            assert(i / side < side) by (nonlinear_arith)
                requires
                    i < side * side,
                    side > 0,
                    i == side * (i / side) + i % side,
                    0 <= i % side < side,
            ;
        }
        let xi = x - d + i % side;
        let yi = y - d + i / side;
        proof {
            assert(yi * width + xi < n) by (nonlinear_arith)
                requires
                    xi < width,
                    yi < height,
                    n == width * height,
            ;
        }
        let p = image[yi * width + xi];
        let key = if sel == Selection::Median {
            rgb2hex(p[2], p[1], p[0])
        } else {
            rgb2hex(p[0], p[1], p[2])
        };
        keys.push(key);
        i += 1;
    }
    proof {
        assert(ints(keys@) =~= window_keys(
            sel,
            image@,
            width as int,
            d as int,
            x as int,
            y as int,
        ));
    }
    keys
}

fn select(sel: Selection, sorted: &Vec<u32>) -> (res: u32)
    requires
        sorted@.len() > 0,
    ensures
        res == select_spec(sel, ints(sorted@)),
{
    let last = sorted.len() - 1;
    match sel {
        Selection::Median => {
            let k = sorted[sorted.len() / 2];
            rgb2hex((k % 256) as u8, ((k / 256) % 256) as u8, ((k / 65536) % 256) as u8)
        },
        Selection::Max => sorted[last],
        Selection::Min => sorted[0],
        Selection::Midpoint => {
            let lo = sorted[0];
            let hi = sorted[last];
            rgb2hex(
                ((lo / 65536) % 256) as u8 / 2 + ((hi / 65536) % 256) as u8 / 2,
                ((lo / 256) % 256) as u8 / 2 + ((hi / 256) % 256) as u8 / 2,
                (lo % 256) as u8 / 2 + (hi % 256) as u8 / 2,
            )
        },
    }
}

fn window_filter(image: &Vec<Rgb>, distance: u32, width: u32, height: u32, sel: Selection) -> (res: Vec<Hex>)
    requires
        window_ok(image@, width as int, height as int, distance as int),
    ensures
        res@ == filter_spec(sel, image@, width as int, height as int, distance as int),
{
    let d = distance as usize;
    let w = width as usize;
    let h = height as usize;
    let cols: usize = if w - d >= d { w - d - d } else { 0 };
    let rows: usize = if h - d >= d { h - d - d } else { 0 };
    let ghost target = filter_spec(sel, image@, width as int, height as int, distance as int);
    proof {
        assert((2 * d + 1) * (2 * d + 1) > 0) by (nonlinear_arith);
    }
    let mut out: Vec<Hex> = Vec::new();
    let mut cx: usize = 0;
    while cx < cols
        invariant
            window_ok(image@, width as int, height as int, distance as int),
            d == distance,
            w == width,
            h == height,
            cols == span(width as int, distance as int),
            rows == span(height as int, distance as int),
            (2 * d + 1) * (2 * d + 1) > 0,
            cx <= cols,
            target == filter_spec(sel, image@, width as int, height as int, distance as int),
            out@.len() == cx * rows,
            forall|k: int| 0 <= k < out@.len() ==> #[trigger] out@[k] == target[k],
        decreases cols - cx,
    {
        let mut cy: usize = 0;
        while cy < rows
            invariant
                window_ok(image@, width as int, height as int, distance as int),
                d == distance,
                w == width,
                h == height,
                cols == span(width as int, distance as int),
                rows == span(height as int, distance as int),
                (2 * d + 1) * (2 * d + 1) > 0,
                cx < cols,
                cy <= rows,
                target == filter_spec(sel, image@, width as int, height as int, distance as int),
                out@.len() == cx * rows + cy,
                forall|k: int| 0 <= k < out@.len() ==> #[trigger] out@[k] == target[k],
            decreases rows - cy,
        {
            let keys = gather_keys(image, w, h, d, d + cx, d + cy, sel);
            let sorted = sort_keys(&keys);
            let v = select(sel, &sorted);
            proof {
                let k = cx * rows + cy;
                lemma_fundamental_div_mod_converse(k, rows as int, cx as int, cy as int);
                assert(cx * rows + cy < cols * rows) by (nonlinear_arith)
                    requires
                        cx < cols,
                        cy < rows,
                ;
            }
            out.push(v);
            cy += 1;
        }
        proof {
            assert((cx + 1) * rows == cx * rows + rows) by (nonlinear_arith);
        }
        cx += 1;
    }
    proof {
        assert(out@ =~= target);
    }
    out
}

/// Median filter: each usable centre becomes the window pixel of middle rank, ordered
/// by blue, then green, then red.
pub fn median(image: Vec<Rgb>, distance: u32, width: u32, height: u32) -> (res: Vec<Hex>)
    requires
        window_ok(image@, width as int, height as int, distance as int),
    ensures
        res@ == filter_spec(Selection::Median, image@, width as int, height as int, distance as int),
{
    window_filter(&image, distance, width, height, Selection::Median)
}

/// Maximum filter: each usable centre becomes the window pixel of highest rank, ordered
/// by red, then green, then blue.
pub fn noise_reduction_max(image: Vec<Rgb>, distance: u32, width: u32, height: u32) -> (res: Vec<Hex>)
    requires
        window_ok(image@, width as int, height as int, distance as int),
    ensures
        res@ == filter_spec(Selection::Max, image@, width as int, height as int, distance as int),
{
    window_filter(&image, distance, width, height, Selection::Max)
}

/// Minimum filter: each usable centre becomes the window pixel of lowest rank, ordered
/// by red, then green, then blue.
pub fn noise_reduction_min(image: Vec<Rgb>, distance: u32, width: u32, height: u32) -> (res: Vec<Hex>)
    requires
        window_ok(image@, width as int, height as int, distance as int),
    ensures
        res@ == filter_spec(Selection::Min, image@, width as int, height as int, distance as int),
{
    window_filter(&image, distance, width, height, Selection::Min)
}

/// Midpoint filter: each channel of a usable centre becomes half the channel of the
/// lowest-ranked window pixel plus half that of the highest-ranked one, ordered by red, then
/// green, then blue.
pub fn noise_reduction_midpoint(image: Vec<Rgb>, distance: u32, width: u32, height: u32) -> (res: Vec<Hex>)
    requires
        window_ok(image@, width as int, height as int, distance as int),
    ensures
        res@ == filter_spec(Selection::Midpoint, image@, width as int, height as int, distance as int),
{
    window_filter(&image, distance, width, height, Selection::Midpoint)
}

} // verus!
