//! Zhang-Suen skeletonization on a binary image stored row by row (`y * width + x`).
//!
//! Border pixels never belong to the foreground, so every foreground pixel has its eight
//! neighbours inside the grid. Neighbours are listed clockwise from north:
//! `p[1]` north, `p[2]` north-east, `p[3]` east, ..., `p[8]` north-west; `p[0]` is the pixel.
use vstd::prelude::*;
use crate::pixel::{Rgb, Hex, WHITE, BLACK};
use crate::grid::{interior, lemma_interior_index};

verus! {

/// Foreground lies off the border only.
pub open spec fn border_clear(b: Seq<bool>, width: int, height: int) -> bool {
    forall|i: int| 0 <= i < b.len() ==> #[trigger] b[i] ==> interior(i, width, height)
}

pub open spec fn binarize_vector_spec(image: Seq<Rgb>, width: int, height: int) -> Seq<bool> {
    Seq::new(
        (width * height) as nat,
        |i: int|
            interior(i, width, height) && (image[i][0] != 0 || image[i][1] != 0 || image[i][2]
                != 0),
    )
}

/// Number of true entries among `p[1]`, ..., `p[hi - 1]`.
pub open spec fn count_from_one(p: Seq<bool>, hi: int) -> int
    decreases hi,
{
    if hi <= 1 {
        0
    } else {
        count_from_one(p, hi - 1) + if p[hi - 1] {
            1int
        } else {
            0int
        }
    }
}

/// Number of `i` in `[1, hi)` with `p[i]` false and `p[i + 1]` true.
pub open spec fn rises_from_one(p: Seq<bool>, hi: int) -> int
    decreases hi,
{
    if hi <= 1 {
        0
    } else {
        rises_from_one(p, hi - 1) + if !p[hi - 1] && p[hi] {
            1int
        } else {
            0int
        }
    }
}

/// Foreground neighbours of a neighbourhood.
pub open spec fn neighbors_spec(p: Seq<bool>) -> int {
    count_from_one(p, 9)
}

/// Background-to-foreground steps around the neighbourhood, `p[8]` back to `p[1]` included.
pub open spec fn transitions_spec(p: Seq<bool>) -> int {
    rises_from_one(p, 8) + if !p[8] && p[1] {
        1int
    } else {
        0int
    }
}

/// The pixel at `t` followed by its eight neighbours, clockwise from north.
pub open spec fn neighborhood(b: Seq<bool>, t: int, width: int) -> Seq<bool> {
    seq![
        b[t],
        b[t - width],
        b[t - width + 1],
        b[t + 1],
        b[t + width + 1],
        b[t + width],
        b[t + width - 1],
        b[t - 1],
        b[t - width - 1],
    ]
}

pub open spec fn deletable(p: Seq<bool>) -> bool {
    p[0] && 2 <= neighbors_spec(p) <= 6 && transitions_spec(p) == 1
}

/// First sub-iteration: a deletable pixel is marked unless north, east and south are all
/// set, or east, south and west are all set.
pub open spec fn step1_mark(p: Seq<bool>) -> bool {
    deletable(p) && !(p[1] && p[3] && p[5]) && !(p[3] && p[5] && p[7])
}

/// Second sub-iteration: a deletable pixel is marked unless north, east and west are all
/// set, or north, south and west are all set.
pub open spec fn step2_mark(p: Seq<bool>) -> bool {
    deletable(p) && !(p[1] && p[3] && p[7]) && !(p[1] && p[5] && p[7])
}

pub open spec fn step1_spec(b: Seq<bool>, width: int) -> Seq<bool> {
    Seq::new(b.len(), |t: int| b[t] && step1_mark(neighborhood(b, t, width)))
}

pub open spec fn step2_spec(b: Seq<bool>, width: int) -> Seq<bool> {
    Seq::new(b.len(), |t: int| b[t] && step2_mark(neighborhood(b, t, width)))
}

/// Clears the marked pixels.
pub open spec fn erase(b: Seq<bool>, marks: Seq<bool>) -> Seq<bool> {
    Seq::new(b.len(), |i: int| b[i] && !marks[i])
}

/// One full iteration: both sub-iterations, each on the result of the one before.
pub open spec fn thinning_round(b: Seq<bool>, width: int) -> Seq<bool> {
    let b1 = erase(b, step1_spec(b, width));
    erase(b1, step2_spec(b1, width))
}

pub open spec fn count_true(s: Seq<bool>) -> nat
    decreases s.len(),
{
    if s.len() == 0 {
        0
    } else {
        count_true(s.drop_last()) + if s.last() {
            1nat
        } else {
            0nat
        }
    }
}

/// Iterations repeated until one of them clears nothing.
pub open spec fn thin_spec(b: Seq<bool>, width: int) -> Seq<bool>
    decreases count_true(b),
{
    let n = thinning_round(b, width);
    if count_true(n) < count_true(b) {
        thin_spec(n, width)
    } else {
        b
    }
}

pub open spec fn skeleton_color(v: bool) -> Hex {
    if v {
        WHITE
    } else {
        BLACK
    }
}

proof fn lemma_count_subset(a: Seq<bool>, b: Seq<bool>)
    requires
        a.len() == b.len(),
        forall|i: int| 0 <= i < a.len() ==> #[trigger] a[i] ==> b[i],
    ensures
        count_true(a) <= count_true(b),
        (exists|i: int| 0 <= i < a.len() && #[trigger] b[i] && !a[i]) ==> count_true(a)
            < count_true(b),
    decreases a.len(),
{
    if a.len() > 0 {
        let a2 = a.drop_last();
        let b2 = b.drop_last();
        assert forall|i: int| 0 <= i < a2.len() implies #[trigger] a2[i] ==> b2[i] by {
            assert(a2[i] == a[i] && b2[i] == b[i]);
        }
        lemma_count_subset(a2, b2);
        if exists|i: int| 0 <= i < a.len() && #[trigger] b[i] && !a[i] {
            let i = choose|i: int| 0 <= i < a.len() && #[trigger] b[i] && !a[i];
            if i < a.len() - 1 {
                assert(b2[i] && !a2[i]);
            }
        }
    }
}

/// Binary mask of the image: set where a pixel is off the border and not black.
pub fn binarize_vector(image: Vec<Rgb>, width: u32, height: u32) -> (res: Vec<bool>)
    requires
        image@.len() == width * height,
    ensures
        res@ == binarize_vector_spec(image@, width as int, height as int),
        border_clear(res@, width as int, height as int),
{
    let n = image.len();
    let w = width as usize;
    let h = height as usize;
    let mut out: Vec<bool> = Vec::new();
    let mut i: usize = 0;
    while i < n
        invariant
            n == image@.len(),
            n == width * height,
            w == width,
            h == height,
            i <= n,
            out@.len() == i,
            forall|k: int|
                0 <= k < i ==> #[trigger] out@[k] == binarize_vector_spec(
                    image@,
                    width as int,
                    height as int,
                )[k],
        decreases n - i,
    {
        let x = i % w;
        let y = i / w;
        let inner = 0 < x && x + 1 < w && 0 < y && y + 1 < h;
        let pixel = image[i];
        out.push(inner && (pixel[0] != 0 || pixel[1] != 0 || pixel[2] != 0));
        i += 1;
    }
    proof {
        assert(out@ =~= binarize_vector_spec(image@, width as int, height as int));
    }
    out
}

/// Foreground neighbours of `p[0]`: set entries among `p[1]`, ..., `p[8]`.
pub fn count_neighbors(p: &Vec<bool>) -> (res: u8)
    requires
        p@.len() >= 9,
    ensures
        res == neighbors_spec(p@),
{
    let mut total: u8 = 0;
    let mut i: usize = 1;
    while i < 9
        invariant
            1 <= i <= 9,
            p@.len() >= 9,
            total == count_from_one(p@, i as int),
            total <= i,
        decreases 9 - i,
    {
        if p[i] {
            total += 1;
        }
        i += 1;
    }
    total
}

/// Background-to-foreground steps in the cyclic sequence `p[1]`, ..., `p[8]`, `p[1]`.
pub fn transitions(p: &Vec<bool>) -> (res: u8)
    requires
        p@.len() >= 9,
    ensures
        res == transitions_spec(p@),
{
    let mut total: u8 = 0;
    let mut i: usize = 1;
    while i < 8
        invariant
            1 <= i <= 8,
            p@.len() >= 9,
            total == rises_from_one(p@, i as int),
            total <= i,
        decreases 8 - i,
    {
        if !p[i] && p[i + 1] {
            total += 1;
        }
        i += 1;
    }
    if !p[8] && p[1] {
        total += 1;
    }
    total
}

fn gather_neighborhood(b: &Vec<bool>, t: usize, width: usize) -> (res: Vec<bool>)
    requires
        width + 1 <= t,
        t + width + 1 < b@.len() <= usize::MAX,
    ensures
        res@ == neighborhood(b@, t as int, width as int),
{
    let mut p: Vec<bool> = Vec::new();
    p.push(b[t]);
    p.push(b[t - width]);
    p.push(b[t - width + 1]);
    p.push(b[t + 1]);
    p.push(b[t + width + 1]);
    p.push(b[t + width]);
    p.push(b[t + width - 1]);
    p.push(b[t - 1]);
    p.push(b[t - width - 1]);
    proof {
        assert(p@ =~= neighborhood(b@, t as int, width as int));
    }
    p
}

fn zhang_suen_step(image_borders: &Vec<bool>, width: u32, height: u32, first: bool) -> (res: Vec<
    bool,
>)
    requires
        image_borders@.len() == width * height,
        border_clear(image_borders@, width as int, height as int),
    ensures
        first ==> res@ == step1_spec(image_borders@, width as int),
        !first ==> res@ == step2_spec(image_borders@, width as int),
{
    let n = image_borders.len();
    let w = width as usize;
    let mut marked: Vec<bool> = Vec::new();
    let mut t: usize = 0;
    while t < n
        invariant
            n == image_borders@.len(),
            n == width * height,
            w == width,
            border_clear(image_borders@, width as int, height as int),
            t <= n,
            marked@.len() == t,
            forall|k: int|
                0 <= k < t ==> #[trigger] marked@[k] == (image_borders@[k] && if first {
                    step1_mark(neighborhood(image_borders@, k, width as int))
                } else {
                    step2_mark(neighborhood(image_borders@, k, width as int))
                }),
        decreases n - t,
    {
        if image_borders[t] {
            proof {
                lemma_interior_index(t as int, width as int, height as int);
            }
            let p = gather_neighborhood(image_borders, t, w);
            let num_neighbors = count_neighbors(&p);
            let num_transitions = transitions(&p);
            let keep_a = if first {
                p[1] && p[3] && p[5]
            } else {
                p[1] && p[3] && p[7]
            };
            let keep_b = if first {
                p[3] && p[5] && p[7]
            } else {
                p[1] && p[5] && p[7]
            };
            marked.push(
                num_neighbors >= 2 && num_neighbors <= 6 && num_transitions == 1 && !keep_a
                    && !keep_b,
            );
        } else {
            marked.push(false);
        }
        t += 1;
    }
    proof {
        if first {
            assert(marked@ =~= step1_spec(image_borders@, width as int));
        } else {
            assert(marked@ =~= step2_spec(image_borders@, width as int));
        }
    }
    marked
}

/// Marks the pixels that the first Zhang-Suen sub-iteration deletes.
pub fn zhang_suen_step_1(image_borders: &Vec<bool>, width: u32, height: u32) -> (res: Vec<bool>)
    requires
        image_borders@.len() == width * height,
        border_clear(image_borders@, width as int, height as int),
    ensures
        res@ == step1_spec(image_borders@, width as int),
{
    zhang_suen_step(image_borders, width, height, true)
}

/// Marks the pixels that the second Zhang-Suen sub-iteration deletes.
pub fn zhang_suen_step_2(image_borders: &Vec<bool>, width: u32, height: u32) -> (res: Vec<bool>)
    requires
        image_borders@.len() == width * height,
        border_clear(image_borders@, width as int, height as int),
    ensures
        res@ == step2_spec(image_borders@, width as int),
{
    zhang_suen_step(image_borders, width, height, false)
}

/// Clears the marked pixels; reports whether any pixel was marked.
fn erase_marked(b: &mut Vec<bool>, marks: &Vec<bool>) -> (changed: bool)
    requires
        marks@.len() == old(b)@.len(),
        forall|i: int| 0 <= i < marks@.len() ==> #[trigger] marks@[i] ==> old(b)@[i],
    ensures
        final(b)@ == erase(old(b)@, marks@),
        changed ==> count_true(final(b)@) < count_true(old(b)@),
        !changed ==> final(b)@ == old(b)@,
{
    let ghost start = b@;
    let mut changed = false;
    let mut i: usize = 0;
    while i < marks.len()
        invariant
            marks@.len() == start.len(),
            forall|i: int| 0 <= i < marks@.len() ==> #[trigger] marks@[i] ==> start[i],
            i <= marks@.len(),
            b@.len() == start.len(),
            forall|k: int| 0 <= k < i ==> #[trigger] b@[k] == (start[k] && !marks@[k]),
            forall|k: int| i <= k < b@.len() ==> #[trigger] b@[k] == start[k],
            changed <==> exists|k: int| 0 <= k < i && #[trigger] marks@[k],
        decreases marks@.len() - i,
    {
        if marks[i] {
            b.set(i, false);
            changed = true;
        }
        i += 1;
    }
    proof {
        assert(b@ =~= erase(start, marks@));
        assert forall|k: int| 0 <= k < b@.len() implies #[trigger] b@[k] ==> start[k] by {}
        if changed {
            let k = choose|k: int| 0 <= k < i && #[trigger] marks@[k];
            assert(start[k] && !b@[k]);
        } else {
            assert(b@ =~= start);
        }
        lemma_count_subset(b@, start);
    }
    changed
}

proof fn lemma_erase_keeps_border(b: Seq<bool>, marks: Seq<bool>, width: int, height: int)
    requires
        border_clear(b, width, height),
        marks.len() == b.len(),
    ensures
        border_clear(erase(b, marks), width, height),
{
}

/// Thins the foreground of the image to a one-pixel-wide skeleton: white for the skeleton,
/// black elsewhere.
pub fn zhang_suen_thinning(image: Vec<Rgb>, width: u32, height: u32) -> (res: Vec<Hex>)
    requires
        image@.len() == width * height,
    ensures
        res@.len() == width * height,
        forall|i: int|
            0 <= i < width * height ==> #[trigger] res@[i] == skeleton_color(
                thin_spec(binarize_vector_spec(image@, width as int, height as int), width as int)[i],
            ),
{
    let ghost start = binarize_vector_spec(image@, width as int, height as int);
    let mut binary_image = binarize_vector(image, width, height);
    loop
        invariant
            binary_image@.len() == width * height,
            border_clear(binary_image@, width as int, height as int),
            thin_spec(binary_image@, width as int) == thin_spec(start, width as int),
        ensures
            binary_image@.len() == width * height,
            binary_image@ == thin_spec(start, width as int),
        decreases count_true(binary_image@),
    {
        let ghost before = binary_image@;
        let marked = zhang_suen_step_1(&binary_image, width, height);
        let changed1 = erase_marked(&mut binary_image, &marked);
        proof {
            lemma_erase_keeps_border(before, marked@, width as int, height as int);
        }
        let ghost middle = binary_image@;
        let marked = zhang_suen_step_2(&binary_image, width, height);
        let changed2 = erase_marked(&mut binary_image, &marked);
        proof {
            lemma_erase_keeps_border(middle, marked@, width as int, height as int);
            assert(binary_image@ == thinning_round(before, width as int));
        }
        if !changed1 && !changed2 {
            proof {
                assert(thin_spec(before, width as int) == before);
            }
            break;
        }
    }
    let mut out: Vec<Hex> = Vec::new();
    let mut i: usize = 0;
    while i < binary_image.len()
        invariant
            i <= binary_image@.len(),
            out@.len() == i,
            forall|k: int| 0 <= k < i ==> #[trigger] out@[k] == skeleton_color(binary_image@[k]),
        decreases binary_image@.len() - i,
    {
        out.push(if binary_image[i] { WHITE } else { BLACK });
        i += 1;
    }
    out
}

} // verus!
