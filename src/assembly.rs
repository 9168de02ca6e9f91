//! Order-preserving reassembly of worker segments.
//!
//! Worker `i` owns block `i` of an axis and returns, for each position of its block in
//! increasing order, the values of every position of the other axis. Joining the segments
//! by block index yields the grid with the partitioned axis outermost; a spatial grid is
//! then laid out row by row.
use vstd::prelude::*;
use vstd::arithmetic::div_mod::{lemma_fundamental_div_mod, lemma_fundamental_div_mod_converse};
use crate::grid::{GridError, area, spatial_index, frequency_index};
use crate::partition::{block_start, lemma_block_start_bounds};

verus! {

/// Segments joined one after another, first segment first.
pub open spec fn flatten<T>(segs: Seq<Seq<T>>) -> Seq<T>
    decreases segs.len(),
{
    if segs.len() == 0 {
        Seq::empty()
    } else {
        flatten(segs.drop_last()) + segs.last()
    }
}

pub open spec fn segment_views<T>(segs: Seq<Vec<T>>) -> Seq<Seq<T>> {
    segs.map_values(|s: Vec<T>| s@)
}

/// Values of `g` over outer positions `[start, end)` and inner positions `[0, inner)`,
/// outer index first.
pub open spec fn block_values<T>(g: spec_fn(int, int) -> T, start: int, end: int, inner: int) -> Seq<
    T,
> {
    Seq::new(((end - start) * inner) as nat, |k: int| g(start + k / inner, k % inner))
}

/// Each segment holds exactly what its worker owes: the values of `g` over its block.
pub open spec fn computes_blocks<T>(
    segs: Seq<Seq<T>>,
    g: spec_fn(int, int) -> T,
    n: int,
    inner: int,
    workers: int,
) -> bool {
    &&& segs.len() == workers
    &&& forall|i: int|
        0 <= i < workers ==> #[trigger] segs[i] == block_values(
            g,
            block_start(i, n, workers),
            block_start(i + 1, n, workers),
            inner,
        )
}

/// A grid laid out outer index first, seen row by row: cell `(x, y)` of the result,
/// at `y * width + x`, is cell `x * height + y` of `s`.
pub open spec fn transposed<T>(s: Seq<T>, width: int, height: int) -> Seq<T> {
    Seq::new((width * height) as nat, |i: int| s[frequency_index(i % width, i / width, height)])
}

/// Joins worker segments in block order.
pub fn concat_segments<T: Copy>(segments: &Vec<Vec<T>>) -> (res: Vec<T>)
    ensures
        res@ == flatten(segment_views(segments@)),
{
    let ghost views = segment_views(segments@);
    let mut out: Vec<T> = Vec::new();
    let mut k: usize = 0;
    while k < segments.len()
        invariant
            k <= segments.len(),
            views == segment_views(segments@),
            out@ == flatten(views.take(k as int)),
        decreases segments.len() - k,
    {
        let seg = &segments[k];
        let ghost before = out@;
        let mut j: usize = 0;
        while j < seg.len()
            invariant
                j <= seg.len(),
                out@ == before + seg@.take(j as int),
            decreases seg.len() - j,
        {
            out.push(seg[j]);
            j += 1;
            proof {
                assert(out@ =~= before + seg@.take(j as int));
            }
        }
        proof {
            assert(seg@.take(seg.len() as int) =~= seg@);
            assert(views.take(k + 1).drop_last() =~= views.take(k as int));
            assert(views.take(k + 1).last() == seg@);
        }
        k += 1;
    }
    proof {
        assert(views.take(segments.len() as int) =~= views);
    }
    out
}

proof fn lemma_div_mod_shift(k: int, m: int, inner: int)
    requires
        0 <= k,
        0 < inner,
    ensures
        (m * inner + k) / inner == m + k / inner,
        (m * inner + k) % inner == k % inner,
{
    lemma_fundamental_div_mod(k, inner);
    let q = k / inner;
    let r = k % inner;
    assert(m * inner + k == (m + q) * inner + r) by (nonlinear_arith)
        requires
            k == inner * q + r,
    ;
    lemma_fundamental_div_mod_converse(m * inner + k, inner, m + q, r);
}

proof fn lemma_block_values_join<T>(g: spec_fn(int, int) -> T, a: int, b: int, c: int, inner: int)
    requires
        a <= b <= c,
        0 < inner,
    ensures
        block_values(g, a, b, inner) + block_values(g, b, c, inner) =~= block_values(
            g,
            a,
            c,
            inner,
        ),
{
    let l = block_values(g, a, b, inner);
    let r = block_values(g, b, c, inner);
    let all = block_values(g, a, c, inner);
    assert((b - a) * inner + (c - b) * inner == (c - a) * inner) by (nonlinear_arith);
    assert(0 <= (b - a) * inner && 0 <= (c - b) * inner) by (nonlinear_arith)
        requires
            a <= b <= c,
            0 < inner,
    ;
    assert forall|k: int| 0 <= k < all.len() implies #[trigger] (l + r)[k] == all[k] by {
        if k >= l.len() {
            let k2 = k - (b - a) * inner;
            lemma_div_mod_shift(k2, b - a, inner);
            assert(k == (b - a) * inner + k2);
        }
    }
}

proof fn lemma_reassembly_prefix<T>(
    segs: Seq<Seq<T>>,
    g: spec_fn(int, int) -> T,
    n: int,
    inner: int,
    workers: int,
    k: int,
)
    requires
        0 < workers,
        0 <= n,
        0 < inner,
        0 <= k <= workers,
        computes_blocks(segs, g, n, inner, workers),
    ensures
        flatten(segs.take(k)) == block_values(g, 0, block_start(k, n, workers), inner),
    decreases k,
{
    lemma_block_start_bounds(k, n, workers);
    if k == 0 {
        assert(flatten(segs.take(0)) =~= block_values(g, 0, 0, inner));
    } else {
        lemma_reassembly_prefix(segs, g, n, inner, workers, k - 1);
        lemma_block_start_bounds(k - 1, n, workers);
        assert(segs.take(k).drop_last() =~= segs.take(k - 1));
        assert(segs.take(k).last() == segs[k - 1]);
        lemma_block_values_join(
            g,
            0,
            block_start(k - 1, n, workers),
            block_start(k, n, workers),
            inner,
        );
    }
}

/// Joining segments that each hold their block's values of `g` gives the values of `g`
/// over the whole axis, outer index first.
pub proof fn lemma_reassembly_in_order<T>(
    segs: Seq<Seq<T>>,
    g: spec_fn(int, int) -> T,
    n: int,
    inner: int,
    workers: int,
)
    requires
        0 < workers,
        0 <= n,
        0 < inner,
        computes_blocks(segs, g, n, inner, workers),
    ensures
        flatten(segs) == block_values(g, 0, n, inner),
{
    lemma_reassembly_prefix(segs, g, n, inner, workers, workers);
    assert(segs.take(workers) =~= segs);
    lemma_block_start_bounds(workers, n, workers);
}

/// Partition invariance: whatever the number of workers, segments that each hold their
/// block's values of `g` join into the same grid.
pub proof fn lemma_partition_invariance<T>(
    segs1: Seq<Seq<T>>,
    workers1: int,
    segs2: Seq<Seq<T>>,
    workers2: int,
    g: spec_fn(int, int) -> T,
    n: int,
    inner: int,
)
    requires
        0 < workers1,
        0 < workers2,
        0 <= n,
        0 < inner,
        computes_blocks(segs1, g, n, inner, workers1),
        computes_blocks(segs2, g, n, inner, workers2),
    ensures
        flatten(segs1) == flatten(segs2),
        transposed(flatten(segs1), n, inner) == transposed(flatten(segs2), n, inner),
{
    lemma_reassembly_in_order(segs1, g, n, inner, workers1);
    lemma_reassembly_in_order(segs2, g, n, inner, workers2);
}

/// Lays a grid stored outer index first (`x * height + y`) out row by row (`y * width + x`).
pub fn to_spatial_layout<T: Copy>(columns: &Vec<T>, width: usize, height: usize) -> (res: Vec<T>)
    requires
        columns@.len() == width * height,
    ensures
        res@ == transposed(columns@, width as int, height as int),
        forall|x: int, y: int|
            0 <= x < width && 0 <= y < height ==> #[trigger] res@[spatial_index(x, y, width as int)]
                == columns@[frequency_index(x, y, height as int)],
{
    let total = columns.len();
    let mut out: Vec<T> = Vec::new();
    let mut y: usize = 0;
    while y < height
        invariant
            y <= height,
            columns@.len() == width * height,
            total == columns@.len(),
            out@.len() == y * width,
            forall|i: int|
                0 <= i < out@.len() ==> #[trigger] out@[i] == columns@[frequency_index(
                    i % width as int,
                    i / width as int,
                    height as int,
                )],
        decreases height - y,
    {
        let mut x: usize = 0;
        while x < width
            invariant
                y < height,
                x <= width,
                columns@.len() == width * height,
                total == columns@.len(),
                out@.len() == y * width + x,
                forall|i: int|
                    0 <= i < out@.len() ==> #[trigger] out@[i] == columns@[frequency_index(
                        i % width as int,
                        i / width as int,
                        height as int,
                    )],
            decreases width - x,
        {
            proof {
                assert(x * height + y < width * height) by (nonlinear_arith)
                    requires
                        x < width,
                        y < height,
                ;
                lemma_fundamental_div_mod_converse(
                    (y * width + x) as int,
                    width as int,
                    y as int,
                    x as int,
                );
            }
            out.push(columns[x * height + y]);
            x += 1;
        }
        proof {
            assert((y + 1) * width == y * width + width) by (nonlinear_arith);
        }
        y += 1;
    }
    proof {
        assert(out@.len() == width * height) by (nonlinear_arith)
            requires
                out@.len() == height * width,
        ;
        assert forall|x: int, y: int|
            0 <= x < width && 0 <= y < height implies #[trigger] out@[spatial_index(
            x,
            y,
            width as int,
        )] == columns@[frequency_index(x, y, height as int)] by {
            assert(y * width + x < width * height) by (nonlinear_arith)
                requires
                    0 <= x < width,
                    0 <= y < height,
            ;
            lemma_fundamental_div_mod_converse(y * width + x, width as int, y, x);
            assert(out@[y * width + x] == columns@[frequency_index(
                (y * width + x) % width as int,
                (y * width + x) / width as int,
                height as int,
            )]);
        }
        assert(out@ =~= transposed(columns@, width as int, height as int));
    }
    out
}

/// Joins forward-transform segments (blocks of horizontal frequencies) into a coefficient grid.
pub fn assemble_frequency_grid<T: Copy>(segments: &Vec<Vec<T>>, width: u32, height: u32) -> (res:
    Result<Vec<T>, GridError>)
    ensures
        res is Ok <==> flatten(segment_views(segments@)).len() == width * height,
        res matches Ok(v) ==> v@ == flatten(segment_views(segments@)),
        res is Err ==> res == Err::<Vec<T>, GridError>(GridError::IndexMismatch),
{
    let joined = concat_segments(segments);
    if joined.len() as u64 != area(width, height) {
        Err(GridError::IndexMismatch)
    } else {
        Ok(joined)
    }
}

/// Joins inverse-transform segments (blocks of columns) into a spatial grid laid out row by row.
pub fn assemble_spatial_grid<T: Copy>(segments: &Vec<Vec<T>>, width: u32, height: u32) -> (res:
    Result<Vec<T>, GridError>)
    ensures
        res is Ok <==> flatten(segment_views(segments@)).len() == width * height,
        res matches Ok(v) ==> v@ == transposed(
            flatten(segment_views(segments@)),
            width as int,
            height as int,
        ),
        res is Err ==> res == Err::<Vec<T>, GridError>(GridError::IndexMismatch),
{
    let joined = concat_segments(segments);
    if joined.len() as u64 != area(width, height) {
        Err(GridError::IndexMismatch)
    } else {
        Ok(to_spatial_layout(&joined, width as usize, height as usize))
    }
}

} // verus!
