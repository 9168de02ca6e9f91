//! Fork-join work partitioning.
//!
//! An axis of `n` positions is split among `workers` contiguous blocks, block `i` covering
//! `[i * n / workers, (i + 1) * n / workers)`. Blocks may be empty when `n < workers`.
//! Each worker returns the values of its block in canonical order, and the caller joins the
//! segments strictly by block index, whatever order the workers finished in.
use vstd::prelude::*;
use vstd::arithmetic::div_mod::{lemma_div_is_ordered, lemma_div_multiples_vanish};

verus! {

/// First position of block `i`.
pub open spec fn block_start(i: int, n: int, workers: int) -> int {
    i * n / workers
}

/// `blocks` is the partition of `n` positions among `workers` blocks, in block order.
pub open spec fn is_partition(blocks: Seq<(usize, usize)>, n: int, workers: int) -> bool {
    &&& blocks.len() == workers
    &&& forall|i: int|
        0 <= i < workers ==> #[trigger] blocks[i].0 == block_start(i, n, workers) && blocks[i].1
            == block_start(i + 1, n, workers)
}

pub proof fn lemma_block_start_bounds(i: int, n: int, workers: int)
    requires
        0 <= i <= workers,
        0 < workers,
        0 <= n,
    ensures
        0 <= block_start(i, n, workers) <= n,
        i < workers ==> block_start(i, n, workers) <= block_start(i + 1, n, workers),
        block_start(0, n, workers) == 0,
        block_start(workers, n, workers) == n,
{
    assert(0 <= i * n <= workers * n) by (nonlinear_arith)
        requires
            0 <= i <= workers,
            0 <= n,
    ;
    lemma_div_is_ordered(0, i * n, workers);
    lemma_div_is_ordered(i * n, workers * n, workers);
    lemma_div_multiples_vanish(n, workers);
    assert(workers * n == n * workers) by (nonlinear_arith);
    if i < workers {
        assert(i * n <= (i + 1) * n) by (nonlinear_arith)
            requires
                0 <= n,
        ;
        lemma_div_is_ordered(i * n, (i + 1) * n, workers);
    }
    assert(0 * n == 0);
}

/// Bounds `[start, end)` of block `i`.
pub fn block_bounds(i: usize, n: usize, workers: usize) -> (res: (usize, usize))
    requires
        0 < workers,
        i < workers,
    ensures
        res.0 == block_start(i as int, n as int, workers as int),
        res.1 == block_start(i + 1, n as int, workers as int),
        res.0 <= res.1 <= n,
{
    proof {
        lemma_block_start_bounds(i as int, n as int, workers as int);
        lemma_block_start_bounds(i + 1, n as int, workers as int);
        assert(i * n <= u128::MAX && (i + 1) * n <= u128::MAX) by (nonlinear_arith)
            requires
                i < workers <= usize::MAX,
                n <= usize::MAX,
        ;
    }
    let start = (i as u128 * n as u128 / workers as u128) as usize;
    let end = ((i as u128 + 1) * n as u128 / workers as u128) as usize;
    (start, end)
}

/// Splits `n` positions among `workers` contiguous blocks, in block order.
pub fn partition(n: usize, workers: usize) -> (res: Vec<(usize, usize)>)
    requires
        0 < workers,
    ensures
        is_partition(res@, n as int, workers as int),
        res@[0].0 == 0,
        res@[workers - 1].1 == n,
        forall|i: int| 0 <= i < workers ==> #[trigger] res@[i].0 <= res@[i].1,
        forall|i: int| 0 <= i < workers - 1 ==> #[trigger] res@[i].1 == res@[i + 1].0,
{
    let mut blocks: Vec<(usize, usize)> = Vec::new();
    let mut i: usize = 0;
    while i < workers
        invariant
            i <= workers,
            blocks@.len() == i,
            forall|k: int|
                0 <= k < i ==> #[trigger] blocks@[k].0 == block_start(k, n as int, workers as int)
                    && blocks@[k].1 == block_start(k + 1, n as int, workers as int),
        decreases workers - i,
    {
        blocks.push(block_bounds(i, n, workers));
        i += 1;
    }
    proof {
        lemma_block_start_bounds(0, n as int, workers as int);
        lemma_block_start_bounds(workers as int, n as int, workers as int);
        assert forall|k: int| 0 <= k < workers implies #[trigger] blocks@[k].0 <= blocks@[k].1 by {
            lemma_block_start_bounds(k, n as int, workers as int);
        }
        assert forall|k: int| 0 <= k < workers - 1 implies #[trigger] blocks@[k].1 == blocks@[k
            + 1].0 by {
            assert(blocks@[k].0 == block_start(k, n as int, workers as int));
            assert(blocks@[k + 1].0 == block_start(k + 1, n as int, workers as int));
        }
        assert(blocks@[workers - 1].0 == block_start(workers - 1, n as int, workers as int));
    }
    blocks
}

/// Relies on num_cpus::get: the number of logical CPUs this process may use, never below one.
#[verifier::external_body]
fn available_parallelism() -> (res: usize)
    ensures
        res >= 1,
{
    num_cpus::get()
}

/// Splits `n` positions among as many blocks as the machine has logical CPUs at call time.
pub fn worker_partition(n: usize) -> (res: Vec<(usize, usize)>)
    ensures
        res@.len() >= 1,
        is_partition(res@, n as int, res@.len() as int),
{
    let workers = available_parallelism();
    partition(n, workers)
}

} // verus!
