//! Grid dimensions and index conventions.
//!
//! A spatial grid of width `W` and height `H` stores pixel `(x, y)` at `y * W + x`.
//! A coefficient grid stores frequency pair `(u, v)` at `u * H + v`: the horizontal
//! frequency is the outer index.
use vstd::prelude::*;
use vstd::arithmetic::div_mod::lemma_fundamental_div_mod;

verus! {

/// Why a buffer was rejected before any work was started.
#[derive(Debug, Clone, Copy, PartialEq, Eq, Structural)]
pub enum GridError {
    /// Width or height is zero, or an intensity buffer does not hold `width * height` values.
    InvalidDimensions,
    /// A coefficient buffer does not hold `width * height` values.
    IndexMismatch,
}

pub open spec fn dims_ok(len: int, width: int, height: int) -> bool {
    width > 0 && height > 0 && len == width * height
}

/// Index of spatial pixel `(x, y)`.
pub open spec fn spatial_index(x: int, y: int, width: int) -> int {
    y * width + x
}

/// Index of frequency pair `(u, v)`.
pub open spec fn frequency_index(u: int, v: int, height: int) -> int {
    u * height + v
}

/// Number of cells of a `width` by `height` grid.
pub fn area(width: u32, height: u32) -> (res: u64)
    ensures
        res == width * height,
{
    proof {
        assert(width * height <= u32::MAX * u32::MAX) by (nonlinear_arith);
    }
    width as u64 * height as u64
}

/// Pixel `i` is off the border of a `width` by `height` grid.
pub open spec fn interior(i: int, width: int, height: int) -> bool {
    let x = i % width;
    let y = i / width;
    0 < x < width - 1 && 0 < y < height - 1
}

/// An off-border pixel has all eight neighbours inside the grid.
pub proof fn lemma_interior_index(t: int, width: int, height: int)
    requires
        0 <= t < width * height,
        interior(t, width, height),
    ensures
        width + 1 <= t,
        t + width + 1 < width * height,
{
    lemma_fundamental_div_mod(t, width);
    let x = t % width;
    let y = t / width;
    assert(width + 1 <= t && t + width + 1 < width * height) by (nonlinear_arith)
        requires
            t == width * y + x,
            0 < x < width - 1,
            0 < y < height - 1,
    ;
}

/// Checks an intensity buffer against its dimensions.
pub fn check_intensity_grid(len: usize, width: u32, height: u32) -> (res: Result<(), GridError>)
    ensures
        res is Ok <==> dims_ok(len as int, width as int, height as int),
        res is Err ==> res == Err::<(), GridError>(GridError::InvalidDimensions),
{
    if width == 0 || height == 0 || len as u64 != area(width, height) {
        Err(GridError::InvalidDimensions)
    } else {
        Ok(())
    }
}

/// Checks a coefficient buffer against its dimensions.
pub fn check_coefficient_grid(len: usize, width: u32, height: u32) -> (res: Result<(), GridError>)
    ensures
        res is Ok <==> dims_ok(len as int, width as int, height as int),
        (width == 0 || height == 0) ==> res == Err::<(), GridError>(GridError::InvalidDimensions),
        (width > 0 && height > 0 && len != width * height) ==> res == Err::<(), GridError>(
            GridError::IndexMismatch,
        ),
{
    if width == 0 || height == 0 {
        Err(GridError::InvalidDimensions)
    } else if len as u64 != area(width, height) {
        Err(GridError::IndexMismatch)
    } else {
        Ok(())
    }
}

} // verus!
