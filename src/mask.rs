//! Circular frequency-domain masks.
//!
//! Coefficient `(u, v)` of a grid of height `H` sits at `u * H + v` and lies at distance
//! `sqrt(u^2 + v^2)` from the origin. A lowpass mask of radius `R` keeps the coefficients at
//! distance at most `R`, a highpass mask keeps the others; every coefficient that is not kept
//! is replaced by the caller's zero. Distances are compared exactly, as `u^2 + v^2 <= R^2`.
use vstd::prelude::*;
use vstd::arithmetic::div_mod::{lemma_fundamental_div_mod, lemma_fundamental_div_mod_converse};
use crate::grid::{GridError, dims_ok, check_coefficient_grid};

verus! {

/// Coefficient `i` lies within `radius` of the origin.
pub open spec fn in_band(i: int, height: int, radius: int) -> bool {
    let u = i / height;
    let v = i % height;
    u * u + v * v <= radius * radius
}

pub open spec fn lowpass_spec<T>(c: Seq<T>, zero: T, height: int, radius: int) -> Seq<T> {
    Seq::new(c.len(), |i: int| if in_band(i, height, radius) { c[i] } else { zero })
}

pub open spec fn highpass_spec<T>(c: Seq<T>, zero: T, height: int, radius: int) -> Seq<T> {
    Seq::new(c.len(), |i: int| if in_band(i, height, radius) { zero } else { c[i] })
}

proof fn lemma_frequency_bounds(i: int, width: int, height: int)
    requires
        0 <= i < width * height,
        0 < height,
    ensures
        0 <= i / height < width,
        0 <= i % height < height,
        i == (i / height) * height + i % height,
{
    lemma_fundamental_div_mod(i, height);
    let q = i / height;
    let r = i % height;
    assert(0 <= q < width) by (nonlinear_arith)
        requires
            i == height * q + r,
            0 <= r < height,
            0 <= i < width * height,
            0 < height,
    ;
    assert(height * q == q * height) by (nonlinear_arith);
}

fn keeps(i: usize, width: u32, height: u32, radius: u32) -> (res: bool)
    requires
        i < width * height,
        height > 0,
    ensures
        res == in_band(i as int, height as int, radius as int),
{
    proof {
        lemma_frequency_bounds(i as int, width as int, height as int);
    }
    let u = (i / height as usize) as u128;
    let v = (i % height as usize) as u128;
    let r = radius as u128;
    proof {
        assert(u * u <= u32::MAX * u32::MAX && v * v <= u32::MAX * u32::MAX && r * r <= u32::MAX
            * u32::MAX) by (nonlinear_arith)
            requires
                u <= u32::MAX,
                v <= u32::MAX,
                r <= u32::MAX,
        ;
    }
    u * u + v * v <= r * r
}

fn select_band<T: Copy>(coeff: &Vec<T>, zero: T, width: u32, height: u32, radius: u32, inside: bool)
    -> (res: Vec<T>)
    requires
        dims_ok(coeff@.len() as int, width as int, height as int),
    ensures
        inside ==> res@ == lowpass_spec(coeff@, zero, height as int, radius as int),
        !inside ==> res@ == highpass_spec(coeff@, zero, height as int, radius as int),
{
    let mut out: Vec<T> = Vec::new();
    let mut i: usize = 0;
    while i < coeff.len()
        invariant
            i <= coeff@.len(),
            dims_ok(coeff@.len() as int, width as int, height as int),
            out@.len() == i,
            forall|k: int|
                0 <= k < i ==> #[trigger] out@[k] == (if in_band(k, height as int, radius as int)
                    == inside {
                    coeff@[k]
                } else {
                    zero
                }),
        decreases coeff@.len() - i,
    {
        if keeps(i, width, height, radius) == inside {
            out.push(coeff[i]);
        } else {
            out.push(zero);
        }
        i += 1;
    }
    proof {
        if inside {
            assert(out@ =~= lowpass_spec(coeff@, zero, height as int, radius as int));
        } else {
            assert(out@ =~= highpass_spec(coeff@, zero, height as int, radius as int));
        }
    }
    out
}

/// Keeps the coefficients within `radius` of the origin and puts `zero` everywhere else.
pub fn freq_lowpass<T: Copy>(coeff: &Vec<T>, zero: T, width: u32, height: u32, radius: u32) -> (res:
    Result<Vec<T>, GridError>)
    ensures
        res is Ok <==> dims_ok(coeff@.len() as int, width as int, height as int),
        (width == 0 || height == 0) ==> res == Err::<Vec<T>, GridError>(
            GridError::InvalidDimensions,
        ),
        (width > 0 && height > 0 && coeff@.len() != width * height) ==> res == Err::<
            Vec<T>,
            GridError,
        >(GridError::IndexMismatch),
        res matches Ok(v) ==> v@ == lowpass_spec(coeff@, zero, height as int, radius as int),
{
    match check_coefficient_grid(coeff.len(), width, height) {
        Err(e) => Err(e),
        Ok(()) => Ok(select_band(coeff, zero, width, height, radius, true)),
    }
}

/// Keeps the coefficients farther than `radius` from the origin and puts `zero` everywhere
/// else.
pub fn freq_highpass<T: Copy>(coeff: &Vec<T>, zero: T, width: u32, height: u32, radius: u32) -> (res:
    Result<Vec<T>, GridError>)
    ensures
        res is Ok <==> dims_ok(coeff@.len() as int, width as int, height as int),
        (width == 0 || height == 0) ==> res == Err::<Vec<T>, GridError>(
            GridError::InvalidDimensions,
        ),
        (width > 0 && height > 0 && coeff@.len() != width * height) ==> res == Err::<
            Vec<T>,
            GridError,
        >(GridError::IndexMismatch),
        res matches Ok(v) ==> v@ == highpass_spec(coeff@, zero, height as int, radius as int),
{
    match check_coefficient_grid(coeff.len(), width, height) {
        Err(e) => Err(e),
        Ok(()) => Ok(select_band(coeff, zero, width, height, radius, false)),
    }
}

/// The lowpass and highpass masks of one radius split the grid: each coefficient is kept by
/// exactly one of them and zeroed by the other, so combining the two results with any
/// operation for which `zero` is neutral gives back the input grid.
pub proof fn lemma_mask_bipartition<T>(
    c: Seq<T>,
    zero: T,
    height: int,
    radius: int,
    combine: spec_fn(T, T) -> T,
)
    requires
        forall|x: T| #[trigger] combine(x, zero) == x && combine(zero, x) == x,
    ensures
        lowpass_spec(c, zero, height, radius).len() == c.len(),
        highpass_spec(c, zero, height, radius).len() == c.len(),
        forall|i: int|
            0 <= i < c.len() ==> (#[trigger] lowpass_spec(c, zero, height, radius)[i] == c[i]
                && highpass_spec(c, zero, height, radius)[i] == zero) || (lowpass_spec(
                c,
                zero,
                height,
                radius,
            )[i] == zero && highpass_spec(c, zero, height, radius)[i] == c[i]),
        Seq::new(
            c.len(),
            |i: int|
                combine(
                    lowpass_spec(c, zero, height, radius)[i],
                    highpass_spec(c, zero, height, radius)[i],
                ),
        ) == c,
{
    let low = lowpass_spec(c, zero, height, radius);
    let high = highpass_spec(c, zero, height, radius);
    let sum = Seq::new(c.len(), |i: int| combine(low[i], high[i]));
    assert forall|i: int| 0 <= i < c.len() implies #[trigger] sum[i] == c[i] by {
        assert(combine(c[i], zero) == c[i]);
        assert(combine(zero, c[i]) == c[i]);
    }
    assert(sum =~= c);
}

/// A lowpass mask of radius zero keeps the coefficient at `(0, 0)` alone.
pub proof fn lemma_lowpass_radius_zero<T>(c: Seq<T>, zero: T, height: int)
    requires
        0 < height,
    ensures
        lowpass_spec(c, zero, height, 0).len() == c.len(),
        forall|i: int|
            0 <= i < c.len() ==> #[trigger] lowpass_spec(c, zero, height, 0)[i] == if i == 0 {
                c[i]
            } else {
                zero
            },
{
    assert forall|i: int| 0 <= i < c.len() implies in_band(i, height, 0) == (i == 0) by {
        lemma_fundamental_div_mod(i, height);
        let u = i / height;
        let v = i % height;
        if u * u + v * v <= 0 {
            assert(u == 0 && v == 0) by (nonlinear_arith)
                requires
                    u * u + v * v <= 0,
            ;
            assert(height * u == 0) by (nonlinear_arith)
                requires
                    u == 0,
            ;
        }
        if i == 0 {
            lemma_fundamental_div_mod_converse(0, height, 0, 0);
        }
    }
}

/// A highpass mask whose radius reaches the farthest coefficient `(W - 1, H - 1)` zeroes the
/// whole grid.
pub proof fn lemma_highpass_beyond_max_radius<T>(
    c: Seq<T>,
    zero: T,
    width: int,
    height: int,
    radius: int,
)
    requires
        dims_ok(c.len() as int, width, height),
        radius >= 0,
        radius * radius >= (width - 1) * (width - 1) + (height - 1) * (height - 1),
    ensures
        highpass_spec(c, zero, height, radius) == Seq::new(c.len(), |i: int| zero),
{
    assert forall|i: int| 0 <= i < c.len() implies in_band(i, height, radius) by {
        lemma_frequency_bounds(i, width, height);
        let u = i / height;
        let v = i % height;
        assert(u * u + v * v <= (width - 1) * (width - 1) + (height - 1) * (height - 1))
            by (nonlinear_arith)
            requires
                0 <= u < width,
                0 <= v < height,
        ;
    }
    assert(highpass_spec(c, zero, height, radius) =~= Seq::new(c.len(), |i: int| zero));
}

} // verus!
