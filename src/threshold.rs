//! Otsu's threshold on the gray levels of an RGB image, computed exactly.
//!
//! With `N` pixels, `w(t)` of them at gray level `t` or below and `m(t)` the sum of those
//! levels, the between-class variance of threshold `t` is
//! `(S w(t) - N m(t))^2 / (N^2 w(t) (N - w(t)))`, where `S = m(255)`. It is compared as an exact
//! fraction: `N^2` is common to every threshold, so only `spread_num / spread_den` is kept.
use vstd::prelude::*;
use vstd::arithmetic::div_mod::{lemma_fundamental_div_mod};
use crate::pixel::{Rgb, gray_of, rgb2gray};

verus! {

/// Largest image whose variances fit the exact 128-bit comparison.
pub const OTSU_MAX_PIXELS: u64 = 0x800_0000;

pub open spec fn gray_at(image: Seq<Rgb>, i: int) -> int {
    gray_of(image[i][0], image[i][1], image[i][2]) as int
}

/// Pixels at gray level `k`.
pub open spec fn gray_count(image: Seq<Rgb>, k: int) -> int
    decreases image.len(),
{
    if image.len() == 0 {
        0
    } else {
        gray_count(image.drop_last(), k) + if gray_at(image, image.len() - 1) == k {
            1int
        } else {
            0int
        }
    }
}

/// Pixels at gray level `t` or below.
pub open spec fn weight_upto(image: Seq<Rgb>, t: int) -> int
    decreases t + 1,
{
    if t < 0 {
        0
    } else {
        weight_upto(image, t - 1) + gray_count(image, t)
    }
}

/// Sum of the gray levels of the pixels at level `t` or below.
pub open spec fn mass_upto(image: Seq<Rgb>, t: int) -> int
    decreases t + 1,
{
    if t < 0 {
        0
    } else {
        mass_upto(image, t - 1) + t * gray_count(image, t)
    }
}

/// Threshold `t` leaves pixels on both sides.
pub open spec fn class_split(image: Seq<Rgb>, t: int) -> bool {
    0 < weight_upto(image, t) < image.len()
}

pub open spec fn spread_num(image: Seq<Rgb>, t: int) -> int {
    let d = mass_upto(image, 255) * weight_upto(image, t) - image.len() * mass_upto(image, t);
    d * d
}

pub open spec fn spread_den(image: Seq<Rgb>, t: int) -> int {
    weight_upto(image, t) * (image.len() - weight_upto(image, t))
}

/// Threshold `t` has a strictly larger between-class variance than threshold `s`.
pub open spec fn scores_above(image: Seq<Rgb>, t: int, s: int) -> bool {
    spread_num(image, t) * spread_den(image, s) > spread_num(image, s) * spread_den(image, t)
}

/// Some threshold splits the pixels with a positive between-class variance.
pub open spec fn has_separation(image: Seq<Rgb>) -> bool {
    exists|t: int| 0 <= t < 256 && class_split(image, t) && #[trigger] spread_num(image, t) > 0
}

/// `r` is the first threshold of largest positive between-class variance, or 0 when no
/// threshold has a positive one.
pub open spec fn is_otsu_threshold(image: Seq<Rgb>, r: int) -> bool {
    if has_separation(image) {
        &&& 0 <= r < 256
        &&& class_split(image, r)
        &&& spread_num(image, r) > 0
        &&& forall|t: int|
            0 <= t < 256 && class_split(image, t) ==> !#[trigger] scores_above(image, t, r)
        &&& forall|t: int| 0 <= t < r && class_split(image, t) ==> #[trigger] scores_above(image, r, t)
    } else {
        r == 0
    }
}

proof fn lemma_counts_nonneg(image: Seq<Rgb>, k: int)
    ensures
        0 <= gray_count(image, k) <= image.len(),
    decreases image.len(),
{
    if image.len() > 0 {
        lemma_counts_nonneg(image.drop_last(), k);
    }
}

proof fn lemma_weight_last(image: Seq<Rgb>, t: int)
    requires
        image.len() > 0,
    ensures
        weight_upto(image, t) == weight_upto(image.drop_last(), t) + if t >= 0 && gray_at(
            image,
            image.len() - 1,
        ) <= t {
            1int
        } else {
            0int
        },
    decreases t + 1,
{
    if t >= 0 {
        lemma_weight_last(image, t - 1);
    }
}

proof fn lemma_weight_total(image: Seq<Rgb>)
    ensures
        weight_upto(image, 255) == image.len(),
    decreases image.len(),
{
    if image.len() > 0 {
        lemma_weight_total(image.drop_last());
        lemma_weight_last(image, 255);
    } else {
        lemma_weight_empty(image, 255);
    }
}

proof fn lemma_weight_empty(image: Seq<Rgb>, t: int)
    requires
        image.len() == 0,
    ensures
        weight_upto(image, t) == 0,
    decreases t + 1,
{
    if t >= 0 {
        lemma_weight_empty(image, t - 1);
    }
}

proof fn lemma_upto_bounds(image: Seq<Rgb>, t: int)
    requires
        -1 <= t <= 255,
    ensures
        0 <= weight_upto(image, t) <= weight_upto(image, 255),
        0 <= mass_upto(image, t) <= 255 * weight_upto(image, t),
        t >= 0 ==> weight_upto(image, t - 1) <= weight_upto(image, t),
    decreases t + 1,
{
    if t >= 0 {
        lemma_upto_bounds(image, t - 1);
        lemma_counts_nonneg(image, t);
        assert(t * gray_count(image, t) <= 255 * gray_count(image, t)) by (nonlinear_arith)
            requires
                t <= 255,
                gray_count(image, t) >= 0,
        ;
        assert(0 <= t * gray_count(image, t)) by (nonlinear_arith)
            requires
                t >= 0,
                gray_count(image, t) >= 0,
        ;
    }
    lemma_weight_monotone(image, t, 255);
}

proof fn lemma_weight_monotone(image: Seq<Rgb>, s: int, t: int)
    requires
        s <= t,
    ensures
        weight_upto(image, s) <= weight_upto(image, t),
        0 <= weight_upto(image, s),
    decreases t - s,
{
    if s < t {
        lemma_weight_monotone(image, s, t - 1);
        if t >= 0 {
            lemma_counts_nonneg(image, t);
        }
    } else {
        lemma_weight_nonneg(image, s);
    }
}

proof fn lemma_weight_nonneg(image: Seq<Rgb>, t: int)
    ensures
        0 <= weight_upto(image, t),
    decreases t + 1,
{
    if t >= 0 {
        lemma_weight_nonneg(image, t - 1);
        lemma_counts_nonneg(image, t);
    }
}

/// `a / b <= c / d < e / f` gives `a / b < e / f`.
proof fn lemma_fraction_chain(a: int, b: int, c: int, d: int, e: int, f: int)
    requires
        b > 0,
        d > 0,
        f > 0,
        a * d <= c * b,
        c * f < e * d,
    ensures
        a * f < e * b,
{
    assert(a * d * f <= c * b * f) by (nonlinear_arith)
        requires
            a * d <= c * b,
            f > 0,
    ;
    assert(c * f * b < e * d * b) by (nonlinear_arith)
        requires
            c * f < e * d,
            b > 0,
    ;
    assert(a * f * d < e * b * d) by (nonlinear_arith)
        requires
            a * d * f <= c * b * f,
            c * f * b < e * d * b,
    ;
    assert(a * f < e * b) by (nonlinear_arith)
        requires
            a * f * d < e * b * d,
            d > 0,
    ;
}

/// Decides `n1 / d1 > n2 / d2` by quotients and remainders, without forming the cross
/// products of the numerators.
fn fraction_above(n1: u128, d1: u128, n2: u128, d2: u128) -> (res: bool)
    requires
        0 < d1 < 0x40_0000_0000_0000,
        0 < d2 < 0x40_0000_0000_0000,
    ensures
        res == (n1 * d2 > n2 * d1),
{
    let q1 = n1 / d1;
    let r1 = n1 % d1;
    let q2 = n2 / d2;
    let r2 = n2 % d2;
    proof {
        lemma_fundamental_div_mod(n1 as int, d1 as int);
        lemma_fundamental_div_mod(n2 as int, d2 as int);
        assert(0 <= r1 * d2 < d1 * d2 && 0 <= r2 * d1 < d1 * d2) by (nonlinear_arith)
            requires
                0 <= r1 < d1,
                0 <= r2 < d2,
                d1 > 0,
                d2 > 0,
        ;
        assert(d1 * d2 < 0x1000_0000_0000_0000_0000_0000_0000) by (nonlinear_arith)
            requires
                d1 < 0x40_0000_0000_0000,
                d2 < 0x40_0000_0000_0000,
        ;
        assert(n1 * d2 - n2 * d1 == (q1 - q2) * (d1 * d2) + (r1 * d2 - r2 * d1)) by (nonlinear_arith)
            requires
                n1 == d1 * q1 + r1,
                n2 == d2 * q2 + r2,
        ;
        if q1 > q2 {
            assert((q1 - q2) * (d1 * d2) >= d1 * d2) by (nonlinear_arith)
                requires
                    q1 - q2 >= 1,
                    d1 * d2 > 0,
            ;
        } else if q1 < q2 {
            assert((q1 - q2) * (d1 * d2) <= -(d1 * d2)) by (nonlinear_arith)
                requires
                    q1 - q2 <= -1,
                    d1 * d2 > 0,
            ;
        } else {
            assert((q1 - q2) * (d1 * d2) == 0);
        }
    }
    if q1 != q2 {
        q1 > q2
    } else {
        r1 * d2 > r2 * d1
    }
}

fn gray_histogram(image: &Vec<Rgb>) -> (res: Vec<u64>)
    requires
        image@.len() <= OTSU_MAX_PIXELS,
    ensures
        res@.len() == 256,
        forall|k: int| 0 <= k < 256 ==> #[trigger] res@[k] == gray_count(image@, k),
{
    let mut hist: Vec<u64> = Vec::new();
    let mut k: usize = 0;
    while k < 256
        invariant
            k <= 256,
            hist@.len() == k,
            forall|j: int| 0 <= j < k ==> #[trigger] hist@[j] == 0,
        decreases 256 - k,
    {
        hist.push(0);
        k += 1;
    }
    proof {
        assert forall|j: int| 0 <= j < 256 implies #[trigger] hist@[j] == gray_count(image@.take(0), j) by {}
    }
    let mut i: usize = 0;
    while i < image.len()
        invariant
            image@.len() <= OTSU_MAX_PIXELS,
            i <= image@.len(),
            hist@.len() == 256,
            forall|k: int| 0 <= k < 256 ==> #[trigger] hist@[k] == gray_count(image@.take(i as int), k),
        decreases image@.len() - i,
    {
        let p = image[i];
        let g = rgb2gray(p[0], p[1], p[2]) as usize;
        proof {
            lemma_counts_nonneg(image@.take(i as int), g as int);
            assert(image@.take(i + 1).drop_last() =~= image@.take(i as int));
            assert(image@.take(i + 1)[i as int] == p);
        }
        let v = hist[g];
        hist.set(g, v + 1);
        i += 1;
    }
    proof {
        assert(image@.take(image@.len() as int) =~= image@);
    }
    hist
}

/// Otsu's threshold of the gray levels: the first threshold of largest positive
/// between-class variance, or 0 when every split leaves the classes equal in mean or one
/// class empty.
pub fn otsu_thresholding(image: Vec<Rgb>, width: u32, height: u32) -> (res: u8)
    requires
        image@.len() == width * height,
        image@.len() <= OTSU_MAX_PIXELS,
    ensures
        is_otsu_threshold(image@, res as int),
{
    let hist = gray_histogram(&image);
    let n = image.len() as u128;
    let mut total_mass: u128 = 0;
    let mut t: usize = 0;
    proof {
        lemma_weight_total(image@);
    }
    while t < 256
        invariant
            t <= 256,
            n == image@.len(),
            n <= OTSU_MAX_PIXELS,
            weight_upto(image@, 255) == n,
            hist@.len() == 256,
            forall|k: int| 0 <= k < 256 ==> #[trigger] hist@[k] == gray_count(image@, k),
            total_mass == mass_upto(image@, t - 1),
        decreases 256 - t,
    {
        proof {
            lemma_upto_bounds(image@, t as int);
        }
        total_mass = total_mass + t as u128 * hist[t] as u128;
        t += 1;
    }
    proof {
        lemma_upto_bounds(image@, 255);
    }
    let mut weight: u128 = 0;
    let mut mass: u128 = 0;
    let mut best: u8 = 0;
    let mut best_num: u128 = 0;
    let mut best_den: u128 = 1;
    let mut t: usize = 0;
    while t < 256
        invariant
            t <= 256,
            n == image@.len(),
            n <= OTSU_MAX_PIXELS,
            weight_upto(image@, 255) == n,
            hist@.len() == 256,
            forall|k: int| 0 <= k < 256 ==> #[trigger] hist@[k] == gray_count(image@, k),
            total_mass == mass_upto(image@, 255),
            total_mass <= 255 * n,
            weight == weight_upto(image@, t - 1),
            mass == mass_upto(image@, t - 1),
            0 < best_den < 0x40_0000_0000_0000,
            best_num == 0 ==> best == 0 && best_den == 1 && forall|s: int|
                0 <= s < t && class_split(image@, s) ==> #[trigger] spread_num(image@, s) == 0,
            best_num > 0 ==> {
                &&& best < t
                &&& class_split(image@, best as int)
                &&& best_num == spread_num(image@, best as int)
                &&& best_den == spread_den(image@, best as int)
                &&& forall|s: int|
                    0 <= s < t && class_split(image@, s) ==> !#[trigger] scores_above(
                        image@,
                        s,
                        best as int,
                    )
                &&& forall|s: int|
                    0 <= s < best && class_split(image@, s) ==> #[trigger] scores_above(
                        image@,
                        best as int,
                        s,
                    )
            },
        decreases 256 - t,
    {
        proof {
            lemma_upto_bounds(image@, t as int);
            lemma_counts_nonneg(image@, t as int);
        }
        weight = weight + hist[t] as u128;
        mass = mass + t as u128 * hist[t] as u128;
        if 0 < weight && weight < n {
            proof {
                assert(total_mass * weight <= 255 * n * n && n * mass <= 255 * n * n) by (nonlinear_arith)
                    requires
                        total_mass <= 255 * n,
                        weight <= n,
                        mass <= 255 * weight,
                ;
                assert(255 * n * n <= 255 * OTSU_MAX_PIXELS * OTSU_MAX_PIXELS) by (nonlinear_arith)
                    requires
                        n <= OTSU_MAX_PIXELS,
                ;
            }
            let sw = total_mass * weight;
            let nm = n * mass;
            let d = if sw >= nm { sw - nm } else { nm - sw };
            proof {
                assert(d * d < 0x1_0000_0000_0000_0000_0000_0000_0000_0000) by (nonlinear_arith)
                    requires
                        d <= 255 * OTSU_MAX_PIXELS * OTSU_MAX_PIXELS,
                ;
                assert(0 < weight * (n - weight) < 0x40_0000_0000_0000) by (nonlinear_arith)
                    requires
                        0 < weight < n,
                        n <= OTSU_MAX_PIXELS,
                ;
            }
            let num = d * d;
            let den = weight * (n - weight);
            proof {
                assert(num == spread_num(image@, t as int)) by (nonlinear_arith)
                    requires
                        d == sw - nm || d == nm - sw,
                        sw == mass_upto(image@, 255) * weight_upto(image@, t as int),
                        nm == image@.len() * mass_upto(image@, t as int),
                        num == d * d,
                ;
            }
            if fraction_above(num, den, best_num, best_den) {
                proof {
                    assert(num > 0) by (nonlinear_arith)
                        requires
                            num * best_den > best_num * den,
                            best_num >= 0,
                            den > 0,
                            best_den > 0,
                    ;
                    assert forall|s: int|
                        0 <= s < t + 1 && class_split(image@, s) implies !#[trigger] scores_above(
                        image@,
                        s,
                        t as int,
                    ) by {
                        if s < t {
                            lemma_upto_bounds(image@, s);
                            assert(spread_den(image@, s) > 0) by (nonlinear_arith)
                                requires
                                    0 < weight_upto(image@, s) < image@.len(),
                            ;
                            if best_num == 0 {
                                assert(spread_num(image@, s) == 0);
                                assert(0 * den <= num * spread_den(image@, s)) by (nonlinear_arith)
                                    requires
                                        num > 0,
                                        spread_den(image@, s) > 0,
                                ;
                            } else {
                                assert(!scores_above(image@, s, best as int));
                                lemma_fraction_chain(
                                    spread_num(image@, s),
                                    spread_den(image@, s),
                                    best_num as int,
                                    best_den as int,
                                    num as int,
                                    den as int,
                                );
                            }
                        }
                    }
                    assert forall|s: int|
                        0 <= s < t && class_split(image@, s) implies #[trigger] scores_above(
                        image@,
                        t as int,
                        s,
                    ) by {
                        lemma_upto_bounds(image@, s);
                        assert(spread_den(image@, s) > 0) by (nonlinear_arith)
                            requires
                                0 < weight_upto(image@, s) < image@.len(),
                        ;
                        if best_num == 0 {
                            assert(spread_num(image@, s) == 0);
                            assert(num * spread_den(image@, s) > 0) by (nonlinear_arith)
                                requires
                                    num > 0,
                                    spread_den(image@, s) > 0,
                            ;
                        } else {
                            assert(!scores_above(image@, s, best as int));
                            lemma_fraction_chain(
                                spread_num(image@, s),
                                spread_den(image@, s),
                                best_num as int,
                                best_den as int,
                                num as int,
                                den as int,
                            );
                        }
                    }
                }
                best = t as u8;
                best_num = num;
                best_den = den;
            } else {
                proof {
                    if best_num == 0 {
                        assert(num == 0) by (nonlinear_arith)
                            requires
                                !(num * 1 > 0 * den),
                        ;
                    }
                }
            }
        }
        t += 1;
    }
    proof {
        if has_separation(image@) {
            let s = choose|s: int| 0 <= s < 256 && class_split(image@, s) && #[trigger] spread_num(image@, s) > 0;
            assert(best_num > 0);
        }
    }
    best
}

} // verus!
