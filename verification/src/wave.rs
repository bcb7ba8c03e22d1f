//! Brightness envelopes for the breathing animations: a triangle wave,
//! an inverted-parabola arc and a Gaussian bell. Each maps a step index
//! to a brightness level; the step index starts at the brightness floor
//! so that the pulse never drops to full dark.

use vstd::prelude::*;

verus! {

use vstd::arithmetic::div_mod::lemma_div_is_ordered;
use vstd::arithmetic::div_mod::lemma_div_is_ordered_by_denominator;
use vstd::arithmetic::div_mod::lemma_div_pos_is_pos;

/// The floor a breathing pulse starts from; staying above full dark
/// avoids flicker near zero.
pub const LOWEST_BRIGHTNESS: u8 = 60;

/// The number of sample points of the smooth envelopes.
pub const SMOOTHNESS_PTS: u16 = 500;

/// The sample index where the Gaussian bell peaks (its center, at half
/// the resolution).
pub const GAUSS_CENTER: u16 = 250;

/// The width of the Gaussian bell in sample points (0.14 of the
/// resolution).
pub const GAUSS_WIDTH: u16 = 70;

/// The fixed-point scale used by the Gaussian envelope.
pub const GAUSS_SCALE: u64 = 65536;

/// The triangle envelope: rises one level per step up to the peak at
/// step 255, then falls one level per step.
pub open spec fn triangle_bright(j: int) -> u8
    recommends
        LOWEST_BRIGHTNESS <= j < 510 - LOWEST_BRIGHTNESS,
{
    if j <= 255 {
        j as u8
    } else {
        (510 - j) as u8
    }
}

/// The triangle envelope on one step.
pub fn triangle_envelope(j: u16) -> (bright: u8)
    requires
        LOWEST_BRIGHTNESS <= j < 510 - LOWEST_BRIGHTNESS,
    ensures
        bright == triangle_bright(j as int),
{
    if j > 255 {
        (510 - j) as u8
    } else {
        j as u8
    }
}

/// The triangle envelope rises monotonically up to its peak.
pub proof fn lemma_triangle_rise(j1: int, j2: int)
    requires
        LOWEST_BRIGHTNESS <= j1 <= j2 <= 255,
    ensures
        triangle_bright(j1) <= triangle_bright(j2),
        triangle_bright(255) == 255,
{
}

/// The triangle envelope falls monotonically after its peak.
pub proof fn lemma_triangle_fall(j1: int, j2: int)
    requires
        255 <= j1 <= j2 < 510 - LOWEST_BRIGHTNESS,
    ensures
        triangle_bright(j1) >= triangle_bright(j2),
{
}

/// The triangle envelope is symmetric around its peak step.
pub proof fn lemma_triangle_symmetric(j: int)
    requires
        LOWEST_BRIGHTNESS < j < 510 - LOWEST_BRIGHTNESS,
    ensures
        triangle_bright(j) == triangle_bright(510 - j),
{
}

/// The inverted-parabola envelope: the fraction of the peak is
/// `1 - t^2` where `t` spans -1..1 across the resolution, written over
/// the integers with denominator 62500 (the square of half the
/// resolution).
pub open spec fn circular_bright(j: int) -> u8
    recommends
        LOWEST_BRIGHTNESS <= j < SMOOTHNESS_PTS,
{
    ((255 * (62500 - (j - 250) * (j - 250))) / 62500) as u8
}

proof fn lemma_circular_bound(j: int)
    requires
        0 <= j <= 500,
    ensures
        0 <= (j - 250) * (j - 250) <= 62500,
        0 <= (255 * (62500 - (j - 250) * (j - 250))) / 62500 <= 255,
{
    let d = j - 250;
    assert(0 <= d * d <= 62500) by (nonlinear_arith)
        requires -250 <= d <= 250;
    assert(0 <= 255 * (62500 - d * d) <= 15937500) by (nonlinear_arith)
        requires 0 <= d * d <= 62500;
    lemma_div_is_ordered(0int, 255 * (62500 - d * d), 62500);
    lemma_div_is_ordered(255 * (62500 - d * d), 15937500int, 62500);
}

/// The inverted-parabola envelope on one step.
pub fn circular_envelope(j: u16) -> (bright: u8)
    requires
        LOWEST_BRIGHTNESS <= j < SMOOTHNESS_PTS,
    ensures
        bright == circular_bright(j as int),
{
    proof {
        lemma_circular_bound(j as int);
    }
    let d: i32 = j as i32 - 250;
    let num: i32 = 62500 - d * d;
    let scaled: i32 = 255 * num / 62500;
    scaled as u8
}

/// The inverted-parabola envelope rises monotonically up to its peak at
/// the center, where it reaches full brightness.
pub proof fn lemma_circular_rise(j1: int, j2: int)
    requires
        LOWEST_BRIGHTNESS <= j1 <= j2 <= 250,
    ensures
        circular_bright(j1) <= circular_bright(j2),
        circular_bright(250) == 255,
{
    lemma_circular_bound(j1);
    lemma_circular_bound(j2);
    assert((j1 - 250) * (j1 - 250) >= (j2 - 250) * (j2 - 250)) by (nonlinear_arith)
        requires j1 <= j2 <= 250;
    assert(255 * (62500 - (j1 - 250) * (j1 - 250)) <= 255 * (62500 - (j2 - 250) * (j2 - 250)))
        by (nonlinear_arith)
        requires (j1 - 250) * (j1 - 250) >= (j2 - 250) * (j2 - 250);
    lemma_div_is_ordered(
        255 * (62500 - (j1 - 250) * (j1 - 250)),
        255 * (62500 - (j2 - 250) * (j2 - 250)),
        62500,
    );
}

/// The inverted-parabola envelope falls monotonically after its peak.
pub proof fn lemma_circular_fall(j1: int, j2: int)
    requires
        250 <= j1 <= j2 < SMOOTHNESS_PTS,
    ensures
        circular_bright(j1) >= circular_bright(j2),
{
    lemma_circular_bound(j1);
    lemma_circular_bound(j2);
    assert((j1 - 250) * (j1 - 250) <= (j2 - 250) * (j2 - 250)) by (nonlinear_arith)
        requires 250 <= j1 <= j2;
    assert(255 * (62500 - (j2 - 250) * (j2 - 250)) <= 255 * (62500 - (j1 - 250) * (j1 - 250)))
        by (nonlinear_arith)
        requires (j1 - 250) * (j1 - 250) <= (j2 - 250) * (j2 - 250);
    lemma_div_is_ordered(
        255 * (62500 - (j2 - 250) * (j2 - 250)),
        255 * (62500 - (j1 - 250) * (j1 - 250)),
        62500,
    );
}

/// One squaring step of the fixed-point exponential.
pub open spec fn gauss_sq(n: int) -> int {
    (n * n) / 65536
}

/// A fixed-point exponential: approximates `65536 * e^(u / 65536)` by
/// compounding `(1 + u/64)` six times by squaring.
pub open spec fn gauss_exp(u: int) -> int {
    gauss_sq(gauss_sq(gauss_sq(gauss_sq(gauss_sq(gauss_sq(65536 + u / 64))))))
}

/// The squared, scaled distance of a step from the bell's center:
/// `((j - 250) / 70)^2 / 2` in fixed point, the exponent of the bell.
pub open spec fn gauss_u(j: int) -> int {
    ((j - 250) * (j - 250) * 65536) / 9800
}

/// The Gaussian envelope: full brightness at the center, fading with
/// the squared distance from it. `16711680` is `255 * 65536`.
pub open spec fn gaussian_bright(j: int) -> u8
    recommends
        LOWEST_BRIGHTNESS <= j < SMOOTHNESS_PTS,
{
    (16711680int / gauss_exp(gauss_u(j))) as u8
}

proof fn lemma_gauss_sq_mono(a: int, b: int)
    requires
        0 <= a <= b,
    ensures
        0 <= gauss_sq(a) <= gauss_sq(b),
{
    assert(0 <= a * a <= b * b) by (nonlinear_arith)
        requires 0 <= a <= b;
    lemma_div_is_ordered(0int, a * a, 65536);
    lemma_div_is_ordered(a * a, b * b, 65536);
}

proof fn lemma_gauss_u_bounds(j: int)
    requires
        0 <= j <= 500,
    ensures
        0 <= gauss_u(j) <= 417959,
{
    let d = j - 250;
    assert(0 <= d * d <= 62500) by (nonlinear_arith)
        requires -250 <= d <= 250;
    assert(0 <= d * d * 65536 <= 4096000000) by (nonlinear_arith)
        requires 0 <= d * d <= 62500;
    lemma_div_is_ordered(0int, d * d * 65536, 9800);
    lemma_div_is_ordered(d * d * 65536, 4096000000int, 9800);
}

proof fn lemma_gauss_step(a: int, b: int, h: int)
    requires
        65536 <= a <= b <= h,
    ensures
        65536 <= gauss_sq(a) <= gauss_sq(b) <= gauss_sq(h),
{
    lemma_gauss_sq_mono(65536, a);
    lemma_gauss_sq_mono(a, b);
    lemma_gauss_sq_mono(b, h);
    assert(gauss_sq(65536) == 65536);
}

/// The fixed-point exponential is monotone, never falls below its
/// scale, and is bounded on the exponents the envelope uses.
proof fn lemma_gauss_exp_mono(u1: int, u2: int)
    requires
        0 <= u1 <= u2 <= 417959,
    ensures
        65536 <= gauss_exp(u1) <= gauss_exp(u2) <= 28600101,
{
    lemma_div_is_ordered(0int, u1, 64);
    lemma_div_is_ordered(u1, u2, 64);
    lemma_div_is_ordered(u2, 417959int, 64);
    let a0 = 65536 + u1 / 64;
    let b0 = 65536 + u2 / 64;
    lemma_gauss_step(a0, b0, 72066);
    assert(gauss_sq(72066int) == 79246);
    lemma_gauss_step(gauss_sq(a0), gauss_sq(b0), 79246);
    assert(gauss_sq(79246int) == 95824);
    lemma_gauss_step(gauss_sq(gauss_sq(a0)), gauss_sq(gauss_sq(b0)), 95824);
    assert(gauss_sq(95824int) == 140109);
    lemma_gauss_step(
        gauss_sq(gauss_sq(gauss_sq(a0))),
        gauss_sq(gauss_sq(gauss_sq(b0))),
        140109,
    );
    assert(gauss_sq(140109int) == 299538);
    lemma_gauss_step(
        gauss_sq(gauss_sq(gauss_sq(gauss_sq(a0)))),
        gauss_sq(gauss_sq(gauss_sq(gauss_sq(b0)))),
        299538,
    );
    assert(gauss_sq(299538int) == 1369064);
    lemma_gauss_step(
        gauss_sq(gauss_sq(gauss_sq(gauss_sq(gauss_sq(a0))))),
        gauss_sq(gauss_sq(gauss_sq(gauss_sq(gauss_sq(b0))))),
        1369064,
    );
    assert(gauss_sq(1369064int) == 28600101);
}

proof fn lemma_gaussian_bound(j: int)
    requires
        0 <= j <= 500,
    ensures
        0 <= 16711680int / gauss_exp(gauss_u(j)) <= 255,
{
    lemma_gauss_u_bounds(j);
    lemma_gauss_exp_mono(gauss_u(j), gauss_u(j));
    lemma_div_pos_is_pos(16711680int, gauss_exp(gauss_u(j)));
    lemma_div_is_ordered_by_denominator(16711680int, 65536int, gauss_exp(gauss_u(j)));
}

/// The Gaussian envelope on one step.
pub fn gaussian_envelope(j: u16) -> (bright: u8)
    requires
        LOWEST_BRIGHTNESS <= j < SMOOTHNESS_PTS,
    ensures
        bright == gaussian_bright(j as int),
{
    proof {
        lemma_gauss_u_bounds(j as int);
        lemma_gaussian_bound(j as int);
    }
    let d: i64 = j as i64 - 250;
    proof {
        assert(0 <= d * d <= 62500) by (nonlinear_arith)
            requires -250 <= d <= 250;
    }
    let d2: u64 = (d * d) as u64;
    let u: u64 = d2 * 65536 / 9800;
    let n0: u64 = 65536 + u / 64;
    proof {
        lemma_div_is_ordered(d2 as int * 65536, 4096000000int, 9800);
        lemma_div_is_ordered(u as int, 417959int, 64);
        assert(n0 as int * n0 as int <= 72066int * 72066) by (nonlinear_arith)
            requires 0 <= n0 as int <= 72066;
        lemma_gauss_step(n0 as int, n0 as int, 72066);
        assert(gauss_sq(72066int) == 79246);
    }
    let n1: u64 = n0 * n0 / 65536;
    proof {
        assert(n1 as int * n1 as int <= 79246int * 79246) by (nonlinear_arith)
            requires 0 <= n1 as int <= 79246;
        lemma_gauss_step(n1 as int, n1 as int, 79246);
        assert(gauss_sq(79246int) == 95824);
    }
    let n2: u64 = n1 * n1 / 65536;
    proof {
        assert(n2 as int * n2 as int <= 95824int * 95824) by (nonlinear_arith)
            requires 0 <= n2 as int <= 95824;
        lemma_gauss_step(n2 as int, n2 as int, 95824);
        assert(gauss_sq(95824int) == 140109);
    }
    let n3: u64 = n2 * n2 / 65536;
    proof {
        assert(n3 as int * n3 as int <= 140109int * 140109) by (nonlinear_arith)
            requires 0 <= n3 as int <= 140109;
        lemma_gauss_step(n3 as int, n3 as int, 140109);
        assert(gauss_sq(140109int) == 299538);
    }
    let n4: u64 = n3 * n3 / 65536;
    proof {
        assert(n4 as int * n4 as int <= 299538int * 299538) by (nonlinear_arith)
            requires 0 <= n4 as int <= 299538;
        lemma_gauss_step(n4 as int, n4 as int, 299538);
        assert(gauss_sq(299538int) == 1369064);
    }
    let n5: u64 = n4 * n4 / 65536;
    proof {
        assert(n5 as int * n5 as int <= 1369064int * 1369064) by (nonlinear_arith)
            requires 0 <= n5 as int <= 1369064;
        lemma_gauss_step(n5 as int, n5 as int, 1369064);
    }
    let n6: u64 = n5 * n5 / 65536;
    let scaled: u64 = 16711680 / n6;
    scaled as u8
}

/// The Gaussian envelope rises monotonically up to its peak at the
/// bell's center, where it reaches full brightness.
pub proof fn lemma_gaussian_rise(j1: int, j2: int)
    requires
        LOWEST_BRIGHTNESS <= j1 <= j2 <= 250,
    ensures
        gaussian_bright(j1) <= gaussian_bright(j2),
        gaussian_bright(250) == 255,
{
    lemma_gauss_u_bounds(j1);
    lemma_gauss_u_bounds(j2);
    lemma_gaussian_bound(j1);
    lemma_gaussian_bound(j2);
    assert((j2 - 250) * (j2 - 250) <= (j1 - 250) * (j1 - 250)) by (nonlinear_arith)
        requires j1 <= j2 <= 250;
    assert((j2 - 250) * (j2 - 250) * 65536 <= (j1 - 250) * (j1 - 250) * 65536)
        by (nonlinear_arith)
        requires (j2 - 250) * (j2 - 250) <= (j1 - 250) * (j1 - 250);
    lemma_div_is_ordered((j2 - 250) * (j2 - 250) * 65536, (j1 - 250) * (j1 - 250) * 65536, 9800);
    lemma_gauss_exp_mono(gauss_u(j2), gauss_u(j1));
    lemma_div_is_ordered_by_denominator(
        16711680int,
        gauss_exp(gauss_u(j2)),
        gauss_exp(gauss_u(j1)),
    );
    lemma_gaussian_peak();
}

/// The Gaussian envelope falls monotonically after its peak.
pub proof fn lemma_gaussian_fall(j1: int, j2: int)
    requires
        250 <= j1 <= j2 < SMOOTHNESS_PTS,
    ensures
        gaussian_bright(j1) >= gaussian_bright(j2),
{
    lemma_gauss_u_bounds(j1);
    lemma_gauss_u_bounds(j2);
    lemma_gaussian_bound(j1);
    lemma_gaussian_bound(j2);
    assert((j1 - 250) * (j1 - 250) <= (j2 - 250) * (j2 - 250)) by (nonlinear_arith)
        requires 250 <= j1 <= j2;
    assert((j1 - 250) * (j1 - 250) * 65536 <= (j2 - 250) * (j2 - 250) * 65536)
        by (nonlinear_arith)
        requires (j1 - 250) * (j1 - 250) <= (j2 - 250) * (j2 - 250);
    lemma_div_is_ordered((j1 - 250) * (j1 - 250) * 65536, (j2 - 250) * (j2 - 250) * 65536, 9800);
    lemma_gauss_exp_mono(gauss_u(j1), gauss_u(j2));
    lemma_div_is_ordered_by_denominator(
        16711680int,
        gauss_exp(gauss_u(j1)),
        gauss_exp(gauss_u(j2)),
    );
}

/// The Gaussian envelope peaks at exactly full brightness.
pub proof fn lemma_gaussian_peak()
    ensures
        gaussian_bright(250) == 255,
{
    assert(gauss_u(250) == 0);
    assert(gauss_sq(65536) == 65536);
    assert(gauss_exp(0) == 65536);
}

} // verus!
