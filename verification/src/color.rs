//! The color model: RGB triples, HSV to RGB conversion, brightness scaling
//! and gamma correction. All functions here are total and free of panics.

use vstd::prelude::*;

verus! {

use vstd::arithmetic::div_mod::lemma_div_is_ordered;
use vstd::arithmetic::div_mod::lemma_div_multiples_vanish;
use vstd::arithmetic::div_mod::lemma_small_mod;
use vstd::arithmetic::mul::lemma_mul_inequality;

/// An RGB color: one 8-bit intensity per channel.
#[derive(Clone, Copy, Debug, PartialEq, Eq, Structural)]
pub struct Rgb {
    pub r: u8,
    pub g: u8,
    pub b: u8,
}

impl Default for Rgb {
    /// The default color is all-zero (off).
    fn default() -> (c: Self)
        ensures
            c == (Rgb { r: 0, g: 0, b: 0 }),
    {
        Rgb { r: 0, g: 0, b: 0 }
    }
}

/// One channel scaled by `level / 255`, truncating.
pub open spec fn scale_channel(ch: u8, level: u8) -> u8 {
    ((ch * level) / 255) as u8
}

/// A color scaled channel-wise by `level / 255`.
pub open spec fn scale_rgb(c: Rgb, level: u8) -> Rgb {
    Rgb {
        r: scale_channel(c.r, level),
        g: scale_channel(c.g, level),
        b: scale_channel(c.b, level),
    }
}

proof fn lemma_scale_channel_bound(ch: u8, level: u8)
    ensures
        0 <= (ch * level) / 255 <= 255,
{
    assert(ch * level <= 255 * 255) by (nonlinear_arith)
        requires ch <= 255 && level <= 255;
    lemma_div_is_ordered(ch * level, 65025int, 255);
}

/// Scales each channel of `c` by `level / 255`, truncating.
pub fn apply_brightness(c: Rgb, level: u8) -> (out: Rgb)
    ensures
        out == scale_rgb(c, level),
{
    proof {
        lemma_scale_channel_bound(c.r, level);
        lemma_scale_channel_bound(c.g, level);
        lemma_scale_channel_bound(c.b, level);
    }
    Rgb {
        r: ((c.r as u16 * level as u16) / 255) as u8,
        g: ((c.g as u16 * level as u16) / 255) as u8,
        b: ((c.b as u16 * level as u16) / 255) as u8,
    }
}

/// The gamma curve on one channel: a power law with exponent three,
/// `x^3 / 255^2`, truncating. It maps 0 to 0 and 255 to 255 and is
/// monotonically non-decreasing.
pub open spec fn gamma_channel(x: u8) -> u8 {
    ((x * x * x) / 65025) as u8
}

/// A color mapped channel-wise through the gamma curve.
pub open spec fn gamma_rgb(c: Rgb) -> Rgb {
    Rgb {
        r: gamma_channel(c.r),
        g: gamma_channel(c.g),
        b: gamma_channel(c.b),
    }
}

proof fn lemma_cube_bound(x: u8)
    ensures
        0 <= x * x <= 65025,
        0 <= x * x * x <= 16581375,
{
    assert(x * x <= 255 * 255) by (nonlinear_arith)
        requires x <= 255;
    assert(x * x * x <= 255 * 255 * 255) by (nonlinear_arith)
        requires x <= 255;
    assert(0 <= x * x && 0 <= x * x * x) by (nonlinear_arith);
}

proof fn lemma_gamma_channel_bound(x: u8)
    ensures
        0 <= (x * x * x) / 65025 <= 255,
{
    lemma_cube_bound(x);
    lemma_div_is_ordered(x * x * x, 16581375, 65025);
}

/// Gamma-corrects each channel of `c` through the power-law curve.
pub fn apply_gamma(c: Rgb) -> (out: Rgb)
    ensures
        out == gamma_rgb(c),
{
    proof {
        lemma_cube_bound(c.r);
        lemma_cube_bound(c.g);
        lemma_cube_bound(c.b);
        lemma_gamma_channel_bound(c.r);
        lemma_gamma_channel_bound(c.g);
        lemma_gamma_channel_bound(c.b);
    }
    Rgb {
        r: ((c.r as u32 * c.r as u32 * c.r as u32) / 65025) as u8,
        g: ((c.g as u32 * c.g as u32 * c.g as u32) / 65025) as u8,
        b: ((c.b as u32 * c.b as u32 * c.b as u32) / 65025) as u8,
    }
}

/// The gamma curve fixes both endpoints: full darkness and full
/// intensity pass through unchanged.
pub proof fn lemma_gamma_endpoints()
    ensures
        gamma_channel(0) == 0,
        gamma_channel(255) == 255,
{
}

/// The gamma curve is monotonically non-decreasing.
pub proof fn lemma_gamma_monotone(a: u8, b: u8)
    requires
        a <= b,
    ensures
        gamma_channel(a) <= gamma_channel(b),
{
    lemma_gamma_channel_bound(a);
    lemma_gamma_channel_bound(b);
    assert(a * a * a <= b * b * b) by (nonlinear_arith)
        requires 0 <= a <= b;
    lemma_div_is_ordered(a * a * a, b * b * b, 65025);
}

/// Scaling by level 0 turns every channel off, and scaling by level 255
/// leaves the color unchanged.
pub proof fn lemma_brightness_endpoints(c: Rgb)
    ensures
        scale_rgb(c, 0) == (Rgb { r: 0, g: 0, b: 0 }),
        scale_rgb(c, 255) == c,
{
    assert(c.r * 255 == 255 * c.r) by (nonlinear_arith);
    assert(c.g * 255 == 255 * c.g) by (nonlinear_arith);
    assert(c.b * 255 == 255 * c.b) by (nonlinear_arith);
    assert((255 * c.r) / 255 == c.r);
    assert((255 * c.g) / 255 == c.g);
    assert((255 * c.b) / 255 == c.b);
}

/// The hue's position within its sector, stretched to 0..=252.
pub open spec fn hsv_f(hue: u8) -> int {
    ((hue * 2) % 85) * 3
}

/// The lowest of the three channels for a given saturation and value.
pub open spec fn hsv_p(sat: u8, val: u8) -> int {
    (val * (255 - sat)) / 255
}

/// The channel falling across the sector.
pub open spec fn hsv_q(sat: u8, val: u8, f: int) -> int {
    (val * (255 - (sat * f) / 255)) / 255
}

/// The channel rising across the sector.
pub open spec fn hsv_t(sat: u8, val: u8, f: int) -> int {
    (val * (255 - (sat * (255 - f)) / 255)) / 255
}

/// The six-sector HSV to RGB conversion on 8-bit components. The hue
/// runs the whole color circle in 0..=255, six sectors of about 43 hues
/// each; saturation and value scale the chroma and the peak channel.
pub open spec fn hsv_to_rgb_spec(hue: u8, sat: u8, val: u8) -> Rgb {
    let f = hsv_f(hue);
    let p = hsv_p(sat, val) as u8;
    let q = hsv_q(sat, val, f) as u8;
    let t = hsv_t(sat, val, f) as u8;
    if hue <= 42 {
        Rgb { r: val, g: t, b: p }
    } else if hue <= 84 {
        Rgb { r: q, g: val, b: p }
    } else if hue <= 127 {
        Rgb { r: p, g: val, b: t }
    } else if hue <= 169 {
        Rgb { r: p, g: q, b: val }
    } else if hue <= 212 {
        Rgb { r: t, g: p, b: val }
    } else if hue <= 254 {
        Rgb { r: val, g: p, b: q }
    } else {
        Rgb { r: val, g: t, b: p }
    }
}

proof fn lemma_scaled_div_bound(a: int, b: int)
    requires
        0 <= a <= 255,
        0 <= b <= 255,
    ensures
        0 <= a * b <= 65025,
        0 <= (a * b) / 255 <= 255,
{
    assert(0 <= a * b <= 65025) by (nonlinear_arith)
        requires 0 <= a <= 255 && 0 <= b <= 255;
    lemma_div_is_ordered(0int, a * b, 255);
    lemma_div_is_ordered(a * b, 65025int, 255);
}

proof fn lemma_hsv_ranges(hue: u8, sat: u8, val: u8)
    ensures
        0 <= hsv_f(hue) <= 252,
        0 <= hsv_p(sat, val) <= 255,
        0 <= hsv_q(sat, val, hsv_f(hue)) <= 255,
        0 <= hsv_t(sat, val, hsv_f(hue)) <= 255,
{
    let f = hsv_f(hue);
    assert(0 <= (hue * 2) % 85 < 85);
    lemma_scaled_div_bound(val as int, 255 - sat);
    lemma_scaled_div_bound(sat as int, f);
    lemma_scaled_div_bound(val as int, 255 - (sat * f) / 255);
    lemma_scaled_div_bound(sat as int, 255 - f);
    lemma_scaled_div_bound(val as int, 255 - (sat * (255 - f)) / 255);
}

/// Converts an HSV triple to RGB with the six-sector algorithm; the hue
/// wraps around the color circle compressed to 0..=255.
pub fn hsv_to_rgb(hue: u8, sat: u8, val: u8) -> (out: Rgb)
    ensures
        out == hsv_to_rgb_spec(hue, sat, val),
{
    proof {
        lemma_hsv_ranges(hue, sat, val);
    }
    let v: u16 = val as u16;
    let s: u16 = sat as u16;
    let f: u16 = (hue as u16 * 2 % 85) * 3;
    proof {
        assert(f as int == hsv_f(hue));
        lemma_scaled_div_bound(v as int, 255 - s as int);
        lemma_scaled_div_bound(s as int, f as int);
    }
    let p: u16 = v * (255 - s) / 255;
    proof {
        lemma_scaled_div_bound(v as int, 255 - (s as int * f as int) / 255);
        lemma_scaled_div_bound(s as int, 255 - f as int);
    }
    let q: u16 = v * (255 - (s * f) / 255) / 255;
    proof {
        lemma_scaled_div_bound(v as int, 255 - (s as int * (255 - f as int)) / 255);
    }
    let t: u16 = v * (255 - (s * (255 - f)) / 255) / 255;
    if hue <= 42 {
        Rgb { r: val, g: t as u8, b: p as u8 }
    } else if hue <= 84 {
        Rgb { r: q as u8, g: val, b: p as u8 }
    } else if hue <= 127 {
        Rgb { r: p as u8, g: val, b: t as u8 }
    } else if hue <= 169 {
        Rgb { r: p as u8, g: q as u8, b: val }
    } else if hue <= 212 {
        Rgb { r: t as u8, g: p as u8, b: val }
    } else if hue <= 254 {
        Rgb { r: val, g: p as u8, b: q as u8 }
    } else {
        Rgb { r: val, g: t as u8, b: p as u8 }
    }
}

/// The sector of the color circle a hue falls in: six sectors of about
/// 43 hues each, and the final hue 255, which closes the circle where
/// sector 0 started.
pub open spec fn hsv_sector(hue: u8) -> int {
    if hue <= 42 {
        0
    } else if hue <= 84 {
        1
    } else if hue <= 127 {
        2
    } else if hue <= 169 {
        3
    } else if hue <= 212 {
        4
    } else if hue <= 254 {
        5
    } else {
        6
    }
}

/// How many channels of a color sit at full intensity.
pub open spec fn saturated_count(c: Rgb) -> int {
    (if c.r == 255 { 1int } else { 0int }) + (if c.g == 255 { 1int } else { 0int })
        + (if c.b == 255 { 1int } else { 0int })
}

/// Within each sector, the stretched hue position is an affine function
/// of the hue, rising by six per hue step.
proof fn lemma_hsv_f_form(hue: u8)
    ensures
        hsv_sector(hue) == 0 ==> hsv_f(hue) == 6 * hue,
        hsv_sector(hue) == 1 ==> hsv_f(hue) == 6 * hue - 255,
        hsv_sector(hue) == 2 ==> hsv_f(hue) == 6 * hue - 510,
        hsv_sector(hue) == 3 ==> hsv_f(hue) == 6 * hue - 765,
        hsv_sector(hue) == 4 ==> hsv_f(hue) == 6 * hue - 1020,
        hsv_sector(hue) == 5 ==> hsv_f(hue) == 6 * hue - 1275,
        hsv_sector(hue) == 6 ==> hsv_f(hue) == 0,
        0 <= hsv_f(hue) <= 252,
{
    let s = hsv_sector(hue);
    assert(hue * 2 == 85 * s + (2 * hue - 85 * s));
    vstd::arithmetic::div_mod::lemma_mod_multiples_vanish(s, 2 * hue - 85 * s, 85);
    lemma_small_mod((2 * hue - 85 * s) as nat, 85);
}

/// At full saturation and full value the lowest channel is dark, the
/// falling channel mirrors the rising one, and the rising channel is
/// exactly the stretched hue position.
proof fn lemma_hsv_full_pqt(hue: u8)
    ensures
        hsv_p(255, 255) == 0,
        hsv_q(255, 255, hsv_f(hue)) == 255 - hsv_f(hue),
        hsv_t(255, 255, hsv_f(hue)) == hsv_f(hue),
{
    let f = hsv_f(hue);
    lemma_hsv_f_form(hue);
    lemma_div_multiples_vanish(f, 255);
    assert((255 * (255 - 255)) / 255 == 0);
    assert(hsv_q(255, 255, f) == (255 * (255 - f)) / 255);
    lemma_div_multiples_vanish(255 - f, 255);
    assert(hsv_t(255, 255, f) == (255 * (255 - (255 * (255 - f)) / 255)) / 255);
    lemma_div_multiples_vanish(255 - (255 - f), 255);
}

/// Fully saturated, fully bright hues map to a color with exactly one
/// channel at full intensity.
pub proof fn lemma_hsv_full_one_saturated(hue: u8)
    ensures
        saturated_count(hsv_to_rgb_spec(hue, 255, 255)) == 1,
{
    lemma_hsv_f_form(hue);
    lemma_hsv_full_pqt(hue);
}

/// The hue circle closes: the last hue yields the same color as the first.
pub proof fn lemma_hsv_full_wraps()
    ensures
        hsv_to_rgb_spec(255, 255, 255) == hsv_to_rgb_spec(0, 255, 255),
{
    lemma_hsv_f_form(255);
    lemma_hsv_f_form(0);
    lemma_hsv_full_pqt(255);
    lemma_hsv_full_pqt(0);
}

/// Within each of the six sectors, at full saturation and value, one
/// channel stays at full intensity, one stays dark, and the remaining
/// channel moves monotonically with the hue: it rises across sectors
/// 0, 2 and 4 and falls across sectors 1, 3 and 5.
pub proof fn lemma_hsv_full_sector_monotone(h1: u8, h2: u8)
    requires
        h1 <= h2,
        hsv_sector(h1) == hsv_sector(h2),
        h2 <= 254,
    ensures
        ({
            let c1 = hsv_to_rgb_spec(h1, 255, 255);
            let c2 = hsv_to_rgb_spec(h2, 255, 255);
            &&& hsv_sector(h1) == 0 ==> c1.r == 255 && c1.b == 0 && c1.g <= c2.g
            &&& hsv_sector(h1) == 1 ==> c1.g == 255 && c1.b == 0 && c1.r >= c2.r
            &&& hsv_sector(h1) == 2 ==> c1.g == 255 && c1.r == 0 && c1.b <= c2.b
            &&& hsv_sector(h1) == 3 ==> c1.b == 255 && c1.r == 0 && c1.g >= c2.g
            &&& hsv_sector(h1) == 4 ==> c1.b == 255 && c1.g == 0 && c1.r <= c2.r
            &&& hsv_sector(h1) == 5 ==> c1.r == 255 && c1.g == 0 && c1.b >= c2.b
        }),
{
    lemma_hsv_f_form(h1);
    lemma_hsv_f_form(h2);
    lemma_hsv_full_pqt(h1);
    lemma_hsv_full_pqt(h2);
}

/// Scaling is monotone in the level: a higher level never darkens a channel.
pub proof fn lemma_brightness_monotone(c: Rgb, l1: u8, l2: u8)
    requires
        l1 <= l2,
    ensures
        scale_channel(c.r, l1) <= scale_channel(c.r, l2),
        scale_channel(c.g, l1) <= scale_channel(c.g, l2),
        scale_channel(c.b, l1) <= scale_channel(c.b, l2),
{
    lemma_scale_channel_bound(c.r, l1);
    lemma_scale_channel_bound(c.g, l1);
    lemma_scale_channel_bound(c.b, l1);
    lemma_scale_channel_bound(c.r, l2);
    lemma_scale_channel_bound(c.g, l2);
    lemma_scale_channel_bound(c.b, l2);
    lemma_mul_inequality(l1 as int, l2 as int, c.r as int);
    lemma_mul_inequality(l1 as int, l2 as int, c.g as int);
    lemma_mul_inequality(l1 as int, l2 as int, c.b as int);
    assert(c.r * l1 == l1 * c.r) by (nonlinear_arith);
    assert(c.g * l1 == l1 * c.g) by (nonlinear_arith);
    assert(c.b * l1 == l1 * c.b) by (nonlinear_arith);
    assert(c.r * l2 == l2 * c.r) by (nonlinear_arith);
    assert(c.g * l2 == l2 * c.g) by (nonlinear_arith);
    assert(c.b * l2 == l2 * c.b) by (nonlinear_arith);
    lemma_div_is_ordered(c.r * l1, c.r * l2, 255);
    lemma_div_is_ordered(c.g * l1, c.g * l2, 255);
    lemma_div_is_ordered(c.b * l1, c.b * l2, 255);
}

} // verus!
