//! The animation engine. It owns the frame buffer and the transmission
//! sink, and turns each animation operation into a sequence of frames:
//! per step it recomputes the buffer, applies brightness and then gamma,
//! and submits the corrected frame. A sink failure aborts the running
//! animation at once; the frames delivered up to that point are exactly
//! a prefix of the animation's frame sequence.

use vstd::prelude::*;

verus! {

use std::time::Duration;
use vstd::arithmetic::div_mod::lemma_fundamental_div_mod;
use vstd::arithmetic::div_mod::lemma_mod_multiples_vanish;
use crate::color::Rgb;
use crate::color::apply_brightness;
use crate::color::apply_gamma;
use crate::color::gamma_rgb;
use crate::color::hsv_to_rgb;
use crate::color::hsv_to_rgb_spec;
use crate::color::scale_rgb;
use crate::sink::Error;
use crate::sink::FrameSink;
use crate::wave::LOWEST_BRIGHTNESS;
use crate::wave::SMOOTHNESS_PTS;
use crate::wave::circular_bright;
use crate::wave::circular_envelope;
use crate::wave::gaussian_bright;
use crate::wave::gaussian_envelope;
use crate::wave::triangle_bright;
use crate::wave::triangle_envelope;

/// The color one pixel shows after the corrections: brightness scaling
/// first, then gamma.
pub open spec fn corrected(color: Rgb, level: u8) -> Rgb {
    gamma_rgb(scale_rgb(color, level))
}

/// A buffer of `n` pixels all holding the same base color.
pub open spec fn uniform(n: nat, color: Rgb) -> Seq<Rgb> {
    Seq::new(n, |i: int| color)
}

/// A frame of `n` pixels all showing `color` under brightness `level`,
/// corrected for transmission.
pub open spec fn solid_frame(n: nat, color: Rgb, level: u8) -> Seq<Rgb> {
    Seq::new(n, |i: int| corrected(color, level))
}

/// The corrected frames of a uniform animation, one per brightness
/// level of its envelope.
pub open spec fn solid_frames(n: nat, color: Rgb, levels: Seq<u8>) -> Seq<Seq<Rgb>> {
    levels.map_values(|level: u8| solid_frame(n, color, level))
}

/// The all-dark frame: every pixel off, corrected for transmission.
pub open spec fn off_frame(n: nat) -> Seq<Rgb> {
    Seq::new(n, |i: int| gamma_rgb(Rgb { r: 0, g: 0, b: 0 }))
}

/// The hue pixel `i` shows at rainbow step `j`: the step advances every
/// pixel while a phase offset of three hues per pixel spreads the color
/// wheel along the strip.
pub open spec fn rainbow_hue(i: int, j: int) -> u8 {
    ((i * 3 + j) % 256) as u8
}

/// The base colors of rainbow step `j`, before gamma correction.
pub open spec fn rainbow_raw_frame(n: nat, j: int) -> Seq<Rgb> {
    Seq::new(n, |i: int| hsv_to_rgb_spec(rainbow_hue(i, j), 255, 100))
}

/// The corrected frame of rainbow step `j`.
pub open spec fn rainbow_frame(n: nat, j: int) -> Seq<Rgb> {
    Seq::new(n, |i: int| gamma_rgb(hsv_to_rgb_spec(rainbow_hue(i, j), 255, 100)))
}

/// The 256 corrected frames of one rainbow cycle.
pub open spec fn rainbow_frames(n: nat) -> Seq<Seq<Rgb>> {
    Seq::new(256, |j: int| rainbow_frame(n, j))
}

/// The brightness envelope of the triangle-wave pulse, step by step.
pub open spec fn triangle_levels() -> Seq<u8> {
    Seq::new((510 - 2 * LOWEST_BRIGHTNESS) as nat, |k: int| triangle_bright(k + LOWEST_BRIGHTNESS))
}

/// The brightness envelope of the inverted-parabola pulse, step by step.
pub open spec fn circular_levels() -> Seq<u8> {
    Seq::new(
        (SMOOTHNESS_PTS - LOWEST_BRIGHTNESS) as nat,
        |k: int| circular_bright(k + LOWEST_BRIGHTNESS),
    )
}

/// The brightness envelope of the Gaussian pulse, step by step.
pub open spec fn gaussian_levels() -> Seq<u8> {
    Seq::new(
        (SMOOTHNESS_PTS - LOWEST_BRIGHTNESS) as nat,
        |k: int| gaussian_bright(k + LOWEST_BRIGHTNESS),
    )
}

/// The corrected frames of one triangle-wave breathing pulse.
pub open spec fn triangle_frames(n: nat, color: Rgb) -> Seq<Seq<Rgb>> {
    solid_frames(n, color, triangle_levels())
}

/// The corrected frames of one inverted-parabola breathing pulse.
pub open spec fn circular_frames(n: nat, color: Rgb) -> Seq<Seq<Rgb>> {
    solid_frames(n, color, circular_levels())
}

/// The corrected frames of one Gaussian breathing pulse.
pub open spec fn gaussian_frames(n: nat, color: Rgb) -> Seq<Seq<Rgb>> {
    solid_frames(n, color, gaussian_levels())
}

/// The triangle pulse's brightness sequence starts at the floor, rises
/// monotonically to full brightness at its peak step, falls
/// monotonically back, and is symmetric around the peak.
pub proof fn lemma_triangle_levels_shape(k1: int, k2: int)
    requires
        0 <= k1 <= k2 < 390,
    ensures
        k2 <= 195 ==> triangle_levels()[k1] <= triangle_levels()[k2],
        k1 >= 195 ==> triangle_levels()[k1] >= triangle_levels()[k2],
        triangle_levels()[0] == LOWEST_BRIGHTNESS,
        triangle_levels()[195] == 255,
        0 < k1 ==> triangle_levels()[k1] == triangle_levels()[390 - k1],
{
    if k2 <= 195 {
        crate::wave::lemma_triangle_rise(k1 + 60, k2 + 60);
    }
    if k1 >= 195 {
        crate::wave::lemma_triangle_fall(k1 + 60, k2 + 60);
    }
    crate::wave::lemma_triangle_rise(60, 60);
    crate::wave::lemma_triangle_rise(255, 255);
    if 0 < k1 {
        crate::wave::lemma_triangle_symmetric(k1 + 60);
    }
}

/// The inverted-parabola pulse's brightness sequence rises
/// monotonically up to full brightness at the center of the resolution
/// and falls monotonically after it: the pulse is smooth, with no
/// oscillation within either half.
pub proof fn lemma_circular_levels_shape(k1: int, k2: int)
    requires
        0 <= k1 <= k2 < 440,
    ensures
        k2 <= 190 ==> circular_levels()[k1] <= circular_levels()[k2],
        k1 >= 190 ==> circular_levels()[k1] >= circular_levels()[k2],
        circular_levels()[190] == 255,
{
    if k2 <= 190 {
        crate::wave::lemma_circular_rise(k1 + 60, k2 + 60);
    }
    if k1 >= 190 {
        crate::wave::lemma_circular_fall(k1 + 60, k2 + 60);
    }
    crate::wave::lemma_circular_rise(250, 250);
}

/// The Gaussian pulse's brightness sequence rises monotonically up to
/// full brightness at the bell's center and falls monotonically after
/// it: the pulse is smooth, with no oscillation within either half.
pub proof fn lemma_gaussian_levels_shape(k1: int, k2: int)
    requires
        0 <= k1 <= k2 < 440,
    ensures
        k2 <= 190 ==> gaussian_levels()[k1] <= gaussian_levels()[k2],
        k1 >= 190 ==> gaussian_levels()[k1] >= gaussian_levels()[k2],
        gaussian_levels()[190] == 255,
{
    if k2 <= 190 {
        crate::wave::lemma_gaussian_rise(k1 + 60, k2 + 60);
    }
    if k1 >= 190 {
        crate::wave::lemma_gaussian_fall(k1 + 60, k2 + 60);
    }
    crate::wave::lemma_gaussian_peak();
}

/// The off frame darkens every pixel completely: gamma correction keeps
/// full darkness at zero, so writing it twice delivers two identical,
/// all-zero frames of the strip's length.
pub proof fn lemma_off_frame_dark(n: nat)
    ensures
        off_frame(n).len() == n,
        forall|i: int| 0 <= i < n ==> off_frame(n)[i] == (Rgb { r: 0, g: 0, b: 0 }),
{
}

/// On a single-pixel strip the rainbow cycle shows exactly the hue `j`
/// at step `j`: the phase offset vanishes on pixel zero.
pub proof fn lemma_rainbow_first_pixel(j: int)
    requires
        0 <= j < 256,
    ensures
        rainbow_hue(0, j) == j,
        rainbow_frame(1, j)[0] == gamma_rgb(hsv_to_rgb_spec(j as u8, 255, 100)),
{
}

proof fn lemma_rainbow_hue_fold(i: int, j: int)
    requires
        0 <= i,
        0 <= j < 256,
    ensures
        0 <= (i % 256) * 3 + j <= 1020,
        rainbow_hue(i, j) == (((i % 256) * 3 + j) % 256) as u8,
{
    let q = i / 256;
    let r = i % 256;
    lemma_fundamental_div_mod(i, 256);
    assert(i * 3 + j == 256 * (3 * q) + (r * 3 + j)) by (nonlinear_arith)
        requires i == 256 * q + r;
    lemma_mod_multiples_vanish(3 * q, r * 3 + j, 256);
    assert(r * 3 + j == (i % 256) * 3 + j);
}

/// A vector of `n` copies of one color.
fn filled(n: usize, color: Rgb) -> (out: Vec<Rgb>)
    ensures
        out@ == uniform(n as nat, color),
{
    let mut out: Vec<Rgb> = Vec::new();
    let mut i: usize = 0;
    while i < n
        invariant
            i <= n,
            out@ == uniform(i as nat, color),
        decreases n - i,
    {
        out.push(color);
        i = i + 1;
        proof {
            assert(out@ =~= uniform(i as nat, color));
        }
    }
    out
}

/// The corrected frame of a uniform color at one brightness level.
fn render_solid(n: usize, color: Rgb, level: u8) -> (out: Vec<Rgb>)
    ensures
        out@ == solid_frame(n as nat, color, level),
{
    let px = apply_gamma(apply_brightness(color, level));
    let out = filled(n, px);
    proof {
        assert(out@ =~= solid_frame(n as nat, color, level));
    }
    out
}

/// The raw and the corrected frame of rainbow step `j` on `n` pixels.
fn rainbow_frame_at(n: usize, j: u16) -> (out: (Vec<Rgb>, Vec<Rgb>))
    requires
        j < 256,
    ensures
        out.0@ == rainbow_raw_frame(n as nat, j as int),
        out.1@ == rainbow_frame(n as nat, j as int),
{
    let mut raw: Vec<Rgb> = Vec::new();
    let mut frame: Vec<Rgb> = Vec::new();
    let mut i: usize = 0;
    while i < n
        invariant
            i <= n,
            j < 256,
            raw@ == rainbow_raw_frame(i as nat, j as int),
            frame@ == rainbow_frame(i as nat, j as int),
        decreases n - i,
    {
        proof {
            lemma_rainbow_hue_fold(i as int, j as int);
        }
        let hue: u8 = (((i % 256) * 3 + j as usize) % 256) as u8;
        let px = hsv_to_rgb(hue, 255, 100);
        let gpx = apply_gamma(px);
        raw.push(px);
        frame.push(gpx);
        i = i + 1;
        proof {
            assert(raw@ =~= rainbow_raw_frame(i as nat, j as int));
            assert(frame@ =~= rainbow_frame(i as nat, j as int));
        }
    }
    proof {
        assert(raw@ =~= rainbow_raw_frame(n as nat, j as int));
        assert(frame@ =~= rainbow_frame(n as nat, j as int));
    }
    (raw, frame)
}

/// The animation engine: the frame buffer, sized once to the strip's
/// pixel count, and the transmission sink it submits frames to.
pub struct Leds<S: FrameSink> {
    /// The transmission sink.
    pub ws: S,
    /// The strip's pixel count, fixed at construction.
    pub leds_num: usize,
    /// The frame buffer: the base color of each pixel, before the
    /// transmission corrections.
    pub data: Vec<Rgb>,
}

impl<S: FrameSink> Leds<S> {
    /// The engine's invariant: the buffer length always equals the
    /// pixel count.
    pub open spec fn wf(&self) -> bool {
        self.data@.len() == self.leds_num
    }

    /// An engine for a strip of `leds_num` pixels behind the sink `ws`.
    /// The buffer starts all dark.
    pub fn new(ws: S, leds_num: usize) -> (led: Leds<S>)
        ensures
            led.wf(),
            led.leds_num == leds_num,
            led.ws == ws,
            led.data@ == uniform(leds_num as nat, Rgb { r: 0, g: 0, b: 0 }),
    {
        let data = filled(leds_num, Rgb { r: 0, g: 0, b: 0 });
        Leds { ws, leds_num, data }
    }

    /// Shows `color` at the given brightness on the whole strip with a
    /// single write: the buffer is filled with the color, and the
    /// brightness-scaled, gamma-corrected frame is submitted once.
    pub fn on(&mut self, color: Rgb, bright: u8) -> (r: Result<(), Error>)
        requires
            old(self).wf(),
        ensures
            final(self).wf(),
            final(self).leds_num == old(self).leds_num,
            final(self).data@ == uniform(old(self).leds_num as nat, color),
            r is Ok ==> final(self).ws.frames() == old(self).ws.frames().push(
                solid_frame(old(self).leds_num as nat, color, bright),
            ),
            r is Err ==> final(self).ws.frames() == old(self).ws.frames(),
    {
        self.data = filled(self.leds_num, color);
        let frame = render_solid(self.leds_num, color, bright);
        self.ws.write_frame(&frame)
    }

    /// Turns the strip off with a single write of the all-dark frame.
    pub fn off(&mut self) -> (r: Result<(), Error>)
        requires
            old(self).wf(),
        ensures
            final(self).wf(),
            final(self).leds_num == old(self).leds_num,
            final(self).data@ == uniform(old(self).leds_num as nat, Rgb { r: 0, g: 0, b: 0 }),
            r is Ok ==> final(self).ws.frames() == old(self).ws.frames().push(
                off_frame(old(self).leds_num as nat),
            ),
            r is Err ==> final(self).ws.frames() == old(self).ws.frames(),
    {
        let dark = Rgb { r: 0, g: 0, b: 0 };
        self.data = filled(self.leds_num, dark);
        let px = apply_gamma(dark);
        let frame = filled(self.leds_num, px);
        proof {
            assert(frame@ =~= off_frame(self.leds_num as nat));
        }
        self.ws.write_frame(&frame)
    }

    /// Runs one frame per brightness level of `levels`, the whole strip
    /// uniformly showing `color` under that level, pausing `delay`
    /// between frames. On a sink failure the animation stops at once,
    /// having delivered exactly the frames before the failed one.
    fn run_solid(&mut self, color: Rgb, levels: &Vec<u8>, delay: Duration) -> (r: Result<
        (),
        Error,
    >)
        requires
            old(self).wf(),
        ensures
            final(self).wf(),
            final(self).leds_num == old(self).leds_num,
            final(self).data@ == uniform(old(self).leds_num as nat, color),
            r is Ok ==> final(self).ws.frames() == old(self).ws.frames() + solid_frames(
                old(self).leds_num as nat,
                color,
                levels@,
            ),
            r is Err ==> exists|k: int|
                0 <= k < levels@.len() && final(self).ws.frames() == old(self).ws.frames()
                    + solid_frames(old(self).leds_num as nat, color, levels@).take(k),
    {
        let ghost orig = self.ws.frames();
        let ghost n = self.leds_num as nat;
        let ghost target = solid_frames(n, color, levels@);
        self.data = filled(self.leds_num, color);
        let mut idx: usize = 0;
        while idx < levels.len()
            invariant
                idx <= levels@.len(),
                self.wf(),
                self.leds_num == old(self).leds_num,
                orig == old(self).ws.frames(),
                n == self.leds_num as nat,
                self.data@ == uniform(n, color),
                target == solid_frames(n, color, levels@),
                self.ws.frames() == orig + target.take(idx as int),
            decreases levels@.len() - idx,
        {
            let frame = render_solid(self.leds_num, color, levels[idx]);
            match self.ws.write_frame(&frame) {
                Ok(()) => {},
                Err(e) => {
                    proof {
                        assert((idx as int) < levels@.len() && self.ws.frames() == orig
                            + target.take(idx as int));
                    }
                    return Err(e);
                },
            }
            self.ws.pause(delay);
            idx = idx + 1;
            proof {
                assert(target.take(idx as int) =~= target.take(idx as int - 1).push(frame@));
            }
        }
        proof {
            assert(target.take(levels@.len() as int) =~= target);
        }
        Ok(())
    }

    /// One cycle of the traveling color wheel: 256 steps, each pixel at
    /// full saturation and fixed value, the hue advancing with the step
    /// and offset three hues per pixel. Pauses `delay` between frames;
    /// a sink failure aborts the cycle at that frame.
    pub fn rainbow(&mut self, delay: Duration) -> (r: Result<(), Error>)
        requires
            old(self).wf(),
        ensures
            final(self).wf(),
            final(self).leds_num == old(self).leds_num,
            r is Ok ==> final(self).ws.frames() == old(self).ws.frames() + rainbow_frames(
                old(self).leds_num as nat,
            ) && final(self).data@ == rainbow_raw_frame(old(self).leds_num as nat, 255),
            r is Err ==> exists|k: int|
                0 <= k < 256 && final(self).ws.frames() == old(self).ws.frames() + rainbow_frames(
                    old(self).leds_num as nat,
                ).take(k) && final(self).data@ == rainbow_raw_frame(old(self).leds_num as nat, k),
    {
        let ghost orig = self.ws.frames();
        let ghost n = self.leds_num as nat;
        let ghost target = rainbow_frames(n);
        let mut j: u16 = 0;
        while j < 256
            invariant
                j <= 256,
                self.wf(),
                self.leds_num == old(self).leds_num,
                orig == old(self).ws.frames(),
                n == self.leds_num as nat,
                target == rainbow_frames(n),
                self.ws.frames() == orig + target.take(j as int),
                j > 0 ==> self.data@ == rainbow_raw_frame(n, j as int - 1),
                j == 0 ==> self.data@ == old(self).data@,
            decreases 256 - j,
        {
            let (raw, frame) = rainbow_frame_at(self.leds_num, j);
            self.data = raw;
            match self.ws.write_frame(&frame) {
                Ok(()) => {},
                Err(e) => {
                    proof {
                        assert((j as int) < 256 && self.ws.frames() == orig + target.take(
                            j as int,
                        ) && self.data@ == rainbow_raw_frame(n, j as int));
                    }
                    return Err(e);
                },
            }
            self.ws.pause(delay);
            j = j + 1;
            proof {
                assert(target.take(j as int) =~= target.take(j as int - 1).push(frame@));
            }
        }
        proof {
            assert(target.take(256) =~= target);
        }
        Ok(())
    }

    /// One triangle-wave breathing pulse: the strip shows `color` while
    /// the brightness ramps linearly from the floor up to full and back
    /// down, one level per step. Pauses `delay` between frames; a sink
    /// failure aborts the pulse at that frame.
    pub fn triangle_wave_breathing(&mut self, color: Rgb, delay: Duration) -> (r: Result<
        (),
        Error,
    >)
        requires
            old(self).wf(),
        ensures
            final(self).wf(),
            final(self).leds_num == old(self).leds_num,
            final(self).data@ == uniform(old(self).leds_num as nat, color),
            r is Ok ==> final(self).ws.frames() == old(self).ws.frames() + triangle_frames(
                old(self).leds_num as nat,
                color,
            ),
            r is Err ==> exists|k: int|
                0 <= k < triangle_frames(old(self).leds_num as nat, color).len() && final(self).ws.frames() == old(self).ws.frames() + triangle_frames(
                    old(self).leds_num as nat,
                    color,
                ).take(k),
    {
        let mut levels: Vec<u8> = Vec::new();
        let mut j: u16 = 60;
        while j < 450
            invariant
                60 <= j <= 450,
                levels@ == triangle_levels().take(j as int - 60),
            decreases 450 - j,
        {
            levels.push(triangle_envelope(j));
            j = j + 1;
            proof {
                assert(levels@ =~= triangle_levels().take(j as int - 60));
            }
        }
        proof {
            assert(levels@ =~= triangle_levels());
        }
        let r = self.run_solid(color, &levels, delay);
        proof {
            let n = old(self).leds_num as nat;
            assert(triangle_frames(n, color) == solid_frames(n, color, levels@));
            if r is Err {
                let k = choose|k: int|
                    0 <= k < levels@.len() && self.ws.frames() == old(self).ws.frames()
                        + solid_frames(n, color, levels@).take(k);
                assert(0 <= k < triangle_frames(n, color).len() && self.ws.frames() == old(
                    self,
                ).ws.frames() + triangle_frames(n, color).take(k));
            }
        }
        r
    }

    /// One inverted-parabola breathing pulse: the strip shows `color`
    /// while the brightness follows a circular arc from the floor
    /// through full brightness at the center of the resolution. Pauses
    /// `delay` between frames; a sink failure aborts the pulse at that
    /// frame.
    pub fn circular_wave_breathing(&mut self, color: Rgb, delay: Duration) -> (r: Result<
        (),
        Error,
    >)
        requires
            old(self).wf(),
        ensures
            final(self).wf(),
            final(self).leds_num == old(self).leds_num,
            final(self).data@ == uniform(old(self).leds_num as nat, color),
            r is Ok ==> final(self).ws.frames() == old(self).ws.frames() + circular_frames(
                old(self).leds_num as nat,
                color,
            ),
            r is Err ==> exists|k: int|
                0 <= k < circular_frames(old(self).leds_num as nat, color).len() && final(self).ws.frames() == old(self).ws.frames() + circular_frames(
                    old(self).leds_num as nat,
                    color,
                ).take(k),
    {
        let mut levels: Vec<u8> = Vec::new();
        let mut j: u16 = 60;
        while j < 500
            invariant
                60 <= j <= 500,
                levels@ == circular_levels().take(j as int - 60),
            decreases 500 - j,
        {
            levels.push(circular_envelope(j));
            j = j + 1;
            proof {
                assert(levels@ =~= circular_levels().take(j as int - 60));
            }
        }
        proof {
            assert(levels@ =~= circular_levels());
        }
        let r = self.run_solid(color, &levels, delay);
        proof {
            let n = old(self).leds_num as nat;
            assert(circular_frames(n, color) == solid_frames(n, color, levels@));
            if r is Err {
                let k = choose|k: int|
                    0 <= k < levels@.len() && self.ws.frames() == old(self).ws.frames()
                        + solid_frames(n, color, levels@).take(k);
                assert(0 <= k < circular_frames(n, color).len() && self.ws.frames() == old(
                    self,
                ).ws.frames() + circular_frames(n, color).take(k));
            }
        }
        r
    }

    /// One Gaussian breathing pulse: the strip shows `color` while the
    /// brightness follows a bell curve peaking at full brightness at
    /// the center of the resolution. Pauses `delay` between frames; a
    /// sink failure aborts the pulse at that frame.
    pub fn gaussian_wave_breathing(&mut self, color: Rgb, delay: Duration) -> (r: Result<
        (),
        Error,
    >)
        requires
            old(self).wf(),
        ensures
            final(self).wf(),
            final(self).leds_num == old(self).leds_num,
            final(self).data@ == uniform(old(self).leds_num as nat, color),
            r is Ok ==> final(self).ws.frames() == old(self).ws.frames() + gaussian_frames(
                old(self).leds_num as nat,
                color,
            ),
            r is Err ==> exists|k: int|
                0 <= k < gaussian_frames(old(self).leds_num as nat, color).len() && final(self).ws.frames() == old(self).ws.frames() + gaussian_frames(
                    old(self).leds_num as nat,
                    color,
                ).take(k),
    {
        let mut levels: Vec<u8> = Vec::new();
        let mut j: u16 = 60;
        while j < 500
            invariant
                60 <= j <= 500,
                levels@ == gaussian_levels().take(j as int - 60),
            decreases 500 - j,
        {
            levels.push(gaussian_envelope(j));
            j = j + 1;
            proof {
                assert(levels@ =~= gaussian_levels().take(j as int - 60));
            }
        }
        proof {
            assert(levels@ =~= gaussian_levels());
        }
        let r = self.run_solid(color, &levels, delay);
        proof {
            let n = old(self).leds_num as nat;
            assert(gaussian_frames(n, color) == solid_frames(n, color, levels@));
            if r is Err {
                let k = choose|k: int|
                    0 <= k < levels@.len() && self.ws.frames() == old(self).ws.frames()
                        + solid_frames(n, color, levels@).take(k);
                assert(0 <= k < gaussian_frames(n, color).len() && self.ws.frames() == old(
                    self,
                ).ws.frames() + gaussian_frames(n, color).take(k));
            }
        }
        r
    }
}

} // verus!
