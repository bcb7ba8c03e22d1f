use std::time::Duration;

use rasp_ws2812::color::apply_brightness;
use rasp_ws2812::color::apply_gamma;
use rasp_ws2812::color::hsv_to_rgb;
use rasp_ws2812::wave::GAUSS_CENTER;
use rasp_ws2812::wave::LOWEST_BRIGHTNESS;
use rasp_ws2812::wave::SMOOTHNESS_PTS;
use rasp_ws2812::Error;
use rasp_ws2812::Leds;
use rasp_ws2812::RecordingSink;
use rasp_ws2812::Rgb;

fn red() -> Rgb {
    Rgb { r: 255, g: 0, b: 0 }
}

fn black() -> Rgb {
    Rgb { r: 0, g: 0, b: 0 }
}

fn no_delay() -> Duration {
    Duration::from_millis(0)
}

fn corrected(color: Rgb, level: u8) -> Rgb {
    apply_gamma(apply_brightness(color, level))
}

#[test]
fn new_engine_starts_dark() {
    let leds = Leds::new(RecordingSink::new(), 7);
    assert_eq!(leds.leds_num, 7);
    assert_eq!(leds.data, vec![black(); 7]);
    assert!(leds.ws.written.is_empty());
}

#[test]
fn off_writes_one_all_zero_frame() {
    let mut leds = Leds::new(RecordingSink::new(), 4);
    assert!(leds.off().is_ok());
    assert_eq!(leds.ws.written.len(), 1);
    assert_eq!(leds.ws.written[0], vec![black(); 4]);
}

#[test]
fn off_twice_writes_identical_frames() {
    let mut leds = Leds::new(RecordingSink::new(), 5);
    assert!(leds.off().is_ok());
    assert!(leds.off().is_ok());
    assert_eq!(leds.ws.written.len(), 2);
    assert_eq!(leds.ws.written[0], leds.ws.written[1]);
    assert_eq!(leds.ws.written[0], vec![black(); 5]);
}

#[test]
fn on_writes_one_corrected_frame() {
    let color = Rgb { r: 200, g: 120, b: 40 };
    let mut leds = Leds::new(RecordingSink::new(), 3);
    assert!(leds.on(color, 180).is_ok());
    assert_eq!(leds.ws.written.len(), 1);
    assert_eq!(leds.ws.written[0], vec![corrected(color, 180); 3]);
    // The buffer keeps the base color; the corrections happen on the
    // way to the sink.
    assert_eq!(leds.data, vec![color; 3]);
}

#[test]
fn rainbow_single_pixel_hue_equals_step() {
    let mut leds = Leds::new(RecordingSink::new(), 1);
    assert!(leds.rainbow(no_delay()).is_ok());
    assert_eq!(leds.ws.written.len(), 256);
    for j in 0..256usize {
        let expected = apply_gamma(hsv_to_rgb(j as u8, 255, 100));
        assert_eq!(leds.ws.written[j], vec![expected], "step {j}");
    }
}

#[test]
fn rainbow_offsets_three_hues_per_pixel() {
    let mut leds = Leds::new(RecordingSink::new(), 5);
    assert!(leds.rainbow(no_delay()).is_ok());
    assert_eq!(leds.ws.written.len(), 256);
    for &j in &[0usize, 17, 200, 255] {
        for i in 0..5usize {
            let hue = ((i * 3 + j) % 256) as u8;
            let expected = apply_gamma(hsv_to_rgb(hue, 255, 100));
            assert_eq!(leds.ws.written[j][i], expected, "step {j} pixel {i}");
        }
    }
}

fn triangle_level(k: usize) -> u8 {
    let j = k + 60;
    if j <= 255 { j as u8 } else { (510 - j) as u8 }
}

#[test]
fn triangle_breathing_rises_then_falls_symmetrically() {
    let mut leds = Leds::new(RecordingSink::new(), 3);
    assert!(leds.triangle_wave_breathing(red(), no_delay()).is_ok());
    assert_eq!(leds.ws.written.len(), 390);
    for k in 0..390usize {
        assert_eq!(leds.ws.written[k], vec![corrected(red(), triangle_level(k)); 3], "step {k}");
    }
    // The envelope rises monotonically from the floor to the peak ...
    for k in 0..195usize {
        assert!(triangle_level(k) <= triangle_level(k + 1));
    }
    // ... peaks at full brightness, every pixel fully lit ...
    assert_eq!(triangle_level(195), 255);
    assert_eq!(leds.ws.written[195], vec![Rgb { r: 255, g: 0, b: 0 }; 3]);
    // ... falls monotonically back to the floor ...
    for k in 195..389usize {
        assert!(triangle_level(k) >= triangle_level(k + 1));
    }
    assert_eq!(triangle_level(0), 60);
    assert_eq!(triangle_level(389), 61);
    // ... and is symmetric around the peak step.
    for k in 1..390usize {
        assert_eq!(leds.ws.written[k], leds.ws.written[390 - k], "step {k}");
    }
}

#[test]
fn circular_breathing_is_smooth_and_peaks_at_full() {
    let mut leds = Leds::new(RecordingSink::new(), 1);
    assert!(leds.circular_wave_breathing(red(), no_delay()).is_ok());
    assert_eq!(leds.ws.written.len(), 440);
    // With a pure red base color the red channel is the gamma-corrected
    // envelope level, so the shape shows through it monotonically.
    for k in 0..190usize {
        assert!(leds.ws.written[k][0].r <= leds.ws.written[k + 1][0].r, "rise at {k}");
    }
    for k in 190..439usize {
        assert!(leds.ws.written[k][0].r >= leds.ws.written[k + 1][0].r, "fall at {k}");
    }
    // The peak sits at the center of the resolution at full brightness.
    assert_eq!(leds.ws.written[190], vec![Rgb { r: 255, g: 0, b: 0 }]);
    // The arc starts at level 107 at the floor step and has fallen to
    // level 2 by the last step.
    assert_eq!(leds.ws.written[0], vec![corrected(red(), 107)]);
    assert_eq!(leds.ws.written[439], vec![corrected(red(), 2)]);
}

#[test]
fn envelope_constants_fix_step_counts() {
    // The smooth pulses run from the brightness floor to the end of the
    // resolution, and the Gaussian bell peaks at the resolution's center.
    assert_eq!(LOWEST_BRIGHTNESS, 60);
    assert_eq!(SMOOTHNESS_PTS - LOWEST_BRIGHTNESS as u16, 440);
    assert_eq!(GAUSS_CENTER - LOWEST_BRIGHTNESS as u16, 190);
    // The bell is centered at half the resolution and its width is 0.14
    // of the resolution.
    assert_eq!(GAUSS_CENTER, SMOOTHNESS_PTS / 2);
    assert_eq!(rasp_ws2812::wave::GAUSS_WIDTH as u32, SMOOTHNESS_PTS as u32 * 14 / 100);
    // The peak's numerator is full brightness at the fixed-point scale.
    assert_eq!(255 * rasp_ws2812::wave::GAUSS_SCALE, 16711680);
}

#[test]
fn gaussian_breathing_is_smooth_and_peaks_at_full() {
    let mut leds = Leds::new(RecordingSink::new(), 1);
    assert!(leds.gaussian_wave_breathing(red(), no_delay()).is_ok());
    assert_eq!(leds.ws.delivered(), 440);
    for k in 0..190usize {
        assert!(leds.ws.written[k][0].r <= leds.ws.written[k + 1][0].r, "rise at {k}");
    }
    for k in 190..439usize {
        assert!(leds.ws.written[k][0].r >= leds.ws.written[k + 1][0].r, "fall at {k}");
    }
    // The bell peaks at exactly full brightness at its center and the
    // tails fade to near darkness: level 7 at the floor step, level 0
    // by the last step.
    assert_eq!(leds.ws.written[190], vec![Rgb { r: 255, g: 0, b: 0 }]);
    assert_eq!(leds.ws.written[0], vec![corrected(red(), 7)]);
    assert_eq!(leds.ws.written[439], vec![corrected(red(), 0)]);
}

#[test]
fn sink_failure_aborts_rainbow_at_that_frame() {
    let mut reference = Leds::new(RecordingSink::new(), 3);
    assert!(reference.rainbow(no_delay()).is_ok());

    let mut leds = Leds::new(RecordingSink::failing_at(5), 3);
    let r = leds.rainbow(no_delay());
    assert!(matches!(r, Err(Error::Ws2812Error)));
    // Exactly the five frames before the failed write were delivered,
    // and they match a failure-free run.
    assert_eq!(leds.ws.written.len(), 5);
    assert_eq!(leds.ws.written[..], reference.ws.written[..5]);
    // The engine stays usable: no latched failure state.
    assert!(leds.off().is_ok());
    assert_eq!(leds.ws.written.len(), 6);
}

#[test]
fn sink_failure_aborts_triangle_breathing_mid_pulse() {
    let mut leds = Leds::new(RecordingSink::failing_at(100), 4);
    let r = leds.triangle_wave_breathing(red(), no_delay());
    assert!(matches!(r, Err(Error::Ws2812Error)));
    assert_eq!(leds.ws.written.len(), 100);
    for k in 0..100usize {
        assert_eq!(leds.ws.written[k], vec![corrected(red(), triangle_level(k)); 4]);
    }
}

#[test]
fn sink_failure_on_first_write_delivers_nothing() {
    let mut leds = Leds::new(RecordingSink::failing_at(0), 2);
    let r = leds.on(red(), 255);
    assert!(matches!(r, Err(Error::Ws2812Error)));
    assert!(leds.ws.written.is_empty());
    // The buffer still holds the attempted frame's base color.
    assert_eq!(leds.data, vec![red(); 2]);
}

#[test]
fn sink_failure_aborts_gaussian_breathing_mid_pulse() {
    let mut leds = Leds::new(RecordingSink::failing_at(7), 3);
    let r = leds.gaussian_wave_breathing(red(), no_delay());
    assert!(matches!(r, Err(Error::Ws2812Error)));
    assert_eq!(leds.ws.written.len(), 7);
}
