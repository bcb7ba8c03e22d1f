use rasp_ws2812::color::apply_brightness;
use rasp_ws2812::color::apply_gamma;
use rasp_ws2812::color::hsv_to_rgb;
use rasp_ws2812::Rgb;

fn rgb(r: u8, g: u8, b: u8) -> Rgb {
    Rgb { r, g, b }
}

#[test]
fn hsv_sector_boundaries_hit_the_primaries() {
    // The six primary and secondary colors sit at the sector boundaries
    // of the compressed hue circle.
    assert_eq!(hsv_to_rgb(0, 255, 255), rgb(255, 0, 0));
    assert_eq!(hsv_to_rgb(85, 255, 255), rgb(0, 255, 0));
    assert_eq!(hsv_to_rgb(170, 255, 255), rgb(0, 0, 255));
    // Just past the boundaries the falling channel starts near full.
    assert_eq!(hsv_to_rgb(43, 255, 255), rgb(252, 255, 0));
    assert_eq!(hsv_to_rgb(128, 255, 255), rgb(0, 252, 255));
    assert_eq!(hsv_to_rgb(213, 255, 255), rgb(255, 0, 252));
}

#[test]
fn hsv_hue_wraps_to_the_start() {
    assert_eq!(hsv_to_rgb(255, 255, 255), hsv_to_rgb(0, 255, 255));
}

#[test]
fn hsv_mid_sector_value() {
    // Hue 21 sits a third of the way into sector 0: the green channel
    // has risen to six levels per hue step.
    assert_eq!(hsv_to_rgb(21, 255, 255), rgb(255, 126, 0));
}

#[test]
fn hsv_full_saturation_has_exactly_one_full_channel() {
    for hue in 0..=255u16 {
        let c = hsv_to_rgb(hue as u8, 255, 255);
        let full = [c.r, c.g, c.b].iter().filter(|&&ch| ch == 255).count();
        assert_eq!(full, 1, "hue {hue}");
    }
}

#[test]
fn hsv_full_saturation_moves_monotonically_within_sectors() {
    // Within each sector one channel moves monotonically while the
    // other two stay pinned at full and at zero.
    let sectors: [(u8, u8); 6] = [(0, 42), (43, 84), (85, 127), (128, 169), (170, 212), (213, 254)];
    for (sector, &(lo, hi)) in sectors.iter().enumerate() {
        let mut prev = hsv_to_rgb(lo, 255, 255);
        for hue in (lo + 1)..=hi {
            let cur = hsv_to_rgb(hue, 255, 255);
            match sector {
                0 => assert!(cur.r == 255 && cur.b == 0 && prev.g <= cur.g),
                1 => assert!(cur.g == 255 && cur.b == 0 && prev.r >= cur.r),
                2 => assert!(cur.g == 255 && cur.r == 0 && prev.b <= cur.b),
                3 => assert!(cur.b == 255 && cur.r == 0 && prev.g >= cur.g),
                4 => assert!(cur.b == 255 && cur.g == 0 && prev.r <= cur.r),
                _ => assert!(cur.r == 255 && cur.g == 0 && prev.b >= cur.b),
            }
            prev = cur;
        }
    }
}

#[test]
fn hsv_zero_saturation_is_grey() {
    for hue in 0..=255u16 {
        let c = hsv_to_rgb(hue as u8, 0, 42);
        assert_eq!(c.r, c.g);
        assert_eq!(c.g, c.b);
    }
}

#[test]
fn gamma_fixes_both_endpoints() {
    assert_eq!(apply_gamma(rgb(0, 0, 0)), rgb(0, 0, 0));
    assert_eq!(apply_gamma(rgb(255, 255, 255)), rgb(255, 255, 255));
}

#[test]
fn gamma_exact_values() {
    // The curve is the power law x^3 / 255^2, truncating.
    assert_eq!(apply_gamma(rgb(128, 128, 128)), rgb(32, 32, 32));
    assert_eq!(apply_gamma(rgb(60, 100, 200)), rgb(3, 15, 123));
}

#[test]
fn gamma_is_monotone_per_channel() {
    let mut prev = 0u8;
    for x in 0..=255u16 {
        let cur = apply_gamma(rgb(x as u8, 0, 0)).r;
        assert!(prev <= cur, "gamma falls at {x}");
        prev = cur;
    }
}

#[test]
fn brightness_zero_darkens_everything() {
    assert_eq!(apply_brightness(rgb(255, 128, 7), 0), rgb(0, 0, 0));
}

#[test]
fn brightness_full_level_is_identity() {
    assert_eq!(apply_brightness(rgb(255, 128, 7), 255), rgb(255, 128, 7));
}

#[test]
fn brightness_scales_with_truncation() {
    // level 128 scales each channel by 128/255, truncating.
    assert_eq!(apply_brightness(rgb(100, 200, 50), 128), rgb(50, 100, 25));
}
