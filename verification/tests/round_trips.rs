use color_conversion::ColorBytes;

#[test]
fn complement_twice_is_the_colour_itself() {
    for r in (0..=255u8).step_by(3) {
        for g in (0..=255u8).step_by(5) {
            for b in (0..=255u8).step_by(15) {
                let color = ColorBytes::from_rgb(r, g, b);
                assert_eq!(color.complement().complement(), color);
            }
        }
    }
}

#[test]
fn complement_adds_up_to_255_in_each_channel() {
    for level in 0..=255u8 {
        let color = ColorBytes::from_rgb(level, 255 - level, level / 2);
        let (r, g, b) = color.complement().as_rgb();
        assert_eq!(u16::from(r) + u16::from(level), 255);
        assert_eq!(u16::from(g) + u16::from(255 - level), 255);
        assert_eq!(u16::from(b) + u16::from(level / 2), 255);
    }
}

#[test]
fn inks_give_the_colour_back_within_two_steps() {
    for r in (0..=255u8).step_by(3) {
        for g in 0..=255u8 {
            for b in (0..=255u8).step_by(5) {
                let color = ColorBytes::from_rgb(r, g, b);
                let (c, m, y, k) = color.as_cmyk();
                let (r2, g2, b2) = ColorBytes::from_cmyk(c, m, y, k).as_rgb();
                assert!(r2.abs_diff(r) <= 2 && g2.abs_diff(g) <= 2 && b2.abs_diff(b) <= 2);
            }
        }
    }
}

#[test]
fn inks_without_black_give_the_colour_back_within_one_step() {
    for g in 0..=255u8 {
        for b in 0..=255u8 {
            let color = ColorBytes::from_rgb(255, g, b);
            let (c, m, y, k) = color.as_cmyk();
            assert_eq!(k, 0);
            let (r2, g2, b2) = ColorBytes::from_cmyk(c, m, y, k).as_rgb();
            assert!(r2.abs_diff(255) <= 1 && g2.abs_diff(g) <= 1 && b2.abs_diff(b) <= 1);
        }
    }
}

#[test]
fn the_largest_channel_comes_back_within_one_step() {
    for hi in 0..=255u8 {
        for lo in (0..=hi).step_by(7) {
            let color = ColorBytes::from_rgb(lo, hi, lo / 2);
            let (c, m, y, k) = color.as_cmyk();
            assert_eq!(m, 0);
            let (_, g2, _) = ColorBytes::from_cmyk(c, m, y, k).as_rgb();
            assert!(g2.abs_diff(hi) <= 1);
        }
    }
}

#[test]
fn a_dark_teal_comes_back_two_steps_off() {
    let color = ColorBytes::from_rgb(64, 65, 65);
    assert_eq!(color.as_cmyk(), (2, 0, 0, 75));
    assert_eq!(ColorBytes::from_cmyk(2, 0, 0, 75).as_rgb(), (62, 64, 64));
}

#[test]
fn hue_and_percentages_stay_in_range() {
    for r in (0..=255u8).step_by(5) {
        for g in (0..=255u8).step_by(3) {
            for b in (0..=255u8).step_by(7) {
                let color = ColorBytes::from_rgb(r, g, b);
                let (h, s, l) = color.as_hsl();
                let (h2, s2, v) = color.as_hsv();
                assert!(h < 360 && s <= 1000 && l <= 1000 && v <= 1000);
                assert_eq!((h, s), (h2, s2));
                let (c, m, y, k) = color.as_cmyk();
                assert!(c <= 100 && m <= 100 && y <= 100 && k <= 100);
            }
        }
    }
}

fn unit(channel: u8) -> f64 {
    f64::from(channel) / 255.0
}

#[test]
fn integers_agree_with_the_formulas_on_the_unit_interval() {
    for r in (0..=255u8).step_by(5) {
        for g in (0..=255u8).step_by(3) {
            for b in (0..=255u8).step_by(7) {
                let hi = unit(r.max(g).max(b));
                let lo = unit(r.min(g).min(b));
                let delta = hi - lo;
                let l = (hi + lo) / 2.0;
                let s = if r.max(g).max(b) == r.min(g).min(b) {
                    0.0
                } else {
                    delta / (1.0 - (2.0 * l - 1.0).abs())
                };
                let h = if delta == 0.0 {
                    0.0
                } else if hi == unit(r) {
                    60.0 * ((unit(g) - unit(b)) / delta).rem_euclid(6.0)
                } else if hi == unit(g) {
                    60.0 * ((unit(b) - unit(r)) / delta + 2.0)
                } else {
                    60.0 * ((unit(r) - unit(g)) / delta + 4.0)
                };
                let color = ColorBytes::from_rgb(r, g, b);
                let (hue, sat, light) = color.as_hsl();
                let (_, _, value) = color.as_hsv();
                assert!(f64::from(hue) <= h + 1e-9 && h < f64::from(hue) + 1.0 + 1e-9);
                assert!((f64::from(sat) / 10.0 - s * 100.0).abs() <= 0.05 + 1e-9);
                assert!((f64::from(light) / 10.0 - l * 100.0).abs() <= 0.05 + 1e-9);
                assert!((f64::from(value) / 10.0 - hi * 100.0).abs() <= 0.05 + 1e-9);
                let k = 1.0 - hi;
                let (c, m, y, key) = color.as_cmyk();
                assert!((f64::from(key) - k * 100.0).abs() <= 0.5 + 1e-9);
                if hi > 0.0 {
                    let ink = |ch: u8| (1.0 - unit(ch) - k) / (1.0 - k) * 100.0;
                    assert!((f64::from(c) - ink(r)).abs() <= 0.5 + 1e-9);
                    assert!((f64::from(m) - ink(g)).abs() <= 0.5 + 1e-9);
                    assert!((f64::from(y) - ink(b)).abs() <= 0.5 + 1e-9);
                } else {
                    assert_eq!((c, m, y), (0, 0, 0));
                }
            }
        }
    }
}

#[test]
fn channels_from_inks_agree_with_the_formula_on_the_unit_interval() {
    for ink in 0..=100u8 {
        for key in 0..=100u8 {
            let exact = 255.0 * (1.0 - f64::from(ink) / 100.0) * (1.0 - f64::from(key) / 100.0);
            let got = ColorBytes::from_cmyk(ink, ink, ink, key);
            assert!((f64::from(got.r) - exact).abs() <= 0.5 + 1e-9);
            assert_eq!(got.r, got.g);
            assert_eq!(got.g, got.b);
        }
    }
}
