use unusual_color_operations::{Frac, Hsv, Rgb, hsv_to_rgb, rgb_to_hsv};

/// `f` equals the integer `k`, as rationals.
fn frac_is_int(f: &Frac, k: i128) -> bool {
    f.num == k * f.den
}

#[test]
fn pure_red_hsv() {
    let hsv = rgb_to_hsv(&Rgb { r: 255, g: 0, b: 0 });
    assert!(frac_is_int(&hsv.h, 0));
    assert!(frac_is_int(&hsv.s, 100));
    assert!(frac_is_int(&hsv.v, 100));
}

#[test]
fn pure_green_hsv() {
    let hsv = rgb_to_hsv(&Rgb { r: 0, g: 255, b: 0 });
    assert!(frac_is_int(&hsv.h, 120));
    assert!(frac_is_int(&hsv.s, 100));
    assert!(frac_is_int(&hsv.v, 100));
}

#[test]
fn pure_blue_hsv() {
    let hsv = rgb_to_hsv(&Rgb { r: 0, g: 0, b: 255 });
    assert!(frac_is_int(&hsv.h, 240));
    assert!(frac_is_int(&hsv.s, 100));
    assert!(frac_is_int(&hsv.v, 100));
}

#[test]
fn black_pixel_has_zero_saturation() {
    // max == 0 must give saturation 0, not a division by zero.
    let hsv = rgb_to_hsv(&Rgb { r: 0, g: 0, b: 0 });
    assert!(frac_is_int(&hsv.h, 0));
    assert!(frac_is_int(&hsv.s, 0));
    assert!(frac_is_int(&hsv.v, 0));
}

#[test]
fn grey_pixel_has_zero_hue_and_saturation() {
    let hsv = rgb_to_hsv(&Rgb { r: 10, g: 10, b: 10 });
    assert!(frac_is_int(&hsv.h, 0));
    assert!(frac_is_int(&hsv.s, 0));
    // v == 100 * 10 / 255 exactly
    assert_eq!(hsv.v.num * 255, 1000 * hsv.v.den);
}

#[test]
fn negative_sector_hue_wraps_above_300() {
    // red max with blue above green puts the hue in (300, 360)
    let hsv = rgb_to_hsv(&Rgb { r: 200, g: 10, b: 100 });
    // h = 360 + 60*(10-100)/190 = 360 - 5400/190
    assert_eq!(hsv.h.num * 190, (360 * 190 - 5400) * hsv.h.den);
}

#[test]
fn half_value_truncates() {
    // HSV (0, 100, 50) -> r channel floor(255 * 0.5) = 127 (truncation,
    // not rounding)
    let hsv = Hsv {
        h: Frac { num: 0, den: 1 },
        s: Frac { num: 100, den: 1 },
        v: Frac { num: 50, den: 1 },
    };
    let rgb = hsv_to_rgb(&hsv);
    assert_eq!((rgb.r, rgb.g, rgb.b), (127, 0, 0));
}

#[test]
fn hue_sector_exact_values() {
    // HSV (120, 100, 100) is pure green
    let hsv = Hsv {
        h: Frac { num: 120, den: 1 },
        s: Frac { num: 100, den: 1 },
        v: Frac { num: 100, den: 1 },
    };
    let rgb = hsv_to_rgb(&hsv);
    assert_eq!((rgb.r, rgb.g, rgb.b), (0, 255, 0));
}

#[test]
fn round_trip_sampled_pixels_exact() {
    // the round trip is exact, well within the one-unit tolerance
    let levels = [0u8, 1, 2, 17, 84, 127, 128, 199, 254, 255];
    for &r in levels.iter() {
        for &g in levels.iter() {
            for &b in levels.iter() {
                let p = Rgb { r, g, b };
                let q = hsv_to_rgb(&rgb_to_hsv(&p));
                assert_eq!((q.r, q.g, q.b), (r, g, b));
            }
        }
    }
}

#[test]
fn round_trip_pseudorandom_pixels_exact() {
    // a simple linear congruential walk over pixel values
    let mut x: u64 = 0x2545F4914F6CDD1D;
    for _ in 0..5000 {
        x = x.wrapping_mul(6364136223846793005).wrapping_add(1442695040888963407);
        let p = Rgb { r: (x >> 16) as u8, g: (x >> 32) as u8, b: (x >> 48) as u8 };
        let q = hsv_to_rgb(&rgb_to_hsv(&p));
        assert_eq!((q.r, q.g, q.b), (p.r, p.g, p.b));
    }
}
