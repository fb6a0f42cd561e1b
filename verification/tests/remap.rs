use unusual_color_operations::{Frac, HueMap, RemapError, angle_reflect, linear_piece_any, linear_piece_two};

fn deg(x: i128) -> Frac {
    Frac { num: x, den: 1 }
}

/// `f` equals the integer `k`, as rationals.
fn frac_is_int(f: &Frac, k: i128) -> bool {
    f.num == k * f.den
}

#[test]
fn reflect_simple() {
    // reflecting 30 across 90 gives 150
    let m = angle_reflect(90_000);
    let r = m.eval(&deg(30));
    assert!(frac_is_int(&r, 150));
}

#[test]
fn reflect_wraps_modulo_360() {
    // reflecting 300 across 0 gives 60
    let m = angle_reflect(0);
    let r = m.eval(&deg(300));
    assert!(frac_is_int(&r, 60));
}

#[test]
fn reflect_angle_normalized() {
    // an axis given as -90 degrees is the same axis as 270 degrees
    let m = angle_reflect(-90_000);
    let n = angle_reflect(270_000);
    let a = m.eval(&deg(10));
    let b = n.eval(&deg(10));
    assert_eq!((a.num, a.den), (b.num, b.den));
    assert!(frac_is_int(&a, 170));
}

#[test]
fn reflect_involution_concrete() {
    // applying the reflection twice returns the original angle
    let m = angle_reflect(77_500);
    for x in [0i128, 33, 155, 179, 300, 359] {
        let once = m.eval(&deg(x));
        let twice = m.eval(&once);
        // twice == x (mod 360), and twice is normalized
        assert!(frac_is_int(&twice, x % 360));
    }
}

#[test]
fn phos_preset_fixed_points() {
    // control points (120, 165) and (300, 285)
    let m = linear_piece_two((120_000, 165_000), (300_000, 285_000)).unwrap();
    assert!(frac_is_int(&m.eval(&deg(120)), 165));
    assert!(frac_is_int(&m.eval(&deg(300)), 285));
    // midpoint of the low-to-high segment: slope 2/3, 165 + (2/3)*90 = 225
    assert!(frac_is_int(&m.eval(&deg(210)), 225));
}

#[test]
fn phos_preset_wrap_segment() {
    // on the wraparound side the slope is (165+360-285)/(120+360-300) = 4/3
    let m = linear_piece_two((120_000, 165_000), (300_000, 285_000)).unwrap();
    // f(330) = 285 + (4/3)*30 = 325
    assert!(frac_is_int(&m.eval(&deg(330)), 325));
    // f(30) continues the same line across the seam:
    // 285 + (4/3)*(30+60) = 405 = 45 (mod 360)
    assert!(frac_is_int(&m.eval(&deg(30)), 45));
}

#[test]
fn circular_continuity_concrete() {
    // f(x) and f(x + 360) agree exactly
    let m = linear_piece_two((120_000, 165_000), (300_000, 285_000)).unwrap();
    for x in [0i128, 30, 120, 210, 300, 330] {
        let a = m.eval(&deg(x));
        let b = m.eval(&deg(x + 360));
        assert_eq!((a.num, a.den), (b.num, b.den));
    }
    let n = linear_piece_any(vec![(10_000, 350_000), (200_000, 30_000)]).unwrap();
    for x in [0i128, 10, 55, 200, 359] {
        let a = n.eval(&deg(x));
        let b = n.eval(&deg(x + 360));
        assert_eq!((a.num, a.den), (b.num, b.den));
    }
}

#[test]
fn default_map_is_identity() {
    // the empty list gets the default point (180, 180) and maps every
    // angle to itself
    let m = linear_piece_any(Vec::new()).unwrap();
    assert!(frac_is_int(&m.eval(&deg(180)), 180));
    for x in [0i128, 1, 77, 179, 181, 359] {
        assert!(frac_is_int(&m.eval(&deg(x)), x));
    }
    // a fractional angle also maps to itself: 140.5
    let half = Frac { num: 281, den: 2 };
    let r = m.eval(&half);
    assert_eq!(r.num * 2, 281 * r.den);
}

#[test]
fn n_point_matches_two_point() {
    let a = linear_piece_two((40_000, 80_000), (220_000, 160_000)).unwrap();
    let b = linear_piece_any(vec![(40_000, 80_000), (220_000, 160_000)]).unwrap();
    for x in [0i128, 39, 40, 100, 219, 220, 300, 359] {
        let ra = a.eval(&deg(x));
        let rb = b.eval(&deg(x));
        // equal as rationals
        assert_eq!(ra.num * rb.den, rb.num * ra.den);
    }
}

#[test]
fn n_point_interpolates_between_sorted_points() {
    // points given out of order are sorted by sample angle
    let m = linear_piece_any(vec![(200_000, 100_000), (100_000, 50_000)]).unwrap();
    // segment 100 -> 200 has slope 1/2: f(150) = 75
    assert!(frac_is_int(&m.eval(&deg(150)), 75));
    assert!(frac_is_int(&m.eval(&deg(100)), 50));
    assert!(frac_is_int(&m.eval(&deg(200)), 100));
}

#[test]
fn duplicate_samples_rejected_two_point() {
    let r = linear_piece_two((10_000, 20_000), (10_000, 30_000));
    assert_eq!(r.unwrap_err(), RemapError::InvalidControlPoints);
}

#[test]
fn duplicate_samples_rejected_after_normalization() {
    // 370 degrees reduces to 10 degrees, clashing with the other point
    let r = linear_piece_any(vec![(10_000, 20_000), (370_000, 30_000)]);
    assert_eq!(r.unwrap_err(), RemapError::InvalidControlPoints);
    // and a plain duplicate in a longer list
    let r2 = linear_piece_any(vec![(5_000, 1_000), (90_000, 2_000), (5_000, 3_000)]);
    assert_eq!(r2.unwrap_err(), RemapError::InvalidControlPoints);
}

#[test]
fn single_point_map_is_constantly_shifted_identity() {
    // one control point (0, 90): one segment of slope 1 through it, so the
    // whole map is a constant +90 rotation
    let m = linear_piece_any(vec![(0, 90_000)]).unwrap();
    assert!(frac_is_int(&m.eval(&deg(0)), 90));
    assert!(frac_is_int(&m.eval(&deg(45)), 135));
    assert!(frac_is_int(&m.eval(&deg(300)), 30));
}

#[test]
fn negative_angles_reduce_onto_the_circle() {
    // reflecting -30 across 0 gives 30
    let m = angle_reflect(0);
    assert!(frac_is_int(&m.eval(&deg(-30)), 30));
    // the piecewise map sees -30 as 330
    let n = linear_piece_two((120_000, 165_000), (300_000, 285_000)).unwrap();
    let a = n.eval(&deg(-30));
    let b = n.eval(&deg(330));
    assert_eq!(a.num * b.den, b.num * a.den);
}

#[test]
fn fractional_control_points() {
    // points (0, 0.5) and (180, 180.5): slope 1, so f(90) = 90.5
    let m = linear_piece_two((0, 500), (180_000, 180_500)).unwrap();
    let r = m.eval(&deg(90));
    assert_eq!(2 * r.num, 181 * r.den);
}

#[test]
fn builder_output_is_piecewise() {
    let m = linear_piece_any(vec![(10_000, 20_000)]).unwrap();
    match m {
        HueMap::Piecewise { ref pts, ref segs } => {
            assert_eq!(pts.len(), 3);
            assert_eq!(segs.len(), 2);
            assert_eq!(pts[0], (10_000 - 360_000, 20_000 - 360_000));
            assert_eq!(pts[1], (10_000, 20_000));
            assert_eq!(pts[2], (10_000 + 360_000, 20_000 + 360_000));
        },
        _ => panic!("expected a piecewise map"),
    }
}
