use unusual_color_operations::{Rgb, rgb_conjugate};

#[test]
fn pick_max_keeps_maximum_in_place() {
    // max 30 sits in the blue channel, so red and green swap
    let q = rgb_conjugate(&Rgb { r: 10, g: 20, b: 30 }, true);
    assert_eq!((q.r, q.g, q.b), (20, 10, 30));
}

#[test]
fn pick_min_keeps_minimum_in_place() {
    // min 10 sits in the red channel, so green and blue swap
    let q = rgb_conjugate(&Rgb { r: 10, g: 20, b: 30 }, false);
    assert_eq!((q.r, q.g, q.b), (10, 30, 20));
}

#[test]
fn pick_max_middle_position() {
    // max 9 sits in the green channel, so red and blue swap
    let q = rgb_conjugate(&Rgb { r: 3, g: 9, b: 7 }, true);
    assert_eq!((q.r, q.g, q.b), (7, 9, 3));
}

#[test]
fn ties_break_at_first_position() {
    // both r and g hold the max 5: the first stays, the other two swap
    let q = rgb_conjugate(&Rgb { r: 5, g: 5, b: 3 }, true);
    assert_eq!((q.r, q.g, q.b), (5, 3, 5));
}

#[test]
fn conjugate_permutes_channels() {
    // the result is always a permutation keeping the extreme value, with
    // the extreme-holding channel left in place
    let mut x: u64 = 0x9E3779B97F4A7C15;
    for _ in 0..2000 {
        x = x.wrapping_mul(6364136223846793005).wrapping_add(1442695040888963407);
        let p = Rgb { r: (x >> 8) as u8, g: (x >> 24) as u8, b: (x >> 40) as u8 };
        for pick_max in [true, false] {
            let q = rgb_conjugate(&p, pick_max);
            let mut before = [p.r, p.g, p.b];
            let mut after = [q.r, q.g, q.b];
            before.sort();
            after.sort();
            assert_eq!(before, after);
            let ext = if pick_max { before[2] } else { before[0] };
            let pos = if p.r == ext { 0 } else if p.g == ext { 1 } else { 2 };
            assert_eq!([q.r, q.g, q.b][pos], [p.r, p.g, p.b][pos]);
        }
    }
}

#[test]
fn double_application_not_identity_on_ties() {
    // with a tie in the two larger channels, applying the operation twice
    // does not return the original pixel
    let p = Rgb { r: 3, g: 5, b: 5 };
    let once = rgb_conjugate(&p, true);
    assert_eq!((once.r, once.g, once.b), (5, 5, 3));
    let twice = rgb_conjugate(&once, true);
    assert_eq!((twice.r, twice.g, twice.b), (5, 3, 5));
}
