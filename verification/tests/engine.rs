use unusual_color_operations::{
    ChannelMap, Image, PoolMsg, Rgba, angle_reflect, apply_pixel_op, apply_row, linear_piece_any,
    pool_messages, process_hue, process_image, process_rgb, rgb_conjugate_wrapper,
};

fn px(r: u8, g: u8, b: u8, a: u8) -> Rgba {
    Rgba { r, g, b, a }
}

fn small_image() -> Image {
    Image {
        width: 3,
        height: 2,
        pixels: vec![
            px(255, 0, 0, 10),
            px(0, 255, 0, 20),
            px(0, 0, 255, 30),
            px(10, 20, 30, 40),
            px(200, 10, 100, 50),
            px(7, 7, 7, 60),
        ],
    }
}

#[test]
fn pool_plan_rows_then_stops() {
    let msgs = pool_messages(5, 3);
    assert_eq!(msgs.len(), 8);
    for (i, m) in msgs.iter().enumerate().take(5) {
        assert_eq!(*m, PoolMsg::Row(i));
    }
    for m in msgs.iter().skip(5) {
        assert_eq!(*m, PoolMsg::Stop);
    }
}

#[test]
fn pool_plan_no_rows() {
    let msgs = pool_messages(0, 2);
    assert_eq!(msgs, vec![PoolMsg::Stop, PoolMsg::Stop]);
}

#[test]
fn process_image_keeps_dimensions_and_alpha() {
    let img = small_image();
    let op = process_hue(angle_reflect(90_000));
    let out = process_image(&img, &op);
    assert_eq!(out.width, 3);
    assert_eq!(out.height, 2);
    assert_eq!(out.pixels.len(), 6);
    for (p, q) in img.pixels.iter().zip(out.pixels.iter()) {
        assert_eq!(p.a, q.a);
    }
}

#[test]
fn process_image_with_identity_hue_map_is_identity() {
    // the default map keeps every hue, so the whole image round-trips
    let img = small_image();
    let op = process_hue(linear_piece_any(Vec::new()).unwrap());
    let out = process_image(&img, &op);
    assert_eq!(img.pixels, out.pixels);
}

#[test]
fn process_image_matches_per_pixel_application() {
    let img = small_image();
    let op = process_hue(angle_reflect(45_000));
    let out = process_image(&img, &op);
    for (p, q) in img.pixels.iter().zip(out.pixels.iter()) {
        assert_eq!(*q, apply_pixel_op(&op, *p));
    }
}

#[test]
fn apply_row_transforms_one_row() {
    let img = small_image();
    let op = process_rgb(ChannelMap::Conjugate { pick_max: true });
    let row1 = apply_row(&op, &img, 1);
    assert_eq!(row1.len(), 3);
    assert_eq!(row1[0], apply_pixel_op(&op, img.pixels[3]));
    assert_eq!(row1[1], apply_pixel_op(&op, img.pixels[4]));
    assert_eq!(row1[2], apply_pixel_op(&op, img.pixels[5]));
}

#[test]
fn pool_plan_covers_every_row_for_any_worker_count() {
    // a taller image: 2 columns, 5 rows
    let img = Image {
        width: 2,
        height: 5,
        pixels: (0..10u8).map(|i| px(i, 2 * i, 100 + i, i)).collect(),
    };
    let op = process_hue(angle_reflect(200_000));
    let sequential = process_image(&img, &op);
    for nthr in 1..=img.height {
        // consume the plan as a pool would: every row task exactly once,
        // then one stop per worker
        let msgs = pool_messages(img.height, nthr);
        let blank = px(0, 0, 0, 0);
        let mut out = vec![blank; img.pixels.len()];
        let mut seen = vec![false; img.height];
        let mut stops = 0;
        for m in msgs {
            match m {
                PoolMsg::Row(r) => {
                    assert!(!seen[r], "row handed out twice");
                    assert_eq!(stops, 0, "row handed out after a stop");
                    seen[r] = true;
                    let row = apply_row(&op, &img, r);
                    out[r * img.width..(r + 1) * img.width].copy_from_slice(&row);
                }
                PoolMsg::Stop => stops += 1,
            }
        }
        assert!(seen.iter().all(|&s| s), "a row was never handed out");
        assert_eq!(stops, nthr);
        assert_eq!(out, sequential.pixels);
    }
}

#[test]
fn conjugate_wrapper_swaps_and_keeps_alpha() {
    let op = rgb_conjugate_wrapper(true);
    let out = apply_pixel_op(&op, px(10, 20, 30, 77));
    assert_eq!((out.r, out.g, out.b, out.a), (20, 10, 30, 77));
}

#[test]
fn hue_op_leaves_grey_pixels_alone() {
    // a grey pixel has hue 0 and saturation 0; any hue remap leaves it as
    // it is
    let op = process_hue(angle_reflect(123_000));
    let out = apply_pixel_op(&op, px(55, 55, 55, 1));
    assert_eq!((out.r, out.g, out.b, out.a), (55, 55, 55, 1));
}

#[test]
fn reflect_op_moves_red_to_cyan() {
    // reflecting pure red (hue 0) across 90 degrees gives hue 180: cyan
    let op = process_hue(angle_reflect(90_000));
    let out = apply_pixel_op(&op, px(255, 0, 0, 9));
    assert_eq!((out.r, out.g, out.b, out.a), (0, 255, 255, 9));
}
