use card_compose::{place_image, CARD_WIDTH, TOP_ZONE_HEIGHT};

#[test]
fn square_image_fills_zone_height() {
    let p = place_image(1, 1, CARD_WIDTH, TOP_ZONE_HEIGHT);
    assert_eq!((p.width, p.height, p.x, p.y), (230, 230, 25, 0));
}

#[test]
fn wide_image_is_bound_by_canvas_width() {
    let p = place_image(400, 100, CARD_WIDTH, TOP_ZONE_HEIGHT);
    assert_eq!((p.width, p.height, p.x, p.y), (280, 70, 0, 0));
}

#[test]
fn tall_image_rounds_width_to_nearest() {
    // 230 * 100 / 400 = 57.5, rounded up.
    let p = place_image(100, 400, CARD_WIDTH, TOP_ZONE_HEIGHT);
    assert_eq!((p.width, p.height, p.x), (58, 230, 111));
}

#[test]
fn odd_margin_is_off_by_one_at_most() {
    let p = place_image(3, 230, CARD_WIDTH, TOP_ZONE_HEIGHT);
    assert_eq!((p.width, p.height), (3, 230));
    let left = p.x as i64;
    let right = CARD_WIDTH as i64 - p.width as i64 - left;
    assert_eq!((left, right), (138, 139));
    assert!((left - right).abs() <= 1);
}

#[test]
fn very_wide_image_keeps_zone_height_bound() {
    let p = place_image(10_000, 1, CARD_WIDTH, TOP_ZONE_HEIGHT);
    assert_eq!((p.width, p.height, p.x), (280, 0, 0));
    let q = place_image(281, 230, CARD_WIDTH, TOP_ZONE_HEIGHT);
    assert_eq!((q.width, q.height), (280, 229));
}
