use vstd::prelude::*;

verus! {

/// Width of the card, in pixels.
pub const CARD_WIDTH: u32 = 280;

/// Height of the card, in pixels.
pub const CARD_HEIGHT: u32 = 480;

/// Gap between the bottom of the photograph's region and the text.
pub const IMAGE_BOTTOM_MARGIN: u32 = 10;

/// Height of the region the photograph may take: the top half of the card,
/// less the bottom margin.
pub const TOP_ZONE_HEIGHT: u32 = CARD_HEIGHT / 2 - IMAGE_BOTTOM_MARGIN;

/// Where the scaled photograph stands on the card.
#[derive(Debug, Clone, Copy, PartialEq, Eq)]
pub struct Placement {
    pub width: u32,
    pub height: u32,
    pub x: u32,
    pub y: u32,
}

/// `a / b` rounded to the nearest integer, halves up.
pub open spec fn round_div(a: nat, b: nat) -> nat
    recommends
        b > 0,
{
    (2 * a + b) / (2 * b)
}

/// The scaled size of a `src_w` by `src_h` image: as tall as the zone, unless
/// that makes it wider than the canvas; then as wide as the canvas. The
/// aspect ratio is kept up to rounding.
pub open spec fn scaled_size(src_w: nat, src_h: nat, canvas_w: nat, zone_h: nat) -> (nat, nat) {
    let w = round_div(zone_h * src_w, src_h);
    if w <= canvas_w {
        (w, zone_h)
    } else {
        (canvas_w, round_div(canvas_w * src_h, src_w))
    }
}

/// Scales a `src_w` by `src_h` image into a `canvas_w` wide region
/// `zone_h` high and centres it horizontally at the top.
pub fn place_image(src_w: u32, src_h: u32, canvas_w: u32, zone_h: u32) -> (p: Placement)
    requires
        src_w > 0,
        src_h > 0,
    ensures
        (p.width as nat, p.height as nat) == scaled_size(
            src_w as nat,
            src_h as nat,
            canvas_w as nat,
            zone_h as nat,
        ),
        p.width <= canvas_w,
        p.height <= zone_h,
        p.x == (canvas_w - p.width) / 2,
        p.y == 0,
{
    let sw = src_w as u128;
    let sh = src_h as u128;
    assert(zone_h * sw <= 0xffff_ffff_ffff_ffff) by (nonlinear_arith)
        requires
            zone_h <= 0xffff_ffff,
            sw <= 0xffff_ffff,
    ;
    assert(canvas_w * sh <= 0xffff_ffff_ffff_ffff) by (nonlinear_arith)
        requires
            canvas_w <= 0xffff_ffff,
            sh <= 0xffff_ffff,
    ;
    let zw = (zone_h as u128) * sw;
    let w = (2 * zw + sh) / (2 * sh);
    let (width, height) = if w <= canvas_w as u128 {
        (w as u32, zone_h)
    } else {
        let ch = (canvas_w as u128) * sh;
        let h = (2 * ch + sw) / (2 * sw);
        proof {
            lemma_wide_height_fits(src_w as nat, src_h as nat, canvas_w as nat, zone_h as nat);
        }
        (canvas_w, h as u32)
    };
    Placement { width, height, x: (canvas_w - width) / 2, y: 0 }
}

/// When the zone's height would make the image too wide, the height that
/// fits the canvas's width is no taller than the zone.
proof fn lemma_wide_height_fits(src_w: nat, src_h: nat, canvas_w: nat, zone_h: nat)
    requires
        src_w > 0,
        src_h > 0,
        round_div(zone_h * src_w, src_h) > canvas_w,
    ensures
        round_div(canvas_w * src_h, src_w) <= zone_h,
{
    let zw = zone_h * src_w;
    let ch = canvas_w * src_h;
    let a = 2 * zw + src_h;
    let b = 2 * src_h;
    assert(a / b >= canvas_w + 1);
    assert(a >= b * (canvas_w + 1)) by (nonlinear_arith)
        requires
            b > 0,
            a / b >= canvas_w + 1,
    ;
    assert(2 * ch + src_w < 2 * src_w * (zone_h + 1)) by (nonlinear_arith)
        requires
            2 * zw + src_h >= 2 * src_h * (canvas_w + 1),
            zw == zone_h * src_w,
            ch == canvas_w * src_h,
            src_w > 0,
    ;
    assert((2 * ch + src_w) / (2 * src_w) <= zone_h) by (nonlinear_arith)
        requires
            2 * ch + src_w < 2 * src_w * (zone_h + 1),
            src_w > 0,
    ;
}

/// A placed image is centred: its left and right margins differ by at most
/// one pixel, and it fits the canvas's width and the zone's height.
pub proof fn lemma_placement_centered(src_w: nat, src_h: nat, canvas_w: nat, zone_h: nat)
    requires
        src_w > 0,
        src_h > 0,
    ensures
        ({
            let (w, h) = scaled_size(src_w, src_h, canvas_w, zone_h);
            let left = (canvas_w - w) / 2;
            let right = canvas_w - w - left;
            &&& w <= canvas_w
            &&& h <= zone_h
            &&& right >= 0
            &&& -1 <= left - right <= 1
        }),
{
    if round_div(zone_h * src_w, src_h) > canvas_w {
        lemma_wide_height_fits(src_w, src_h, canvas_w, zone_h);
    }
}

} // verus!
