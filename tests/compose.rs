use base64::Engine;
use card_compose::{
    encode_card, font_height, load_font, place_source, Canvas, ComposeError, CARD_HEIGHT, CARD_WIDTH,
};

fn png_base64(img: &image::RgbaImage) -> String {
    let mut buf: Vec<u8> = Vec::new();
    img.write_to(&mut std::io::Cursor::new(&mut buf), image::ImageFormat::Png)
        .unwrap();
    base64::engine::general_purpose::STANDARD.encode(&buf)
}

fn red_pixel() -> String {
    png_base64(&image::RgbaImage::from_pixel(1, 1, image::Rgba([255, 0, 0, 255])))
}

#[test]
fn malformed_base64_is_a_decode_error() {
    assert!(matches!(place_source("not base64 at all!"), Err(ComposeError::Decode)));
}

#[test]
fn non_image_bytes_are_a_decode_error() {
    // Valid base64 for the bytes of "hello".
    assert!(matches!(place_source("aGVsbG8="), Err(ComposeError::Decode)));
}

#[test]
fn red_pixel_card_is_white_but_the_image() {
    let placed = match place_source(&red_pixel()) {
        Ok(p) => p,
        Err(e) => panic!("{}", e.message()),
    };
    assert_eq!((placed.source_width, placed.source_height), (1, 1));
    let p = placed.placement;
    assert_eq!((p.width, p.height, p.x, p.y), (230, 230, 25, 0));
    let bytes = encode_card(&placed.canvas).unwrap();
    let out = image::load_from_memory(&bytes).unwrap().to_rgba8();
    assert_eq!((out.width(), out.height()), (CARD_WIDTH, CARD_HEIGHT));
    let white = image::Rgba([255, 255, 255, 255]);
    for (x, y, px) in out.enumerate_pixels() {
        let inside = x >= 25 && x < 255 && y < 230;
        if inside {
            assert_eq!(px.0[0], 255, "({x}, {y})");
            assert_eq!(px.0[3], 255, "({x}, {y})");
        } else {
            assert_eq!(*px, white, "({x}, {y})");
        }
    }
    assert_eq!(*out.get_pixel(140, 115), image::Rgba([255, 0, 0, 255]));
}

#[test]
fn wide_image_spans_the_card() {
    let img = image::RgbaImage::from_pixel(400, 100, image::Rgba([0, 0, 255, 255]));
    let placed = place_source(&png_base64(&img)).ok().unwrap();
    let p = placed.placement;
    assert_eq!((p.width, p.height, p.x), (280, 70, 0));
}

#[test]
fn bad_font_data_is_a_font_error() {
    assert!(matches!(load_font(vec![0, 1, 2, 3]), Err(ComposeError::FontLoad)));
    assert!(matches!(load_font(Vec::new()), Err(ComposeError::FontLoad)));
}

#[test]
fn errors_have_messages() {
    for e in [ComposeError::Decode, ComposeError::FontLoad, ComposeError::Encode] {
        assert!(!e.message().is_empty());
    }
}

#[test]
fn placed_source_reports_its_size() {
    let img = image::RgbaImage::from_pixel(3, 5, image::Rgba([0, 255, 0, 255]));
    let placed = place_source(&png_base64(&img)).ok().unwrap();
    assert_eq!((placed.source_width, placed.source_height), (3, 5));
    assert_eq!((placed.canvas.width, placed.canvas.height), (CARD_WIDTH, CARD_HEIGHT));
    assert_eq!(placed.canvas.pixels.len(), 4 * 280 * 480);
}

#[test]
fn filled_canvas_repeats_the_colour() {
    let c = Canvas::filled(2, 3, [1, 2, 3, 4]);
    assert_eq!((c.width, c.height), (2, 3));
    assert_eq!(c.pixels, [1, 2, 3, 4].repeat(6));
}

#[test]
fn empty_canvas_does_not_encode() {
    let c = Canvas::filled(0, 3, [0, 0, 0, 255]);
    assert!(matches!(encode_card(&c), Err(ComposeError::Encode)));
    let c = Canvas::filled(2, 2, [0, 0, 0, 255]);
    let bytes = encode_card(&c).unwrap();
    let out = image::load_from_memory(&bytes).unwrap().to_rgba8();
    assert_eq!(out.dimensions(), (2, 2));
}

#[test]
fn font_height_needs_ascent_above_descent() {
    assert!(matches!(font_height(1900, -500), Ok(2400)));
    assert!(matches!(font_height(0, 0), Err(ComposeError::FontLoad)));
    assert!(matches!(font_height(-10, 5), Err(ComposeError::FontLoad)));
}
