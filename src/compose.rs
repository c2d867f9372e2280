use vstd::prelude::*;
use ab_glyph::Font;
use base64::Engine;
use crate::layout::{card_plan, layout_card, CardLayout};
use crate::metrics::GlyphAdvances;
use crate::placement::{place_image, scaled_size, Placement, CARD_HEIGHT, CARD_WIDTH, TOP_ZONE_HEIGHT};
use crate::canvas::{overlay_at, Canvas, ComposeError};
use crate::wrap::views;

verus! {

#[verifier::external_type_specification]
#[verifier::external_body]
pub struct ExDynamicImage(image::DynamicImage);

#[verifier::external_type_specification]
#[verifier::external_body]
pub struct ExImageError(image::ImageError);

#[verifier::external_type_specification]
#[verifier::external_body]
pub struct ExDecodeError(base64::DecodeError);

#[verifier::external_type_specification]
#[verifier::external_body]
pub struct ExFontArc(ab_glyph::FontArc);

#[verifier::external_type_specification]
#[verifier::external_body]
pub struct ExInvalidFont(ab_glyph::InvalidFont);

/// The bytes that standard base64 (with padding) decodes `s` to, or `None`
/// where `s` is not valid base64.
pub uninterp spec fn base64_decoded(s: Seq<char>) -> Option<Seq<u8>>;

/// Relies on base64's `STANDARD.decode`: the decoded bytes, or an error
/// where the text is not valid base64. The result depends on the text alone.
#[verifier::external_body]
fn decode_base64(s: &str) -> (r: Result<Vec<u8>, base64::DecodeError>)
    ensures
        r is Ok <==> base64_decoded(s@) is Some,
        r is Ok ==> base64_decoded(s@) == Some(r->Ok_0@),
{
    base64::engine::general_purpose::STANDARD.decode(s)
}

/// The width and height of the image that `image::load_from_memory` decodes
/// from `bytes`, or `None` where it fails.
pub uninterp spec fn image_size(bytes: Seq<u8>) -> Option<(u32, u32)>;

/// Relies on `image::load_from_memory`, which decodes an image whose format
/// is guessed from its bytes, and on `DynamicImage::width` and `height`. The
/// result depends on the bytes alone.
#[verifier::external_body]
fn decode_image(bytes: &[u8]) -> (r: Result<(image::DynamicImage, u32, u32), image::ImageError>)
    ensures
        r is Ok <==> image_size(bytes@) is Some,
        r is Ok ==> image_size(bytes@) == Some((r->Ok_0.1, r->Ok_0.2)),
{
    let img = image::load_from_memory(bytes)?;
    let (w, h) = (img.width(), img.height());
    Ok((img, w, h))
}

/// Relies on `DynamicImage::resize_exact` with the Lanczos3 filter: the image
/// resampled to exactly `width` by `height`.
#[verifier::external_body]
fn resize_lanczos(img: &image::DynamicImage, width: u32, height: u32) -> (r: image::DynamicImage) {
    img.resize_exact(width, height, image::imageops::FilterType::Lanczos3)
}

/// Whether `ab_glyph::FontArc::try_from_vec` accepts `data` as a font.
pub uninterp spec fn font_parses(data: Seq<u8>) -> bool;

/// Relies on `FontArc::try_from_vec`: parses font data, or fails on data that
/// is not a font. The outcome depends on the data alone.
#[verifier::external_body]
fn parse_font(data: Vec<u8>) -> (r: Result<ab_glyph::FontArc, ab_glyph::InvalidFont>)
    ensures
        r is Ok <==> font_parses(data@),
{
    ab_glyph::FontArc::try_from_vec(data)
}

/// Relies on `Font::glyph_id`: the glyph drawn for `c` (glyph 0 where the
/// font has none).
#[verifier::external_body]
fn glyph_index(font: &ab_glyph::FontArc, c: char) -> (r: u16) {
    font.glyph_id(c).0
}

/// Relies on `Font::h_advance_unscaled`: a glyph's advance in font units,
/// which the font file holds as a 16-bit unsigned integer.
#[verifier::external_body]
fn advance_units(font: &ab_glyph::FontArc, glyph: u16) -> (r: u32)
    ensures
        r <= 0xffff,
{
    font.h_advance_unscaled(ab_glyph::GlyphId(glyph)) as u32
}

/// Relies on `Font::ascent_unscaled`: the ascent in font units, which the
/// font file holds as a 16-bit signed integer.
#[verifier::external_body]
fn ascent_units(font: &ab_glyph::FontArc) -> (r: i32)
    ensures
        -0x8000 <= r < 0x8000,
{
    font.ascent_unscaled() as i32
}

/// Relies on `Font::descent_unscaled`: the descent in font units, which the
/// font file holds as a 16-bit signed integer.
#[verifier::external_body]
fn descent_units(font: &ab_glyph::FontArc) -> (r: i32)
    ensures
        -0x8000 <= r < 0x8000,
{
    font.descent_unscaled() as i32
}

/// Parses font data.
pub fn load_font(data: Vec<u8>) -> (r: Result<ab_glyph::FontArc, ComposeError>)
    ensures
        r is Ok <==> font_parses(data@),
        r is Err ==> r == Err::<ab_glyph::FontArc, ComposeError>(ComposeError::FontLoad),
{
    match parse_font(data) {
        Ok(f) => Ok(f),
        Err(_) => Err(ComposeError::FontLoad),
    }
}

fn add_advances(table: &mut GlyphAdvances, font: &ab_glyph::FontArc, text: &str)
    ensures
        final(table).height_units == old(table).height_units,
{
    let n = text.unicode_len();
    let mut i: usize = 0;
    while i < n
        invariant
            n == text@.len(),
            i <= n,
            table.height_units == old(table).height_units,
        decreases n - i,
    {
        let c = text.get_char(i);
        let units = advance_units(font, glyph_index(font, c));
        table.set_advance(c, units);
        i += 1;
    }
}

/// The height of a font, ascent minus descent, in font units; `FontLoad`
/// where the ascent is not above the descent.
pub fn font_height(ascent: i32, descent: i32) -> (r: Result<u32, ComposeError>)
    requires
        -0x8000 <= ascent < 0x8000,
        -0x8000 <= descent < 0x8000,
    ensures
        r is Ok <==> ascent > descent,
        r is Ok ==> r->Ok_0 == ascent - descent,
        r is Err ==> r == Err::<u32, ComposeError>(ComposeError::FontLoad),
{
    if ascent > descent {
        Ok((ascent - descent) as u32)
    } else {
        Err(ComposeError::FontLoad)
    }
}

/// The advances of `font` for every character of the given texts and for
/// the space, read from the font. Fails with `FontLoad` where the font's
/// ascent is not above its descent.
pub fn font_metrics(
    font: &ab_glyph::FontArc,
    title: &str,
    breakdown: &Vec<String>,
    examples: &Vec<String>,
) -> (r: Result<GlyphAdvances, ComposeError>)
    ensures
        r is Ok ==> r->Ok_0.wf(),
        r is Err ==> r == Err::<GlyphAdvances, ComposeError>(ComposeError::FontLoad),
{
    let height = match font_height(ascent_units(font), descent_units(font)) {
        Ok(h) => h,
        Err(e) => return Err(e),
    };
    let fallback = advance_units(font, 0);
    let mut table = GlyphAdvances::new(height, fallback);
    add_advances(&mut table, font, " ");
    add_advances(&mut table, font, title);
    let mut i: usize = 0;
    while i < breakdown.len()
        invariant
            table.height_units == height,
            height > 0,
        decreases breakdown@.len() - i,
    {
        add_advances(&mut table, font, breakdown[i].as_str());
        i += 1;
    }
    let mut j: usize = 0;
    while j < examples.len()
        invariant
            table.height_units == height,
            height > 0,
        decreases examples@.len() - j,
    {
        add_advances(&mut table, font, examples[j].as_str());
        j += 1;
    }
    Ok(table)
}

/// The photograph decoded, scaled and drawn at the top of a white card.
pub struct PlacedImage {
    pub canvas: Canvas,
    pub source_width: u32,
    pub source_height: u32,
    pub placement: Placement,
}

/// `s` is base64 of bytes that decode to an image of positive size.
pub open spec fn decodes_to_image(s: Seq<char>) -> bool {
    match base64_decoded(s) {
        Some(bytes) => match image_size(bytes) {
            Some(size) => size.0 > 0 && size.1 > 0,
            None => false,
        },
        None => false,
    }
}

/// The size of the image that `s` holds, where it holds one.
pub open spec fn source_size(s: Seq<char>) -> (u32, u32)
    recommends
        decodes_to_image(s),
{
    image_size(base64_decoded(s)->0)->0
}

/// `p` is placed as `place_image` places a photograph of its source size.
pub open spec fn placed_as_scaled(p: Placement, source_width: u32, source_height: u32) -> bool {
    &&& source_width > 0
    &&& source_height > 0
    &&& (p.width as nat, p.height as nat) == scaled_size(
        source_width as nat,
        source_height as nat,
        CARD_WIDTH as nat,
        TOP_ZONE_HEIGHT as nat,
    )
    &&& p.x == (CARD_WIDTH - p.width) / 2
    &&& p.y == 0
}

/// What a successful placement of the photograph in `s` gives: a card-sized
/// canvas, the source's size, and the placement for that size.
pub open spec fn placed_from(r: PlacedImage, s: Seq<char>) -> bool {
    &&& r.canvas.wf()
    &&& r.canvas.width == CARD_WIDTH
    &&& r.canvas.height == CARD_HEIGHT
    &&& (r.source_width, r.source_height) == source_size(s)
    &&& placed_as_scaled(r.placement, r.source_width, r.source_height)
}

/// Decodes the base64 photograph and draws it, scaled, at the top of a new
/// white card. Succeeds exactly when the text is base64 of an image of
/// positive size; otherwise fails with `Decode`, having drawn nothing.
pub fn place_source(image_base64: &str) -> (r: Result<PlacedImage, ComposeError>)
    ensures
        r is Ok <==> decodes_to_image(image_base64@),
        r is Err ==> r == Err::<PlacedImage, ComposeError>(ComposeError::Decode),
        r is Ok ==> placed_from(r->Ok_0, image_base64@),
{
    let bytes = match decode_base64(image_base64) {
        Ok(b) => b,
        Err(_) => return Err(ComposeError::Decode),
    };
    let (source, source_width, source_height) = match decode_image(bytes.as_slice()) {
        Ok(img) => img,
        Err(_) => return Err(ComposeError::Decode),
    };
    if source_width == 0 || source_height == 0 {
        return Err(ComposeError::Decode);
    }
    let placement = place_image(source_width, source_height, CARD_WIDTH, TOP_ZONE_HEIGHT);
    let mut canvas = Canvas::filled(CARD_WIDTH, CARD_HEIGHT, [255u8, 255u8, 255u8, 255u8]);
    let scaled = resize_lanczos(&source, placement.width, placement.height);
    overlay_at(
        &mut canvas.pixels,
        CARD_WIDTH,
        CARD_HEIGHT,
        &scaled,
        placement.x as i64,
        placement.y as i64,
    );
    Ok(PlacedImage { canvas, source_width, source_height, placement })
}

/// A composed card before its text is drawn: the canvas with the photograph
/// on it, and the text laid out below, ready to be drawn with the font.
pub struct Card {
    pub image: PlacedImage,
    pub metrics: GlyphAdvances,
    pub layout: CardLayout,
}

/// The card's photograph is placed as `place_image` says, and its text laid
/// out as `card_plan` says for that placement and the card's metrics.
pub open spec fn card_follows(
    c: Card,
    image_base64: Seq<char>,
    title: Seq<char>,
    breakdown: Seq<Seq<char>>,
    examples: Seq<Seq<char>>,
) -> bool {
    let p = card_plan(c.metrics, c.image.placement.height as nat, title, breakdown, examples);
    &&& placed_from(c.image, image_base64)
    &&& c.metrics.wf()
    &&& crate::layout::blocks_follow(c.layout.blocks@, p.title + p.breakdown + p.examples, c.metrics)
    &&& c.layout.breakdown_shown == p.breakdown.len()
    &&& c.layout.examples_shown == p.examples.len()
    &&& c.layout.cursor == p.cursor
}

/// Decodes the base64 photograph, scales it into the top of a white card,
/// and lays out the title, breakdown items and example sentences below it
/// with the advances of `font`. Fails with `Decode` exactly when the text is
/// not base64 of an image of positive size; otherwise succeeds unless the
/// font's ascent is not above its descent (`FontLoad`).
pub fn compose_card(
    image_base64: &str,
    title: &str,
    breakdown: &Vec<String>,
    examples: &Vec<String>,
    font: &ab_glyph::FontArc,
) -> (r: Result<Card, ComposeError>)
    ensures
        !decodes_to_image(image_base64@) <==> r == Err::<Card, ComposeError>(ComposeError::Decode),
        r is Err ==> r == Err::<Card, ComposeError>(ComposeError::Decode) || r == Err::<
            Card,
            ComposeError,
        >(ComposeError::FontLoad),
        r is Ok ==> card_follows(r->Ok_0, image_base64@, title@, views(breakdown@), views(examples@)),
{
    let image = match place_source(image_base64) {
        Ok(p) => p,
        Err(e) => return Err(e),
    };
    let metrics = match font_metrics(font, title, breakdown, examples) {
        Ok(m) => m,
        Err(e) => return Err(e),
    };
    let layout = layout_card(image.placement.height, title, breakdown, examples, &metrics);
    Ok(Card { image, metrics, layout })
}

} // verus!
