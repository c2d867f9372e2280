//! Composition of fixed-size word cards: a source photograph placed in the
//! top region, and word-wrapped, centred text blocks laid out beneath it.
//!
//! Text is measured in integer font units: a glyph's advance at pixel size
//! `s` is `advance * s / height_units`, so every layout decision is exact
//! integer arithmetic.

mod canvas;
mod compose;
mod config;
mod layout;
mod metrics;
mod placement;
mod service;
mod wrap;

pub use canvas::{encode_card, Canvas, ComposeError};
pub use compose::{
    compose_card, font_height, font_metrics, load_font, place_source, Card, PlacedImage,
};
pub use config::{is_port_setting, Config, DEFAULT_PORT};
pub use layout::{
    layout_block, layout_card, CardLayout, PlacedLine, Role, TextBlock, CENTER_X,
    HORIZONTAL_PADDING, LINE_HEIGHT_TENTHS, MAX_TEXT_WIDTH, VERTICAL_PADDING,
};
pub use metrics::GlyphAdvances;
pub use placement::{
    place_image, Placement, CARD_HEIGHT, CARD_WIDTH, IMAGE_BOTTOM_MARGIN, TOP_ZONE_HEIGHT,
};
pub use service::MyComposeService;
pub use wrap::{is_white_space, split_words, text_width, wrap_text};
