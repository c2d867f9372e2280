use vstd::prelude::*;
use crate::canvas::ComposeError;
use crate::compose::{card_follows, compose_card, decodes_to_image, Card};
use crate::wrap::views;

verus! {

/// The card composition service: it holds the font, loaded once, and
/// composes one card per request.
pub struct MyComposeService {
    pub font: ab_glyph::FontArc,
}

impl MyComposeService {
    pub fn new(font: ab_glyph::FontArc) -> (r: MyComposeService)
        ensures
            r.font == font,
    {
        MyComposeService { font }
    }

    /// Composes the card for one request with the service's font.
    pub fn compose_image(
        &self,
        image_base64: &str,
        title: &str,
        breakdown: &Vec<String>,
        examples: &Vec<String>,
    ) -> (r: Result<Card, ComposeError>)
        ensures
            !decodes_to_image(image_base64@) <==> r == Err::<Card, ComposeError>(
                ComposeError::Decode,
            ),
            r is Err ==> r == Err::<Card, ComposeError>(ComposeError::Decode) || r == Err::<
                Card,
                ComposeError,
            >(ComposeError::FontLoad),
            r is Ok ==> card_follows(
                r->Ok_0,
                image_base64@,
                title@,
                views(breakdown@),
                views(examples@),
            ),
    {
        compose_card(image_base64, title, breakdown, examples, &self.font)
    }
}

} // verus!
