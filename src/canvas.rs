use vstd::prelude::*;
use image::ImageEncoder;

verus! {

/// An RGBA raster held as plain values: `pixels` holds four bytes (red,
/// green, blue, alpha) per pixel, row by row.
#[derive(Debug)]
pub struct Canvas {
    pub width: u32,
    pub height: u32,
    pub pixels: Vec<u8>,
}

impl Canvas {
    /// The pixel buffer has exactly the canvas's size.
    pub open spec fn wf(&self) -> bool {
        self.pixels@.len() == 4 * self.width * self.height
    }

    /// A `width` by `height` canvas of the one colour `rgba`.
    pub fn filled(width: u32, height: u32, rgba: [u8; 4]) -> (r: Canvas)
        requires
            4 * width * height <= usize::MAX,
        ensures
            r.wf(),
            r.width == width,
            r.height == height,
            forall|i: int| 0 <= i < r.pixels@.len() ==> #[trigger] r.pixels@[i] == rgba@[i % 4],
    {
        assert(width * height <= 4 * width * height && 4 * (width * height) == 4 * width * height)
            by (nonlinear_arith);
        let n = 4 * ((width as usize) * (height as usize));
        let mut pixels: Vec<u8> = Vec::with_capacity(n);
        let mut i: usize = 0;
        while i < n
            invariant
                i <= n,
                pixels@.len() == i,
                forall|j: int| 0 <= j < i ==> #[trigger] pixels@[j] == rgba@[j % 4],
            decreases n - i,
        {
            pixels.push(rgba[i % 4]);
            i += 1;
        }
        Canvas { width, height, pixels }
    }
}

/// Relies on `image::imageops::overlay`: blends `top` onto the `width` by
/// `height` RGBA buffer `pixels` with its top left corner at `(x, y)`,
/// cropping what falls outside. The buffer keeps its size.
#[verifier::external_body]
pub(crate) fn overlay_at(
    pixels: &mut Vec<u8>,
    width: u32,
    height: u32,
    top: &image::DynamicImage,
    x: i64,
    y: i64,
)
    requires
        old(pixels)@.len() == 4 * width * height,
    ensures
        final(pixels)@.len() == old(pixels)@.len(),
{
    let buf = std::mem::take(pixels);
    if let Some(mut bottom) = image::RgbaImage::from_raw(width, height, buf) {
        image::imageops::overlay(&mut bottom, &top.to_rgba8(), x, y);
        *pixels = bottom.into_raw();
    }
}

/// Relies on `PngEncoder::write_image` with RGBA8 pixels, written to a `Vec`:
/// PNG bytes, a lossless format. The encoder refuses a zero width or height
/// and nothing else for such an image; writing to a `Vec` cannot fail.
#[verifier::external_body]
fn png_bytes(width: u32, height: u32, pixels: &Vec<u8>) -> (r: Result<Vec<u8>, image::ImageError>)
    requires
        pixels@.len() == 4 * width * height,
    ensures
        r is Ok <==> (width > 0 && height > 0),
{
    let mut out: Vec<u8> = Vec::new();
    image::codecs::png::PngEncoder::new(&mut out).write_image(
        pixels,
        width,
        height,
        image::ExtendedColorType::Rgba8,
    )?;
    Ok(out)
}

/// Why a card could not be composed.
#[derive(Debug, Clone, Copy, PartialEq, Eq)]
pub enum ComposeError {
    /// The image is not valid base64, or its bytes are not an image.
    Decode,
    /// The font data is missing or malformed.
    FontLoad,
    /// The finished card could not be encoded.
    Encode,
}

impl ComposeError {
    /// A human-readable cause.
    pub fn message(&self) -> (r: &'static str) {
        match self {
            ComposeError::Decode => "the source image could not be decoded",
            ComposeError::FontLoad => "the font could not be loaded",
            ComposeError::Encode => "the card could not be encoded",
        }
    }
}

/// Encodes a canvas as PNG. Succeeds exactly when the canvas is not empty.
pub fn encode_card(canvas: &Canvas) -> (r: Result<Vec<u8>, ComposeError>)
    requires
        canvas.wf(),
    ensures
        r is Ok <==> canvas.width > 0 && canvas.height > 0,
        r is Err ==> r == Err::<Vec<u8>, ComposeError>(ComposeError::Encode),
{
    match png_bytes(canvas.width, canvas.height, &canvas.pixels) {
        Ok(b) => Ok(b),
        Err(_) => Err(ComposeError::Encode),
    }
}

} // verus!
