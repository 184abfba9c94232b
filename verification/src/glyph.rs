//! Decoding the image of a piece.
//!
//! The images are PNG data. Decoding is the work of `tiny_skia`; what it
//! gives is taken as it comes: width, height, and four bytes for each pixel
//! (red, green and blue, each already multiplied by the opacity, then the
//! opacity). An image that cannot be decoded is an error: the images belong
//! to the program, not to its input.

use crate::pieces::{get_piece_png_data, piece_of, PieceImages};
use crate::study::StudyError;
use vstd::prelude::*;

verus! {

/// A decoded image.
#[derive(Debug, PartialEq, Eq)]
pub struct GlyphImage {
    pub width: u32,
    pub height: u32,
    /// Four bytes for each pixel, row by row.
    pub pixels: Vec<u8>,
}

/// What a `GlyphImage` stands for: width, height and pixels.
impl View for GlyphImage {
    type V = (int, int, Seq<u8>);

    open spec fn view(&self) -> (int, int, Seq<u8>) {
        (self.width as int, self.height as int, self.pixels@)
    }
}

/// What `tiny_skia::Pixmap::decode_png` makes of PNG data: the width, the
/// height and the pixels of the image, or nothing where it refuses the data.
pub uninterp spec fn decoded_png(data: Seq<u8>) -> Option<(int, int, Seq<u8>)>;

/// Decodes PNG data with `tiny_skia::Pixmap::decode_png` and takes the
/// pixmap apart. The result is what that function makes of the data, which
/// depends on the data alone; a pixmap is never empty and holds four bytes
/// for each pixel.
#[verifier::external_body]
fn decode_png(data: &[u8]) -> (image: Option<(u32, u32, Vec<u8>)>)
    ensures
        match image {
            Some((width, height, pixels)) => {
                &&& decoded_png(data@) == Some((width as int, height as int, pixels@))
                &&& width > 0
                &&& height > 0
                &&& pixels@.len() == 4 * width * height
            },
            None => decoded_png(data@) is None,
        },
{
    match tiny_skia::Pixmap::decode_png(data) {
        Ok(pixmap) => Some((pixmap.width(), pixmap.height(), pixmap.take())),
        Err(_) => None,
    }
}

/// The image for `symbol` out of what decoding gave: the decoded image, or
/// the error that names the piece where there is none.
pub fn image_or_error(symbol: char, decoded: Option<(u32, u32, Vec<u8>)>) -> (r: Result<
    GlyphImage,
    StudyError,
>)
    ensures
        match decoded {
            Some((width, height, pixels)) => r matches Ok(image) && image.width == width
                && image.height == height && image.pixels == pixels,
            None => r == Err::<GlyphImage, StudyError>(StudyError::BadImage { symbol }),
        },
{
    match decoded {
        Some((width, height, pixels)) => Ok(GlyphImage { width, height, pixels }),
        None => Err(StudyError::BadImage { symbol }),
    }
}

/// The image to draw for `symbol`.
///
/// A symbol that names no piece has no image, which is no error. For a
/// piece, its image is taken from the table and decoded; the result is an
/// error exactly when the image cannot be decoded.
pub fn decode_glyph(images: &PieceImages, symbol: char) -> (r: Result<
    Option<GlyphImage>,
    StudyError,
>)
    ensures
        match piece_of(symbol) {
            None => r matches Ok(None),
            Some(piece) => match decoded_png(images.image(piece)) {
                Some(v) => r matches Ok(Some(image)) && image@ == v,
                None => r == Err::<Option<GlyphImage>, StudyError>(
                    StudyError::BadImage { symbol },
                ),
            },
        },
        r matches Ok(Some(image)) ==> image.width > 0 && image.height > 0 && image.pixels@.len()
            == 4 * image.width * image.height,
{
    match get_piece_png_data(images, symbol) {
        None => Ok(None),
        Some(data) => match image_or_error(symbol, decode_png(data)) {
            Ok(image) => Ok(Some(image)),
            Err(e) => Err(e),
        },
    }
}

} // verus!
