//! Turning the bytes of an image file into pixels.

use vstd::prelude::*;

verus! {

/// A decoded frame: its size and its pixels.
#[derive(Debug)]
pub struct DecodedImage {
    /// Pixels in a row.
    pub width: usize,
    /// Rows.
    pub height: usize,
    /// Four bytes a pixel (red, green, blue, alpha), row by row from the
    /// top; the colours are premultiplied by alpha.
    pub pixels: Vec<u8>,
}

/// A decoded frame as a mathematical value.
pub struct ImageView {
    pub width: nat,
    pub height: nat,
    pub pixels: Seq<u8>,
}

impl View for DecodedImage {
    type V = ImageView;

    open spec fn view(&self) -> ImageView {
        ImageView {
            width: self.width as nat,
            height: self.height as nat,
            pixels: self.pixels@,
        }
    }
}

impl ImageView {
    /// The pixels fill the image exactly: four bytes for each of its
    /// `width * height` pixels.
    pub open spec fn is_filled(self) -> bool {
        self.pixels.len() == 4 * (self.width * self.height)
    }
}

/// Why a frame could not be produced.
#[derive(Debug)]
pub enum DecodeError {
    /// The file could not be read.
    Unreadable,
    /// The bytes are not an image in a format that can be decoded; with the
    /// decoder's message.
    Malformed(String),
    /// The decoder gave a size that its pixels do not fill.
    Inconsistent,
}

/// A decode error as a mathematical value.
pub enum DecodeErrorView {
    Unreadable,
    Malformed(Seq<char>),
    Inconsistent,
}

impl View for DecodeError {
    type V = DecodeErrorView;

    open spec fn view(&self) -> DecodeErrorView {
        match self {
            DecodeError::Unreadable => DecodeErrorView::Unreadable,
            DecodeError::Malformed(message) => DecodeErrorView::Malformed(message@),
            DecodeError::Inconsistent => DecodeErrorView::Inconsistent,
        }
    }
}

impl DecodeError {
    /// A sentence for the error.
    pub fn message(&self) -> (text: String)
        ensures
            self@ is Unreadable ==> text@ == "the image file could not be read"@,
            self@ is Inconsistent ==> text@ == "the decoded pixels do not fill the image"@,
            self@ matches DecodeErrorView::Malformed(m) ==> text@ == m,
    {
        match self {
            DecodeError::Unreadable => "the image file could not be read".to_owned(),
            DecodeError::Malformed(message) => message.clone(),
            DecodeError::Inconsistent => "the decoded pixels do not fill the image".to_owned(),
        }
    }
}

/// What a decoder handed back, as a mathematical value.
pub open spec fn raw_view(raw: Result<(usize, usize, Vec<u8>), String>) -> Result<
    (usize, usize, Seq<u8>),
    Seq<char>,
> {
    match raw {
        Ok((width, height, pixels)) => Ok((width, height, pixels@)),
        Err(message) => Err(message@),
    }
}

/// Decodes the bytes of an image file with
/// `egui_extras::image::load_image_bytes`, which finds out the format from the
/// bytes themselves. The width and height are those of the image it returns,
/// the pixels its colours in order, four bytes each; an error is the
/// function's own message. Nothing is claimed of the result. It is not even
/// a function of the bytes: the decoder may start threads, which the system
/// can refuse, and it mixes colours with alpha in floating point, which may
/// round differently from one machine to the next.
#[verifier::external_body]
pub(crate) fn decode_pixels(file: &[u8]) -> (raw: Result<(usize, usize, Vec<u8>), String>) {
    match egui_extras::image::load_image_bytes(file) {
        Ok(image) => Ok(
            (
                image.size[0],
                image.size[1],
                image.pixels.iter().flat_map(|pixel| pixel.to_array()).collect(),
            ),
        ),
        Err(message) => Err(message),
    }
}

/// The frame, or the error, that a decoder's answer stands for.
pub open spec fn checked_image(raw: Result<(usize, usize, Seq<u8>), Seq<char>>) -> Result<
    ImageView,
    DecodeErrorView,
> {
    match raw {
        Ok((width, height, pixels)) => {
            let image = ImageView { width: width as nat, height: height as nat, pixels };
            if image.is_filled() {
                Ok(image)
            } else {
                Err(DecodeErrorView::Inconsistent)
            }
        },
        Err(message) => Err(DecodeErrorView::Malformed(message)),
    }
}

/// The result of decoding, as a mathematical value.
pub open spec fn outcome_view(outcome: Result<DecodedImage, DecodeError>) -> Result<
    ImageView,
    DecodeErrorView,
> {
    match outcome {
        Ok(image) => Ok(image@),
        Err(error) => Err(error@),
    }
}

/// Tells whether `len` bytes fill an image of the given size.
pub fn fills(width: usize, height: usize, len: usize) -> (r: bool)
    ensures
        r == (len == 4 * (width * height)),
{
    match width.checked_mul(height) {
        Some(area) => match area.checked_mul(4) {
            Some(bytes) => bytes == len,
            None => false,
        },
        None => false,
    }
}

/// Accepts a decoder's answer as a frame if its pixels fill the size it
/// gives, and turns its refusal into an error.
pub fn image_from_raw(raw: Result<(usize, usize, Vec<u8>), String>) -> (outcome: Result<
    DecodedImage,
    DecodeError,
>)
    ensures
        outcome_view(outcome) == checked_image(raw_view(raw)),
{
    match raw {
        Ok((width, height, pixels)) => {
            if fills(width, height, pixels.len()) {
                Ok(DecodedImage { width, height, pixels })
            } else {
                Err(DecodeError::Inconsistent)
            }
        },
        Err(message) => Err(DecodeError::Malformed(message)),
    }
}

/// Decodes the bytes of an image file into a frame. Whatever the decoder
/// makes of the bytes, a frame that comes back is filled by its pixels, and
/// an error that comes back is the decoder's: the file itself was read.
pub fn decode(file: &[u8]) -> (outcome: Result<DecodedImage, DecodeError>)
    ensures
        outcome matches Ok(image) ==> image@.is_filled(),
        outcome matches Err(error) ==> !(error@ is Unreadable),
{
    image_from_raw(decode_pixels(file))
}

} // verus!
