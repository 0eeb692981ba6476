//! From encoded image bytes to carved samples: decode, resize, pack.

use vstd::prelude::*;
use crate::admission::{admits, admitted, lemma_short_content_admitted};
use crate::grid::{from_flat, row_major};
use crate::pixel::{packed, unpacked, PixelBuffer};
use crate::resize::{resize, resized, ResizeError};

verus! {

/// The error type of the `image` crate, carried through unopened.
#[verifier::external_type_specification]
#[verifier::external_body]
pub struct ExImageError(image::ImageError);

/// A decoded picture of the `image` crate, carried from the decoder to the
/// conversion unopened.
#[verifier::external_type_specification]
#[verifier::external_body]
pub struct ExDynamicImage(image::DynamicImage);

/// The width and height that `GenericImageView::dimensions` reports for
/// `picture`.
pub uninterp spec fn picture_size(picture: image::DynamicImage) -> (u32, u32);

/// The samples of `picture` after `DynamicImage::to_rgba`: four per pixel
/// (red, green, blue, alpha), pixels in reading order.
pub uninterp spec fn picture_rgba(picture: image::DynamicImage) -> Seq<u8>;

/// The picture that `image::load_from_memory` makes of `content` where it
/// succeeds: its width, its height and its RGBA samples.
pub uninterp spec fn decoded_image(content: Seq<u8>) -> Option<(u32, u32, Seq<u8>)>;

/// Decodes `content` with `image::load_from_memory`.
///
/// Trusted, not proved: where the call succeeds, the picture is the one that
/// `decoded_image` names for `content`. A failure may come from the machine
/// as well as from the content, so nothing is claimed of it but this:
/// content shorter than two bytes always fails, since the format is guessed
/// from leading signatures of two bytes or more.
///
/// The content must be admitted. Admitted content takes the call to no
/// decoder at all, or to the Netpbm decoder with a small declared size, or
/// to the bitmap decoder on its way for uncompressed full-byte pixels with a
/// pixel buffer that never has to grow; on these ways every fault comes back
/// as an `ImageError`.
#[verifier::external_body]
fn load(content: &[u8]) -> (loaded: Result<image::DynamicImage, image::ImageError>)
    requires
        admitted(content@),
    ensures
        loaded matches Ok(picture) ==> decoded_image(content@) == Some(
            (picture_size(picture).0, picture_size(picture).1, picture_rgba(picture)),
        ),
        content@.len() < 2 ==> loaded is Err,
{
    image::load_from_memory(content)
}

/// Reads the width and height of `picture` with
/// `GenericImageView::dimensions`.
///
/// Trusted, not proved: the pair is what `picture_size` names.
#[verifier::external_body]
fn dimensions(picture: &image::DynamicImage) -> (size: (u32, u32))
    ensures
        size == picture_size(*picture),
{
    image::GenericImageView::dimensions(picture)
}

/// Converts `picture` with `DynamicImage::to_rgba` and hands out the samples
/// with `ImageBuffer::into_raw`.
///
/// Trusted, not proved: the samples are what `picture_rgba` names, and there
/// are four of them for every pixel. The conversion allocates a buffer of
/// four times the width times the height and gives up where either product
/// exceeds `usize`; with both sides positive and the whole count within
/// `usize`, neither does.
#[verifier::external_body]
fn rgba_samples(picture: &image::DynamicImage) -> (data: Vec<u8>)
    requires
        picture_size(*picture).0 >= 1,
        picture_size(*picture).1 >= 1,
        4 * (picture_size(*picture).0 * picture_size(*picture).1) <= usize::MAX,
    ensures
        data@ == picture_rgba(*picture),
        data@.len() == 4 * (picture_size(*picture).0 * picture_size(*picture).1),
{
    picture.to_rgba().into_raw()
}

/// Why packed samples could not be carved.
#[derive(Clone, Copy, Debug, PartialEq, Eq)]
pub enum CarveError {
    /// A source dimension is zero, or the number of samples is not four per
    /// pixel, or four samples per pixel are more than `usize` can count.
    Malformed,
    /// The target width or the target height is zero.
    InvalidTarget,
    /// The pixel count of the widened image or of the result does not fit in
    /// `usize`.
    TooLarge,
}

/// Why encoded bytes could not be carved.
#[derive(Debug)]
pub enum RenderError {
    /// The bytes are in a format, or declare a size, that is not handed to
    /// the decoder.
    Refused,
    /// The decoder did not make a picture of the bytes.
    Undecodable(image::ImageError),
    /// The decoded image or the target was refused.
    Rejected(CarveError),
}

/// The outcome of carving packed RGBA samples of an image `width` wide and
/// `height` high to `tw` columns and `th` rows.
pub open spec fn carved_rgba(width: int, height: int, data: Seq<u8>, tw: int, th: int) -> Result<
    Seq<u8>,
    CarveError,
> {
    if width < 1 || height < 1 || data.len() != 4 * (width * height) || 4 * (width * height)
        > usize::MAX {
        Err(CarveError::Malformed)
    } else if tw == 0 || th == 0 {
        Err(CarveError::InvalidTarget)
    } else if tw * height > usize::MAX || tw * th > usize::MAX {
        Err(CarveError::TooLarge)
    } else {
        Ok(packed(row_major(resized(from_flat(unpacked(data), width, height), tw, th))))
    }
}

/// Carves packed RGBA samples (four bytes per pixel, pixels in reading order)
/// of an image `width` wide and `height` high to `target_width` columns and
/// `target_height` rows, and packs the result the same way.
pub fn carve_rgba(
    width: usize,
    height: usize,
    data: &[u8],
    target_width: usize,
    target_height: usize,
) -> (result: Result<Vec<u8>, CarveError>)
    ensures
        match carved_rgba(
            width as int,
            height as int,
            data@,
            target_width as int,
            target_height as int,
        ) {
            Ok(samples) => result matches Ok(out) && out@ == samples,
            Err(e) => result == Err::<Vec<u8>, CarveError>(e),
        },
        result matches Ok(out) ==> out.len() == 4 * (target_width * target_height),
{
    let buffer = match PixelBuffer::from_rgba(width, height, data) {
        Some(b) => b,
        None => {
            return Err(CarveError::Malformed);
        },
    };
    if target_width == 0 || target_height == 0 {
        return Err(CarveError::InvalidTarget);
    }
    if target_width.checked_mul(height).is_none() || target_width.checked_mul(
        target_height,
    ).is_none() {
        return Err(CarveError::TooLarge);
    }
    match resize(buffer, target_width, target_height) {
        Ok(out) => {
            let w = out.width();
            Ok(out.to_rgba())
        },
        Err(ResizeError::InvalidTarget) => Err(CarveError::InvalidTarget),
    }
}

/// `result` is what carving made of a decoded picture: the samples where
/// carving gave samples, else its refusal.
pub open spec fn follows(
    result: Result<Vec<u8>, RenderError>,
    outcome: Result<Seq<u8>, CarveError>,
) -> bool {
    match outcome {
        Ok(samples) => result matches Ok(out) && out@ == samples,
        Err(e) => result matches Err(RenderError::Rejected(x)) && x == e,
    }
}

/// Decodes `content`, carves the picture to `target_width` columns and
/// `target_height` rows and packs the result as RGBA samples.
///
/// Content that is not admitted is refused unseen by the decoder. On admitted
/// content the decoder may fail, which gives `Undecodable`. Where it makes a
/// picture, the result is `carved_rgba` of that picture, and the picture has
/// four samples for every pixel: so a picture with positive sides gives
/// samples whenever the targets are positive and the sizes on the way fit in
/// `usize`.
pub fn carve_encoded(content: &[u8], target_width: usize, target_height: usize) -> (result: Result<
    Vec<u8>,
    RenderError,
>)
    ensures
        !admitted(content@) ==> result matches Err(RenderError::Refused),
        admitted(content@) ==> {
            ||| result matches Err(RenderError::Undecodable(_))
            ||| {
                &&& decoded_image(content@) matches Some((w, h, data))
                &&& follows(
                    result,
                    carved_rgba(
                        w as int,
                        h as int,
                        data,
                        target_width as int,
                        target_height as int,
                    ),
                )
                &&& (w >= 1 && h >= 1 && 4 * (w * h) <= usize::MAX ==> data.len() == 4 * (w * h))
            }
        },
        admitted(content@) && decoded_image(content@) is None ==> result matches Err(
            RenderError::Undecodable(_),
        ),
        admitted(content@) && !(result matches Err(RenderError::Undecodable(_))) ==> {
            &&& decoded_image(content@) matches Some((w, h, _))
            &&& (w >= 1 && h >= 1 && 4 * (w * h) <= usize::MAX && target_width >= 1
                && target_height >= 1 && target_width * h <= usize::MAX && target_width
                * target_height <= usize::MAX ==> result is Ok)
        },
        content@.len() < 2 ==> result matches Err(RenderError::Undecodable(_)),
        result matches Ok(out) ==> out.len() == 4 * (target_width * target_height),
{
    if !admits(content) {
        return Err(RenderError::Refused);
    }
    proof {
        if content@.len() < 2 {
            lemma_short_content_admitted(content@);
        }
    }
    let picture = match load(content) {
        Ok(picture) => picture,
        Err(e) => {
            return Err(RenderError::Undecodable(e));
        },
    };
    let (w, h) = dimensions(&picture);
    if w == 0 || h == 0 {
        return Err(RenderError::Rejected(CarveError::Malformed));
    }
    let countable = match (w as usize).checked_mul(h as usize) {
        Some(pixels) => pixels.checked_mul(4).is_some(),
        None => false,
    };
    if !countable {
        return Err(RenderError::Rejected(CarveError::Malformed));
    }
    let data = rgba_samples(&picture);
    match carve_rgba(w as usize, h as usize, data.as_slice(), target_width, target_height) {
        Ok(out) => Ok(out),
        Err(e) => Err(RenderError::Rejected(e)),
    }
}

} // verus!
