//! Raster images, decoded and scaled by the `image` crate.
//!
//! An image is carried through the library as an opaque value. The names
//! below stand for what the outside crate reports of an image and returns
//! from its decoder and its two scalers. Nothing in this module is proved:
//! the contracts of the calls are assumptions, and the spec functions with a
//! body only state the conditions under which a call is made.

use vstd::prelude::*;

verus! {

/// `image::DynamicImage`, a decoded raster image.
#[verifier::external_type_specification]
#[verifier::external_body]
pub struct ExDynamicImage(image::DynamicImage);

/// `image::ImageFormat`, the file format of an encoded image.
#[verifier::external_type_specification]
#[verifier::external_body]
pub struct ExImageFormat(image::ImageFormat);

/// The kind of number that holds one sample of a pixel.
#[derive(Debug, Clone, Copy, PartialEq, Eq, Structural)]
pub enum SampleKind {
    /// Unsigned, eight bits.
    Eight,
    /// Unsigned, sixteen bits.
    Sixteen,
    /// Floating point, thirty-two bits.
    Float,
    /// A kind this library does not know.
    Other,
}

/// The format that the first bytes of an encoded image give away, or
/// `None` if they match no known signature.
pub uninterp spec fn guessed_format(bytes: Seq<u8>) -> Option<image::ImageFormat>;

/// The image that a byte string decodes to when read in the given format,
/// or `None` if it does not decode.
pub uninterp spec fn decoded_as(bytes: Seq<u8>, format: image::ImageFormat) -> Option<
    image::DynamicImage,
>;

/// Width of an image, in pixels.
pub uninterp spec fn image_width(picture: image::DynamicImage) -> u32;

/// Height of an image, in pixels.
pub uninterp spec fn image_height(picture: image::DynamicImage) -> u32;

/// The kind of sample an image is made of.
pub uninterp spec fn image_samples(picture: image::DynamicImage) -> SampleKind;

/// The image scaled to fit a bounding box, each pixel of the result being
/// the average of a block of the source.
pub uninterp spec fn averaged_image(source: image::DynamicImage, width: u32, height: u32) -> image::DynamicImage;

/// The image scaled to fit a bounding box, each pixel of the result being
/// the nearest pixel of the source.
pub uninterp spec fn sampled_image(source: image::DynamicImage, width: u32, height: u32) -> image::DynamicImage;

/// A buffer for an image of at most `max(width, 1)` by `max(height, 1)`
/// pixels, at sixteen bytes a pixel, takes no more than half the address
/// space of this machine.
pub open spec fn fits_in_memory(width: u32, height: u32) -> bool {
    &&& 32 * width <= usize::MAX
    &&& 32 * height <= usize::MAX
    &&& 32 * width * height <= usize::MAX
}

/// The sum of the samples of any block of an image of `width` by `height`
/// pixels, and the half of the block's pixel count added to it for
/// rounding, fit the 32-bit number they are summed in. For floating-point
/// samples, which are summed in floating point, the pixel count fits.
pub open spec fn sums_fit(width: u32, height: u32, samples: SampleKind) -> bool {
    match samples {
        SampleKind::Eight => width * height * 0x100 <= u32::MAX,
        SampleKind::Sixteen => width * height * 0x1_0000 <= u32::MAX,
        SampleKind::Float => width * height <= u32::MAX,
        SampleKind::Other => false,
    }
}

/// The source has no side of zero, and a buffer of as many columns as it
/// has and of at most `max(height, 1)` rows, at sixteen bytes a pixel, takes
/// no more than half the address space of this machine.
pub open spec fn rows_fit(source_width: u32, source_height: u32, height: u32) -> bool {
    &&& source_width >= 1
    &&& source_height >= 1
    &&& 32 * source_width <= usize::MAX
    &&& 32 * source_width * height <= usize::MAX
}

/// What both scalers promise of the sides `(new_width, new_height)` of an
/// image of `width` by `height` pixels scaled to fit a box of `box_width`
/// by `box_height`: no side is zero or, but for that, past its bound; and
/// where neither the image nor the box has a zero side, the side that
/// limits the scale equals its bound and the other keeps the aspect ratio
/// to within a pixel.
pub open spec fn keeps_shape(
    width: u32,
    height: u32,
    box_width: u32,
    box_height: u32,
    new_width: u32,
    new_height: u32,
) -> bool {
    &&& 1 <= new_width
    &&& 1 <= new_height
    &&& new_width <= box_width || new_width == 1
    &&& new_height <= box_height || new_height == 1
    &&& width >= 1 && height >= 1 && box_width >= 1 && box_height >= 1 ==> {
        &&& width * box_height >= height * box_width ==> new_width == box_width
        &&& width * box_height <= height * box_width ==> new_height == box_height
        &&& new_width * height - new_height * width <= (if width >= height {
            width
        } else {
            height
        })
        &&& new_height * width - new_width * height <= (if width >= height {
            width
        } else {
            height
        })
    }
}

/// Calls `image::guess_format`.
///
/// Assumed: the format depends on the bytes alone.
#[verifier::external_body]
pub(crate) fn guess_format(bytes: &[u8]) -> (r: Option<image::ImageFormat>)
    ensures
        r == guessed_format(bytes@),
{
    match image::guess_format(bytes) {
        Ok(format) => Some(format),
        Err(_) => None,
    }
}

/// Calls `image::load_from_memory_with_format`.
///
/// Assumed: whether the bytes decode, and to which image, depends on the
/// bytes and the format alone.
#[verifier::external_body]
pub(crate) fn decode_as(bytes: &[u8], format: image::ImageFormat) -> (r: Option<
    image::DynamicImage,
>)
    ensures
        r == decoded_as(bytes@, format),
{
    match image::load_from_memory_with_format(bytes, format) {
        Ok(picture) => Some(picture),
        Err(_) => None,
    }
}

/// Calls `image::DynamicImage::width`.
#[verifier::external_body]
pub(crate) fn picture_width(picture: &image::DynamicImage) -> (r: u32)
    ensures
        r == image_width(*picture),
{
    picture.width()
}

/// Calls `image::DynamicImage::height`.
#[verifier::external_body]
pub(crate) fn picture_height(picture: &image::DynamicImage) -> (r: u32)
    ensures
        r == image_height(*picture),
{
    picture.height()
}

/// Calls `image::DynamicImage::color` and tells the sample kinds of its
/// colour types apart.
#[verifier::external_body]
pub(crate) fn picture_samples(picture: &image::DynamicImage) -> (r: SampleKind)
    ensures
        r == image_samples(*picture),
{
    match picture.color() {
        image::ColorType::L8 => SampleKind::Eight,
        image::ColorType::La8 => SampleKind::Eight,
        image::ColorType::Rgb8 => SampleKind::Eight,
        image::ColorType::Rgba8 => SampleKind::Eight,
        image::ColorType::L16 => SampleKind::Sixteen,
        image::ColorType::La16 => SampleKind::Sixteen,
        image::ColorType::Rgb16 => SampleKind::Sixteen,
        image::ColorType::Rgba16 => SampleKind::Sixteen,
        image::ColorType::Rgb32F => SampleKind::Float,
        image::ColorType::Rgba32F => SampleKind::Float,
        _ => SampleKind::Other,
    }
}

/// Calls `image::DynamicImage::thumbnail`.
///
/// Assumed: the result depends on the image and the box alone, and its
/// sides are as `keeps_shape` says. The outside function panics where the
/// output buffer cannot be addressed, which `fits_in_memory` rules out, and
/// where a sum of samples or a pixel count overflows, which `sums_fit`
/// rules out: no block is larger than the whole source.
#[verifier::external_body]
pub(crate) fn scale_by_averaging(source: &image::DynamicImage, width: u32, height: u32) -> (r:
    image::DynamicImage)
    requires
        fits_in_memory(width, height),
        sums_fit(image_width(*source), image_height(*source), image_samples(*source)),
    ensures
        r == averaged_image(*source, width, height),
        keeps_shape(
            image_width(*source),
            image_height(*source),
            width,
            height,
            image_width(r),
            image_height(r),
        ),
{
    source.thumbnail(width, height)
}

/// Calls `image::DynamicImage::resize` with the nearest-neighbour filter.
///
/// Assumed: the result depends on the image and the box alone, and its
/// sides are as `keeps_shape` says. The outside function panics where the
/// output buffer or its buffer of intermediate rows cannot be addressed,
/// which `fits_in_memory` and `rows_fit` rule out; with this filter every
/// weight is one, so no sum of weights is zero.
#[verifier::external_body]
pub(crate) fn scale_by_sampling(source: &image::DynamicImage, width: u32, height: u32) -> (r:
    image::DynamicImage)
    requires
        fits_in_memory(width, height),
        rows_fit(image_width(*source), image_height(*source), height),
    ensures
        r == sampled_image(*source, width, height),
        keeps_shape(
            image_width(*source),
            image_height(*source),
            width,
            height,
            image_width(r),
            image_height(r),
        ),
{
    source.resize(width, height, image::imageops::FilterType::Nearest)
}

} // verus!
