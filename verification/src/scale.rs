//! Decoding an image and scaling it to fit a bounding box, with the
//! decisions that keep the outside scalers away from inputs they cannot
//! take.

use vstd::prelude::*;
use crate::picture::{
    averaged_image, decode_as, decoded_as, fits_in_memory, guess_format, guessed_format,
    image_height, image_samples, image_width, keeps_shape, picture_height, picture_samples,
    picture_width, rows_fit, sampled_image, scale_by_averaging, scale_by_sampling, sums_fit,
    SampleKind,
};

verus! {

/// The way an image is scaled.
#[derive(Debug, Clone, Copy, PartialEq, Eq, Structural)]
pub enum Scaler {
    /// Each pixel of the result is the average of a block of the source.
    Averaging,
    /// Each pixel of the result is the nearest pixel of the source.
    Sampling,
}

/// The image that a byte string decodes to, the format being guessed from
/// its first bytes, or `None` if the format is not recognised or the bytes
/// do not decode.
pub open spec fn decoded_image(bytes: Seq<u8>) -> Option<image::DynamicImage> {
    match guessed_format(bytes) {
        Some(format) => decoded_as(bytes, format),
        None => None,
    }
}

/// The scaler for an image of `width` by `height` pixels and a box of
/// `box_width` by `box_height`: averaging where its sums cannot overflow,
/// else sampling where its intermediate rows fit in memory; none where the
/// result itself does not fit.
pub open spec fn scaler_for(
    width: u32,
    height: u32,
    samples: SampleKind,
    box_width: u32,
    box_height: u32,
) -> Option<Scaler> {
    if !fits_in_memory(box_width, box_height) {
        None
    } else if sums_fit(width, height, samples) {
        Some(Scaler::Averaging)
    } else if rows_fit(width, height, box_height) {
        Some(Scaler::Sampling)
    } else {
        None
    }
}

/// The image scaled to fit a box, or `None` where this machine cannot
/// scale it.
pub open spec fn fitted_image(source: image::DynamicImage, width: u32, height: u32) -> Option<
    image::DynamicImage,
> {
    match scaler_for(
        image_width(source),
        image_height(source),
        image_samples(source),
        width,
        height,
    ) {
        Some(Scaler::Averaging) => Some(averaged_image(source, width, height)),
        Some(Scaler::Sampling) => Some(sampled_image(source, width, height)),
        None => None,
    }
}

/// Decode an image, guessing its format from its first bytes.
pub fn decode_image(bytes: &[u8]) -> (r: Option<image::DynamicImage>)
    ensures
        r == decoded_image(bytes@),
{
    match guess_format(bytes) {
        Some(format) => decode_as(bytes, format),
        None => None,
    }
}

/// Test whether a bounding box meets `fits_in_memory` on this machine.
pub fn box_fits_in_memory(width: u32, height: u32) -> (r: bool)
    ensures
        r == fits_in_memory(width, height),
{
    let limit: u128 = usize::MAX as u128;
    let w: u128 = width as u128;
    let h: u128 = height as u128;
    assert(32 * w * h <= 32 * 0xffff_ffff * 0xffff_ffff) by (nonlinear_arith)
        requires
            0 <= w <= 0xffff_ffff,
            0 <= h <= 0xffff_ffff,
    ;
    32 * w <= limit && 32 * h <= limit && 32 * w * h <= limit
}

/// Choose the scaler for an image and a box.
pub fn choose_scaler(
    width: u32,
    height: u32,
    samples: SampleKind,
    box_width: u32,
    box_height: u32,
) -> (r: Option<Scaler>)
    ensures
        r == scaler_for(width, height, samples, box_width, box_height),
{
    if !box_fits_in_memory(box_width, box_height) {
        return None;
    }
    let w: u128 = width as u128;
    let h: u128 = height as u128;
    let rows: u128 = box_height as u128;
    assert(w * h <= 0xffff_ffff * 0xffff_ffff && w * rows <= 0xffff_ffff * 0xffff_ffff)
        by (nonlinear_arith)
        requires
            0 <= w <= 0xffff_ffff,
            0 <= h <= 0xffff_ffff,
            0 <= rows <= 0xffff_ffff,
    ;
    let pixels: u128 = w * h;
    let most: u128 = u32::MAX as u128;
    let sums = match samples {
        SampleKind::Eight => pixels * 0x100 <= most,
        SampleKind::Sixteen => pixels * 0x1_0000 <= most,
        SampleKind::Float => pixels <= most,
        SampleKind::Other => false,
    };
    if sums {
        return Some(Scaler::Averaging);
    }
    let limit: u128 = usize::MAX as u128;
    assert(32 * (w * rows) == 32 * w * rows) by (nonlinear_arith);
    if width >= 1 && height >= 1 && 32 * w <= limit && 32 * (w * rows) <= limit {
        Some(Scaler::Sampling)
    } else {
        None
    }
}

/// Scale an image to fit within `width` by `height`, keeping its aspect
/// ratio. `None` where this machine cannot scale the image to that box.
pub fn fit(source: &image::DynamicImage, width: u32, height: u32) -> (r: Option<
    image::DynamicImage,
>)
    ensures
        r == fitted_image(*source, width, height),
        r matches Some(picture) ==> keeps_shape(
            image_width(*source),
            image_height(*source),
            width,
            height,
            image_width(picture),
            image_height(picture),
        ),
{
    let scaler = choose_scaler(
        picture_width(source),
        picture_height(source),
        picture_samples(source),
        width,
        height,
    );
    match scaler {
        Some(Scaler::Averaging) => Some(scale_by_averaging(source, width, height)),
        Some(Scaler::Sampling) => Some(scale_by_sampling(source, width, height)),
        None => None,
    }
}

} // verus!
