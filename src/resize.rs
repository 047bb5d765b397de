//! Resizing an image to the character grid, with the horizontal stretch that
//! compensates for glyphs being taller than wide.

use vstd::prelude::*;
use crate::bitmap::Image;

verus! {

/// The stretch used when none is given, in hundredths: 2.45.
pub const DEFAULT_FATNESS: u32 = 245;

/// Why an image could not be resized.
#[derive(Clone, Copy, Debug, PartialEq, Eq, Structural)]
pub enum ResizeError {
    /// The target, or the resampling buffer, does not fit in memory limits.
    TooLarge,
}

/// `width * fatness / 100`, rounded to the nearest integer with halves up.
pub open spec fn scaled_width(width: nat, fatness: nat) -> nat {
    (width * fatness + 50) / 100
}

/// The stretch in hundredths that applies for an optional one.
pub open spec fn fatness_or_default(fatness: Option<u32>) -> nat {
    match fatness {
        Some(f) => f as nat,
        None => DEFAULT_FATNESS as nat,
    }
}

/// The RGBA buffer that nearest-neighbour resampling of a `width` × `height`
/// RGBA buffer to `nwidth` × `nheight` gives.
pub uninterp spec fn nearest_resized(data: Seq<u8>, width: u32, height: u32, nwidth: u32, nheight: u32) -> Seq<u8>;

/// The sizes for which resampling fits in memory limits: the `f32` buffer of
/// the intermediate pass and the result.
pub open spec fn resample_fits(width: nat, nwidth: nat, nheight: nat) -> bool {
    16 * (width * nheight) <= isize::MAX && 4 * (nwidth * nheight) <= isize::MAX
}

/// Relies on `image::imageops::resize` with `FilterType::Nearest` over an
/// `RgbaImage`: the result is an `nwidth` × `nheight` RGBA buffer that depends
/// on the source buffer and the sizes alone.
#[verifier::external_body]
fn resize_nearest(data: &Vec<u8>, width: u32, height: u32, nwidth: u32, nheight: u32) -> (r: Vec<u8>)
    requires
        data@.len() == 4 * (width * height),
        resample_fits(width as nat, nwidth as nat, nheight as nat),
    ensures
        r@ == nearest_resized(data@, width, height, nwidth, nheight),
        r@.len() == 4 * (nwidth * nheight),
{
    let source = image::RgbaImage::from_raw(width, height, data.clone()).unwrap();
    image::imageops::resize(&source, nwidth, nheight, image::imageops::FilterType::Nearest).into_raw()
}

/// Resizes `image` by nearest-neighbour sampling to `width * fatness / 100`
/// (rounded) by `height` pixels; `fatness` is in hundredths and defaults to
/// 245.
pub fn resize_image(image: &Image, width: u32, height: u32, fatness: Option<u32>) -> (r: Result<Image, ResizeError>)
    requires
        image.wf(),
    ensures
        ({
            let nw = scaled_width(width as nat, fatness_or_default(fatness));
            match r {
                Ok(out) => nw <= u32::MAX && out.wf() && out.width == nw && out.height == height
                    && out.data@ == nearest_resized(image.data@, image.width, image.height, out.width, height)
                    && resample_fits(image.width as nat, nw, height as nat),
                Err(ResizeError::TooLarge) => nw > u32::MAX
                    || !resample_fits(image.width as nat, nw, height as nat),
            }
        }),
{
    let f: u32 = match fatness {
        Some(f) => f,
        None => DEFAULT_FATNESS,
    };
    assert(width * f <= 0xffff_fffe_0000_0001) by (nonlinear_arith)
        requires
            width <= 0xffff_ffff,
            f <= 0xffff_ffff,
    ;
    let nw64: u64 = (width as u64 * f as u64 + 50) / 100;
    if nw64 > u32::MAX as u64 {
        return Err(ResizeError::TooLarge);
    }
    let nw = nw64 as u32;
    assert(image.width * height <= 0xffff_fffe_0000_0001 && nw * height <= 0xffff_fffe_0000_0001)
        by (nonlinear_arith)
        requires
            image.width <= 0xffff_ffff,
            nw <= 0xffff_ffff,
            height <= 0xffff_ffff,
    ;
    let pass: u128 = image.width as u128 * height as u128;
    let out: u128 = nw as u128 * height as u128;
    if 16 * pass > isize::MAX as u128 || 4 * out > isize::MAX as u128 {
        return Err(ResizeError::TooLarge);
    }
    let data = resize_nearest(&image.data, image.width, image.height, nw, height);
    Ok(Image { width: nw, height, data })
}

} // verus!
