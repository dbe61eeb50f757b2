use vstd::prelude::*;

use crate::frame::MAX_SIDE;

verus! {

/// Luminance of one sRGB pixel with image's integer weights
/// (0.2126, 0.7152, 0.0722), rounded down.
pub open spec fn luma_of_rgb(r: u8, g: u8, b: u8) -> u8 {
    ((2126 * r + 7152 * g + 722 * b) / 10000) as u8
}

/// The luminance of each pixel of an RGBA buffer, alpha discarded.
pub open spec fn grayscale_of(rgba: Seq<u8>) -> Seq<u8> {
    Seq::new(rgba.len() / 4, |i: int| luma_of_rgb(rgba[4 * i], rgba[4 * i + 1], rgba[4 * i + 2]))
}

/// What imageproc's Gaussian blur with standard deviation `sigma` makes of a
/// `width` x `height` luminance buffer.
pub uninterp spec fn gaussian_blurred(width: nat, height: nat, sigma: nat, luma: Seq<u8>) -> Seq<u8>;

/// Relies on `image::imageops::grayscale` applied to an `RgbaImage`: each
/// pixel becomes `(2126 R + 7152 G + 722 B) / 10000` (`rgb_to_luma`, alpha
/// dropped), written at the same row-major position.
#[verifier::external_body]
pub(crate) fn grayscale_rgba(width: u32, height: u32, rgba: &Vec<u8>) -> (r: Vec<u8>)
    requires
        rgba@.len() == width * height * 4,
    ensures
        r@ == grayscale_of(rgba@),
{
    let img = image::RgbaImage::from_raw(width, height, rgba.clone()).unwrap();
    image::imageops::grayscale(&img).into_raw()
}

/// Relies on `imageproc::filter::gaussian_blur_f32`: a separable Gaussian
/// blur whose output has the input's dimensions and depends on the pixels and
/// `sigma` alone. It panics unless `sigma > 0`, and its `i32` pixel arithmetic
/// overflows for sides near `2^31`, hence the bound on the sides.
#[verifier::external_body]
pub(crate) fn gaussian_blur(width: u32, height: u32, sigma: u8, luma: Vec<u8>) -> (r: Vec<u8>)
    requires
        luma@.len() == width * height,
        width <= MAX_SIDE,
        height <= MAX_SIDE,
        sigma > 0,
    ensures
        r@ == gaussian_blurred(width as nat, height as nat, sigma as nat, luma@),
        r@.len() == width * height,
{
    let img = image::GrayImage::from_raw(width, height, luma).unwrap();
    imageproc::filter::gaussian_blur_f32(&img, sigma.into()).into_raw()
}

} // verus!
