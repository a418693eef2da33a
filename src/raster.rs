//! Validation and normalization of rasters before they are encoded.

use vstd::prelude::*;
use crate::braille::{apply, encode_spec, raster_height, valid_raster};
use crate::gray::GrayMethod;
use vstd::slice::slice_to_vec;
use image::{DynamicImage, RgbImage, RgbaImage};

verus! {

/// Why a raster or an edge-detection setting was refused.
#[derive(Debug, Clone, Copy, PartialEq, Eq, Structural)]
pub enum ConversionError {
    WidthNotEven,
    HeightNotMultipleOfFour,
    InvalidLowThreshold,
    InvalidHighThreshold,
    InvalidBytes,
}

/// The stable identifier of each error, its variant's name.
pub open spec fn error_name(e: ConversionError) -> Seq<char> {
    match e {
        ConversionError::WidthNotEven => "WidthNotEven"@,
        ConversionError::HeightNotMultipleOfFour => "HeightNotMultipleOfFour"@,
        ConversionError::InvalidLowThreshold => "InvalidLowThreshold"@,
        ConversionError::InvalidHighThreshold => "InvalidHighThreshold"@,
        ConversionError::InvalidBytes => "InvalidBytes"@,
    }
}

impl ConversionError {
    /// The error's stable identifier, for callers that dispatch on strings.
    pub fn name(&self) -> (s: &'static str)
        ensures
            s@ == error_name(*self),
    {
        match self {
            ConversionError::WidthNotEven => "WidthNotEven",
            ConversionError::HeightNotMultipleOfFour => "HeightNotMultipleOfFour",
            ConversionError::InvalidLowThreshold => "InvalidLowThreshold",
            ConversionError::InvalidHighThreshold => "InvalidHighThreshold",
            ConversionError::InvalidBytes => "InvalidBytes",
        }
    }
}

/// The error that `len` RGB bytes at the given width are refused with, checked in
/// this order: an odd width, a zero width, a height (`len / 3 / width`) that is
/// not a multiple of four, a byte count that is not `width * height * 3`.
pub open spec fn dimension_error(len: nat, width: nat) -> Option<ConversionError> {
    if width % 2 != 0 {
        Some(ConversionError::WidthNotEven)
    } else if width == 0 {
        Some(ConversionError::InvalidBytes)
    } else if raster_height(len, width) % 4 != 0 {
        Some(ConversionError::HeightNotMultipleOfFour)
    } else if len != width * raster_height(len, width) * 3 {
        Some(ConversionError::InvalidBytes)
    } else {
        None
    }
}

proof fn lemma_no_error_is_valid(len: nat, width: nat)
    ensures
        dimension_error(len, width) is None <==> (width > 0 && valid_raster(
            len,
            width,
            raster_height(len, width),
        )),
{
}

/// The height of `len` RGB bytes at the given width, where they fill whole rows.
fn exact_height(len: usize, width: usize) -> (r: Option<usize>)
    requires
        width > 0,
    ensures
        len == width * raster_height(len as nat, width as nat) * 3 ==> r == Some(
            raster_height(len as nat, width as nat) as usize,
        ),
        len != width * raster_height(len as nat, width as nat) * 3 ==> r is None,
{
    let height = len / 3 / width;
    if len % 3 != 0 || (len / 3) % width != 0 {
        proof {
            let n = len as int;
            let w = width as int;
            let q = n / 3;
            let rq = q % w;
            let rn = n % 3;
            assert(n == q * 3 + rn);
            assert(q == w * height + rq) by (nonlinear_arith)
                requires
                    w > 0,
                    height == q / w,
                    rq == q % w,
            ;
            assert(n != w * height * 3) by (nonlinear_arith)
                requires
                    n == q * 3 + rn,
                    q == w * height + rq,
                    rn != 0 || rq != 0,
                    0 <= rn < 3,
                    0 <= rq < w,
            ;
        }
        return None;
    }
    proof {
        let n = len as int;
        let w = width as int;
        let q = n / 3;
        assert(n == q * 3);
        assert(q == w * height) by (nonlinear_arith)
            requires
                w > 0,
                height == q / w,
                q % w == 0,
        ;
    }
    Some(height)
}

/// An odd width always fails with `WidthNotEven`, and an even, non-zero width
/// with a height that is not a multiple of four with `HeightNotMultipleOfFour`;
/// which error comes depends on the byte count and the width alone, never on a
/// pixel's value.
pub proof fn lemma_dimension_failures(len: nat, width: nat)
    ensures
        width % 2 != 0 ==> dimension_error(len, width) == Some(ConversionError::WidthNotEven),
        width % 2 == 0 && width > 0 && raster_height(len, width) % 4 != 0 ==> dimension_error(len, width)
            == Some(ConversionError::HeightNotMultipleOfFour),
{
}

/// Checks the dimensions of `len` RGB bytes at the given width and returns the
/// height in pixels.
pub fn check_dimensions(len: usize, width: usize) -> (r: Result<usize, ConversionError>)
    ensures
        match dimension_error(len as nat, width as nat) {
            Some(e) => r == Err::<usize, ConversionError>(e),
            None => r == Ok::<usize, ConversionError>(raster_height(len as nat, width as nat) as usize),
        },
{
    if width % 2 != 0 {
        return Err(ConversionError::WidthNotEven);
    }
    if width == 0 {
        return Err(ConversionError::InvalidBytes);
    }
    let height = len / 3 / width;
    if height % 4 != 0 {
        return Err(ConversionError::HeightNotMultipleOfFour);
    }
    match exact_height(len, width) {
        Some(h) => Ok(h),
        None => Err(ConversionError::InvalidBytes),
    }
}

/// Encodes an RGB raster at the given width, after checking its dimensions:
/// an intensity at or above `threshold` counts as ink.
pub fn from_bytes(
    bytes: &[u8],
    width: usize,
    invert: bool,
    gray_method: GrayMethod,
    monospace: bool,
    threshold: u8,
) -> (r: Result<String, ConversionError>)
    ensures
        match dimension_error(bytes@.len(), width as nat) {
            Some(e) => r == Err::<String, ConversionError>(e),
            None => r is Ok && r->Ok_0@ == encode_spec(
                bytes@,
                width as int,
                raster_height(bytes@.len(), width as nat) as int,
                invert,
                gray_method,
                monospace,
                threshold,
            ),
        },
{
    match check_dimensions(bytes.len(), width) {
        Err(e) => Err(e),
        Ok(_) => {
            proof {
                lemma_no_error_is_valid(bytes@.len(), width as nat);
            }
            Ok(apply(bytes, width, invert, gray_method, monospace, threshold))
        },
    }
}

/// Encodes the RGB rendering of an edge map at the given width: any pixel whose
/// intensity is not zero counts as ink.
pub fn from_edges(
    edges: &[u8],
    width: usize,
    invert: bool,
    gray_method: GrayMethod,
    monospace: bool,
) -> (r: Result<String, ConversionError>)
    ensures
        match dimension_error(edges@.len(), width as nat) {
            Some(e) => r == Err::<String, ConversionError>(e),
            None => r is Ok && r->Ok_0@ == encode_spec(
                edges@,
                width as int,
                raster_height(edges@.len(), width as nat) as int,
                invert,
                gray_method,
                monospace,
                1,
            ),
        },
{
    from_bytes(edges, width, invert, gray_method, monospace, 1)
}

/// Where `len` RGB bytes form whole rows of the given width, with both sides
/// small enough for an image buffer.
pub open spec fn plane_fits(len: nat, width: nat) -> bool {
    &&& width > 0
    &&& len == width * raster_height(len, width) * 3
    &&& width <= u32::MAX
    &&& raster_height(len, width) <= u32::MAX
}

/// The luminance plane that `image` computes from an RGB buffer.
pub uninterp spec fn luma_of(rgb: Seq<u8>, width: nat, height: nat) -> Seq<u8>;

/// Relies on image's `DynamicImage::to_luma8` on an RGB image built by
/// `ImageBuffer::from_raw`: one luminance byte per pixel, a function of the pixels.
#[verifier::external_body]
fn rgb_to_luma(rgb: Vec<u8>, width: u32, height: u32) -> (r: Vec<u8>)
    requires
        rgb@.len() == width * height * 3,
    ensures
        r@ == luma_of(rgb@, width as nat, height as nat),
        r@.len() == width * height,
{
    match RgbImage::from_raw(width, height, rgb) {
        Some(img) => DynamicImage::ImageRgb8(img).to_luma8().into_raw(),
        None => Vec::new(),
    }
}

/// The luminance plane (one byte per pixel) of an RGB raster of the given width,
/// the input of edge detection.
pub fn luma_plane(rgb: &[u8], width: usize) -> (r: Result<Vec<u8>, ConversionError>)
    ensures
        plane_fits(rgb@.len(), width as nat) ==> r is Ok && r->Ok_0@ == luma_of(
            rgb@,
            width as nat,
            raster_height(rgb@.len(), width as nat),
        ) && r->Ok_0@.len() == width * raster_height(rgb@.len(), width as nat),
        !plane_fits(rgb@.len(), width as nat) ==> r == Err::<Vec<u8>, ConversionError>(
            ConversionError::InvalidBytes,
        ),
{
    if width == 0 {
        return Err(ConversionError::InvalidBytes);
    }
    match exact_height(rgb.len(), width) {
        None => Err(ConversionError::InvalidBytes),
        Some(height) => {
            if width > u32::MAX as usize || height > u32::MAX as usize {
                return Err(ConversionError::InvalidBytes);
            }
            let owned = slice_to_vec(rgb);
            Ok(rgb_to_luma(owned, width as u32, height as u32))
        },
    }
}

/// The luminance plane of an RGB raster whose dimensions pass the checks of
/// `from_bytes`; the dimension errors come first.
pub fn edge_input(bytes: &[u8], width: usize) -> (r: Result<Vec<u8>, ConversionError>)
    ensures
        match dimension_error(bytes@.len(), width as nat) {
            Some(e) => r == Err::<Vec<u8>, ConversionError>(e),
            None => if plane_fits(bytes@.len(), width as nat) {
                r is Ok && r->Ok_0@ == luma_of(
                    bytes@,
                    width as nat,
                    raster_height(bytes@.len(), width as nat),
                )
            } else {
                r == Err::<Vec<u8>, ConversionError>(ConversionError::InvalidBytes)
            },
        },
{
    match check_dimensions(bytes.len(), width) {
        Err(e) => Err(e),
        Ok(_) => luma_plane(bytes, width),
    }
}

/// The overlay of one RGBA buffer on another, as `image` blends it.
pub uninterp spec fn overlay_of(bottom: Seq<u8>, top: Seq<u8>, width: nat, height: nat) -> Seq<u8>;

/// Relies on image's `imageops::overlay` at the origin: `top` is blended onto
/// `bottom` in place, so the buffer keeps its size.
#[verifier::external_body]
fn overlay_rgba(bottom: Vec<u8>, top: Vec<u8>, width: u32, height: u32) -> (r: Vec<u8>)
    requires
        bottom@.len() == width * height * 4,
        top@.len() == width * height * 4,
    ensures
        r@ == overlay_of(bottom@, top@, width as nat, height as nat),
        r@.len() == bottom@.len(),
{
    match (RgbaImage::from_raw(width, height, bottom), RgbaImage::from_raw(width, height, top)) {
        (Some(mut b), Some(t)) => {
            image::imageops::overlay(&mut b, &t, 0, 0);
            b.into_raw()
        },
        _ => Vec::new(),
    }
}

/// The RGB buffer that `image` converts an RGBA buffer to.
pub uninterp spec fn rgb_of(rgba: Seq<u8>, width: nat, height: nat) -> Seq<u8>;

/// Relies on image's `DynamicImage::to_rgb8` on an RGBA image: three bytes per pixel.
#[verifier::external_body]
fn rgba_to_rgb(rgba: Vec<u8>, width: u32, height: u32) -> (r: Vec<u8>)
    requires
        rgba@.len() == width * height * 4,
    ensures
        r@ == rgb_of(rgba@, width as nat, height as nat),
        r@.len() == width * height * 3,
{
    match RgbaImage::from_raw(width, height, rgba) {
        Some(img) => DynamicImage::ImageRgba8(img).to_rgb8().into_raw(),
        None => Vec::new(),
    }
}

/// An opaque white RGBA buffer of `len` bytes.
pub open spec fn opaque_white(len: nat) -> Seq<u8> {
    Seq::new(len, |k: int| 255u8)
}

/// Composites an RGBA image over an opaque white background of the same size and
/// returns the RGB result, which has no transparency left.
pub fn composite_over_white(rgba: &[u8], width: u32, height: u32) -> (r: Vec<u8>)
    requires
        rgba@.len() == width * height * 4,
    ensures
        r@ == rgb_of(
            overlay_of(opaque_white(rgba@.len()), rgba@, width as nat, height as nat),
            width as nat,
            height as nat,
        ),
        r@.len() == width * height * 3,
{
    let white: Vec<u8> = vec![255u8; rgba.len()];
    proof {
        assert(white@ =~= opaque_white(rgba@.len()));
    }
    let blended = overlay_rgba(white, slice_to_vec(rgba), width, height);
    rgba_to_rgb(blended, width, height)
}

/// `x` rounded down to a multiple of `k`.
pub open spec fn round_down(x: int, k: int) -> int {
    x - x % k
}

/// `height * new_width / width`, rounded to the nearest integer, halves up.
pub open spec fn scaled_height(width: int, height: int, new_width: int) -> int {
    (2 * height * new_width + width) / (2 * width)
}

/// The size an image of `width` by `height` pixels is resized to so that it
/// yields `columns` glyphs per row: twice as many pixels across, the height
/// scaled to keep the aspect ratio, the width rounded down to an even number and
/// the height to a multiple of four. `None` for an empty image or a size that
/// does not fit in `u32`.
pub fn resize_target(width: u32, height: u32, columns: u32) -> (r: Option<(u32, u32)>)
    ensures
        width == 0 ==> r is None,
        width > 0 ==> {
            let w = round_down(2 * columns, 2);
            let h = round_down(scaled_height(width as int, height as int, 2 * columns), 4);
            &&& (w <= u32::MAX && h <= u32::MAX) ==> r == Some((w as u32, h as u32))
            &&& !(w <= u32::MAX && h <= u32::MAX) ==> r is None
        },
{
    if width == 0 {
        return None;
    }
    let new_width: u128 = 2 * columns as u128;
    assert(2 * height * new_width + width <= 0x10_0000_0000_0000_0000_0000_0000_0000) by (nonlinear_arith)
        requires
            height <= u32::MAX,
            new_width <= 2 * u32::MAX,
            width <= u32::MAX,
    ;
    let new_height: u128 = (2 * height as u128 * new_width + width as u128) / (2 * width as u128);
    let w = new_width - new_width % 2;
    let h = new_height - new_height % 4;
    if w > u32::MAX as u128 || h > u32::MAX as u128 {
        return None;
    }
    Some((w as u32, h as u32))
}

} // verus!
