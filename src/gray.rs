//! Grayscale reduction of one RGB pixel.

use vstd::prelude::*;

verus! {

/// Policy that maps one RGB pixel to one intensity byte.
#[derive(Debug, Clone, Copy, PartialEq, Eq, Structural)]
pub enum GrayMethod {
    Lightness,
    Average,
    Luminosity,
    Max,
    Min,
}

pub open spec fn max3(r: u8, g: u8, b: u8) -> int {
    if r >= g && r >= b {
        r as int
    } else if g >= b {
        g as int
    } else {
        b as int
    }
}

pub open spec fn min3(r: u8, g: u8, b: u8) -> int {
    if r <= g && r <= b {
        r as int
    } else if g <= b {
        g as int
    } else {
        b as int
    }
}

/// The intensity of the pixel `(r, g, b)` under `method`.
/// Luminosity is `0.21 r + 0.72 g + 0.07 b` rounded half up, computed exactly.
pub open spec fn gray_spec(r: u8, g: u8, b: u8, method: GrayMethod) -> int {
    match method {
        GrayMethod::Lightness => (max3(r, g, b) + min3(r, g, b)) / 2,
        GrayMethod::Average => (r + g + b) / 3,
        GrayMethod::Luminosity => (21 * r + 72 * g + 7 * b + 50) / 100,
        GrayMethod::Max => max3(r, g, b),
        GrayMethod::Min => min3(r, g, b),
    }
}

fn max_of(r: u8, g: u8, b: u8) -> (m: u8)
    ensures
        m == max3(r, g, b),
{
    if r >= g && r >= b {
        r
    } else if g >= b {
        g
    } else {
        b
    }
}

fn min_of(r: u8, g: u8, b: u8) -> (m: u8)
    ensures
        m == min3(r, g, b),
{
    if r <= g && r <= b {
        r
    } else if g <= b {
        g
    } else {
        b
    }
}

/// Reduces the pixel `[r, g, b]` to one intensity byte.
pub fn to_gray(pixel: [u8; 3], method: GrayMethod) -> (v: u8)
    ensures
        v == gray_spec(pixel[0], pixel[1], pixel[2], method),
{
    let r = pixel[0];
    let g = pixel[1];
    let b = pixel[2];
    match method {
        GrayMethod::Lightness => ((max_of(r, g, b) as u16 + min_of(r, g, b) as u16) / 2) as u8,
        GrayMethod::Average => ((r as u16 + g as u16 + b as u16) / 3) as u8,
        GrayMethod::Luminosity => ((21 * r as u32 + 72 * g as u32 + 7 * b as u32 + 50) / 100) as u8,
        GrayMethod::Max => max_of(r, g, b),
        GrayMethod::Min => min_of(r, g, b),
    }
}

/// The method numbered `index` in the order Average, Lightness, Luminosity, Max;
/// every larger index selects Min.
pub fn gray_method_from_index(index: usize) -> (m: GrayMethod)
    ensures
        index == 0 ==> m == GrayMethod::Average,
        index == 1 ==> m == GrayMethod::Lightness,
        index == 2 ==> m == GrayMethod::Luminosity,
        index == 3 ==> m == GrayMethod::Max,
        index >= 4 ==> m == GrayMethod::Min,
{
    match index {
        0 => GrayMethod::Average,
        1 => GrayMethod::Lightness,
        2 => GrayMethod::Luminosity,
        3 => GrayMethod::Max,
        _ => GrayMethod::Min,
    }
}

} // verus!
