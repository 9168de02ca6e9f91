//! Pixel encodings shared by every operation.
//!
//! An `Rgb` pixel is three 8-bit channels, an `Rgba` pixel adds alpha, and a `Hex` is an
//! opaque packed colour `0xAARRGGBB` with alpha fixed at `0xFF`.
use vstd::prelude::*;

verus! {

pub type Rgb = [u8; 3];

pub type Rgba = [u8; 4];

pub type Hex = u32;

/// Column-major image: `image[x][y]`.
pub type Image = Vec<Vec<Rgba>>;

/// Alpha bits of every packed colour produced by this library.
pub const OPAQUE: u32 = 0xFF00_0000;

/// Packed opaque white.
pub const WHITE: u32 = 0xFFFF_FFFF;

/// Packed opaque black.
pub const BLACK: u32 = 0xFF00_0000;

/// Gray level of a colour: the integer mean of its three channels.
pub open spec fn gray_of(r: u8, g: u8, b: u8) -> u8 {
    ((r as int + g as int + b as int) / 3) as u8
}

/// Packed opaque colour `0xFFRRGGBB`.
pub open spec fn hex_of(r: u8, g: u8, b: u8) -> u32 {
    (OPAQUE as int + r as int * 0x1_0000 + g as int * 0x100 + b as int) as u32
}

pub open spec fn gray_hex_of(v: u8) -> u32 {
    hex_of(v, v, v)
}

/// A value clamped into the 8-bit channel range.
pub open spec fn clamp_spec(v: int) -> u8 {
    if v < 0 {
        0
    } else if v > 255 {
        255
    } else {
        v as u8
    }
}

pub fn rgb2gray(r: u8, g: u8, b: u8) -> (res: u8)
    ensures
        res == gray_of(r, g, b),
{
    ((r as u16 + g as u16 + b as u16) / 3) as u8
}

pub fn rgb2hex(r: u8, g: u8, b: u8) -> (res: Hex)
    ensures
        res == hex_of(r, g, b),
        res as int == OPAQUE as int + r as int * 0x1_0000 + g as int * 0x100 + b as int,
{
    OPAQUE + (r as u32) * 0x1_0000 + (g as u32) * 0x100 + b as u32
}

pub fn gray2hex(v: u8) -> (res: Hex)
    ensures
        res == gray_hex_of(v),
{
    rgb2hex(v, v, v)
}

/// Clamps a rounded intensity into `[0, 255]`; out-of-range values saturate, never wrap.
pub fn clamp_to_channel(v: i64) -> (res: u8)
    ensures
        res == clamp_spec(v as int),
        0 <= v <= 255 ==> res as int == v,
{
    if v < 0 {
        0
    } else if v > 255 {
        255
    } else {
        v as u8
    }
}

} // verus!
