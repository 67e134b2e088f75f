//! Colors and their packed encodings.

use vstd::prelude::*;

use crate::error::Error;

verus! {

/// How a frame stores its pixels.
#[derive(Debug, Clone, Copy, PartialEq, Eq, Structural)]
pub enum Format {
    /// 4 or 8 bits per pixel, each an index into a palette.
    Indexed,
    /// 16 bits: 5 bits each of red, green and blue, lowest first, and one alpha bit on top.
    Abgr1555,
    /// 24 bits: red, green, blue; alpha is implied opaque.
    Rgb888,
    /// 32 bits: red, green, blue, alpha.
    Rgba8888,
}

/// An RGBA color, 8 bits per channel.
#[derive(Debug, Clone, Copy, PartialEq, Eq, Structural)]
pub struct Pixel {
    pub r: u8,
    pub g: u8,
    pub b: u8,
    pub a: u8,
}

/// A 5-bit channel widened to 8 bits: `round(c / 31 * 255)`.
pub open spec fn widen5(c: int) -> int {
    (2 * 255 * c + 31) / 62
}

/// The color that a 2, 3 or 4 byte entry encodes. Two bytes form a
/// big-endian 16-bit word holding red in bits 0-4, green in 5-9, blue in
/// 10-14 and alpha in bit 15.
pub open spec fn pixel_of(buf: Seq<u8>) -> Pixel {
    if buf.len() == 2 {
        let raw = 256 * buf[0] + buf[1];
        Pixel {
            r: widen5(raw % 32) as u8,
            g: widen5((raw / 32) % 32) as u8,
            b: widen5((raw / 1024) % 32) as u8,
            a: if raw / 32768 == 1 { 255 } else { 0 },
        }
    } else if buf.len() == 3 {
        Pixel { r: buf[0], g: buf[1], b: buf[2], a: 255 }
    } else {
        Pixel { r: buf[0], g: buf[1], b: buf[2], a: buf[3] }
    }
}

/// Color entries are 2, 3 or 4 bytes long.
pub open spec fn is_color_size(n: int) -> bool {
    2 <= n <= 4
}

impl Pixel {
    /// Opaque white.
    pub fn new() -> (r: Pixel)
        ensures
            r == (Pixel { r: 255, g: 255, b: 255, a: 255 }),
    {
        Pixel { r: 255, g: 255, b: 255, a: 255 }
    }

    pub fn from(r: u8, g: u8, b: u8, a: u8) -> (p: Pixel)
        ensures
            p == (Pixel { r, g, b, a }),
    {
        Pixel { r, g, b, a }
    }

    /// Decodes one color entry; see `pixel_of`.
    pub fn from_buf(buf: &[u8]) -> (r: Result<Pixel, Error>)
        ensures
            is_color_size(buf@.len() as int) ==> r == Ok::<Pixel, Error>(pixel_of(buf@)),
            !is_color_size(buf@.len() as int) ==> r == Err::<Pixel, Error>(Error::InvalidPixelSize(buf@.len() as usize)),
    {
        let n = buf.len();
        if n == 2 {
            let raw: u32 = 256 * (buf[0] as u32) + buf[1] as u32;
            let r = (2 * 255 * (raw % 32) + 31) / 62;
            let g = (2 * 255 * ((raw / 32) % 32) + 31) / 62;
            let b = (2 * 255 * ((raw / 1024) % 32) + 31) / 62;
            Ok(Pixel { r: r as u8, g: g as u8, b: b as u8, a: if raw / 32768 == 1 { 255 } else { 0 } })
        } else if n == 3 {
            Ok(Pixel { r: buf[0], g: buf[1], b: buf[2], a: 255 })
        } else if n == 4 {
            Ok(Pixel { r: buf[0], g: buf[1], b: buf[2], a: buf[3] })
        } else {
            Err(Error::InvalidPixelSize(n))
        }
    }

    pub fn r(&self) -> (v: u8)
        ensures
            v == self.r,
    {
        self.r
    }

    pub fn g(&self) -> (v: u8)
        ensures
            v == self.g,
    {
        self.g
    }

    pub fn b(&self) -> (v: u8)
        ensures
            v == self.b,
    {
        self.b
    }

    pub fn a(&self) -> (v: u8)
        ensures
            v == self.a,
    {
        self.a
    }
}

impl Default for Pixel {
    fn default() -> (r: Pixel)
        ensures
            r == (Pixel { r: 255, g: 255, b: 255, a: 255 }),
    {
        Pixel::new()
    }
}

} // verus!
