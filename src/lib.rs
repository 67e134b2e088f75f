//! Decoding of a console game's packed asset archives: the archive index,
//! the LZ-style entry compression, the paletted/swizzled image container,
//! and the per-entry extraction decisions.

pub mod error;
pub mod bytes;
pub mod lzss;
pub mod pixel;
pub mod frame;
pub mod image;
pub mod metadata;
pub mod paths;
pub mod unpack;
