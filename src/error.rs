use vstd::prelude::*;

verus! {

/// Every way decoding can fail.
#[derive(Debug, Clone, Copy, PartialEq, Eq, Structural)]
pub enum Error {
    /// The image container does not start with the expected magic; holds what was read.
    InvalidIdentifier(u32),
    /// A bits-per-pixel value with no pixel format.
    InvalidBpp(u8),
    /// A format selector byte outside the table of known depths.
    InvalidBppFormat(u8),
    /// A color entry whose byte size is not 2, 3 or 4.
    InvalidPixelSize(usize),
    /// A header that declares both a palette and more than 8 bits per pixel.
    TrueColorAndPaletteFound,
    /// A palette index with no matching palette entry.
    InvalidPaletteIndex(usize),
    /// A path whose last component is empty.
    NoBasePath,
    /// The archive root is not a directory.
    InvalidNodeKind,
    /// A nested archive entry carries the wrong sequence number: (found, expected).
    InvalidFileNum(usize, usize),
    /// The compressed stream ends inside a match descriptor: (offset, input length).
    InvalidDecodeLength(usize, usize),
    /// A read at this offset runs past the end of the buffer.
    UnexpectedEnd(usize),
    /// A directory refers to a record index that does not exist.
    InvalidRecord(usize),
    /// A directory refers to a child info index that does not exist.
    InvalidInfo(usize),
    /// The name at this name-table offset is not valid UTF-8 or lies outside the table.
    InvalidName(usize),
}

} // verus!
