//! One image frame: its header, its pixel data and its palettes.

use vstd::arithmetic::div_mod::{lemma_fundamental_div_mod, lemma_fundamental_div_mod_converse};
use vstd::prelude::*;

use crate::bytes::{le16, le32, le64, read_slice};
use crate::error::Error;
use crate::pixel::{Format, Pixel, is_color_size, pixel_of};

verus! {

/// Fixed part of a frame header, in bytes.
pub const HEADER_SIZE: usize = 48;

pub const SWIZZLE_WIDTH: usize = 16;

pub const SWIZZLE_HEIGHT: usize = 8;

/// Bits per pixel that a format selector byte stands for.
pub open spec fn bpp_of(selector: u8) -> Option<u8> {
    if selector == 1 {
        Some(16u8)
    } else if selector == 2 {
        Some(24u8)
    } else if selector == 3 {
        Some(32u8)
    } else if selector == 4 {
        Some(4u8)
    } else if selector == 5 {
        Some(8u8)
    } else {
        None
    }
}

/// Bytes per color entry of a frame.
pub open spec fn color_size_of(bpp: u8, clut_format: u8) -> u8 {
    if bpp > 8 {
        (bpp / 8) as u8
    } else {
        (clut_format % 8 + 1) as u8
    }
}

/// The pixel format for a bit depth.
pub open spec fn format_of(bpp: u8) -> Result<Format, Error> {
    if bpp == 4 || bpp == 8 {
        Ok(Format::Indexed)
    } else if bpp == 16 {
        Ok(Format::Abgr1555)
    } else if bpp == 24 {
        Ok(Format::Rgb888)
    } else if bpp == 32 {
        Ok(Format::Rgba8888)
    } else {
        Err(Error::InvalidBpp(bpp))
    }
}

/// A frame header.
#[derive(Debug)]
pub struct Header {
    pub total_size: u32,
    pub clut_size: u32,
    pub image_size: u32,
    pub header_size: u16,
    pub clut_color_count: u16,
    pub picture_format: u8,
    pub mipmap_count: u8,
    pub clut_format: u8,
    pub bpp: u8,
    pub width: u16,
    pub height: u16,
    pub gs_regs: u32,
    pub gs_tex_clut: u32,
    pub gs_tex_0: u64,
    pub gs_tex_1: u64,
    pub user_data: Vec<u8>,
}

/// Length of the user data that follows the fixed header part.
pub open spec fn user_data_len(header_size: int) -> int {
    if header_size > HEADER_SIZE {
        header_size - HEADER_SIZE
    } else {
        0
    }
}

/// `h` is the header whose fixed part is `b[at..at + 48]`, followed by its user data.
pub open spec fn header_read_from(h: &Header, b: Seq<u8>, at: int) -> bool {
    &&& h.total_size == le32(b, at)
    &&& h.clut_size == le32(b, at + 4)
    &&& h.image_size == le32(b, at + 8)
    &&& h.header_size == le16(b, at + 12)
    &&& h.clut_color_count == le16(b, at + 14)
    &&& h.picture_format == b[at + 16]
    &&& h.mipmap_count == b[at + 17]
    &&& h.clut_format == b[at + 18]
    &&& bpp_of(b[at + 19]) == Some(h.bpp)
    &&& h.width == le16(b, at + 20)
    &&& h.height == le16(b, at + 22)
    &&& h.gs_tex_0 == le64(b, at + 24)
    &&& h.gs_tex_1 == le64(b, at + 32)
    &&& h.gs_regs == le32(b, at + 40)
    &&& h.gs_tex_clut == le32(b, at + 44)
    &&& h.user_data@ == b.subrange(at + HEADER_SIZE, at + HEADER_SIZE + user_data_len(le16(b, at + 12)))
}

/// Bytes a frame header at `at` occupies.
pub open spec fn header_len(b: Seq<u8>, at: int) -> int {
    HEADER_SIZE + user_data_len(le16(b, at + 12))
}

/// Why the frame header at `at` cannot be read, if it cannot.
pub open spec fn header_error(b: Seq<u8>, at: int) -> Option<Error> {
    if at + HEADER_SIZE > b.len() {
        Some(Error::UnexpectedEnd(at as usize))
    } else if bpp_of(b[at + 19]) is None {
        Some(Error::InvalidBppFormat(b[at + 19]))
    } else if at + header_len(b, at) > b.len() {
        Some(Error::UnexpectedEnd((at + HEADER_SIZE) as usize))
    } else if le32(b, at + 4) > 0 && bpp_of(b[at + 19])->Some_0 > 8 {
        Some(Error::TrueColorAndPaletteFound)
    } else {
        None
    }
}

fn get_u16(s: &[u8], at: usize) -> (v: u16)
    requires
        at + 2 <= s@.len(),
    ensures
        v == le16(s@, at as int),
{
    s[at] as u16 + 256 * (s[at + 1] as u16)
}

fn get_u32(s: &[u8], at: usize) -> (v: u32)
    requires
        at + 4 <= s@.len(),
    ensures
        v == le32(s@, at as int),
{
    let _ = s.len();
    let lo = get_u16(s, at) as u32;
    let hi = get_u16(s, at + 2) as u32;
    lo + 65536 * hi
}

fn get_u64(s: &[u8], at: usize) -> (v: u64)
    requires
        at + 8 <= s@.len(),
    ensures
        v == le64(s@, at as int),
{
    let _ = s.len();
    let lo = get_u32(s, at) as u64;
    let hi = get_u32(s, at + 4) as u64;
    lo + 4294967296 * hi
}

impl Header {
    /// Reads a frame header at `*offset` and moves the offset past it and
    /// its user data.
    pub fn read(buffer: &[u8], offset: &mut usize) -> (r: Result<Header, Error>)
        ensures
            r is Err <==> header_error(buffer@, *old(offset) as int) is Some,
            r matches Err(e) ==> header_error(buffer@, *old(offset) as int) == Some(e),
            r matches Ok(h) ==> header_read_from(&h, buffer@, *old(offset) as int)
                && *final(offset) == *old(offset) + header_len(buffer@, *old(offset) as int),
    {
        let at = *offset;
        let fixed = match read_slice(buffer, offset, HEADER_SIZE) {
            Ok(s) => s,
            Err(e) => return Err(e),
        };
        assert(forall|i: int| 0 <= i < HEADER_SIZE ==> fixed@[i] == buffer@[at + i]);
        let bpp = match Self::find_bpp(fixed[19]) {
            Ok(v) => v,
            Err(e) => {
                *offset = at;
                return Err(e);
            },
        };
        let header_size = get_u16(fixed, 12);
        let extra: usize = if header_size as usize > HEADER_SIZE { header_size as usize - HEADER_SIZE } else { 0 };
        let user = match read_slice(buffer, offset, extra) {
            Ok(s) => s,
            Err(e) => {
                *offset = at;
                return Err(e);
            },
        };
        let mut user_data: Vec<u8> = Vec::new();
        let mut i: usize = 0;
        while i < user.len()
            invariant
                i <= user@.len(),
                user_data@ == user@.subrange(0, i as int),
            decreases user@.len() - i,
        {
            user_data.push(user[i]);
            i += 1;
            assert(user_data@ =~= user@.subrange(0, i as int));
        }
        assert(user@.subrange(0, user@.len() as int) =~= user@);
        let result = Header {
            total_size: get_u32(fixed, 0),
            clut_size: get_u32(fixed, 4),
            image_size: get_u32(fixed, 8),
            header_size,
            clut_color_count: get_u16(fixed, 14),
            picture_format: fixed[16],
            mipmap_count: fixed[17],
            clut_format: fixed[18],
            bpp,
            width: get_u16(fixed, 20),
            height: get_u16(fixed, 22),
            gs_tex_0: get_u64(fixed, 24),
            gs_tex_1: get_u64(fixed, 32),
            gs_regs: get_u32(fixed, 40),
            gs_tex_clut: get_u32(fixed, 44),
            user_data,
        };
        if result.clut_size > 0 && result.bpp > 8 {
            *offset = at;
            Err(Error::TrueColorAndPaletteFound)
        } else {
            Ok(result)
        }
    }

    pub fn has_mipmaps(&self) -> (r: bool)
        ensures
            r == (self.mipmap_count > 1),
    {
        self.mipmap_count > 1
    }

    pub fn is_paletted(&self) -> (r: bool)
        ensures
            r == (self.clut_size > 0),
    {
        self.clut_size > 0
    }

    /// Bit 7 of the palette format: set when the palette is stored in plain order.
    pub fn is_linear_palette(&self) -> (r: bool)
        ensures
            r == (self.clut_format >= 128),
    {
        self.clut_format >= 128
    }

    /// Bytes per color entry: `bpp / 8` for true color, else the low three
    /// bits of the palette format plus one.
    pub fn color_size(&self) -> (r: u8)
        ensures
            r == color_size_of(self.bpp, self.clut_format),
    {
        if self.bpp > 8 {
            self.bpp / 8
        } else {
            self.clut_format % 8 + 1
        }
    }

    pub fn pixel_format(&self) -> (r: Result<Format, Error>)
        ensures
            r == format_of(self.bpp),
    {
        match self.bpp {
            4 => Ok(Format::Indexed),
            8 => Ok(Format::Indexed),
            16 => Ok(Format::Abgr1555),
            24 => Ok(Format::Rgb888),
            32 => Ok(Format::Rgba8888),
            n => Err(Error::InvalidBpp(n)),
        }
    }

    pub fn total_size(&self) -> (r: u32)
        ensures
            r == self.total_size,
    {
        self.total_size
    }

    pub fn clut_size(&self) -> (r: u32)
        ensures
            r == self.clut_size,
    {
        self.clut_size
    }

    pub fn image_size(&self) -> (r: u32)
        ensures
            r == self.image_size,
    {
        self.image_size
    }

    pub fn header_size(&self) -> (r: u16)
        ensures
            r == self.header_size,
    {
        self.header_size
    }

    pub fn clut_color_count(&self) -> (r: u16)
        ensures
            r == self.clut_color_count,
    {
        self.clut_color_count
    }

    pub fn picture_format(&self) -> (r: u8)
        ensures
            r == self.picture_format,
    {
        self.picture_format
    }

    pub fn mipmap_count(&self) -> (r: u8)
        ensures
            r == self.mipmap_count,
    {
        self.mipmap_count
    }

    pub fn clut_format(&self) -> (r: u8)
        ensures
            r == self.clut_format,
    {
        self.clut_format
    }

    pub fn bpp(&self) -> (r: u8)
        ensures
            r == self.bpp,
    {
        self.bpp
    }

    pub fn width(&self) -> (r: u16)
        ensures
            r == self.width,
    {
        self.width
    }

    pub fn height(&self) -> (r: u16)
        ensures
            r == self.height,
    {
        self.height
    }

    pub fn gs_regs(&self) -> (r: u32)
        ensures
            r == self.gs_regs,
    {
        self.gs_regs
    }

    pub fn gs_tex_clut(&self) -> (r: u32)
        ensures
            r == self.gs_tex_clut,
    {
        self.gs_tex_clut
    }

    pub fn gs_tex_0(&self) -> (r: u64)
        ensures
            r == self.gs_tex_0,
    {
        self.gs_tex_0
    }

    pub fn gs_tex_1(&self) -> (r: u64)
        ensures
            r == self.gs_tex_1,
    {
        self.gs_tex_1
    }

    pub fn user_data(&self) -> (r: &Vec<u8>)
        ensures
            r == &self.user_data,
    {
        &self.user_data
    }

    /// Bits per pixel for a format selector byte.
    pub fn find_bpp(v: u8) -> (r: Result<u8, Error>)
        ensures
            bpp_of(v) matches Some(n) ==> r == Ok::<u8, Error>(n),
            bpp_of(v) is None ==> r == Err::<u8, Error>(Error::InvalidBppFormat(v)),
    {
        match v {
            1 => Ok(16),
            2 => Ok(24),
            3 => Ok(32),
            4 => Ok(4),
            5 => Ok(8),
            n => Err(Error::InvalidBppFormat(n)),
        }
    }
}


/// A frame's pixel data: palette indices, or colors.
#[derive(Debug)]
pub enum DataKind {
    Indices(Vec<u8>),
    Pixels(Vec<Pixel>),
}

impl DataKind {
    /// Number of pixels.
    pub fn len(&self) -> (r: usize)
        ensures
            r == match self {
                DataKind::Indices(v) => v@.len(),
                DataKind::Pixels(v) => v@.len(),
            },
    {
        match self {
            DataKind::Indices(v) => v.len(),
            DataKind::Pixels(v) => v.len(),
        }
    }
}

/// Where the value for cell `(x, y)` of a `width`-wide image sits in tiled
/// order: tiles of 16 by 8 cells, tiles row by row, cells of a tile row by
/// row. Tiles on the right and bottom edges keep their full size; the cells
/// that fall outside the image still take their place in the order.
pub open spec fn swizzle_index(x: int, y: int, width: int) -> int {
    let tiles_per_row = (width + 15) / 16;
    ((y / 8) * tiles_per_row + x / 16) * 128 + (y % 8) * 16 + x % 16
}

/// `buf` put back into row-major order: cell `d` of a `width` by `height`
/// image takes the value at its tiled position. Cells beyond the image,
/// and cells whose tiled position lies past the end of `buf`, hold `fill`.
/// The result is as long as `buf`.
pub open spec fn unswizzled<T>(buf: Seq<T>, width: int, height: int, fill: T) -> Seq<T> {
    Seq::new(buf.len(), |d: int|
        if width > 0 && d < width * height && swizzle_index(d % width, d / width, width) < buf.len() {
            buf[swizzle_index(d % width, d / width, width)]
        } else {
            fill
        })
}

/// The cell that tiled position `s` holds, for a `width`-wide image.
pub open spec fn swizzle_target(s: int, width: int) -> int {
    let tiles_per_row = (width + 15) / 16;
    let tile = s / 128;
    let within = s % 128;
    ((tile / tiles_per_row) * 8 + within / 16) * width + (tile % tiles_per_row) * 16 + within % 16
}

/// A row-major `width` by `height` buffer put into tiled order.
pub open spec fn swizzled<T>(buf: Seq<T>, width: int, height: int) -> Seq<T> {
    Seq::new((width * height) as nat, |s: int| buf[swizzle_target(s, width)])
}

proof fn lemma_swizzle_cell(x: int, y: int, width: int, height: int)
    requires
        0 <= x < width,
        0 <= y < height,
        width % 16 == 0,
        height % 8 == 0,
    ensures
        0 <= swizzle_index(x, y, width) < width * height,
        swizzle_target(swizzle_index(x, y, width), width) == y * width + x,
{
    let tiles = (width + 15) / 16;
    assert(tiles * 16 == width) by {
        lemma_fundamental_div_mod(width, 16);
        lemma_fundamental_div_mod_converse(width + 15, 16, width / 16, 15);
    }
    let (by, ry, bx, rx) = (y / 8, y % 8, x / 16, x % 16);
    lemma_fundamental_div_mod(y, 8);
    lemma_fundamental_div_mod(x, 16);
    lemma_fundamental_div_mod(height, 8);
    let tile = by * tiles + bx;
    let within = ry * 16 + rx;
    let s = tile * 128 + within;
    assert(s == swizzle_index(x, y, width));
    assert(0 <= bx < tiles) by (nonlinear_arith)
        requires
            x == 16 * bx + rx,
            0 <= rx < 16,
            0 <= x < width,
            tiles * 16 == width,
    ;
    assert(0 <= by) by (nonlinear_arith)
        requires
            y == 8 * by + ry,
            0 <= ry < 8,
            0 <= y,
    ;
    assert(0 <= tile);
    lemma_fundamental_div_mod_converse(s, 128, tile, within);
    lemma_fundamental_div_mod_converse(tile, tiles, by, bx);
    lemma_fundamental_div_mod_converse(within, 16, ry, rx);
    assert((by * 8 + ry) * width + bx * 16 + rx == y * width + x) by (nonlinear_arith)
        requires
            y == 8 * by + ry,
            x == 16 * bx + rx,
    ;
    assert(s < width * height) by (nonlinear_arith)
        requires
            s == (by * tiles + bx) * 128 + ry * 16 + rx,
            0 <= rx < 16,
            0 <= ry < 8,
            0 <= bx < tiles,
            0 <= by,
            y == 8 * by + ry,
            y < height,
            height == 8 * (height / 8),
            tiles * 16 == width,
    {
        assert(by < height / 8) by (nonlinear_arith)
            requires
                y == 8 * by + ry,
                0 <= ry < 8,
                y < height,
                height == 8 * (height / 8),
        ;
        assert(by + 1 <= height / 8);
        assert((by * tiles + bx) * 128 + ry * 16 + rx <= (by * tiles + tiles - 1) * 128 + 127);
        assert((by + 1) * tiles * 128 <= (height / 8) * tiles * 128);
    }
}

/// Putting a row-major buffer into tiled order and back gives the buffer
/// again, for an image whose sides are whole numbers of tiles.
pub proof fn lemma_unswizzle_inverts_swizzle<T>(buf: Seq<T>, width: int, height: int, fill: T)
    requires
        width > 0,
        height > 0,
        width % 16 == 0,
        height % 8 == 0,
        buf.len() == width * height,
    ensures
        unswizzled(swizzled(buf, width, height), width, height, fill) == buf,
{
    let sw = swizzled(buf, width, height);
    assert(sw.len() == buf.len());
    assert forall|d: int| 0 <= d < buf.len() implies
        #[trigger] unswizzled(sw, width, height, fill)[d] == buf[d] by {
        let x = d % width;
        let y = d / width;
        lemma_fundamental_div_mod(d, width);
        assert(0 <= y < height) by (nonlinear_arith)
            requires
                d == width * y + x,
                0 <= x < width,
                0 <= d < width * height,
        ;
        lemma_swizzle_cell(x, y, width, height);
        assert(y * width + x == d) by (nonlinear_arith)
            requires
                d == width * y + x,
        ;
    }
    assert(unswizzled(sw, width, height, fill) =~= buf);
}

/// Position in a stored palette of entry `i` of the linear palette: each
/// block of 32 entries holds four runs of 8 with the middle two swapped.
pub open spec fn palette_source(i: int) -> int {
    (i / 32) * 32 + ((i % 32) / 16) * 8 + ((i % 16) / 8) * 16 + i % 8
}

proof fn lemma_palette_source_bound(i: int, limit: int)
    requires
        0 <= i < limit,
        limit % 32 == 0,
    ensures
        0 <= palette_source(i) < limit,
{
    assert(i / 32 * 32 + 32 <= limit) by {
        vstd::arithmetic::div_mod::lemma_fundamental_div_mod(i, 32);
        vstd::arithmetic::div_mod::lemma_fundamental_div_mod(limit, 32);
    }
}

/// A palette in hardware order put into linear order. Entries past the
/// last whole block of 32 stay where they are.
pub open spec fn linearized(p: Seq<Pixel>) -> Seq<Pixel> {
    Seq::new(p.len(), |i: int|
        if i < (p.len() / 32) * 32 {
            p[palette_source(i)]
        } else {
            p[i]
        })
}

/// 4-bit data widened to one byte per index: high nibble first, then low.
pub open spec fn nibbles(s: Seq<u8>) -> Seq<u8> {
    Seq::new(2 * s.len(), |i: int|
        if i % 2 == 0 {
            (s[i / 2] / 16) as u8
        } else {
            (s[i / 2] % 16) as u8
        })
}

/// Colors of consecutive `size`-byte entries.
pub open spec fn colors_of(b: Seq<u8>, size: nat) -> Result<Seq<Pixel>, Error> {
    if !is_color_size(size as int) {
        Err(Error::InvalidPixelSize(size as usize))
    } else if b.len() % size != 0 {
        Err(Error::UnexpectedEnd((b.len() - b.len() % size) as usize))
    } else {
        Ok(Seq::new(b.len() / size, |k: int| pixel_of(b.subrange(k * size, k * size + size))))
    }
}

/// One frame: its header, its pixel data in row-major order, and its
/// palettes (none for true-color frames).
#[derive(Debug)]
pub struct Frame {
    pub header: Header,
    pub data: DataKind,
    pub palettes: Vec<Vec<Pixel>>,
}

/// What a frame's pixel data is, as values.
pub enum DataView {
    Indices(Seq<u8>),
    Pixels(Seq<Pixel>),
}

impl DataKind {
    pub open spec fn view(&self) -> DataView {
        match self {
            DataKind::Indices(v) => DataView::Indices(v@),
            DataKind::Pixels(v) => DataView::Pixels(v@),
        }
    }
}

/// Stored pixel bytes, with 4-bit indices widened to a byte each.
pub open spec fn expanded(raw: Seq<u8>, bpp: u8) -> Seq<u8> {
    if bpp == 4 {
        nibbles(raw)
    } else {
        raw
    }
}

/// What the stored pixel bytes `raw` of a frame decode to: palette indices
/// when the frame has a palette, else colors of `bpp / 8` bytes each; in
/// either case unswizzled. Cells no stored value reaches are index 0 or
/// opaque white.
pub open spec fn data_of(raw: Seq<u8>, bpp: u8, width: int, height: int, paletted: bool) -> Result<DataView, Error> {
    let e = expanded(raw, bpp);
    if paletted {
        Ok(DataView::Indices(unswizzled(e, width, height, 0u8)))
    } else {
        match colors_of(e, (bpp / 8) as nat) {
            Ok(c) => Ok(DataView::Pixels(unswizzled(c, width, height, Pixel { r: 255, g: 255, b: 255, a: 255 }))),
            Err(x) => Err(x),
        }
    }
}

/// One palette of `clut`'s equal slices: its colors, put in linear order
/// when the frame is 8-bit and its palette is stored in hardware order.
pub open spec fn palette_of(slice: Seq<u8>, size: nat, bpp: u8, clut_format: u8) -> Seq<Pixel> {
    let c = colors_of(slice, size)->Ok_0;
    if clut_format < 128 && bpp == 8 {
        linearized(c)
    } else {
        c
    }
}

/// The palettes that the palette bytes `clut` hold: as many as whole
/// slices of `color_count` entries fit.
pub open spec fn palettes_of(clut: Seq<u8>, bpp: u8, clut_format: u8, color_count: int) -> Result<Seq<Seq<Pixel>>, Error> {
    let cs = color_size_of(bpp, clut_format) as nat;
    let size = color_count * cs;
    let count: int = if size == 0 { 0 } else { clut.len() as int / size };
    if count == 0 {
        Ok(Seq::empty())
    } else if !is_color_size(cs as int) {
        Err(Error::InvalidPixelSize(cs as usize))
    } else {
        Ok(Seq::new(count as nat, |i: int| palette_of(clut.subrange(i * size, i * size + size), cs, bpp, clut_format)))
    }
}

/// The first index in `v` that a palette of `len` entries does not have.
pub open spec fn index_error(v: Seq<u8>, len: int) -> Option<Error>
    decreases v.len(),
{
    if v.len() == 0 {
        None
    } else if v[0] >= len {
        Some(Error::InvalidPaletteIndex(v[0] as usize))
    } else {
        index_error(v.drop_first(), len)
    }
}

/// Entries in the first palette, or 0 where there is none.
pub open spec fn first_palette_len(palettes: Seq<Seq<Pixel>>) -> int {
    if palettes.len() > 0 {
        palettes[0].len() as int
    } else {
        0
    }
}

pub open spec fn palettes_view(p: &Vec<Vec<Pixel>>) -> Seq<Seq<Pixel>> {
    p@.map_values(|v: Vec<Pixel>| v@)
}

/// Where the pixel data of the frame at `at` starts.
pub open spec fn data_start(b: Seq<u8>, at: int) -> int {
    at + header_len(b, at)
}

/// Where the palette bytes of the frame at `at` start.
pub open spec fn clut_start(b: Seq<u8>, at: int) -> int {
    data_start(b, at) + le32(b, at + 8)
}

/// Where the frame at `at` ends.
pub open spec fn frame_end(b: Seq<u8>, at: int) -> int {
    clut_start(b, at) + le32(b, at + 4)
}

pub open spec fn frame_data(b: Seq<u8>, at: int) -> Result<DataView, Error> {
    data_of(b.subrange(data_start(b, at), clut_start(b, at)), bpp_of(b[at + 19])->Some_0,
        le16(b, at + 20), le16(b, at + 22), le32(b, at + 4) > 0)
}

pub open spec fn frame_palettes(b: Seq<u8>, at: int) -> Result<Seq<Seq<Pixel>>, Error> {
    palettes_of(b.subrange(clut_start(b, at), frame_end(b, at)), bpp_of(b[at + 19])->Some_0,
        b[at + 18], le16(b, at + 14))
}

/// Why the frame at `at` cannot be read, if it cannot; the checks go in the
/// order of the frame's parts.
#[verifier::opaque]
pub open spec fn frame_error(b: Seq<u8>, at: int) -> Option<Error> {
    if header_error(b, at) is Some {
        header_error(b, at)
    } else if clut_start(b, at) > b.len() {
        Some(Error::UnexpectedEnd(data_start(b, at) as usize))
    } else if frame_data(b, at) is Err {
        Some(frame_data(b, at)->Err_0)
    } else if frame_end(b, at) > b.len() {
        Some(Error::UnexpectedEnd(clut_start(b, at) as usize))
    } else if frame_palettes(b, at) is Err {
        Some(frame_palettes(b, at)->Err_0)
    } else if frame_data(b, at)->Ok_0 is Indices {
        index_error(frame_data(b, at)->Ok_0->Indices_0, first_palette_len(frame_palettes(b, at)->Ok_0))
    } else {
        None
    }
}

/// The colors a frame shows, in row-major order: palette indices are
/// looked up in the first palette only.
pub open spec fn pixels_of(data: DataView, palettes: Seq<Seq<Pixel>>) -> Seq<Pixel> {
    match data {
        DataView::Indices(v) => Seq::new(v.len(), |k: int| palettes[0][v[k] as int]),
        DataView::Pixels(c) => c,
    }
}

/// The alpha a pixel gets: zero where its red, green and blue match the key.
pub open spec fn keyed_alpha(p: Pixel, key: Option<Pixel>) -> u8 {
    match key {
        Some(k) => if k.r == p.r && k.g == p.g && k.b == p.b {
            0
        } else {
            p.a
        },
        None => p.a,
    }
}

/// Colors packed as RGBA bytes, four per pixel, with keyed alpha.
pub open spec fn rgba_of(px: Seq<Pixel>, key: Option<Pixel>) -> Seq<u8> {
    Seq::new(4 * px.len(), |i: int|
        if i % 4 == 0 {
            px[i / 4].r
        } else if i % 4 == 1 {
            px[i / 4].g
        } else if i % 4 == 2 {
            px[i / 4].b
        } else {
            keyed_alpha(px[i / 4], key)
        })
}

/// What the pixel data at `at` decodes to, for a frame with header `h`.
pub open spec fn data_at(b: Seq<u8>, at: int, h: &Header) -> Result<DataView, Error> {
    data_of(b.subrange(at, at + h.image_size), h.bpp, h.width as int, h.height as int, h.clut_size > 0)
}

/// The palettes at `at`, for a frame with header `h`.
pub open spec fn palettes_at(b: Seq<u8>, at: int, h: &Header) -> Result<Seq<Seq<Pixel>>, Error> {
    palettes_of(b.subrange(at, at + h.clut_size), h.bpp, h.clut_format, h.clut_color_count as int)
}

/// `f` is the frame stored at `at`.
#[verifier::opaque]
pub open spec fn frame_read_from(f: &Frame, b: Seq<u8>, at: int) -> bool {
    &&& header_read_from(&f.header, b, at)
    &&& f.data.view() == frame_data(b, at)->Ok_0
    &&& palettes_view(&f.palettes) == frame_palettes(b, at)->Ok_0
}

impl Frame {
    /// Every palette index has an entry in the first palette.
    pub open spec fn wf(&self) -> bool {
        self.data is Indices ==> forall|k: int| 0 <= k < self.data->Indices_0@.len()
            ==> self.palettes@.len() > 0 && #[trigger] self.data->Indices_0@[k] < self.palettes@[0]@.len()
    }

    /// Decodes consecutive color entries of `color_size` bytes each.
    pub fn read_colors(buffer: &[u8], color_size: usize) -> (r: Result<Vec<Pixel>, Error>)
        ensures
            r is Ok <==> colors_of(buffer@, color_size as nat) is Ok,
            r matches Ok(v) ==> colors_of(buffer@, color_size as nat) == Ok::<Seq<Pixel>, Error>(v@),
            r matches Err(e) ==> colors_of(buffer@, color_size as nat) == Err::<Seq<Pixel>, Error>(e),
    {
        if color_size < 2 || color_size > 4 {
            return Err(Error::InvalidPixelSize(color_size));
        }
        let n = buffer.len();
        if n % color_size != 0 {
            assert(n % color_size <= n) by (nonlinear_arith)
                requires
                    color_size > 0,
            ;
            return Err(Error::UnexpectedEnd(n - n % color_size));
        }
        let count = n / color_size;
        let mut result: Vec<Pixel> = Vec::with_capacity(count);
        let mut k: usize = 0;
        let mut offset: usize = 0;
        while k < count
            invariant
                2 <= color_size <= 4,
                n == buffer@.len(),
                count == n / color_size,
                n % color_size == 0,
                k <= count,
                offset == k * color_size,
                result@.len() == k,
                forall|j: int| 0 <= j < k ==> result@[j]
                    == pixel_of(buffer@.subrange(j * color_size, j * color_size + color_size)),
            decreases count - k,
        {
            assert(offset + color_size <= n) by (nonlinear_arith)
                requires
                    offset == k * color_size,
                    k < count,
                    count == n / color_size,
                    n % color_size == 0,
                    color_size > 0,
            {
                assert(n == count * color_size + n % color_size);
            }
            let p = match Pixel::from_buf(&buffer[offset..offset + color_size]) {
                Ok(p) => p,
                Err(e) => return Err(e),
            };
            result.push(p);
            k += 1;
            offset += color_size;
            assert(offset == k * color_size) by (nonlinear_arith)
                requires
                    offset == (k - 1) * color_size + color_size,
            ;
        }
        assert(result@ =~= Seq::new(count as nat, |j: int|
            pixel_of(buffer@.subrange(j * color_size, j * color_size + color_size))));
        Ok(result)
    }

    /// Reorders a palette stored in hardware order into linear order.
    pub fn linearize_palette(palette: &mut Vec<Pixel>)
        ensures
            final(palette)@ == linearized(old(palette)@),
    {
        let n = palette.len();
        let mut stored: Vec<Pixel> = Vec::with_capacity(n);
        let mut j: usize = 0;
        while j < n
            invariant
                n == palette@.len(),
                j <= n,
                stored@ == palette@.subrange(0, j as int),
            decreases n - j,
        {
            stored.push(palette[j]);
            j += 1;
            assert(stored@ =~= palette@.subrange(0, j as int));
        }
        assert(stored@ =~= palette@);
        let limit = n / 32 * 32;
        let mut i: usize = 0;
        while i < limit
            invariant
                n == palette@.len(),
                stored@.len() == n,
                limit == n / 32 * 32,
                i <= limit,
                forall|k: int| 0 <= k < i ==> palette@[k] == stored@[palette_source(k)],
                forall|k: int| i <= k < n ==> palette@[k] == stored@[k],
            decreases limit - i,
        {
            let src = i / 32 * 32 + i % 32 / 16 * 8 + i % 16 / 8 * 16 + i % 8;
            proof {
                lemma_palette_source_bound(i as int, limit as int);
            }
            palette.set(i, stored[src]);
            i += 1;
        }
        assert(palette@ =~= linearized(stored@));
    }

    /// Puts tiled data back into row-major order for the header's width and
    /// height; `fill` is the value of cells that no tiled value reaches.
    pub fn unswizzle<T: Copy>(buffer: &Vec<T>, header: &Header, fill: T) -> (r: Vec<T>)
        ensures
            r@ == unswizzled(buffer@, header.width as int, header.height as int, fill),
    {
        let width = header.width as u64;
        let height = header.height as u64;
        let n = buffer.len();
        let mut result: Vec<T> = Vec::with_capacity(n);
        let mut d: usize = 0;
        while d < n
            invariant
                n == buffer@.len(),
                width == header.width,
                height == header.height,
                d <= n,
                result@ == unswizzled(buffer@, width as int, height as int, fill).subrange(0, d as int),
            decreases n - d,
        {
            let mut value = fill;
            assert(width * height <= 65535 * 65535) by (nonlinear_arith)
                requires
                    width <= 65535,
                    height <= 65535,
            ;
            if width > 0 && (d as u64) < width * height {
                let x = d as u64 % width;
                let y = d as u64 / width;
                assert(y < height) by (nonlinear_arith)
                    requires
                        y as int == (d as int) / (width as int),
                        (d as int) < width * height,
                        width > 0,
                ;
                let tiles = (width + 15) / 16;
                assert((y / 8) * tiles <= 8192 * 4096) by (nonlinear_arith)
                    requires
                        y < 65536,
                        tiles <= 4096,
                ;
                let src = ((y / 8) * tiles + x / 16) * 128 + (y % 8) * 16 + x % 16;
                assert(src == swizzle_index(x as int, y as int, width as int));
                if src < n as u64 {
                    value = buffer[src as usize];
                }
            }
            result.push(value);
            d += 1;
            assert(result@ =~= unswizzled(buffer@, width as int, height as int, fill).subrange(0, d as int));
        }
        assert(result@ =~= unswizzled(buffer@, width as int, height as int, fill));
        result
    }
}


/// 4-bit indices widened to a byte each, high nibble first.
fn expand_nibbles(s: &[u8]) -> (r: Vec<u8>)
    ensures
        r@ == nibbles(s@),
{
    let mut r: Vec<u8> = Vec::new();
    let mut i: usize = 0;
    while i < s.len()
        invariant
            i <= s@.len(),
            r@ == nibbles(s@.subrange(0, i as int)),
        decreases s@.len() - i,
    {
        let v = s[i];
        r.push(v / 16);
        r.push(v % 16);
        i += 1;
        assert(r@ =~= nibbles(s@.subrange(0, i as int)));
    }
    assert(s@.subrange(0, s@.len() as int) =~= s@);
    r
}

/// Checks that every index has an entry in the first palette.
fn check_indices(v: &Vec<u8>, palettes: &Vec<Vec<Pixel>>) -> (r: Result<(), Error>)
    ensures
        r is Err <==> index_error(v@, first_palette_len(palettes_view(palettes))) is Some,
        r matches Err(e) ==> index_error(v@, first_palette_len(palettes_view(palettes))) == Some(e),
        r is Ok ==> forall|k: int| 0 <= k < v@.len() ==> palettes@.len() > 0 && v@[k] < palettes@[0]@.len(),
{
    let ghost len = first_palette_len(palettes_view(palettes));
    let limit = if palettes.len() > 0 { palettes[0].len() } else { 0 };
    assert(limit == len);
    let mut k: usize = 0;
    assert(v@.subrange(0, v@.len() as int) =~= v@);
    while k < v.len()
        invariant
            k <= v@.len(),
            limit == len,
            len == first_palette_len(palettes_view(palettes)),
            index_error(v@, len) == index_error(v@.subrange(k as int, v@.len() as int), len),
            forall|j: int| 0 <= j < k ==> palettes@.len() > 0 && v@[j] < palettes@[0]@.len(),
        decreases v@.len() - k,
    {
        assert(v@.subrange(k as int, v@.len() as int).drop_first() =~= v@.subrange(k + 1, v@.len() as int));
        if v[k] as usize >= limit {
            return Err(Error::InvalidPaletteIndex(v[k] as usize));
        }
        k += 1;
    }
    Ok(())
}

/// The palette entry of each index.
fn look_up(indices: &Vec<u8>, palette: &Vec<Pixel>) -> (r: Vec<Pixel>)
    requires
        forall|k: int| 0 <= k < indices@.len() ==> indices@[k] < palette@.len(),
    ensures
        r@ == Seq::new(indices@.len(), |k: int| palette@[indices@[k] as int]),
{
    let mut result: Vec<Pixel> = Vec::with_capacity(indices.len());
    let mut k: usize = 0;
    while k < indices.len()
        invariant
            k <= indices@.len(),
            forall|j: int| 0 <= j < indices@.len() ==> indices@[j] < palette@.len(),
            result@ =~= Seq::new(k as nat, |j: int| palette@[indices@[j] as int]),
        decreases indices@.len() - k,
    {
        result.push(palette[indices[k] as usize]);
        k += 1;
    }
    result
}

impl Frame {
    /// Reads a frame's pixel data: `image_size` bytes at `*offset`.
    pub fn read_data(buffer: &[u8], offset: &mut usize, header: &Header) -> (r: Result<DataKind, Error>)
        ensures
            *old(offset) + header.image_size > buffer@.len()
                ==> r == Err::<DataKind, Error>(Error::UnexpectedEnd(*old(offset))),
            *old(offset) + header.image_size <= buffer@.len() ==> *final(offset) == *old(offset) + header.image_size,
            r is Ok <==> *old(offset) + header.image_size <= buffer@.len()
                && data_at(buffer@, *old(offset) as int, header) is Ok,
            r matches Ok(d) ==> data_at(buffer@, *old(offset) as int, header) == Ok::<DataView, Error>(d.view()),
            r matches Err(e) ==> *old(offset) + header.image_size <= buffer@.len()
                ==> data_at(buffer@, *old(offset) as int, header) == Err::<DataView, Error>(e),
    {
        let size = header.image_size as usize;
        let slice = read_slice(buffer, offset, size)?;
        let data: Vec<u8> = if header.bpp == 4 {
            expand_nibbles(slice)
        } else {
            vstd::slice::slice_to_vec(slice)
        };
        if header.clut_size > 0 {
            Ok(DataKind::Indices(Self::unswizzle(&data, header, 0u8)))
        } else {
            let colors = Self::read_colors(data.as_slice(), (header.bpp / 8) as usize)?;
            Ok(DataKind::Pixels(Self::unswizzle(&colors, header, Pixel::new())))
        }
    }

    /// Reads a frame's palettes: `clut_size` bytes at `*offset`, cut into
    /// palettes of `clut_color_count` entries.
    pub fn read_palettes(buffer: &[u8], offset: &mut usize, header: &Header) -> (r: Result<Vec<Vec<Pixel>>, Error>)
        ensures
            *old(offset) + header.clut_size > buffer@.len()
                ==> r == Err::<Vec<Vec<Pixel>>, Error>(Error::UnexpectedEnd(*old(offset))),
            *old(offset) + header.clut_size <= buffer@.len() ==> *final(offset) == *old(offset) + header.clut_size,
            r is Ok <==> *old(offset) + header.clut_size <= buffer@.len()
                && palettes_at(buffer@, *old(offset) as int, header) is Ok,
            r matches Ok(p) ==> palettes_at(buffer@, *old(offset) as int, header)
                == Ok::<Seq<Seq<Pixel>>, Error>(palettes_view(&p)),
            r matches Err(e) ==> *old(offset) + header.clut_size <= buffer@.len()
                ==> palettes_at(buffer@, *old(offset) as int, header) == Err::<Seq<Seq<Pixel>>, Error>(e),
    {
        let total = header.clut_size as usize;
        let slice = read_slice(buffer, offset, total)?;
        let cs = header.color_size() as usize;
        assert(header.clut_color_count as usize * cs <= 65535 * 31) by (nonlinear_arith)
            requires
                header.clut_color_count <= 65535,
                cs <= 31,
        ;
        let size = header.clut_color_count as usize * cs;
        let count = if size == 0 { 0 } else { total / size };
        let mut result: Vec<Vec<Pixel>> = Vec::with_capacity(count);
        if count == 0 {
            assert(palettes_view(&result) =~= Seq::<Seq<Pixel>>::empty());
            return Ok(result);
        }
        if cs < 2 || cs > 4 {
            return Err(Error::InvalidPixelSize(cs));
        }
        let linear = header.is_linear_palette();
        let ghost expected = palettes_at(buffer@, *old(offset) as int, header)->Ok_0;
        let mut i: usize = 0;
        while i < count
            invariant
                2 <= cs <= 4,
                cs == color_size_of(header.bpp, header.clut_format),
                size == header.clut_color_count * cs,
                size > 0,
                count == total / size,
                total == slice@.len(),
                linear == (header.clut_format >= 128),
                i <= count,
                expected.len() == count,
                forall|j: int| 0 <= j < count ==> expected[j]
                    == palette_of(slice@.subrange(j * size, j * size + size), cs as nat, header.bpp, header.clut_format),
                palettes_view(&result) == expected.subrange(0, i as int),
            decreases count - i,
        {
            assert(i * size + size <= total) by (nonlinear_arith)
                requires
                    i < count,
                    count == total / size,
                    size > 0,
            {
                assert(total >= count * size);
            }
            let start = i * size;
            assert(size % cs == 0) by (nonlinear_arith)
                requires
                    size == header.clut_color_count * cs,
                    cs > 0,
            {
                vstd::arithmetic::div_mod::lemma_mod_multiples_basic(header.clut_color_count as int, cs as int);
            }
            let mut palette = match Self::read_colors(&slice[start..start + size], cs) {
                Ok(p) => p,
                Err(e) => return Err(e),
            };
            assert(palette@ == colors_of(slice@.subrange(i * size, i * size + size), cs as nat)->Ok_0);
            if !linear && header.bpp == 8 {
                Self::linearize_palette(&mut palette);
            }
            assert(palette@ == expected[i as int]);
            let ghost before = palettes_view(&result);
            result.push(palette);
            assert(palettes_view(&result) =~= before.push(palette@));
            i += 1;
            assert(palettes_view(&result) =~= expected.subrange(0, i as int));
        }
        assert(expected.subrange(0, count as int) =~= expected);
        Ok(result)
    }

    /// Reads one frame at `*offset`: its header, pixel data and palettes.
    pub fn read(buffer: &[u8], offset: &mut usize) -> (r: Result<Frame, Error>)
        ensures
            r is Err <==> frame_error(buffer@, *old(offset) as int) is Some,
            r matches Err(e) ==> frame_error(buffer@, *old(offset) as int) == Some(e),
            r matches Ok(f) ==> frame_read_from(&f, buffer@, *old(offset) as int) && f.wf()
                && *final(offset) == frame_end(buffer@, *old(offset) as int),
    {
        reveal(frame_error);
        reveal(frame_read_from);
        let header = Header::read(buffer, offset)?;
        let data = Self::read_data(buffer, offset, &header)?;
        let palettes = Self::read_palettes(buffer, offset, &header)?;
        if let DataKind::Indices(v) = &data {
            check_indices(v, &palettes)?;
        }
        Ok(Frame { header, data, palettes })
    }

    pub fn header(&self) -> (r: &Header)
        ensures
            r == &self.header,
    {
        &self.header
    }

    pub fn data(&self) -> (r: &DataKind)
        ensures
            r == &self.data,
    {
        &self.data
    }

    /// The frame's colors in row-major order.
    pub fn get_pixels(&self) -> (r: Vec<Pixel>)
        requires
            self.wf(),
        ensures
            r@ == pixels_of(self.data.view(), palettes_view(&self.palettes)),
    {
        match &self.data {
            DataKind::Indices(v) => {
                assert forall|j: int| 0 <= j < v@.len() implies self.palettes@.len() > 0
                    && v@[j] < self.palettes@[0]@.len() by {
                    assert(self.data->Indices_0@ == v@);
                    assert(self.data->Indices_0@[j] < self.palettes@[0]@.len());
                }
                if v.len() == 0 {
                    let empty: Vec<Pixel> = Vec::new();
                    assert(empty@ =~= pixels_of(self.data.view(), palettes_view(&self.palettes)));
                    return empty;
                }
                assert(self.data->Indices_0@ == v@);
                assert(self.data->Indices_0@[0] < self.palettes@[0]@.len());
                let palette = &self.palettes[0];
                assert(forall|j: int| 0 <= j < v@.len() ==> v@[j] < palette@.len());
                let r = look_up(v, palette);
                assert(r@ =~= pixels_of(self.data.view(), palettes_view(&self.palettes)));
                r
            },
            DataKind::Pixels(v) => vstd::slice::slice_to_vec(v.as_slice()),
        }
    }

    /// The frame as RGBA bytes, row-major, four per pixel. With a key, every
    /// pixel whose red, green and blue match the key's gets alpha 0.
    pub fn to_raw(&self, color_key: Option<Pixel>) -> (r: Vec<u8>)
        requires
            self.wf(),
        ensures
            r@ == rgba_of(pixels_of(self.data.view(), palettes_view(&self.palettes)), color_key),
    {
        let pixels = self.get_pixels();
        let mut result: Vec<u8> = Vec::with_capacity(pixels.len());
        let mut k: usize = 0;
        while k < pixels.len()
            invariant
                k <= pixels@.len(),
                result@ == rgba_of(pixels@.subrange(0, k as int), color_key),
            decreases pixels@.len() - k,
        {
            let pixel = pixels[k];
            let alpha = match color_key {
                Some(key) => if key.r == pixel.r && key.g == pixel.g && key.b == pixel.b {
                    0
                } else {
                    pixel.a
                },
                None => pixel.a,
            };
            result.push(pixel.r);
            result.push(pixel.g);
            result.push(pixel.b);
            result.push(alpha);
            k += 1;
            assert(result@ =~= rgba_of(pixels@.subrange(0, k as int), color_key));
        }
        assert(pixels@.subrange(0, pixels@.len() as int) =~= pixels@);
        result
    }
}

} // verus!
