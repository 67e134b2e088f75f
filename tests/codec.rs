use unpacker::error::Error;
use unpacker::frame::{DataKind, Frame, Header};
use unpacker::image::{from_buffer, Image};
use unpacker::pixel::{Format, Pixel};

fn le16(v: u16) -> Vec<u8> {
    v.to_le_bytes().to_vec()
}

fn le32(v: u32) -> Vec<u8> {
    v.to_le_bytes().to_vec()
}

struct FrameSpec {
    clut_size: u32,
    image_size: u32,
    header_size: u16,
    clut_color_count: u16,
    clut_format: u8,
    selector: u8,
    width: u16,
    height: u16,
}

fn frame_header(f: &FrameSpec) -> Vec<u8> {
    let mut b = Vec::new();
    b.extend(le32(48 + f.image_size + f.clut_size));
    b.extend(le32(f.clut_size));
    b.extend(le32(f.image_size));
    b.extend(le16(f.header_size));
    b.extend(le16(f.clut_color_count));
    b.push(0); // picture format
    b.push(1); // mipmap count
    b.push(f.clut_format);
    b.push(f.selector);
    b.extend(le16(f.width));
    b.extend(le16(f.height));
    b.extend(vec![0u8; 16]); // gs_tex_0, gs_tex_1
    b.extend(le32(0x11223344)); // gs_regs
    b.extend(le32(0x55667788)); // gs_tex_clut
    b
}

fn container(frames: &[Vec<u8>]) -> Vec<u8> {
    let mut b = b"TIM2".to_vec();
    b.extend(le16(4));
    b.extend(le16(frames.len() as u16));
    b.extend(vec![0u8; 8]);
    for f in frames {
        b.extend(f.iter().copied());
    }
    b
}

fn header_with(width: u16, height: u16, bpp: u8) -> Header {
    Header {
        total_size: 0,
        clut_size: 0,
        image_size: 0,
        header_size: 48,
        clut_color_count: 0,
        picture_format: 0,
        mipmap_count: 1,
        clut_format: 0,
        bpp,
        width,
        height,
        gs_regs: 0,
        gs_tex_clut: 0,
        gs_tex_0: 0,
        gs_tex_1: 0,
        user_data: Vec::new(),
    }
}

/// Reference forward tiling: 16x8 tiles, tiles row by row, cells row by row.
fn swizzle(buf: &[u8], width: usize, height: usize) -> Vec<u8> {
    let mut out = Vec::new();
    for ty in (0..height).step_by(8) {
        for tx in (0..width).step_by(16) {
            for y in ty..ty + 8 {
                for x in tx..tx + 16 {
                    out.push(if x < width && y < height { buf[y * width + x] } else { 0 });
                }
            }
        }
    }
    out
}

fn key_frame_bytes() -> Vec<u8> {
    let spec = FrameSpec {
        clut_size: 8,
        image_size: 2,
        header_size: 48,
        clut_color_count: 2,
        clut_format: 0x83,
        selector: 5,
        width: 2,
        height: 1,
    };
    let mut f = frame_header(&spec);
    f.extend([0u8, 1u8]);
    f.extend([0u8, 255, 0, 255, 10, 20, 30, 200]);
    f
}

#[test]
fn color_key_zeroes_only_matching_alpha() {
    let image = from_buffer(&container(&[key_frame_bytes()])).unwrap();
    let frame = image.get_frame(0);
    let raw = frame.to_raw(Some(Pixel::from(0, 255, 0, 255)));
    assert_eq!(raw, vec![0, 255, 0, 0, 10, 20, 30, 200]);
    assert_eq!(vec![raw[3], raw[7]], vec![0, 200]);
}

#[test]
fn color_key_ignores_alpha_of_key() {
    let image = from_buffer(&container(&[key_frame_bytes()])).unwrap();
    let raw = image.get_frame(0).to_raw(Some(Pixel::from(0, 255, 0, 7)));
    assert_eq!(raw[3], 0);
}

#[test]
fn without_key_alpha_passes_through() {
    let image = from_buffer(&container(&[key_frame_bytes()])).unwrap();
    let raw = image.get_frame(0).to_raw(None);
    assert_eq!(raw, vec![0, 255, 0, 255, 10, 20, 30, 200]);
}

#[test]
fn parsed_header_fields() {
    let image = from_buffer(&container(&[key_frame_bytes()])).unwrap();
    assert_eq!(image.version(), 4);
    assert_eq!(image.frames().len(), 1);
    let h = image.get_frame(0).header();
    assert_eq!(h.total_size(), 58);
    assert_eq!(h.clut_size(), 8);
    assert_eq!(h.image_size(), 2);
    assert_eq!(h.header_size(), 48);
    assert_eq!(h.clut_color_count(), 2);
    assert_eq!(h.bpp(), 8);
    assert_eq!(h.width(), 2);
    assert_eq!(h.height(), 1);
    assert_eq!(h.gs_regs(), 0x11223344);
    assert_eq!(h.gs_tex_clut(), 0x55667788);
    assert_eq!(h.gs_tex_0(), 0);
    assert_eq!(h.gs_tex_1(), 0);
    assert!(h.is_paletted());
    assert!(h.is_linear_palette());
    assert!(!h.has_mipmaps());
    assert_eq!(h.color_size(), 4);
    assert_eq!(h.pixel_format(), Ok(Format::Indexed));
    assert_eq!(h.picture_format(), 0);
    assert_eq!(h.mipmap_count(), 1);
    assert_eq!(h.clut_format(), 0x83);
    assert!(h.user_data().is_empty());
    assert_eq!(image.get_frame(0).data().len(), 2);
}

#[test]
fn user_data_follows_header() {
    let spec = FrameSpec {
        clut_size: 0,
        image_size: 4,
        header_size: 52,
        clut_color_count: 0,
        clut_format: 0,
        selector: 3,
        width: 1,
        height: 1,
    };
    let mut f = frame_header(&spec);
    f.extend([9u8, 8, 7, 6]);
    f.extend([1u8, 2, 3, 4]);
    let image = from_buffer(&container(&[f])).unwrap();
    let frame = image.get_frame(0);
    assert_eq!(frame.header().user_data(), &vec![9u8, 8, 7, 6]);
    assert_eq!(frame.get_pixels(), vec![Pixel::from(1, 2, 3, 4)]);
}

#[test]
fn hardware_palette_is_linearized() {
    let spec = FrameSpec {
        clut_size: 128,
        image_size: 1,
        header_size: 48,
        clut_color_count: 32,
        clut_format: 0x03,
        selector: 5,
        width: 1,
        height: 1,
    };
    let mut f = frame_header(&spec);
    f.push(0);
    for k in 0..32u8 {
        f.extend([k, 0, 0, 255]);
    }
    let image = from_buffer(&container(&[f])).unwrap();
    let order: Vec<u8> = image.get_frame(0).palettes[0].iter().map(|p| p.r()).collect();
    let expected: Vec<u8> = (0..8).chain(16..24).chain(8..16).chain(24..32).collect();
    assert_eq!(order, expected);
}

#[test]
fn linearize_keeps_tail_entries() {
    let mut palette: Vec<Pixel> = (0..40u8).map(|k| Pixel::from(k, 0, 0, 0)).collect();
    Frame::linearize_palette(&mut palette);
    let order: Vec<u8> = palette.iter().map(|p| p.r()).collect();
    let expected: Vec<u8> = (0..8).chain(16..24).chain(8..16).chain(24..40).collect();
    assert_eq!(order, expected);
}

#[test]
fn linear_palette_keeps_order() {
    let spec = FrameSpec {
        clut_size: 128,
        image_size: 1,
        header_size: 48,
        clut_color_count: 32,
        clut_format: 0x83,
        selector: 5,
        width: 1,
        height: 1,
    };
    let mut f = frame_header(&spec);
    f.push(0);
    for k in 0..32u8 {
        f.extend([k, 0, 0, 255]);
    }
    let image = from_buffer(&container(&[f])).unwrap();
    let order: Vec<u8> = image.get_frame(0).palettes[0].iter().map(|p| p.r()).collect();
    assert_eq!(order, (0..32).collect::<Vec<u8>>());
}

#[test]
fn two_palettes_and_first_one_used() {
    let spec = FrameSpec {
        clut_size: 16,
        image_size: 2,
        header_size: 48,
        clut_color_count: 2,
        clut_format: 0x83,
        selector: 5,
        width: 2,
        height: 1,
    };
    let mut f = frame_header(&spec);
    f.extend([1u8, 0]);
    f.extend([1u8, 1, 1, 1, 2, 2, 2, 2, 3, 3, 3, 3, 4, 4, 4, 4]);
    let image = from_buffer(&container(&[f])).unwrap();
    let frame = image.get_frame(0);
    assert_eq!(frame.palettes.len(), 2);
    assert_eq!(frame.get_pixels(), vec![Pixel::from(2, 2, 2, 2), Pixel::from(1, 1, 1, 1)]);
}

#[test]
fn four_bit_indices_high_nibble_first() {
    let spec = FrameSpec {
        clut_size: 64,
        image_size: 1,
        header_size: 48,
        clut_color_count: 16,
        clut_format: 0x83,
        selector: 4,
        width: 2,
        height: 1,
    };
    let mut f = frame_header(&spec);
    f.push(0x3A);
    for k in 0..16u8 {
        f.extend([k, k, k, 255]);
    }
    let image = from_buffer(&container(&[f])).unwrap();
    match image.get_frame(0).data() {
        DataKind::Indices(v) => assert_eq!(v, &vec![3u8, 10u8]),
        DataKind::Pixels(_) => panic!("expected indices"),
    }
}

#[test]
fn swizzle_round_trip_single_tile() {
    let raster: Vec<u8> = (0..128u8).collect();
    let swizzled = swizzle(&raster, 16, 8);
    let header = header_with(16, 8, 8);
    assert_eq!(Frame::unswizzle(&swizzled, &header, 0u8), raster);
}

#[test]
fn swizzle_round_trip_four_tiles() {
    let raster: Vec<u8> = (0..512u32).map(|v| (v % 251) as u8).collect();
    let swizzled = swizzle(&raster, 32, 16);
    assert_ne!(swizzled, raster);
    let header = header_with(32, 16, 8);
    assert_eq!(Frame::unswizzle(&swizzled, &header, 0u8), raster);
}

#[test]
fn unswizzle_partial_tile() {
    let raster: Vec<u8> = (1..=60u8).collect();
    let mut swizzled = swizzle(&raster, 20, 3);
    swizzled.truncate(60);
    let header = header_with(20, 3, 8);
    let out = Frame::unswizzle(&swizzled, &header, 0u8);
    assert_eq!(out.len(), 60);
    assert_eq!(&out[0..16], &raster[0..16]);
    assert_eq!(out[16], 0);
}

#[test]
fn abgr1555_channels_round() {
    assert_eq!(Pixel::from_buf(&[0x80, 0x1F]), Ok(Pixel::from(255, 0, 0, 255)));
    assert_eq!(Pixel::from_buf(&[0x7C, 0x00]), Ok(Pixel::from(0, 0, 255, 0)));
    assert_eq!(Pixel::from_buf(&[0x00, 0x10]), Ok(Pixel::from(132, 0, 0, 0)));
    assert_eq!(Pixel::from_buf(&[0x00, 0x21]), Ok(Pixel::from(8, 8, 0, 0)));
}

#[test]
fn rgb_and_rgba_entries() {
    assert_eq!(Pixel::from_buf(&[1, 2, 3]), Ok(Pixel::from(1, 2, 3, 255)));
    assert_eq!(Pixel::from_buf(&[1, 2, 3, 4]), Ok(Pixel::from(1, 2, 3, 4)));
    assert_eq!(Pixel::new(), Pixel::from(255, 255, 255, 255));
    assert_eq!(Pixel::default(), Pixel::new());
    let p = Pixel::from(5, 6, 7, 8);
    assert_eq!((p.r(), p.g(), p.b(), p.a()), (5, 6, 7, 8));
}

#[test]
fn pixel_size_error() {
    assert_eq!(Pixel::from_buf(&[1, 2, 3, 4, 5]), Err(Error::InvalidPixelSize(5)));
    assert_eq!(Frame::read_colors(&[1, 2, 3], 1), Err(Error::InvalidPixelSize(1)));
    assert_eq!(Frame::read_colors(&[1, 2, 3], 2), Err(Error::UnexpectedEnd(2)));
}

#[test]
fn bad_magic_is_rejected() {
    let mut b = container(&[key_frame_bytes()]);
    b[0] = b'X';
    assert_eq!(from_buffer(&b).unwrap_err(), Error::InvalidIdentifier(0x58494d32));
}

#[test]
fn bad_format_selector_is_rejected() {
    let mut f = key_frame_bytes();
    f[19] = 9;
    assert_eq!(from_buffer(&container(&[f])).unwrap_err(), Error::InvalidBppFormat(9));
    assert_eq!(Header::find_bpp(1), Ok(16));
    assert_eq!(Header::find_bpp(2), Ok(24));
    assert_eq!(Header::find_bpp(3), Ok(32));
    assert_eq!(Header::find_bpp(4), Ok(4));
    assert_eq!(Header::find_bpp(5), Ok(8));
    assert_eq!(Header::find_bpp(0), Err(Error::InvalidBppFormat(0)));
}

#[test]
fn unknown_depth_has_no_format() {
    assert_eq!(header_with(1, 1, 7).pixel_format(), Err(Error::InvalidBpp(7)));
    assert_eq!(header_with(1, 1, 16).pixel_format(), Ok(Format::Abgr1555));
    assert_eq!(header_with(1, 1, 24).pixel_format(), Ok(Format::Rgb888));
    assert_eq!(header_with(1, 1, 32).pixel_format(), Ok(Format::Rgba8888));
    assert_eq!(header_with(1, 1, 4).pixel_format(), Ok(Format::Indexed));
}

#[test]
fn palette_with_true_color_is_rejected() {
    let mut f = key_frame_bytes();
    f[19] = 3;
    assert_eq!(from_buffer(&container(&[f])).unwrap_err(), Error::TrueColorAndPaletteFound);
}

#[test]
fn index_past_palette_is_rejected() {
    let mut f = key_frame_bytes();
    f[49] = 2;
    assert_eq!(from_buffer(&container(&[f])).unwrap_err(), Error::InvalidPaletteIndex(2));
}

#[test]
fn truncated_image_is_rejected() {
    let b = container(&[key_frame_bytes()]);
    assert_eq!(from_buffer(&b[..10]).unwrap_err(), Error::UnexpectedEnd(0));
    assert_eq!(from_buffer(&b[..40]).unwrap_err(), Error::UnexpectedEnd(16));
    assert_eq!(from_buffer(&b[..65]).unwrap_err(), Error::UnexpectedEnd(64));
    assert_eq!(from_buffer(&b[..70]).unwrap_err(), Error::UnexpectedEnd(66));
}

#[test]
fn two_frames_in_order() {
    let b = container(&[key_frame_bytes(), key_frame_bytes()]);
    let image: Image = from_buffer(&b).unwrap();
    assert_eq!(image.frames().len(), 2);
    assert_eq!(image.get_frame(1).get_pixels(), vec![Pixel::from(0, 255, 0, 255), Pixel::from(10, 20, 30, 200)]);
}
