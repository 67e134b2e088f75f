//! The image container: a magic word, a version and a run of frames.

use vstd::prelude::*;

use crate::bytes::{be32, le16, read_u16, read_u32_be, read_slice};
use crate::error::Error;
use crate::frame::{Frame, frame_end, frame_error, frame_read_from};

verus! {

/// "TIM2", read big-endian.
pub const IDENT: u32 = 0x54494d32;

/// Bytes ahead of the first frame.
pub const FILE_HEADER_SIZE: usize = 16;

/// Where frame `k` of the container at `at` starts.
pub open spec fn frame_offset(b: Seq<u8>, at: int, k: nat) -> int
    decreases k,
{
    if k == 0 {
        at + FILE_HEADER_SIZE
    } else {
        frame_end(b, frame_offset(b, at, (k - 1) as nat))
    }
}

/// The first error among frames `k` up to `count` of the container at `at`.
pub open spec fn frames_error(b: Seq<u8>, at: int, count: nat, k: nat) -> Option<Error>
    decreases count - k,
{
    if k >= count {
        None
    } else if frame_error(b, frame_offset(b, at, k)) is Some {
        frame_error(b, frame_offset(b, at, k))
    } else {
        frames_error(b, at, count, k + 1)
    }
}

/// Why the container at `at` cannot be read, if it cannot.
pub open spec fn image_error(b: Seq<u8>, at: int) -> Option<Error> {
    if at + FILE_HEADER_SIZE > b.len() {
        Some(Error::UnexpectedEnd(at as usize))
    } else if be32(b, at) != IDENT {
        Some(Error::InvalidIdentifier(be32(b, at) as u32))
    } else {
        frames_error(b, at, le16(b, at + 6) as nat, 0)
    }
}

/// An image container: a version and its frames in stored order.
#[derive(Debug)]
pub struct Image {
    pub version: u16,
    pub frames: Vec<Frame>,
}

impl Image {
    /// Every frame is well formed.
    pub open spec fn wf(&self) -> bool {
        forall|k: int| 0 <= k < self.frames@.len() ==> #[trigger] self.frames@[k].wf()
    }

    /// `self` is the container stored at `at`.
    pub open spec fn read_from(&self, b: Seq<u8>, at: int) -> bool {
        &&& self.version == le16(b, at + 4)
        &&& self.frames@.len() == le16(b, at + 6)
        &&& forall|k: int| 0 <= k < self.frames@.len()
            ==> frame_read_from(#[trigger] &self.frames@[k], b, frame_offset(b, at, k as nat))
    }

    /// Reads a container at `*offset`: the 16-byte file header, then as
    /// many frames as it announces.
    pub fn read(buffer: &[u8], offset: &mut usize) -> (r: Result<Image, Error>)
        ensures
            r is Err <==> image_error(buffer@, *old(offset) as int) is Some,
            r matches Err(e) ==> image_error(buffer@, *old(offset) as int) == Some(e),
            r matches Ok(img) ==> img.read_from(buffer@, *old(offset) as int) && img.wf(),
    {
        let ghost at = *offset as int;
        let start = *offset;
        let identifier = read_u32_be(buffer, offset)?;
        let version = match read_u16(buffer, offset) {
            Ok(v) => v,
            Err(_) => return Err(Error::UnexpectedEnd(start)),
        };
        let count = match read_u16(buffer, offset) {
            Ok(v) => v,
            Err(_) => return Err(Error::UnexpectedEnd(start)),
        };
        match read_slice(buffer, offset, 8) {
            Ok(_) => {},
            Err(_) => return Err(Error::UnexpectedEnd(start)),
        }
        if identifier != IDENT {
            return Err(Error::InvalidIdentifier(identifier));
        }
        assert(frame_offset(buffer@, at, 0) == at + FILE_HEADER_SIZE);
        assert(image_error(buffer@, at) == frames_error(buffer@, at, count as nat, 0));
        let mut frames: Vec<Frame> = Vec::with_capacity(count as usize);
        let mut k: u16 = 0;
        while k < count
            invariant
                at == start,
                at == *old(offset),
                count == le16(buffer@, at + 6),
                k <= count,
                frames@.len() == k,
                *offset == frame_offset(buffer@, at, k as nat),
                image_error(buffer@, at) == frames_error(buffer@, at, count as nat, k as nat),
                forall|j: int| 0 <= j < k ==> #[trigger] frames@[j].wf()
                    && frame_read_from(&frames@[j], buffer@, frame_offset(buffer@, at, j as nat)),
            decreases count - k,
        {
            let ghost here = *offset as int;
            let frame = match Frame::read(buffer, offset) {
                Ok(f) => f,
                Err(e) => {
                    assert(frames_error(buffer@, at, count as nat, k as nat) == Some(e));
                    return Err(e);
                },
            };
            assert(frames_error(buffer@, at, count as nat, k as nat)
                == frames_error(buffer@, at, count as nat, (k + 1) as nat));
            assert(frame_offset(buffer@, at, (k + 1) as nat) == frame_end(buffer@, here));
            frames.push(frame);
            k += 1;
        }
        assert(frames_error(buffer@, at, count as nat, count as nat) is None);
        let img = Image { version, frames };
        assert forall|j: int| 0 <= j < img.frames@.len() implies
            frame_read_from(#[trigger] &img.frames@[j], buffer@, frame_offset(buffer@, at, j as nat)) by {
            assert(img.frames@[j].wf());
        }
        Ok(img)
    }

    pub fn version(&self) -> (r: u16)
        ensures
            r == self.version,
    {
        self.version
    }

    pub fn frames(&self) -> (r: &Vec<Frame>)
        ensures
            r == &self.frames,
    {
        &self.frames
    }

    pub fn get_frame(&self, index: usize) -> (r: &Frame)
        requires
            index < self.frames@.len(),
        ensures
            r == &self.frames@[index as int],
    {
        &self.frames[index]
    }
}

/// Reads an image container that starts at the first byte of `buffer`.
pub fn from_buffer(buffer: &[u8]) -> (r: Result<Image, Error>)
    ensures
        r is Err <==> image_error(buffer@, 0) is Some,
        r matches Err(e) ==> image_error(buffer@, 0) == Some(e),
        r matches Ok(img) ==> img.read_from(buffer@, 0) && img.wf(),
{
    let mut offset: usize = 0;
    Image::read(buffer, &mut offset)
}

} // verus!
