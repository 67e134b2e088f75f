use vstd::prelude::*;

use crate::error::Error;

verus! {

/// Little-endian value of the two bytes at `at`.
pub open spec fn le16(b: Seq<u8>, at: int) -> int {
    b[at] + 256 * b[at + 1]
}

/// Little-endian value of the four bytes at `at`.
pub open spec fn le32(b: Seq<u8>, at: int) -> int {
    le16(b, at) + 65536 * le16(b, at + 2)
}

/// Little-endian value of the eight bytes at `at`.
pub open spec fn le64(b: Seq<u8>, at: int) -> int {
    le32(b, at) + 4294967296 * le32(b, at + 4)
}

/// Big-endian value of the four bytes at `at`.
pub open spec fn be32(b: Seq<u8>, at: int) -> int {
    16777216 * b[at] + 65536 * b[at + 1] + 256 * b[at + 2] + b[at + 3]
}

/// Takes `length` bytes at `*offset` and moves the offset past them.
/// Fails, leaving the offset where it was, when they run past the end.
pub fn read_slice<'a>(buffer: &'a [u8], offset: &mut usize, length: usize) -> (r: Result<&'a [u8], Error>)
    ensures
        *old(offset) + length <= buffer@.len() <==> r is Ok,
        r matches Ok(s) ==> s@ == buffer@.subrange(*old(offset) as int, *old(offset) + length)
            && *final(offset) == *old(offset) + length,
        r matches Err(e) ==> e == Error::UnexpectedEnd(*old(offset)) && *final(offset) == *old(offset),
{
    if length > buffer.len() || *offset > buffer.len() - length {
        return Err(Error::UnexpectedEnd(*offset));
    }
    let start = *offset;
    *offset = start + length;
    Ok(&buffer[start..start + length])
}


/// Reads a little-endian `u16` at `*offset`.
pub fn read_u16(buffer: &[u8], offset: &mut usize) -> (r: Result<u16, Error>)
    ensures
        *old(offset) + 2 <= buffer@.len() <==> r is Ok,
        r matches Ok(v) ==> v == le16(buffer@, *old(offset) as int) && *final(offset) == *old(offset) + 2,
        r matches Err(e) ==> e == Error::UnexpectedEnd(*old(offset)) && *final(offset) == *old(offset),
{
    let s = read_slice(buffer, offset, 2)?;
    Ok(s[0] as u16 + 256 * (s[1] as u16))
}

/// Reads a little-endian `u32` at `*offset`.
pub fn read_u32(buffer: &[u8], offset: &mut usize) -> (r: Result<u32, Error>)
    ensures
        *old(offset) + 4 <= buffer@.len() <==> r is Ok,
        r matches Ok(v) ==> v == le32(buffer@, *old(offset) as int) && *final(offset) == *old(offset) + 4,
        r matches Err(e) ==> e == Error::UnexpectedEnd(*old(offset)) && *final(offset) == *old(offset),
{
    let s = read_slice(buffer, offset, 4)?;
    let lo = s[0] as u32 + 256 * (s[1] as u32);
    let hi = s[2] as u32 + 256 * (s[3] as u32);
    Ok(lo + 65536 * hi)
}

/// Reads a little-endian `u64` at `*offset`.
pub fn read_u64(buffer: &[u8], offset: &mut usize) -> (r: Result<u64, Error>)
    ensures
        *old(offset) + 8 <= buffer@.len() <==> r is Ok,
        r matches Ok(v) ==> v == le64(buffer@, *old(offset) as int) && *final(offset) == *old(offset) + 8,
        r matches Err(e) ==> e == Error::UnexpectedEnd(*old(offset)) && *final(offset) == *old(offset),
{
    let start = *offset;
    let lo = read_u32(buffer, offset)?;
    let hi = match read_u32(buffer, offset) {
        Ok(v) => v,
        Err(_) => {
            *offset = start;
            return Err(Error::UnexpectedEnd(start));
        },
    };
    Ok(lo as u64 + 4294967296 * (hi as u64))
}

/// Reads a big-endian `u32` at `*offset`.
pub fn read_u32_be(buffer: &[u8], offset: &mut usize) -> (r: Result<u32, Error>)
    ensures
        *old(offset) + 4 <= buffer@.len() <==> r is Ok,
        r matches Ok(v) ==> v == be32(buffer@, *old(offset) as int) && *final(offset) == *old(offset) + 4,
        r matches Err(e) ==> e == Error::UnexpectedEnd(*old(offset)) && *final(offset) == *old(offset),
{
    let s = read_slice(buffer, offset, 4)?;
    Ok(16777216 * (s[0] as u32) + 65536 * (s[1] as u32) + 256 * (s[2] as u32) + s[3] as u32)
}

/// Copies a slice into a fixed-size array of the same length.
pub fn clone_into_array<const N: usize>(slice: &[u8]) -> (r: [u8; N])
    requires
        slice@.len() == N,
    ensures
        r@ == slice@,
{
    let mut a = [0u8; N];
    let mut i: usize = 0;
    while i < N
        invariant
            slice@.len() == N,
            a@.len() == N,
            i <= N,
            forall|k: int| 0 <= k < i ==> a@[k] == slice@[k],
        decreases N - i,
    {
        a[i] = slice[i];
        i += 1;
    }
    assert(a@ =~= slice@);
    a
}


/// A byte that displays as itself: printable ASCII.
pub open spec fn is_printable(b: u8) -> bool {
    32 <= b < 127
}

/// Printable bytes stay; every other byte becomes a space.
pub open spec fn sanitized(s: Seq<u8>) -> Seq<u8> {
    s.map_values(|b: u8| if is_printable(b) { b } else { 32u8 })
}

/// ASCII whitespace as `str::trim` sees it: tab, line feed, vertical tab,
/// form feed, carriage return and space.
pub open spec fn is_space(b: u8) -> bool {
    (9 <= b <= 13) || b == 32
}

/// The bytes with leading whitespace removed.
pub open spec fn trim_start(s: Seq<u8>) -> Seq<u8>
    decreases s.len(),
{
    if s.len() > 0 && is_space(s[0]) {
        trim_start(s.drop_first())
    } else {
        s
    }
}

/// The bytes with trailing whitespace removed.
pub open spec fn trim_end(s: Seq<u8>) -> Seq<u8>
    decreases s.len(),
{
    if s.len() > 0 && is_space(s.last()) {
        trim_end(s.drop_last())
    } else {
        s
    }
}

/// The bytes with whitespace removed at both ends.
pub open spec fn trimmed(s: Seq<u8>) -> Seq<u8> {
    trim_end(trim_start(s))
}

pub open spec fn is_ascii(s: Seq<u8>) -> bool {
    forall|i: int| 0 <= i < s.len() ==> s[i] < 128
}

/// The characters that ASCII bytes encode, one for each byte.
pub open spec fn ascii_chars(s: Seq<u8>) -> Seq<char> {
    s.map_values(|b: u8| b as char)
}

/// What UTF-8 decoding makes of the bytes, or `None` where they are not UTF-8.
pub uninterp spec fn utf8_text(s: Seq<u8>) -> Option<Seq<char>>;

/// The characters of an optional string.
pub open spec fn text_of(r: Option<String>) -> Option<Seq<char>> {
    match r {
        Some(t) => Some(t@),
        None => None,
    }
}

/// Relies on `String::from_utf8`: it accepts exactly the valid UTF-8 byte
/// strings, and ASCII bytes are valid UTF-8 with one character per byte.
#[verifier::external_body]
pub(crate) fn string_from_utf8(bytes: Vec<u8>) -> (r: Option<String>)
    ensures
        text_of(r) == utf8_text(bytes@),
        is_ascii(bytes@) ==> text_of(r) == Some(ascii_chars(bytes@)),

{
    String::from_utf8(bytes).ok()
}

/// Index of the first non-whitespace byte of `s[lo..hi]`, or `hi`.
fn skip_spaces_forward(s: &[u8], lo: usize, hi: usize) -> (r: usize)
    requires
        lo <= hi <= s@.len(),
    ensures
        lo <= r <= hi,
        trim_start(s@.subrange(lo as int, hi as int)) == s@.subrange(r as int, hi as int),
{
    let mut i = lo;
    while i < hi && (s[i] == 32 || (9 <= s[i] && s[i] <= 13))
        invariant
            lo <= i <= hi <= s@.len(),
            trim_start(s@.subrange(lo as int, hi as int)) == trim_start(s@.subrange(i as int, hi as int)),
        decreases hi - i,
    {
        assert(s@.subrange(i as int, hi as int).drop_first() =~= s@.subrange(i + 1, hi as int));
        i += 1;
    }
    i
}

/// One past the last non-whitespace byte of `s[lo..hi]`, or `lo`.
fn skip_spaces_backward(s: &[u8], lo: usize, hi: usize) -> (r: usize)
    requires
        lo <= hi <= s@.len(),
    ensures
        lo <= r <= hi,
        trim_end(s@.subrange(lo as int, hi as int)) == s@.subrange(lo as int, r as int),
{
    let mut j = hi;
    while j > lo && (s[j - 1] == 32 || (9 <= s[j - 1] && s[j - 1] <= 13))
        invariant
            lo <= j <= hi <= s@.len(),
            trim_end(s@.subrange(lo as int, hi as int)) == trim_end(s@.subrange(lo as int, j as int)),
        decreases j - lo,
    {
        assert(s@.subrange(lo as int, j as int).drop_last() =~= s@.subrange(lo as int, j - 1));
        j -= 1;
    }
    j
}

/// The bytes of `s[lo..hi]` without whitespace at either end.
pub fn trim_bytes(s: &[u8], lo: usize, hi: usize) -> (r: Vec<u8>)
    requires
        lo <= hi <= s@.len(),
    ensures
        r@ == trimmed(s@.subrange(lo as int, hi as int)),
{
    let a = skip_spaces_forward(s, lo, hi);
    let b = skip_spaces_backward(s, a, hi);
    proof {
        assert(trim_start(s@.subrange(lo as int, hi as int)) == s@.subrange(a as int, hi as int));
    }
    let mut r: Vec<u8> = Vec::new();
    let mut i = a;
    while i < b
        invariant
            a <= i <= b <= hi <= s@.len(),
            r@ == s@.subrange(a as int, i as int),
        decreases b - i,
    {
        r.push(s[i]);
        i += 1;
        assert(r@ =~= s@.subrange(a as int, i as int));
    }
    r
}

proof fn lemma_trim_start_ascii(s: Seq<u8>)
    requires
        is_ascii(s),
    ensures
        is_ascii(trim_start(s)),
    decreases s.len(),
{
    if s.len() > 0 && is_space(s[0]) {
        lemma_trim_start_ascii(s.drop_first());
    }
}

proof fn lemma_trim_end_ascii(s: Seq<u8>)
    requires
        is_ascii(s),
    ensures
        is_ascii(trim_end(s)),
    decreases s.len(),
{
    if s.len() > 0 && is_space(s.last()) {
        lemma_trim_end_ascii(s.drop_last());
    }
}

/// Reads a fixed-size text field of `size` bytes: bytes that are not
/// printable ASCII read as spaces, and spaces at both ends are dropped.
pub fn read_str(buffer: &[u8], offset: &mut usize, size: usize) -> (r: Result<String, Error>)
    ensures
        *old(offset) + size <= buffer@.len() <==> r is Ok,
        r matches Ok(t) ==> t@ == ascii_chars(trimmed(sanitized(
            buffer@.subrange(*old(offset) as int, *old(offset) + size))))
            && *final(offset) == *old(offset) + size,
        r matches Err(e) ==> e == Error::UnexpectedEnd(*old(offset)) && *final(offset) == *old(offset),
{
    let raw = read_slice(buffer, offset, size)?;
    let mut copy: Vec<u8> = Vec::new();
    let mut i: usize = 0;
    while i < raw.len()
        invariant
            i <= raw@.len(),
            copy@ == sanitized(raw@.subrange(0, i as int)),
        decreases raw@.len() - i,
    {
        let v = raw[i];
        copy.push(if 32 <= v && v < 127 { v } else { 32 });
        i += 1;
        assert(copy@ =~= sanitized(raw@.subrange(0, i as int)));
    }
    assert(raw@.subrange(0, raw@.len() as int) =~= raw@);
    let t = trim_bytes(copy.as_slice(), 0, copy.len());
    assert(copy@.subrange(0, copy@.len() as int) =~= copy@);
    proof {
        lemma_trim_start_ascii(copy@);
        lemma_trim_end_ascii(trim_start(copy@));
    }
    match string_from_utf8(t) {
        Some(text) => Ok(text),
        None => Err(Error::UnexpectedEnd(*offset)),
    }
}

} // verus!
