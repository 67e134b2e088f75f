//! The LZ-style entry compression: a 4096-byte sliding window, matches of
//! 3 to 18 bytes, and one flag byte ahead of every eight items.

use vstd::prelude::*;

use crate::error::Error;

verus! {

pub const THRESHOLD: usize = 2;

pub const MAX_LENGTH: usize = 18;

pub const WINDOW_SIZE: usize = 4096;

/// Where the window's write cursor starts.
pub const WINDOW_START: usize = 4078;

/// Bytes of preamble ahead of the compressed stream.
pub const PREAMBLE: usize = 4;

/// The byte the window holds at position `q` (below `WINDOW_SIZE`) once
/// `out` has been produced: byte `n` of the output went to position
/// `(WINDOW_START + n) % WINDOW_SIZE`, and the window starts out zeroed.
#[verifier::opaque]
pub open spec fn window_byte(out: Seq<u8>, q: int) -> u8 {
    let back = (out.len() + WINDOW_START - q - 1) % (WINDOW_SIZE as int) + 1;
    if out.len() - back >= 0 {
        out[out.len() - back]
    } else {
        0
    }
}

/// Appends `count` bytes copied from the window, starting at window position
/// `from`; each copied byte is in the window before the next one is read.
#[verifier::opaque]
pub open spec fn copy_match(out: Seq<u8>, from: int, count: nat) -> Seq<u8>
    decreases count,
{
    if count == 0 {
        out
    } else {
        copy_match(out.push(window_byte(out, from % (WINDOW_SIZE as int))), from + 1, (count - 1) as nat)
    }
}

/// Window position named by the match descriptor at `pos`.
pub open spec fn match_from(src: Seq<u8>, pos: int) -> int {
    src[pos] + 256 * (src[pos + 1] / 16)
}

/// Number of bytes the match descriptor at `pos` copies: 3 to 18.
pub open spec fn match_count(src: Seq<u8>, pos: int) -> nat {
    (src[pos + 1] % 16 + THRESHOLD + 1) as nat
}

/// Decoding from `pos`, where a flag byte is due. A flag byte that is the
/// last byte of the input ends the stream.
pub open spec fn lz_groups(src: Seq<u8>, pos: int, out: Seq<u8>) -> Result<Seq<u8>, Error>
    decreases src.len() - pos, 0int,
{
    if pos < 0 || pos + 1 >= src.len() {
        Ok(out)
    } else {
        lz_items(src, pos + 1, src[pos] as nat, 8, out)
    }
}

/// Decoding the `left` items that remain of a group from `pos`; `flags`
/// holds their flag bits, lowest first: 1 for a literal byte, 0 for a
/// two-byte match descriptor.
pub open spec fn lz_items(src: Seq<u8>, pos: int, flags: nat, left: nat, out: Seq<u8>) -> Result<Seq<u8>, Error>
    decreases src.len() - pos, left + 1,
{
    if pos < 0 || pos >= src.len() {
        Ok(out)
    } else if left == 0 {
        lz_groups(src, pos, out)
    } else if flags % 2 == 1 {
        lz_items(src, pos + 1, flags / 2, (left - 1) as nat, out.push(src[pos]))
    } else if pos + 1 == src.len() {
        Err(Error::InvalidDecodeLength(pos as usize, src.len() as usize))
    } else {
        lz_items(src, pos + 2, flags / 2, (left - 1) as nat, copy_match(out, match_from(src, pos), match_count(src, pos)))
    }
}

/// What decoding `src` yields: the stream starts after the preamble.
pub open spec fn lz_decode(src: Seq<u8>) -> Result<Seq<u8>, Error> {
    lz_groups(src, PREAMBLE as int, Seq::empty())
}

/// After one more byte `c` is produced, the window differs only at the write cursor.
proof fn lemma_window_push(out: Seq<u8>, c: u8, q: int)
    requires
        0 <= q < WINDOW_SIZE,
    ensures
        window_byte(out.push(c), q) == if q == (WINDOW_START + out.len()) % (WINDOW_SIZE as int) {
            c
        } else {
            window_byte(out, q)
        },
{
    reveal(window_byte);
    let n = out.len() as int;
    let w = WINDOW_SIZE as int;
    let u = (n + WINDOW_START - q) % w;
    assert((n + 1 + WINDOW_START - q - 1) % w == u);
    if q == (WINDOW_START + n) % w {
        assert(u == 0) by {
            vstd::arithmetic::div_mod::lemma_fundamental_div_mod(WINDOW_START + n, w);
        }
    } else {
        assert(u != 0) by {
            if u == 0 {
                vstd::arithmetic::div_mod::lemma_fundamental_div_mod(WINDOW_START + n - q, w);
                vstd::arithmetic::div_mod::lemma_fundamental_div_mod(WINDOW_START + n, w);
            }
        }
        assert((n + WINDOW_START - q - 1) % w == u - 1) by {
            vstd::arithmetic::div_mod::lemma_fundamental_div_mod(n + WINDOW_START - q, w);
            vstd::arithmetic::div_mod::lemma_fundamental_div_mod(n + WINDOW_START - q - 1, w);
        }
    }
}


/// Decoding is a function of the input bytes alone: the same input gives
/// the same result, and so the same output length, every time.
pub proof fn lemma_decode_deterministic(a: Seq<u8>, b: Seq<u8>)
    requires
        a == b,
    ensures
        lz_decode(a) == lz_decode(b),
        lz_decode(a) matches Ok(x) ==> (lz_decode(b) matches Ok(y) && x.len() == y.len()),
{
}

proof fn lemma_groups_error(src: Seq<u8>, pos: int, out: Seq<u8>)
    ensures
        lz_groups(src, pos, out) matches Err(e)
            ==> e == Error::InvalidDecodeLength((src.len() - 1) as usize, src.len() as usize),
    decreases src.len() - pos, 0int,
{
    if !(pos < 0 || pos + 1 >= src.len()) {
        lemma_items_error(src, pos + 1, src[pos] as nat, 8, out);
    }
}

proof fn lemma_items_error(src: Seq<u8>, pos: int, flags: nat, left: nat, out: Seq<u8>)
    ensures
        lz_items(src, pos, flags, left, out) matches Err(e)
            ==> e == Error::InvalidDecodeLength((src.len() - 1) as usize, src.len() as usize),
    decreases src.len() - pos, left + 1,
{
    if pos < 0 || pos >= src.len() {
    } else if left == 0 {
        lemma_groups_error(src, pos, out);
    } else if flags % 2 == 1 {
        lemma_items_error(src, pos + 1, flags / 2, (left - 1) as nat, out.push(src[pos]));
    } else if pos + 1 == src.len() {
    } else {
        lemma_items_error(src, pos + 2, flags / 2, (left - 1) as nat,
            copy_match(out, match_from(src, pos), match_count(src, pos)));
    }
}

/// Decoding fails only where the input ends inside a match descriptor: the
/// one error is `InvalidDecodeLength`, naming the offset of the descriptor's
/// only byte (the last byte of the input) and the input length.
pub proof fn lemma_decode_error_is_truncation(src: Seq<u8>)
    ensures
        lz_decode(src) matches Err(e)
            ==> e == Error::InvalidDecodeLength((src.len() - 1) as usize, src.len() as usize),
{
    lemma_groups_error(src, PREAMBLE as int, Seq::empty());
}

/// `window` and its cursor `r_pos` are what decoding holds once `out` has
/// been produced.
#[verifier::opaque]
pub open spec fn window_tracks(window: Seq<u8>, r_pos: usize, out: Seq<u8>) -> bool {
    &&& window.len() == WINDOW_SIZE + MAX_LENGTH - 1
    &&& r_pos == (WINDOW_START + out.len()) % (WINDOW_SIZE as int)
    &&& forall|q: int| 0 <= q < WINDOW_SIZE ==> window[q] == window_byte(out, q)
}

/// Produces one byte: appends it to the output and writes it at the window cursor.
fn emit(dest: &mut Vec<u8>, window: &mut Vec<u8>, r_pos: &mut usize, c: u8)
    requires
        window_tracks(old(window)@, *old(r_pos), old(dest)@),
    ensures
        final(dest)@ == old(dest)@.push(c),
        window_tracks(final(window)@, *final(r_pos), final(dest)@),
{
    reveal(window_tracks);
    proof {
        assert forall|q: int| 0 <= q < WINDOW_SIZE implies
            (if q == *r_pos { c } else { window@[q] }) == window_byte(dest@.push(c), q) by {
            lemma_window_push(dest@, c, q);
        }
    }
    dest.push(c);
    window.set(*r_pos, c);
    *r_pos = (*r_pos + 1) % WINDOW_SIZE;
    assert(window_tracks(window@, *r_pos, dest@));
}

/// Copies `count` bytes from window position `from` on, one at a time, so
/// that a copy may read bytes it has itself just produced.
fn copy_from_window(dest: &mut Vec<u8>, window: &mut Vec<u8>, r_pos: &mut usize, from: usize, count: usize)
    requires
        window_tracks(old(window)@, *old(r_pos), old(dest)@),
        from < WINDOW_SIZE,
        count <= MAX_LENGTH,
    ensures
        final(dest)@ == copy_match(old(dest)@, from as int, count as nat),
        window_tracks(final(window)@, *final(r_pos), final(dest)@),
{
    let ghost start = dest@;
    let mut k: usize = 0;
    assert(dest@ == start);
    while k < count
        invariant
            window_tracks(window@, *r_pos, dest@),
            from < WINDOW_SIZE,
            k <= count <= MAX_LENGTH,
            copy_match(start, from as int, count as nat) == copy_match(dest@, from + k, (count - k) as nat),
        decreases count - k,
    {
        proof {
            reveal(window_tracks);
            reveal_with_fuel(copy_match, 2);
        }
        let c = window[(from + k) % WINDOW_SIZE];
        emit(dest, window, r_pos, c);
        k += 1;
    }
    proof {
        reveal(copy_match);
    }
}

/// Decodes a compressed entry. The first `PREAMBLE` bytes are skipped; the
/// result is exactly what `lz_decode` gives, and an input that ends inside a
/// match descriptor fails with the descriptor's offset and the input length.
pub fn decode(src: &[u8]) -> (r: Result<Vec<u8>, Error>)
    ensures
        r is Ok <==> lz_decode(src@) is Ok,
        r matches Ok(v) ==> lz_decode(src@) == Ok::<Seq<u8>, Error>(v@),
        r matches Err(e) ==> lz_decode(src@) == Err::<Seq<u8>, Error>(e),
        r matches Err(e) ==> e == Error::InvalidDecodeLength((src@.len() - 1) as usize, src@.len() as usize),
{
    proof {
        lemma_decode_error_is_truncation(src@);
    }
    let src_len = src.len();
    let mut flags: u8 = 0;
    let mut f_pos: usize = 0;
    let mut r_pos: usize = WINDOW_SIZE - MAX_LENGTH;
    let mut offset: usize = PREAMBLE;
    let mut dest: Vec<u8> = Vec::with_capacity(src_len);
    if src_len <= PREAMBLE {
        assert(dest@ =~= Seq::<u8>::empty());
        return Ok(dest);
    }
    let mut text_buf: Vec<u8> = vec![0u8; WINDOW_SIZE + MAX_LENGTH - 1];
    assert(dest@ =~= Seq::<u8>::empty());
    assert forall|q: int| 0 <= q < WINDOW_SIZE implies text_buf@[q] == window_byte(dest@, q) by {
        assert(cloned(0u8, text_buf@[q]));
        reveal(window_byte);
    }
    assert(window_tracks(text_buf@, r_pos, dest@)) by {
        reveal(window_tracks);
    }
    while offset < src_len
        invariant
            src_len == src@.len(),
            window_tracks(text_buf@, r_pos, dest@),
            f_pos < 8,
            PREAMBLE <= offset <= src_len,
            lz_decode(src@) == if f_pos == 0 {
                lz_groups(src@, offset as int, dest@)
            } else {
                lz_items(src@, offset as int, flags as nat, (8 - f_pos) as nat, dest@)
            },
        decreases src_len - offset,
    {
        if f_pos == 0 {
            assert(lz_groups(src@, offset as int, dest@) == if offset + 1 >= src_len {
                Ok(dest@)
            } else {
                lz_items(src@, offset + 1, src@[offset as int] as nat, 8, dest@)
            });
            flags = src[offset];
            offset += 1;
            if offset == src_len {
                return Ok(dest);
            }
        }
        let ghost left = (8 - f_pos) as nat;
        let ghost out = dest@;
        let ghost pos = offset as int;
        assert(lz_decode(src@) == lz_items(src@, pos, flags as nat, left, out));
        if flags % 2 == 1 {
            let c = src[offset];
            offset += 1;
            emit(&mut dest, &mut text_buf, &mut r_pos, c);
            assert(lz_items(src@, pos, flags as nat, left, out)
                == lz_items(src@, pos + 1, flags as nat / 2, (left - 1) as nat, dest@));
        } else {
            if offset + 1 == src_len {
                return Err(Error::InvalidDecodeLength(offset, src_len));
            }
            let from = src[offset] as usize + 256 * (src[offset + 1] as usize / 16);
            let count = (src[offset + 1] % 16) as usize + THRESHOLD + 1;
            assert(from == match_from(src@, pos));
            assert(count == match_count(src@, pos));
            offset += 2;
            copy_from_window(&mut dest, &mut text_buf, &mut r_pos, from, count);
            assert(lz_items(src@, pos, flags as nat, left, out)
                == lz_items(src@, pos + 2, flags as nat / 2, (left - 1) as nat, dest@));
        }
        flags = flags / 2;
        f_pos = (f_pos + 1) % 8;
        if f_pos == 0 {
            assert(lz_items(src@, offset as int, flags as nat, 0, dest@) == lz_groups(src@, offset as int, dest@));
        }
    }
    assert(offset == src_len);
    assert(lz_items(src@, offset as int, flags as nat, (8 - f_pos) as nat, dest@) == Ok::<Seq<u8>, Error>(dest@));
    assert(lz_groups(src@, offset as int, dest@) == Ok::<Seq<u8>, Error>(dest@));
    Ok(dest)
}

} // verus!
