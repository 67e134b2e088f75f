//! What extraction does with one archive entry: which outputs it yields,
//! under which names, and which problems only warrant a warning.

use vstd::prelude::*;
use vstd::string::{StrSliceExecFns, StringExecFns};

use crate::bytes::{ascii_chars, le16, le32, read_str, read_u16, read_u32, sanitized, trimmed};
use crate::error::Error;
use crate::lzss::{decode, lz_decode};
use crate::paths::{
    base_of, extension, extension_of, file_name, get_base_path, remove_ext, replace_ext, stem_of,
};

verus! {

/// Bytes of one entry of a nested archive's table, after its lead-in.
pub const ENTRY_SIZE: usize = 60;

/// Bytes of an entry's name field.
pub const NAME_SIZE: usize = 48;

/// The image container's magic, "TIM2".
pub open spec fn is_magic(s: Seq<u8>) -> bool {
    s == seq![0x54u8, 0x49u8, 0x4du8, 0x32u8]
}

/// Where a compressed image wrapped in `b` starts, if the magic shows
/// through the compression at one of the two known places.
pub open spec fn inner_offset(b: Seq<u8>) -> Option<usize> {
    if b.len() >= 16 && is_magic(b.subrange(5, 9)) {
        Some(4usize)
    } else if b.len() >= 16 && is_magic(b.subrange(9, 13)) {
        Some(8usize)
    } else {
        None
    }
}

/// `b` with a wrapped compressed image decoded, or as it is.
pub open spec fn unwrapped(b: Seq<u8>) -> Result<Seq<u8>, Error> {
    match inner_offset(b) {
        Some(i) => lz_decode(b.subrange(i as int, b.len() as int)),
        None => Ok(b),
    }
}

/// Whether `slice` is exactly the image magic.
pub fn has_tm2_header(slice: &[u8]) -> (r: bool)
    ensures
        r == is_magic(slice@),
{
    let r = slice.len() == 4 && slice[0] == 0x54 && slice[1] == 0x49 && slice[2] == 0x4d && slice[3] == 0x32;
    assert(r ==> slice@ =~= seq![0x54u8, 0x49u8, 0x4du8, 0x32u8]);
    r
}

/// See `inner_offset`.
pub fn get_tm2_header_offset(buffer: &[u8]) -> (r: Option<usize>)
    ensures
        r == inner_offset(buffer@),
{
    if buffer.len() >= 16 {
        if has_tm2_header(&buffer[5..9]) {
            return Some(4);
        }
        if has_tm2_header(&buffer[9..13]) {
            return Some(8);
        }
    }
    None
}

/// See `unwrapped`.
pub fn decode_buffer(buffer: &[u8]) -> (r: Result<Vec<u8>, Error>)
    ensures
        r is Ok <==> unwrapped(buffer@) is Ok,
        r matches Ok(v) ==> unwrapped(buffer@) == Ok::<Seq<u8>, Error>(v@),
        r matches Err(e) ==> unwrapped(buffer@) == Err::<Seq<u8>, Error>(e),
{
    match get_tm2_header_offset(buffer) {
        Some(i) => decode(&buffer[i..buffer.len()]),
        None => Ok(vstd::slice::slice_to_vec(buffer)),
    }
}

/// One entry of a nested archive: where its bytes are and its name.
#[derive(Debug, PartialEq, Eq)]
pub struct FileEntry {
    pub offset: usize,
    pub size: usize,
    pub name: String,
}

pub struct EntryView {
    pub offset: usize,
    pub size: usize,
    pub name: Seq<char>,
}

impl FileEntry {
    pub open spec fn view(&self) -> EntryView {
        EntryView { offset: self.offset, size: self.size, name: self.name@ }
    }
}

pub open spec fn entries_view(s: Seq<FileEntry>) -> Seq<EntryView> {
    s.map_values(|e: FileEntry| e.view())
}

/// Where entry `k` of the table at `at` starts: the table opens with a
/// 16-bit count and two spare bytes, and each entry after the first with
/// four spare bytes.
pub open spec fn entry_pos(at: int, k: int) -> int {
    at + 4 + 64 * k
}

/// Where the spare bytes ahead of entry `k` of the table at `at` start.
pub open spec fn entry_lead(at: int, k: int) -> int {
    if k == 0 {
        at + 2
    } else {
        entry_pos(at, k) - 4
    }
}

/// The entry stored at `p`: offset, size, sequence number, then a 48-byte name.
pub open spec fn entry_at(b: Seq<u8>, p: int) -> EntryView {
    EntryView {
        offset: le32(b, p) as usize,
        size: le32(b, p + 4) as usize,
        name: ascii_chars(trimmed(sanitized(b.subrange(p + 12, p + 12 + NAME_SIZE)))),
    }
}

/// Entries `k` up to `count` of the table at `at`; each must carry its own
/// position as its sequence number.
pub open spec fn entries_from(b: Seq<u8>, at: int, count: int, k: int) -> Result<Seq<EntryView>, Error>
    decreases count - k,
{
    if k >= count {
        Ok(Seq::empty())
    } else if entry_pos(at, k) + ENTRY_SIZE > b.len() {
        Err(Error::UnexpectedEnd(entry_lead(at, k) as usize))
    } else if le32(b, entry_pos(at, k) + 8) != k {
        Err(Error::InvalidFileNum(le32(b, entry_pos(at, k) + 8) as usize, k as usize))
    } else {
        match entries_from(b, at, count, k + 1) {
            Ok(rest) => Ok(seq![entry_at(b, entry_pos(at, k))] + rest),
            Err(e) => Err(e),
        }
    }
}

/// The entry table at `at`.
pub open spec fn entries_of(b: Seq<u8>, at: int) -> Result<Seq<EntryView>, Error> {
    if at + 2 > b.len() {
        Err(Error::UnexpectedEnd(at as usize))
    } else {
        entries_from(b, at, le16(b, at), 0)
    }
}

/// Reads the entry table of a nested archive at `*offset`.
pub fn read_header(buffer: &[u8], offset: &mut usize) -> (r: Result<Vec<FileEntry>, Error>)
    ensures
        r is Ok <==> entries_of(buffer@, *old(offset) as int) is Ok,
        r matches Ok(v) ==> entries_of(buffer@, *old(offset) as int) == Ok::<Seq<EntryView>, Error>(entries_view(v@)),
        r matches Err(e) ==> entries_of(buffer@, *old(offset) as int) == Err::<Seq<EntryView>, Error>(e),
{
    let at = *offset;
    let len = buffer.len();
    let count = read_u16(buffer, offset)? as usize;
    let mut entries: Vec<FileEntry> = Vec::new();
    let mut i: usize = 0;
    assert(entries_view(entries@) =~= Seq::<EntryView>::empty());
    while i < count
        invariant
            len == buffer@.len(),
            at == *old(offset),
            count == le16(buffer@, at as int),
            i <= count,
            *offset <= len,
            *offset == entry_lead(at as int, i as int),
            entries_of(buffer@, at as int) == match entries_from(buffer@, at as int, count as int, i as int) {
                Ok(rest) => Ok(entries_view(entries@) + rest),
                Err(e) => Err(e),
            },
        decreases count - i,
    {
        let lead: usize = if i > 0 { 4 } else { 2 };
        if len - *offset < lead + ENTRY_SIZE {
            return Err(Error::UnexpectedEnd(*offset));
        }
        let pos = *offset + lead;
        assert(pos == entry_pos(at as int, i as int));
        *offset = pos;
        let file_offset = read_u32(buffer, offset)? as usize;
        let size = read_u32(buffer, offset)? as usize;
        let file_num = read_u32(buffer, offset)? as usize;
        let name = read_str(buffer, offset, NAME_SIZE)?;
        if file_num != i {
            return Err(Error::InvalidFileNum(file_num, i));
        }
        let entry = FileEntry { offset: file_offset, size, name };
        let ghost before = entries_view(entries@);
        entries.push(entry);
        assert(entries_view(entries@) =~= before.push(entry_at(buffer@, pos as int)));
        proof {
            match entries_from(buffer@, at as int, count as int, i + 1) {
                Ok(rest) => {
                    assert(before + (seq![entry_at(buffer@, pos as int)] + rest) =~= entries_view(entries@) + rest);
                },
                Err(_) => {},
            }
        }
        i += 1;
    }
    assert(entries_view(entries@) + Seq::<EntryView>::empty() =~= entries_view(entries@));
    Ok(entries)
}

/// The bytes of entry `e` of a nested archive `b`, unwrapped.
pub open spec fn entry_data(b: Seq<u8>, e: EntryView) -> Result<Seq<u8>, Error> {
    if e.offset + e.size > b.len() {
        Err(Error::UnexpectedEnd(e.offset))
    } else {
        unwrapped(b.subrange(e.offset as int, e.offset + e.size))
    }
}

/// Reads and unwraps the bytes of one entry of a nested archive.
pub fn decode_entry(buffer: &[u8], entry: &FileEntry) -> (r: Result<Vec<u8>, Error>)
    ensures
        r is Ok <==> entry_data(buffer@, entry.view()) is Ok,
        r matches Ok(v) ==> entry_data(buffer@, entry.view()) == Ok::<Seq<u8>, Error>(v@),
        r matches Err(e) ==> entry_data(buffer@, entry.view()) == Err::<Seq<u8>, Error>(e),
{
    let start = entry.offset;
    if start > buffer.len() || entry.size > buffer.len() - start {
        return Err(Error::UnexpectedEnd(start));
    }
    decode_buffer(&buffer[start..start + entry.size])
}


/// How extraction treats an entry, by the extension of its name.
#[derive(Debug, Clone, Copy, PartialEq, Eq, Structural)]
pub enum EntryKind {
    /// Anything else: written as it is.
    Raw,
    /// `.lzs`: compressed, possibly holding a nested archive.
    CompressedArchive,
    /// `.tm2`: an image container, possibly wrapped in compression.
    Image,
}

pub open spec fn kind_of(name: Seq<char>) -> EntryKind {
    let ext = extension_of(file_name(name));
    if ext == Some(seq!['l', 'z', 's']) {
        EntryKind::CompressedArchive
    } else if ext == Some(seq!['t', 'm', '2']) {
        EntryKind::Image
    } else {
        EntryKind::Raw
    }
}

/// Whether `s` is exactly the three characters `a`, `b`, `c`.
fn is_word(s: &str, a: char, b: char, c: char) -> (r: bool)
    ensures
        r == (s@ == seq![a, b, c]),
{
    let r = s.unicode_len() == 3 && s.get_char(0) == a && s.get_char(1) == b && s.get_char(2) == c;
    assert(r ==> s@ =~= seq![a, b, c]);
    r
}

/// Classifies an entry by the extension of its name.
pub fn classify(name: &str) -> (r: EntryKind)
    ensures
        r == kind_of(name@),
{
    match extension(name) {
        Some(ext) => if is_word(ext.as_str(), 'l', 'z', 's') {
            EntryKind::CompressedArchive
        } else if is_word(ext.as_str(), 't', 'm', '2') {
            EntryKind::Image
        } else {
            EntryKind::Raw
        },
        None => EntryKind::Raw,
    }
}

/// One file that extraction writes: its path relative to the directory of
/// the entry it came from, and its bytes.
#[derive(Debug, PartialEq, Eq)]
pub struct OutputFile {
    pub path: String,
    pub data: Vec<u8>,
}

/// The outcome of extracting one entry: the files to write, in order, and
/// the problems that only skip part of it.
#[derive(Debug, PartialEq, Eq)]
pub struct Extraction {
    pub files: Vec<OutputFile>,
    pub warnings: Vec<Error>,
}

/// Files as (path, bytes), and warnings.
pub type Plan = (Seq<(Seq<char>, Seq<u8>)>, Seq<Error>);

pub open spec fn files_view(files: Seq<OutputFile>) -> Seq<(Seq<char>, Seq<u8>)> {
    files.map_values(|f: OutputFile| (f.path@, f.data@))
}

impl Extraction {
    pub open spec fn view(&self) -> Plan {
        (files_view(self.files@), self.warnings@)
    }
}

/// The name a nested entry is written under: an image gets the `.tm2`
/// extension in place of its own.
pub open spec fn renamed(n: Seq<char>, d: Seq<u8>) -> Result<Seq<char>, Error> {
    if d.len() > 4 && is_magic(d.subrange(0, 4)) {
        if file_name(n).len() == 0 {
            Err(Error::NoBasePath)
        } else {
            Ok(base_of(n) + stem_of(file_name(n)) + seq!['.'] + seq!['t', 'm', '2'])
        }
    } else {
        Ok(n)
    }
}

/// Outputs of entries `k` on of the nested archive `b`, each written under
/// `prefix`; an entry that cannot be decoded is skipped with a warning.
pub open spec fn entries_plan(b: Seq<u8>, es: Seq<EntryView>, prefix: Seq<char>, k: int) -> Result<Plan, Error>
    decreases es.len() - k,
{
    if k < 0 || k >= es.len() {
        Ok((Seq::empty(), Seq::empty()))
    } else {
        match entry_data(b, es[k]) {
            Err(w) => match entries_plan(b, es, prefix, k + 1) {
                Ok((f, ws)) => Ok((f, seq![w] + ws)),
                Err(x) => Err(x),
            },
            Ok(d) => match renamed(prefix + es[k].name, d) {
                Err(x) => Err(x),
                Ok(n) => match entries_plan(b, es, prefix, k + 1) {
                    Ok((f, ws)) => Ok((seq![(n, d)] + f, ws)),
                    Err(x) => Err(x),
                },
            },
        }
    }
}

/// Outputs of the decompressed entry `d` named `name`, read as a nested
/// archive: several entries go into a directory named after `name` without
/// its extension, a single one next to `name`. A table that cannot be read
/// only warrants a warning.
pub open spec fn archive_plan(name: Seq<char>, d: Seq<u8>) -> Result<Plan, Error> {
    match entries_of(d, 0) {
        Err(w) => Ok((Seq::empty(), seq![w])),
        Ok(es) => if file_name(name).len() == 0 {
            Err(Error::NoBasePath)
        } else if es.len() > 1 {
            entries_plan(d, es, base_of(name) + stem_of(file_name(name)) + seq!['/'], 0)
        } else {
            entries_plan(d, es, base_of(name), 0)
        },
    }
}

/// Outputs of a decompressed entry `d` named `name`: a wrapped image is
/// decoded once more; an image is written under the `.tm2` extension; else,
/// when `recursive`, `d` is read as a nested archive, or written as it is.
pub open spec fn decompressed_plan(name: Seq<char>, d: Seq<u8>, recursive: bool) -> Result<Plan, Error> {
    match unwrapped(d) {
        Err(w) => Ok((Seq::empty(), seq![w])),
        Ok(u) => if u.len() > 4 && is_magic(u.subrange(0, 4)) {
            match renamed(name, u) {
                Ok(n) => Ok((seq![(n, u)], Seq::empty())),
                Err(x) => Err(x),
            }
        } else if recursive {
            archive_plan(name, u)
        } else {
            Ok((seq![(name, u)], Seq::empty()))
        },
    }
}

/// Outputs of the entry `name` with bytes `data`. A compressed entry is
/// decoded after its 4-byte preamble (see `decompressed_plan`); an image is
/// unwrapped; anything else is written as it is. A stream that ends inside
/// a match descriptor skips the entry with a warning.
pub open spec fn entry_plan(name: Seq<char>, data: Seq<u8>, recursive: bool) -> Result<Plan, Error> {
    match kind_of(name) {
        EntryKind::CompressedArchive => {
            let input = if data.len() >= 4 {
                data.subrange(4, data.len() as int)
            } else {
                Seq::empty()
            };
            match lz_decode(input) {
                Err(w) => Ok((Seq::empty(), seq![w])),
                Ok(d) => decompressed_plan(name, d, recursive),
            }
        },
        EntryKind::Image => match unwrapped(data) {
            Err(w) => Ok((Seq::empty(), seq![w])),
            Ok(d) => Ok((seq![(name, d)], Seq::empty())),
        },
        EntryKind::Raw => Ok((seq![(name, data)], Seq::empty())),
    }
}

/// Writes the entries of the nested archive `buffer` under `prefix`.
fn write_entries(buffer: &[u8], entries: &Vec<FileEntry>, prefix: &String) -> (r: Result<Extraction, Error>)
    ensures
        r is Ok <==> entries_plan(buffer@, entries_view(entries@), prefix@, 0) is Ok,
        r matches Ok(x) ==> entries_plan(buffer@, entries_view(entries@), prefix@, 0) == Ok::<Plan, Error>(x.view()),
        r matches Err(e) ==> entries_plan(buffer@, entries_view(entries@), prefix@, 0) == Err::<Plan, Error>(e),
{
    let ghost es = entries_view(entries@);
    let mut files: Vec<OutputFile> = Vec::new();
    let mut warnings: Vec<Error> = Vec::new();
    let mut k: usize = 0;
    assert(files_view(files@) =~= Seq::<(Seq<char>, Seq<u8>)>::empty());
    assert(warnings@ =~= Seq::<Error>::empty());
    while k < entries.len()
        invariant
            es == entries_view(entries@),
            es.len() == entries@.len(),
            k <= entries@.len(),
            entries_plan(buffer@, es, prefix@, 0) == match entries_plan(buffer@, es, prefix@, k as int) {
                Ok((f, ws)) => Ok((files_view(files@) + f, warnings@ + ws)),
                Err(x) => Err(x),
            },
        decreases entries@.len() - k,
    {
        let entry = &entries[k];
        assert(es[k as int] == entry.view());
        let ghost fv = files_view(files@);
        let ghost wv = warnings@;
        assert(entries_plan(buffer@, es, prefix@, k as int) == match entry_data(buffer@, es[k as int]) {
            Err(w) => match entries_plan(buffer@, es, prefix@, k + 1) {
                Ok((f, ws)) => Ok((f, seq![w] + ws)),
                Err(x) => Err(x),
            },
            Ok(d) => match renamed(prefix@ + es[k as int].name, d) {
                Err(x) => Err(x),
                Ok(n) => match entries_plan(buffer@, es, prefix@, k + 1) {
                    Ok((f, ws)) => Ok((seq![(n, d)] + f, ws)),
                    Err(x) => Err(x),
                },
            },
        });
        match decode_entry(buffer, entry) {
            Err(w) => {
                warnings.push(w);
                proof {
                    match entries_plan(buffer@, es, prefix@, k + 1) {
                        Ok((f, ws)) => {
                            assert(wv + (seq![w] + ws) =~= warnings@ + ws);
                        },
                        Err(_) => {},
                    }
                }
            },
            Ok(d) => {
                let mut n = prefix.clone();
                n.append(entry.name.as_str());
                let path = if d.len() > 4 && has_tm2_header(&d.as_slice()[0..4]) {
                    proof {
                        reveal_strlit("tm2");
                        assert("tm2"@ =~= seq!['t', 'm', '2']);
                    }
                    replace_ext(n.as_str(), "tm2")?
                } else {
                    n
                };
                let ghost pv = path@;
                let ghost dv = d@;
                assert(renamed(prefix@ + entry.name@, dv) == Ok::<Seq<char>, Error>(pv));
                files.push(OutputFile { path, data: d });
                assert(files_view(files@) =~= fv.push((pv, dv)));
                proof {
                    match entries_plan(buffer@, es, prefix@, k + 1) {
                        Ok((f, ws)) => {
                            assert(fv + (seq![(pv, dv)] + f) =~= files_view(files@) + f);
                        },
                        Err(_) => {},
                    }
                }
            },
        }
        k += 1;
    }
    let x = Extraction { files, warnings };
    assert(x.view().0 + Seq::<(Seq<char>, Seq<u8>)>::empty() =~= x.view().0);
    assert(x.view().1 + Seq::<Error>::empty() =~= x.view().1);
    Ok(x)
}


/// Extracts a decompressed entry named `name` as a nested archive; see
/// `archive_plan`.
pub fn process_buffer(name: &str, buffer: &[u8]) -> (r: Result<Extraction, Error>)
    ensures
        r is Ok <==> archive_plan(name@, buffer@) is Ok,
        r matches Ok(x) ==> archive_plan(name@, buffer@) == Ok::<Plan, Error>(x.view()),
        r matches Err(e) ==> archive_plan(name@, buffer@) == Err::<Plan, Error>(e),
{
    let mut offset: usize = 0;
    let entries = match read_header(buffer, &mut offset) {
        Ok(v) => v,
        Err(w) => return Ok(warned(w)),
    };
    let prefix = if entries.len() > 1 {
        let mut dir = remove_ext(name)?;
        dir.append("/");
        proof {
            reveal_strlit("/");
            assert("/"@ =~= seq!['/']);
        }
        dir
    } else {
        get_base_path(name)?
    };
    write_entries(buffer, &entries, &prefix)
}

/// A plan of one warning.
fn warned(w: Error) -> (x: Extraction)
    ensures
        x.view() == (Seq::<(Seq<char>, Seq<u8>)>::empty(), seq![w]),
{
    let x = Extraction { files: Vec::new(), warnings: vec![w] };
    assert(x.view().0 =~= Seq::<(Seq<char>, Seq<u8>)>::empty());
    assert(x.view().1 =~= seq![w]);
    x
}

/// A plan of one file.
fn single(path: String, data: Vec<u8>) -> (x: Extraction)
    ensures
        x.view() == (seq![(path@, data@)], Seq::<Error>::empty()),
{
    let ghost pv = path@;
    let ghost dv = data@;
    let x = Extraction { files: vec![OutputFile { path, data }], warnings: Vec::new() };
    assert(x.view().0 =~= seq![(pv, dv)]);
    assert(x.view().1 =~= Seq::<Error>::empty());
    x
}

/// Extracts a decompressed entry; see `decompressed_plan`.
fn process_decompressed(name: &str, decoded: &[u8], recursive: bool) -> (r: Result<Extraction, Error>)
    ensures
        r is Ok <==> decompressed_plan(name@, decoded@, recursive) is Ok,
        r matches Ok(x) ==> decompressed_plan(name@, decoded@, recursive) == Ok::<Plan, Error>(x.view()),
        r matches Err(e) ==> decompressed_plan(name@, decoded@, recursive) == Err::<Plan, Error>(e),
{
    let d = match decode_buffer(decoded) {
        Ok(d) => d,
        Err(w) => return Ok(warned(w)),
    };
    if d.len() > 4 && has_tm2_header(&d.as_slice()[0..4]) {
        proof {
            reveal_strlit("tm2");
            assert("tm2"@ =~= seq!['t', 'm', '2']);
        }
        let path = replace_ext(name, "tm2")?;
        Ok(single(path, d))
    } else if recursive {
        process_buffer(name, d.as_slice())
    } else {
        Ok(single(String::from_str(name), d))
    }
}

/// Extracts one archive entry named `name` with bytes `buffer`; see
/// `entry_plan`.
pub fn process_file(name: &str, buffer: &[u8], recursive: bool) -> (r: Result<Extraction, Error>)
    ensures
        r is Ok <==> entry_plan(name@, buffer@, recursive) is Ok,
        r matches Ok(x) ==> entry_plan(name@, buffer@, recursive) == Ok::<Plan, Error>(x.view()),
        r matches Err(e) ==> entry_plan(name@, buffer@, recursive) == Err::<Plan, Error>(e),
{
    match classify(name) {
        EntryKind::CompressedArchive => {
            let start = if buffer.len() >= 4 { 4 } else { buffer.len() };
            assert(buffer@.len() < 4 ==> buffer@.subrange(start as int, buffer@.len() as int) =~= Seq::<u8>::empty());
            match decode(&buffer[start..buffer.len()]) {
                Ok(d) => process_decompressed(name, d.as_slice(), recursive),
                Err(w) => Ok(warned(w)),
            }
        },
        EntryKind::Image => match decode_buffer(buffer) {
            Ok(d) => Ok(single(String::from_str(name), d)),
            Err(w) => Ok(warned(w)),
        },
        EntryKind::Raw => Ok(single(String::from_str(name), vstd::slice::slice_to_vec(buffer))),
    }
}

} // verus!
