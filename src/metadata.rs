//! The archive index: a header, a preorder list of directory records, a
//! list of child infos and a name table, rebuilt into a tree of nodes.

use std::collections::HashMap;
use vstd::prelude::*;

use crate::bytes::{
    clone_into_array, le16, le32, read_slice, read_u16, read_u32, string_from_utf8, trim_bytes, trimmed,
    utf8_text,
};
use crate::error::Error;

verus! {

broadcast use vstd::std_specs::hash::group_hash_axioms;

pub const ARCHIVE_HEADER_SIZE: usize = 32;

pub const RECORD_SIZE: usize = 32;

pub const INFO_SIZE: usize = 64;

pub const CHECKSUM_SIZE: usize = 32;

/// Counts and sizes at the head of the index.
#[derive(Debug, Clone, Copy, PartialEq, Eq, Structural)]
pub struct ArchiveHeader {
    pub record_count: usize,
    pub file_count: usize,
    pub name_table_size: usize,
    pub archive_total_size: usize,
}

/// One directory: which infos are its children.
#[derive(Debug, Clone, Copy, PartialEq, Eq, Structural)]
pub struct Record {
    pub id: u32,
    pub parent_id: u32,
    pub info_offset: usize,
    pub info_count: usize,
    pub directory_info_offset: usize,
}

#[derive(Debug, Clone, Copy, PartialEq, Eq, Structural)]
pub enum InfoKind {
    Directory,
    File,
}

/// One child of a directory.
#[derive(Debug, Clone, Copy, PartialEq, Eq)]
pub struct Info {
    pub record_id: u32,
    pub kind: InfoKind,
    pub file_offset: usize,
    pub file_real_size: usize,
    pub file_full_size: usize,
    pub filename_offset: usize,
    pub filename_length: usize,
    pub sha_256: [u8; CHECKSUM_SIZE],
}

/// What the tree rebuild reads of an info.
pub struct InfoView {
    pub is_file: bool,
    pub filename_offset: usize,
    pub filename_length: usize,
    pub file_offset: usize,
    pub file_real_size: usize,
}

impl Info {
    pub open spec fn view(&self) -> InfoView {
        InfoView {
            is_file: self.kind == InfoKind::File,
            filename_offset: self.filename_offset,
            filename_length: self.filename_length,
            file_offset: self.file_offset,
            file_real_size: self.file_real_size,
        }
    }
}

/// The header stored at `at`.
pub open spec fn header_at(b: Seq<u8>, at: int) -> ArchiveHeader {
    ArchiveHeader {
        record_count: le32(b, at) as usize,
        file_count: le32(b, at + 4) as usize,
        name_table_size: le32(b, at + 8) as usize,
        archive_total_size: le32(b, at + 12) as usize,
    }
}

/// The record stored at `p`.
pub open spec fn record_at(b: Seq<u8>, p: int) -> Record {
    Record {
        id: le32(b, p) as u32,
        parent_id: le32(b, p + 4) as u32,
        info_offset: le32(b, p + 8) as usize,
        info_count: le32(b, p + 12) as usize,
        directory_info_offset: le32(b, p + 20) as usize,
    }
}

/// The info stored at `p`: flag 1 in its second 16-bit word marks a file.
pub open spec fn info_at(b: Seq<u8>, p: int) -> InfoView {
    InfoView {
        is_file: le16(b, p + 2) == 1,
        filename_offset: le32(b, p + 4) as usize,
        filename_length: le32(b, p + 8) as usize,
        file_offset: le32(b, p + 12) as usize,
        file_real_size: le32(b, p + 16) as usize,
    }
}

impl ArchiveHeader {
    fn read(buffer: &[u8], offset: &mut usize) -> (r: ArchiveHeader)
        requires
            *old(offset) + ARCHIVE_HEADER_SIZE <= buffer@.len(),
        ensures
            r == header_at(buffer@, *old(offset) as int),
            *final(offset) == *old(offset) + ARCHIVE_HEADER_SIZE,
    {
        let record_count = read_u32(buffer, offset).unwrap() as usize;
        let file_count = read_u32(buffer, offset).unwrap() as usize;
        let name_table_size = read_u32(buffer, offset).unwrap() as usize;
        let archive_total_size = read_u32(buffer, offset).unwrap() as usize;
        let _ = read_slice(buffer, offset, 16);
        ArchiveHeader { record_count, file_count, name_table_size, archive_total_size }
    }
}

impl Record {
    fn read(buffer: &[u8], offset: &mut usize) -> (r: Record)
        requires
            *old(offset) + RECORD_SIZE <= buffer@.len(),
        ensures
            r == record_at(buffer@, *old(offset) as int),
            *final(offset) == *old(offset) + RECORD_SIZE,
    {
        let id = read_u32(buffer, offset).unwrap();
        let parent_id = read_u32(buffer, offset).unwrap();
        let info_offset = read_u32(buffer, offset).unwrap() as usize;
        let info_count = read_u32(buffer, offset).unwrap() as usize;
        let _ = read_slice(buffer, offset, 4);
        let directory_info_offset = read_u32(buffer, offset).unwrap() as usize;
        let _ = read_slice(buffer, offset, 8);
        Record { id, parent_id, info_offset, info_count, directory_info_offset }
    }
}

impl Info {
    fn read(buffer: &[u8], offset: &mut usize) -> (r: Info)
        requires
            *old(offset) + INFO_SIZE <= buffer@.len(),
        ensures
            r.view() == info_at(buffer@, *old(offset) as int),
            *final(offset) == *old(offset) + INFO_SIZE,
    {
        let _ = read_slice(buffer, offset, 2);
        let kind = if read_u16(buffer, offset).unwrap() == 1 {
            InfoKind::File
        } else {
            InfoKind::Directory
        };
        let filename_offset = read_u32(buffer, offset).unwrap() as usize;
        let filename_length = read_u32(buffer, offset).unwrap() as usize;
        let file_offset = read_u32(buffer, offset).unwrap() as usize;
        let file_real_size = read_u32(buffer, offset).unwrap() as usize;
        let _ = read_slice(buffer, offset, 4);
        let record_id = read_u32(buffer, offset).unwrap();
        let file_full_size = read_u32(buffer, offset).unwrap() as usize;
        let sum = read_slice(buffer, offset, CHECKSUM_SIZE).unwrap();
        let sha_256: [u8; CHECKSUM_SIZE] = clone_into_array(sum);
        Info {
            record_id,
            kind,
            file_offset,
            file_real_size,
            file_full_size,
            filename_offset,
            filename_length,
            sha_256,
        }
    }
}


/// The name of an info: its byte range of the name table with whitespace
/// trimmed from both ends, as UTF-8.
pub open spec fn name_of(table: Seq<u8>, info: InfoView) -> Option<Seq<char>> {
    if info.filename_offset + info.filename_length > table.len() {
        None
    } else {
        utf8_text(trimmed(table.subrange(info.filename_offset as int, info.filename_offset + info.filename_length)))
    }
}

/// Names of the first `k` infos keyed by their name-table offset; where
/// two infos share an offset, the later one's name stands.
pub open spec fn names_upto(table: Seq<u8>, infos: Seq<InfoView>, k: nat) -> Result<Map<usize, Seq<char>>, Error>
    decreases k,
{
    if k == 0 {
        Ok(Map::empty())
    } else {
        match names_upto(table, infos, (k - 1) as nat) {
            Err(e) => Err(e),
            Ok(m) => match name_of(table, infos[k - 1]) {
                None => Err(Error::InvalidName(infos[k - 1].filename_offset)),
                Some(t) => Ok(m.insert(infos[k - 1].filename_offset, t)),
            },
        }
    }
}

/// Once the names fail, they fail with the same error however many more
/// infos follow.
proof fn lemma_names_error_stays(table: Seq<u8>, infos: Seq<InfoView>, j: nat, k: nat)
    requires
        j <= k,
    ensures
        names_upto(table, infos, j) is Err ==> names_upto(table, infos, k) == names_upto(table, infos, j),
    decreases k - j,
{
    if j < k {
        lemma_names_error_stays(table, infos, j, (k - 1) as nat);
    }
}

/// A node of the rebuilt tree, as values.
pub enum Entry {
    Dir(Seq<char>, Seq<Entry>),
    File(Seq<char>, usize, usize),
}

/// The directory named `name` whose record is `records[idx]`, and the
/// index of the first record its subtree did not use: each directory takes
/// the next unused record, depth first.
pub open spec fn dir_tree(
    records: Seq<Record>,
    infos: Seq<InfoView>,
    names: Map<usize, Seq<char>>,
    name: Seq<char>,
    idx: int,
) -> Result<(Entry, int), Error>
    decreases records.len() - idx, 0int,
{
    if idx < 0 || idx >= records.len() {
        Err(Error::InvalidRecord(idx as usize))
    } else {
        match child_trees(records, infos, names, records[idx], 0, idx + 1) {
            Ok((c, next)) => Ok((Entry::Dir(name, c), next)),
            Err(e) => Err(e),
        }
    }
}

/// The children of `rec` from child `i` on, with `cur` the next unused record.
pub open spec fn child_trees(
    records: Seq<Record>,
    infos: Seq<InfoView>,
    names: Map<usize, Seq<char>>,
    rec: Record,
    i: nat,
    cur: int,
) -> Result<(Seq<Entry>, int), Error>
    decreases records.len() - cur, rec.info_count - i + 1,
{
    if i >= rec.info_count {
        Ok((Seq::empty(), cur))
    } else if rec.info_offset + i >= infos.len() {
        Err(Error::InvalidInfo((rec.info_offset + i) as usize))
    } else if !names.contains_key(infos[rec.info_offset + i].filename_offset) {
        Err(Error::InvalidName(infos[rec.info_offset + i].filename_offset))
    } else {
        let info = infos[rec.info_offset + i];
        let name = names[info.filename_offset];
        if info.is_file {
            match child_trees(records, infos, names, rec, i + 1, cur) {
                Ok((rest, next)) => Ok((seq![Entry::File(name, info.file_offset, info.file_real_size)] + rest, next)),
                Err(e) => Err(e),
            }
        } else {
            match dir_tree(records, infos, names, name, cur) {
                Err(e) => Err(e),
                Ok((d, next)) => if next <= cur || next > records.len() {
                    Err(Error::InvalidRecord(cur as usize))
                } else {
                    match child_trees(records, infos, names, rec, i + 1, next) {
                        Ok((rest, last)) => Ok((seq![d] + rest, last)),
                        Err(e) => Err(e),
                    }
                },
            }
        }
    }
}

/// A node of the rebuilt tree: a directory with its children in stored
/// order, or a file with its offset and size in the payload.
#[derive(Debug, PartialEq, Eq)]
pub enum Node {
    Directory(String, Vec<Node>),
    File(String, usize, usize),
}

impl Node {
    pub open spec fn view(&self) -> Entry
        decreases self,
    {
        match self {
            Node::Directory(n, c) => Entry::Dir(n@, nodes_view(c@)),
            Node::File(n, o, s) => Entry::File(n@, *o, *s),
        }
    }
}

pub open spec fn nodes_view(s: Seq<Node>) -> Seq<Entry>
    decreases s,
{
    if s.len() == 0 {
        Seq::empty()
    } else {
        nodes_view(s.drop_last()).push(s.last().view())
    }
}


pub open spec fn infos_view(infos: Seq<Info>) -> Seq<InfoView> {
    infos.map_values(|i: Info| i.view())
}

pub open spec fn names_view(names: &HashMap<usize, String>) -> Map<usize, Seq<char>> {
    names@.map_values(|t: String| t@)
}

/// Where the records of the index at `at` start.
pub open spec fn records_start(at: int) -> int {
    at + ARCHIVE_HEADER_SIZE
}

/// Where the infos of the index at `at` start.
pub open spec fn infos_start(b: Seq<u8>, at: int) -> int {
    records_start(at) + RECORD_SIZE * le32(b, at)
}

/// Where the name table of the index at `at` starts.
pub open spec fn names_start(b: Seq<u8>, at: int) -> int {
    infos_start(b, at) + INFO_SIZE * le32(b, at + 4)
}

/// Where the index at `at` ends.
pub open spec fn index_end(b: Seq<u8>, at: int) -> int {
    names_start(b, at) + le32(b, at + 8)
}

/// The records of the index at `at`.
pub open spec fn records_of(b: Seq<u8>, at: int) -> Seq<Record> {
    Seq::new(le32(b, at) as nat, |k: int| record_at(b, records_start(at) + RECORD_SIZE * k))
}

/// The infos of the index at `at`.
pub open spec fn infos_of(b: Seq<u8>, at: int) -> Seq<InfoView> {
    Seq::new(le32(b, at + 4) as nat, |k: int| info_at(b, infos_start(b, at) + INFO_SIZE * k))
}

/// The tree that the index at `at` describes, its root named `root_name`;
/// an index whose parts do not fit fails with the offset of the first part
/// that does not.
pub open spec fn index_tree(b: Seq<u8>, at: int, root_name: Seq<char>) -> Result<Entry, Error> {
    if records_start(at) > b.len() {
        Err(Error::UnexpectedEnd(at as usize))
    } else if infos_start(b, at) > b.len() {
        Err(Error::UnexpectedEnd(records_start(at) as usize))
    } else if names_start(b, at) > b.len() {
        Err(Error::UnexpectedEnd(infos_start(b, at) as usize))
    } else if index_end(b, at) > b.len() {
        Err(Error::UnexpectedEnd(names_start(b, at) as usize))
    } else {
        let table = b.subrange(names_start(b, at), index_end(b, at));
        match names_upto(table, infos_of(b, at), le32(b, at + 4) as nat) {
            Err(e) => Err(e),
            Ok(names) => match dir_tree(records_of(b, at), infos_of(b, at), names, root_name, 0) {
                Ok((root, _)) => Ok(root),
                Err(e) => Err(e),
            },
        }
    }
}

/// The parsed index: its header and the tree of its entries.
#[derive(Debug)]
pub struct Metadata {
    pub header: ArchiveHeader,
    pub root: Node,
}

impl Metadata {
    /// Reads the index at `*offset` and rebuilds its tree, the root directory
    /// named `root_name`.
    pub fn read(buffer: &[u8], offset: &mut usize, root_name: String) -> (r: Result<Metadata, Error>)
        ensures
            r is Ok <==> index_tree(buffer@, *old(offset) as int, root_name@) is Ok,
            r matches Ok(m) ==> index_tree(buffer@, *old(offset) as int, root_name@) == Ok::<Entry, Error>(m.root.view())
                && m.header == header_at(buffer@, *old(offset) as int),
            r matches Err(e) ==> index_tree(buffer@, *old(offset) as int, root_name@) == Err::<Entry, Error>(e),
    {
        let at = *offset;
        let len = buffer.len();
        if at > len || len - at < ARCHIVE_HEADER_SIZE {
            return Err(Error::UnexpectedEnd(at));
        }
        let header = ArchiveHeader::read(buffer, offset);
        let pos = *offset;
        if header.record_count > (len - pos) / RECORD_SIZE {
            assert(infos_start(buffer@, at as int) > len) by (nonlinear_arith)
                requires
                    header.record_count > (len - pos) / 32,
                    header.record_count == le32(buffer@, at as int),
                    pos == at + 32,
            ;
            return Err(Error::UnexpectedEnd(pos));
        }
        assert(infos_start(buffer@, at as int) <= len) by (nonlinear_arith)
            requires
                header.record_count <= (len - pos) / 32,
                header.record_count == le32(buffer@, at as int),
                pos == at + 32,
                pos <= len,
        ;
        let mut records: Vec<Record> = Vec::new();
        let mut k: usize = 0;
        while k < header.record_count
            invariant
                len == buffer@.len(),
                header == header_at(buffer@, at as int),
                k <= header.record_count,
                *offset == records_start(at as int) + RECORD_SIZE * k,
                infos_start(buffer@, at as int) <= len,
                records@ == records_of(buffer@, at as int).subrange(0, k as int),
            decreases header.record_count - k,
        {
            assert(*offset + RECORD_SIZE <= infos_start(buffer@, at as int)) by (nonlinear_arith)
                requires
                    *offset == at + 32 + 32 * k,
                    k < header.record_count,
                    infos_start(buffer@, at as int) == at + 32 + 32 * header.record_count,
            ;
            let rec = Record::read(buffer, offset);
            records.push(rec);
            k += 1;
            assert(records@ =~= records_of(buffer@, at as int).subrange(0, k as int));
        }
        let pos = *offset;
        if header.file_count > (len - pos) / INFO_SIZE {
            assert(names_start(buffer@, at as int) > len) by (nonlinear_arith)
                requires
                    header.file_count > (len - pos) / 64,
                    header.file_count == le32(buffer@, at + 4),
                    pos == infos_start(buffer@, at as int),
                    names_start(buffer@, at as int) == pos + 64 * header.file_count,
            ;
            return Err(Error::UnexpectedEnd(pos));
        }
        assert(names_start(buffer@, at as int) <= len) by (nonlinear_arith)
            requires
                header.file_count <= (len - pos) / 64,
                pos <= len,
                names_start(buffer@, at as int) == pos + 64 * header.file_count,
        ;
        let mut infos: Vec<Info> = Vec::new();
        let mut k: usize = 0;
        while k < header.file_count
            invariant
                len == buffer@.len(),
                header == header_at(buffer@, at as int),
                k <= header.file_count,
                *offset == infos_start(buffer@, at as int) + INFO_SIZE * k,
                names_start(buffer@, at as int) <= len,
                infos_view(infos@) == infos_of(buffer@, at as int).subrange(0, k as int),
            decreases header.file_count - k,
        {
            assert(*offset + INFO_SIZE <= names_start(buffer@, at as int)) by (nonlinear_arith)
                requires
                    *offset == infos_start(buffer@, at as int) + 64 * k,
                    k < header.file_count,
                    names_start(buffer@, at as int) == infos_start(buffer@, at as int) + 64 * header.file_count,
            ;
            let ghost here = *offset as int;
            let info = Info::read(buffer, offset);
            let ghost before = infos_view(infos@);
            infos.push(info);
            assert(infos_view(infos@) =~= before.push(info_at(buffer@, here)));
            k += 1;
            assert(infos_view(infos@) =~= infos_of(buffer@, at as int).subrange(0, k as int));
        }
        assert(records@ =~= records_of(buffer@, at as int));
        assert(infos_view(infos@) =~= infos_of(buffer@, at as int));
        let pos = *offset;
        if header.name_table_size > len - pos {
            return Err(Error::UnexpectedEnd(pos));
        }
        let names = Self::build_filenames(buffer, offset, header.name_table_size, &infos)?;
        let mut index: usize = 0;
        let root = Self::build_directory(root_name, &mut index, &records, &infos, &names)?;
        Ok(Metadata { header, root })
    }

    /// Reads the name table of `size` bytes at `*offset` and maps each
    /// info's name offset to its name.
    pub fn build_filenames(buffer: &[u8], offset: &mut usize, size: usize, infos: &Vec<Info>) -> (r: Result<HashMap<usize, String>, Error>)
        requires
            *old(offset) + size <= buffer@.len(),
        ensures
            *final(offset) == *old(offset) + size,
            r is Ok <==> names_upto(buffer@.subrange(*old(offset) as int, *old(offset) + size), infos_view(infos@), infos@.len()) is Ok,
            r matches Ok(m) ==> names_upto(buffer@.subrange(*old(offset) as int, *old(offset) + size), infos_view(infos@), infos@.len())
                == Ok::<Map<usize, Seq<char>>, Error>(names_view(&m)),
            r matches Err(e) ==> names_upto(buffer@.subrange(*old(offset) as int, *old(offset) + size), infos_view(infos@), infos@.len())
                == Err::<Map<usize, Seq<char>>, Error>(e),
    {
        let table = read_slice(buffer, offset, size).unwrap();
        let ghost iv = infos_view(infos@);
        let mut names: HashMap<usize, String> = HashMap::new();
        let mut k: usize = 0;
        assert(names_view(&names) =~= Map::<usize, Seq<char>>::empty());
        while k < infos.len()
            invariant
                table@ == buffer@.subrange(*old(offset) as int, *old(offset) + size),
                *offset == *old(offset) + size,
                table@.len() == size,
                iv == infos_view(infos@),
                iv.len() == infos@.len(),
                k <= infos@.len(),
                names_upto(table@, iv, k as nat) == Ok::<Map<usize, Seq<char>>, Error>(names_view(&names)),
            decreases infos@.len() - k,
        {
            let info = &infos[k];
            assert(iv[k as int] == info.view());
            if info.filename_offset > size || info.filename_length > size - info.filename_offset {
                proof {
                    lemma_names_error_stays(table@, iv, (k + 1) as nat, infos@.len());
                }
                return Err(Error::InvalidName(info.filename_offset));
            }
            proof {
                lemma_names_error_stays(table@, iv, (k + 1) as nat, infos@.len());
            }
            let text = trim_bytes(table, info.filename_offset, info.filename_offset + info.filename_length);
            let name = match string_from_utf8(text) {
                Some(t) => t,
                None => return Err(Error::InvalidName(info.filename_offset)),
            };
            let ghost before = names_view(&names);
            names.insert(info.filename_offset, name);
            assert(names_view(&names) =~= before.insert(info.filename_offset, name@));
            k += 1;
        }
        assert(iv.len() == infos@.len());
        Ok(names)
    }

    /// Rebuilds the directory named `name` from record `*index` on, moving
    /// `*index` past every record its subtree uses.
    pub fn build_directory(
        name: String,
        index: &mut usize,
        records: &Vec<Record>,
        infos: &Vec<Info>,
        names: &HashMap<usize, String>,
    ) -> (r: Result<Node, Error>)
        ensures
            r is Ok <==> dir_tree(records@, infos_view(infos@), names_view(names), name@, *old(index) as int) is Ok,
            r matches Ok(n) ==> dir_tree(records@, infos_view(infos@), names_view(names), name@, *old(index) as int)
                == Ok::<(Entry, int), Error>((n.view(), *final(index) as int))
                && *old(index) < *final(index) <= records@.len(),
            r matches Err(e) ==> dir_tree(records@, infos_view(infos@), names_view(names), name@, *old(index) as int)
                == Err::<(Entry, int), Error>(e),
        decreases records@.len() - *old(index),
    {
        let ghost rv = records@;
        let ghost iv = infos_view(infos@);
        let ghost nv = names_view(names);
        if *index >= records.len() {
            return Err(Error::InvalidRecord(*index));
        }
        let ghost entry = *index as int;
        let record = records[*index];
        *index += 1;
        assert(dir_tree(rv, iv, nv, name@, entry) == match child_trees(rv, iv, nv, record, 0, entry + 1) {
            Ok((c, next)) => Ok((Entry::Dir(name@, c), next)),
            Err(e) => Err(e),
        });
        let mut children: Vec<Node> = Vec::new();
        let mut i: usize = 0;
        assert(nodes_view(children@) =~= Seq::<Entry>::empty());
        while i < record.info_count
            invariant
                rv == records@,
                iv == infos_view(infos@),
                nv == names_view(names),
                0 <= entry < records@.len(),
                record == records@[entry],
                i <= record.info_count,
                i > 0 ==> record.info_offset + i <= infos@.len(),
                iv.len() == infos@.len(),
                entry == *old(index),
                entry < *index <= records@.len(),
                child_trees(rv, iv, nv, record, 0, entry + 1) == match child_trees(rv, iv, nv, record, i as nat, *index as int) {
                    Ok((rest, next)) => Ok((nodes_view(children@) + rest, next)),
                    Err(e) => Err(e),
                },
            decreases record.info_count - i,
        {
            if record.info_offset >= infos.len() || i >= infos.len() - record.info_offset {
                return Err(Error::InvalidInfo(record.info_offset + i));
            }
            let info = &infos[record.info_offset + i];
            assert(iv[record.info_offset + i] == info.view());
            let child_name = match names.get(&info.filename_offset) {
                Some(t) => t.clone(),
                None => return Err(Error::InvalidName(info.filename_offset)),
            };
            let ghost old_children = children@;
            let ghost cur = *index as int;
            assert(nv.contains_key(info.filename_offset) && nv[info.filename_offset] == child_name@);
            if info.kind == InfoKind::File {
                let node = Node::File(child_name, info.file_offset, info.file_real_size);
                let ghost fe = node.view();
                children.push(node);
                assert(children@.drop_last() =~= old_children);
                assert(nodes_view(children@) == nodes_view(old_children).push(fe));
                proof {
                    match child_trees(rv, iv, nv, record, (i + 1) as nat, cur) {
                        Ok((rest, next)) => {
                            assert(nodes_view(old_children) + (seq![fe] + rest) =~= nodes_view(children@) + rest);
                        },
                        Err(_) => {},
                    }
                }
            } else {
                let node = Self::build_directory(child_name, index, records, infos, names)?;
                let ghost de = node.view();
                children.push(node);
                assert(children@.drop_last() =~= old_children);
                assert(nodes_view(children@) == nodes_view(old_children).push(de));
                proof {
                    match child_trees(rv, iv, nv, record, (i + 1) as nat, *index as int) {
                        Ok((rest, next)) => {
                            assert(nodes_view(old_children) + (seq![de] + rest) =~= nodes_view(children@) + rest);
                        },
                        Err(_) => {},
                    }
                }
            }
            i += 1;
        }
        Ok(Node::Directory(name, children))
    }

    /// The children of the root directory.
    pub fn root(&self) -> (r: Result<&Vec<Node>, Error>)
        ensures
            self.root matches Node::Directory(_, c) ==> r == Ok::<&Vec<Node>, Error>(&c),
            self.root is File ==> r == Err::<&Vec<Node>, Error>(Error::InvalidNodeKind),
    {
        match &self.root {
            Node::Directory(_, children) => Ok(children),
            Node::File(_, _, _) => Err(Error::InvalidNodeKind),
        }
    }
}

} // verus!
