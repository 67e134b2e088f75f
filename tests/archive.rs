use std::collections::HashMap;

use unpacker::bytes::{read_slice, read_str, read_u16, read_u32, read_u32_be, read_u64, clone_into_array};
use unpacker::error::Error;
use unpacker::lzss::decode;
use unpacker::metadata::{ArchiveHeader, Info, InfoKind, Metadata, Node, Record};

fn le32(v: u32) -> Vec<u8> {
    v.to_le_bytes().to_vec()
}

fn record(info_offset: u32, info_count: u32) -> Vec<u8> {
    let mut b = Vec::new();
    b.extend(le32(0));
    b.extend(le32(0));
    b.extend(le32(info_offset));
    b.extend(le32(info_count));
    b.extend(vec![0u8; 4]);
    b.extend(le32(0));
    b.extend(vec![0u8; 8]);
    b
}

fn info(is_file: bool, name_offset: u32, name_length: u32, file_offset: u32, size: u32) -> Vec<u8> {
    let mut b = vec![0u8, 0u8];
    b.extend((if is_file { 1u16 } else { 0u16 }).to_le_bytes());
    b.extend(le32(name_offset));
    b.extend(le32(name_length));
    b.extend(le32(file_offset));
    b.extend(le32(size));
    b.extend(vec![0u8; 4]);
    b.extend(le32(0));
    b.extend(le32(size));
    b.extend(vec![0u8; 32]);
    b
}

fn index(records: &[Vec<u8>], infos: &[Vec<u8>], names: &[u8], total: u32) -> Vec<u8> {
    let mut b = Vec::new();
    b.extend(le32(records.len() as u32));
    b.extend(le32(infos.len() as u32));
    b.extend(le32(names.len() as u32));
    b.extend(le32(total));
    b.extend(vec![0u8; 16]);
    for r in records {
        b.extend(r.iter().copied());
    }
    for i in infos {
        b.extend(i.iter().copied());
    }
    b.extend(names.iter().copied());
    b
}

fn sample_index() -> Vec<u8> {
    // names: "a.bin" at 0, "b.bin" at 6, "sub" at 12, "c.bin" at 16
    let names = b"a.bin b.bin sub c.bin ";
    index(
        &[record(0, 3), record(3, 1)],
        &[
            info(true, 0, 5, 0, 10),
            info(true, 6, 6, 10, 20),
            info(false, 12, 3, 0, 0),
            info(true, 16, 5, 30, 5),
        ],
        names,
        35,
    )
}

#[test]
fn tree_keeps_info_order() {
    let buf = sample_index();
    let mut offset = 0usize;
    let meta = Metadata::read(&buf, &mut offset, String::from("data")).unwrap();
    let root = meta.root().unwrap();
    assert_eq!(root.len(), 3);
    assert_eq!(
        root,
        &vec![
            Node::File(String::from("a.bin"), 0, 10),
            Node::File(String::from("b.bin"), 10, 20),
            Node::Directory(String::from("sub"), vec![Node::File(String::from("c.bin"), 30, 5)]),
        ]
    );
    assert_eq!(
        meta.header,
        ArchiveHeader { record_count: 2, file_count: 4, name_table_size: 22, archive_total_size: 35 }
    );
    match &meta.root {
        Node::Directory(name, _) => assert_eq!(name, "data"),
        Node::File(_, _, _) => panic!("root is a directory"),
    }
}

fn plain_info(kind: InfoKind, filename_offset: usize, file_offset: usize, file_real_size: usize) -> Info {
    Info {
        record_id: 0,
        kind,
        file_offset,
        file_real_size,
        file_full_size: file_real_size,
        filename_offset,
        filename_length: 0,
        sha_256: [0u8; 32],
    }
}

#[test]
fn cursor_consumes_one_record_per_directory() {
    let records = vec![
        Record { id: 0, parent_id: 0, info_offset: 0, info_count: 3, directory_info_offset: 0 },
        Record { id: 1, parent_id: 0, info_offset: 3, info_count: 1, directory_info_offset: 0 },
    ];
    let infos = vec![
        plain_info(InfoKind::File, 0, 0, 10),
        plain_info(InfoKind::File, 6, 10, 20),
        plain_info(InfoKind::Directory, 12, 0, 0),
        plain_info(InfoKind::File, 16, 30, 5),
    ];
    let mut names = HashMap::new();
    names.insert(0usize, String::from("a.bin"));
    names.insert(6usize, String::from("b.bin"));
    names.insert(12usize, String::from("sub"));
    names.insert(16usize, String::from("c.bin"));
    let mut cursor = 0usize;
    let root = Metadata::build_directory(String::from("root"), &mut cursor, &records, &infos, &names).unwrap();
    assert_eq!(cursor, 2);
    match root {
        Node::Directory(_, children) => assert_eq!(children.len(), 3),
        Node::File(_, _, _) => panic!("root is a directory"),
    }
}

#[test]
fn shared_cursor_across_siblings() {
    // root: dir x, dir y; x and y each hold one file
    let records = vec![
        Record { id: 0, parent_id: 0, info_offset: 0, info_count: 2, directory_info_offset: 0 },
        Record { id: 1, parent_id: 0, info_offset: 2, info_count: 1, directory_info_offset: 0 },
        Record { id: 2, parent_id: 0, info_offset: 3, info_count: 1, directory_info_offset: 0 },
    ];
    let infos = vec![
        plain_info(InfoKind::Directory, 0, 0, 0),
        plain_info(InfoKind::Directory, 1, 0, 0),
        plain_info(InfoKind::File, 2, 1, 1),
        plain_info(InfoKind::File, 3, 2, 2),
    ];
    let mut names = HashMap::new();
    for (k, n) in ["x", "y", "f", "g"].iter().enumerate() {
        names.insert(k, String::from(*n));
    }
    let mut cursor = 0usize;
    let root = Metadata::build_directory(String::from("r"), &mut cursor, &records, &infos, &names).unwrap();
    assert_eq!(cursor, 3);
    assert_eq!(
        root,
        Node::Directory(
            String::from("r"),
            vec![
                Node::Directory(String::from("x"), vec![Node::File(String::from("f"), 1, 1)]),
                Node::Directory(String::from("y"), vec![Node::File(String::from("g"), 2, 2)]),
            ]
        )
    );
}

#[test]
fn missing_record_is_an_error() {
    let records = vec![Record { id: 0, parent_id: 0, info_offset: 0, info_count: 1, directory_info_offset: 0 }];
    let infos = vec![plain_info(InfoKind::Directory, 0, 0, 0)];
    let mut names = HashMap::new();
    names.insert(0usize, String::from("d"));
    let mut cursor = 0usize;
    let r = Metadata::build_directory(String::from("r"), &mut cursor, &records, &infos, &names);
    assert_eq!(r, Err(Error::InvalidRecord(1)));
}

#[test]
fn missing_info_is_an_error() {
    let buf = index(&[record(0, 2)], &[info(true, 0, 1, 0, 1)], b"a", 1);
    let r = Metadata::read(&buf, &mut 0usize, String::from("data"));
    assert_eq!(r.unwrap_err(), Error::InvalidInfo(1));
}

#[test]
fn name_outside_table_is_an_error() {
    let buf = index(&[record(0, 1)], &[info(true, 4, 3, 0, 1)], b"abc", 1);
    let r = Metadata::read(&buf, &mut 0usize, String::from("data"));
    assert_eq!(r.unwrap_err(), Error::InvalidName(4));
}

#[test]
fn truncated_index_is_an_error() {
    let buf = sample_index();
    assert_eq!(Metadata::read(&buf[..20], &mut 0usize, String::from("d")).unwrap_err(), Error::UnexpectedEnd(0));
    assert_eq!(Metadata::read(&buf[..40], &mut 0usize, String::from("d")).unwrap_err(), Error::UnexpectedEnd(32));
    assert_eq!(Metadata::read(&buf[..100], &mut 0usize, String::from("d")).unwrap_err(), Error::UnexpectedEnd(96));
    assert_eq!(Metadata::read(&buf[..360], &mut 0usize, String::from("d")).unwrap_err(), Error::UnexpectedEnd(352));
}

#[test]
fn root_that_is_a_file_is_an_error() {
    let meta = Metadata {
        header: ArchiveHeader { record_count: 0, file_count: 0, name_table_size: 0, archive_total_size: 0 },
        root: Node::File(String::from("x"), 0, 0),
    };
    assert_eq!(meta.root(), Err(Error::InvalidNodeKind));
}

#[test]
fn names_are_trimmed_and_later_names_win() {
    let names_tbl = b"  a.bin \tlong.bin";
    let buf = index(
        &[record(0, 2)],
        &[info(true, 0, 8, 0, 1), info(true, 0, 5, 1, 1)],
        names_tbl,
        2,
    );
    let meta = Metadata::read(&buf, &mut 0usize, String::from("data")).unwrap();
    assert_eq!(
        meta.root().unwrap(),
        &vec![Node::File(String::from("a.b"), 0, 1), Node::File(String::from("a.b"), 1, 1)]
    );
    let mut offset = 32 + 32 + 128;
    let infos = vec![plain_info(InfoKind::File, 8, 0, 0)];
    let mut one = infos.clone();
    one[0].filename_length = 9;
    let names = Metadata::build_filenames(&buf, &mut offset, 17, &one).unwrap();
    assert_eq!(names.get(&8usize), Some(&String::from("long.bin")));
}

#[test]
fn invalid_utf8_name_is_an_error() {
    let buf = index(&[record(0, 1)], &[info(true, 0, 2, 0, 1)], &[0xC3, 0x28], 1);
    assert_eq!(Metadata::read(&buf, &mut 0usize, String::from("d")).unwrap_err(), Error::InvalidName(0));
}

fn literal_stream(preamble: usize, bytes: &[u8]) -> Vec<u8> {
    let mut b = vec![0u8; preamble];
    for chunk in bytes.chunks(8) {
        b.push(0xFF);
        b.extend(chunk.iter().copied());
    }
    b
}

#[test]
fn literals_decode_to_themselves() {
    assert_eq!(decode(&literal_stream(4, b"hello")).unwrap(), b"hello".to_vec());
    assert_eq!(decode(&literal_stream(4, b"abcdefghij")).unwrap(), b"abcdefghij".to_vec());
}

#[test]
fn short_input_decodes_to_nothing() {
    assert_eq!(decode(&[1, 2, 3]).unwrap(), Vec::<u8>::new());
    assert_eq!(decode(&[0, 0, 0, 0, 0xFF]).unwrap(), Vec::<u8>::new());
}

#[test]
fn match_copies_from_window() {
    // "abc" as literals land at window 0xFEE..0xFF0; a match of length 3
    // at 0xFEE repeats them, a match of length 6 reads its own output.
    let mut b = vec![0u8; 4];
    b.push(0b0000_0111);
    b.extend(b"abc");
    b.push(0xEE);
    b.push(0xF0);
    b.push(0xEE);
    b.push(0xF3);
    assert_eq!(decode(&b).unwrap(), b"abcabcabcabc".to_vec());
}

#[test]
fn match_before_any_output_reads_zeros() {
    let b = vec![0u8, 0, 0, 0, 0x00, 0x00, 0x00];
    assert_eq!(decode(&b).unwrap(), vec![0u8, 0, 0]);
}

#[test]
fn truncated_match_descriptor_is_reported() {
    let b = vec![0u8, 0, 0, 0, 0b0000_0001, b'x', 0xEE];
    assert_eq!(decode(&b), Err(Error::InvalidDecodeLength(6, 7)));
}

#[test]
fn decoding_is_repeatable() {
    let mut b = literal_stream(4, b"repeat me");
    b.extend([0x00, 0xEE, 0xF2]);
    let first = decode(&b);
    let second = decode(&b);
    assert_eq!(first, second);
    assert_eq!(first.unwrap().len(), second.unwrap().len());
}

#[test]
fn integer_readers() {
    let b = [0x01u8, 0x02, 0x03, 0x04, 0x05, 0x06, 0x07, 0x08];
    let mut o = 0usize;
    assert_eq!(read_u32(&b, &mut o), Ok(0x04030201));
    assert_eq!(o, 4);
    let mut o = 0usize;
    assert_eq!(read_u32_be(&b, &mut o), Ok(0x01020304));
    let mut o = 0usize;
    assert_eq!(read_u64(&b, &mut o), Ok(0x0807060504030201));
    let mut o = 6usize;
    assert_eq!(read_u16(&b, &mut o), Ok(0x0807));
    assert_eq!(o, 8);
    assert_eq!(read_u16(&b, &mut o), Err(Error::UnexpectedEnd(8)));
    assert_eq!(o, 8);
    let mut o = 7usize;
    assert_eq!(read_u32(&b, &mut o), Err(Error::UnexpectedEnd(7)));
    assert_eq!(o, 7);
    let mut o = 2usize;
    assert_eq!(read_slice(&b, &mut o, 3), Ok(&b[2..5]));
    assert_eq!(o, 5);
    let arr: [u8; 4] = clone_into_array(&b[0..4]);
    assert_eq!(arr, [1, 2, 3, 4]);
}

#[test]
fn text_field_is_sanitized_and_trimmed() {
    let mut field = b"  NAME\x01.BIN".to_vec();
    field.resize(48, 0);
    let mut o = 0usize;
    assert_eq!(read_str(&field, &mut o, 48), Ok(String::from("NAME .BIN")));
    assert_eq!(o, 48);
    let mut o = 0usize;
    assert_eq!(read_str(&field, &mut o, 49), Err(Error::UnexpectedEnd(0)));
}
