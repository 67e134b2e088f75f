use unpacker::error::Error;
use unpacker::metadata::{Metadata, Node};
use unpacker::paths::{extension, get_base_path, remove_ext, replace_ext};
use unpacker::unpack::{
    classify, decode_buffer, decode_entry, get_tm2_header_offset, has_tm2_header, process_buffer, process_file,
    read_header, EntryKind, FileEntry, OutputFile,
};

fn le32(v: u32) -> Vec<u8> {
    v.to_le_bytes().to_vec()
}

/// A compressed stream of literals behind `preamble` bytes.
fn literal_stream(preamble: usize, bytes: &[u8]) -> Vec<u8> {
    let mut b = vec![0u8; preamble];
    for chunk in bytes.chunks(8) {
        b.push(0xFF);
        b.extend(chunk.iter().copied());
    }
    b
}

/// A nested archive table with the given (offset, size, number, name) entries.
fn table(entries: &[(u32, u32, u32, &str)]) -> Vec<u8> {
    let mut b = (entries.len() as u16).to_le_bytes().to_vec();
    for (k, (offset, size, num, name)) in entries.iter().enumerate() {
        b.extend(vec![0u8; if k == 0 { 2 } else { 4 }]);
        b.extend(le32(*offset));
        b.extend(le32(*size));
        b.extend(le32(*num));
        let mut n = name.as_bytes().to_vec();
        n.resize(48, 0);
        b.extend(n);
    }
    b
}

#[test]
fn end_to_end_single_compressed_file() {
    // index: one record (the root) with one file child "msg.lzs"
    let name = b"msg.lzs";
    let payload = literal_stream(8, b"hello");
    let mut idx = Vec::new();
    idx.extend(le32(1));
    idx.extend(le32(1));
    idx.extend(le32(name.len() as u32));
    idx.extend(le32(payload.len() as u32));
    idx.extend(vec![0u8; 16]);
    idx.extend(le32(0));
    idx.extend(le32(0));
    idx.extend(le32(0));
    idx.extend(le32(1));
    idx.extend(vec![0u8; 16]);
    idx.extend([0u8, 0u8, 1u8, 0u8]);
    idx.extend(le32(0));
    idx.extend(le32(name.len() as u32));
    idx.extend(le32(0));
    idx.extend(le32(payload.len() as u32));
    idx.extend(vec![0u8; 4]);
    idx.extend(le32(0));
    idx.extend(le32(5));
    idx.extend(vec![0u8; 32]);
    idx.extend(name.iter().copied());

    let meta = Metadata::read(&idx, &mut 0usize, String::from("data")).unwrap();
    let nodes = meta.root().unwrap();
    assert_eq!(nodes.len(), 1);
    let (file_name, offset, size) = match &nodes[0] {
        Node::File(n, o, s) => (n.clone(), *o, *s),
        Node::Directory(_, _) => panic!("expected a file"),
    };
    let out = process_file(&file_name, &payload[offset..offset + size], false).unwrap();
    assert_eq!(out.files, vec![OutputFile { path: String::from("msg.lzs"), data: b"hello".to_vec() }]);
    assert!(out.warnings.is_empty());
}

#[test]
fn classification_by_extension() {
    assert_eq!(classify("dir/a.lzs"), EntryKind::CompressedArchive);
    assert_eq!(classify("a.tm2"), EntryKind::Image);
    assert_eq!(classify("a.bin"), EntryKind::Raw);
    assert_eq!(classify("noext"), EntryKind::Raw);
    assert_eq!(classify(".lzs"), EntryKind::Raw);
    assert_eq!(classify("x.lzs/y"), EntryKind::Raw);
}

#[test]
fn path_helpers() {
    assert_eq!(get_base_path("a/b/c.lzs"), Ok(String::from("a/b/")));
    assert_eq!(get_base_path("c.lzs"), Ok(String::from("")));
    assert_eq!(get_base_path("a/"), Err(Error::NoBasePath));
    assert_eq!(remove_ext("a/b/c.tar.lzs"), Ok(String::from("a/b/c.tar")));
    assert_eq!(remove_ext("a/.hidden"), Ok(String::from("a/.hidden")));
    assert_eq!(remove_ext(""), Err(Error::NoBasePath));
    assert_eq!(replace_ext("a/b.bin", "tm2"), Ok(String::from("a/b.tm2")));
    assert_eq!(replace_ext("noext", "png"), Ok(String::from("noext.png")));
    assert_eq!(extension("a/b.tm2"), Some(String::from("tm2")));
    assert_eq!(extension("a.b/c"), None);
}

#[test]
fn magic_detection() {
    assert!(has_tm2_header(b"TIM2"));
    assert!(!has_tm2_header(b"TIM3"));
    assert!(!has_tm2_header(b"TIM2x"));
    let mut b = vec![0u8; 16];
    assert_eq!(get_tm2_header_offset(&b), None);
    b[5..9].copy_from_slice(b"TIM2");
    assert_eq!(get_tm2_header_offset(&b), Some(4));
    let mut c = vec![0u8; 16];
    c[9..13].copy_from_slice(b"TIM2");
    assert_eq!(get_tm2_header_offset(&c), Some(8));
    assert_eq!(get_tm2_header_offset(&c[..15]), None);
}

#[test]
fn wrapped_image_is_decoded() {
    let mut b = vec![0u8; 5];
    b.extend(b"TIM2");
    b.extend([0xFFu8, b'a', b'b', b'c', b'd', b'e', b'f', b'g', b'h']);
    assert_eq!(get_tm2_header_offset(&b), Some(4));
    assert_eq!(decode_buffer(&b), unpacker::lzss::decode(&b[4..]));
    assert_eq!(decode_buffer(b"plain"), Ok(b"plain".to_vec()));
}

#[test]
fn image_entry_is_unwrapped() {
    let raw = b"0123456789abcdefXYZ".to_vec();
    let out = process_file("x/pic.tm2", &raw, true).unwrap();
    assert_eq!(out.files, vec![OutputFile { path: String::from("x/pic.tm2"), data: raw.clone() }]);
    let out = process_file("x/data.bin", &raw, true).unwrap();
    assert_eq!(out.files[0].data, raw);
}

#[test]
fn nested_archive_with_several_entries() {
    // two entries: a raw text and an image container wrapped in compression
    let first = b"text".to_vec();
    let second = b"TIM2abcd".to_vec();
    let header_len = 2 + 62 + 64;
    let t = table(&[
        (header_len as u32, first.len() as u32, 0, "one.txt"),
        ((header_len + first.len()) as u32, second.len() as u32, 1, "two.bin"),
    ]);
    let mut nested = t.clone();
    nested.extend(first.iter().copied());
    nested.extend(second.iter().copied());
    assert_eq!(nested.len(), header_len + first.len() + second.len());

    let mut offset = 0usize;
    let entries = read_header(&nested, &mut offset).unwrap();
    assert_eq!(entries.len(), 2);
    assert_eq!(entries[1], FileEntry { offset: 132, size: 8, name: String::from("two.bin") });
    assert_eq!(decode_entry(&nested, &entries[0]), Ok(b"text".to_vec()));

    let out = process_buffer("dir/pack.lzs", &nested).unwrap();
    assert_eq!(
        out.files,
        vec![
            OutputFile { path: String::from("dir/pack/one.txt"), data: b"text".to_vec() },
            OutputFile { path: String::from("dir/pack/two.tm2"), data: b"TIM2abcd".to_vec() },
        ]
    );
    assert!(out.warnings.is_empty());

    // the same, compressed behind the 4+4 byte preamble and read recursively
    let packed = literal_stream(8, &nested);
    let out = process_file("dir/pack.lzs", &packed, true).unwrap();
    assert_eq!(out.files.len(), 2);
    assert_eq!(out.files[0].path, "dir/pack/one.txt");
}

#[test]
fn nested_archive_with_one_entry_goes_beside_it() {
    let mut nested = table(&[(64, 3, 0, "only.dat")]);
    nested.extend(b"xyz");
    let out = process_buffer("dir/pack.lzs", &nested).unwrap();
    assert_eq!(out.files, vec![OutputFile { path: String::from("dir/only.dat"), data: b"xyz".to_vec() }]);
}

#[test]
fn wrong_sequence_number_is_a_warning() {
    let mut nested = table(&[(64, 3, 7, "only.dat")]);
    nested.extend(b"xyz");
    let mut offset = 0usize;
    assert_eq!(read_header(&nested, &mut offset), Err(Error::InvalidFileNum(7, 0)));
    let out = process_buffer("dir/pack.lzs", &nested).unwrap();
    assert!(out.files.is_empty());
    assert_eq!(out.warnings, vec![Error::InvalidFileNum(7, 0)]);
}

#[test]
fn truncated_entry_is_skipped_with_a_warning() {
    let bad = vec![0u8, 0, 0, 0, 0, 0, 0, 0, 0x00, 0x10];
    let out = process_file("a.lzs", &bad, false).unwrap();
    assert!(out.files.is_empty());
    assert_eq!(out.warnings, vec![Error::InvalidDecodeLength(5, 6)]);

    let mut nested = table(&[(128, 3, 0, "a.bin"), (200, 3, 1, "b.bin")]);
    nested.extend(b"xyz");
    let out = process_buffer("p.lzs", &nested).unwrap();
    assert_eq!(out.files, vec![OutputFile { path: String::from("p/a.bin"), data: b"xyz".to_vec() }]);
    assert_eq!(out.warnings, vec![Error::UnexpectedEnd(200)]);
}

#[test]
fn decompressed_image_gets_image_extension() {
    let packed = literal_stream(8, b"TIM2 image bytes");
    let out = process_file("img.lzs", &packed, false).unwrap();
    assert_eq!(out.files, vec![OutputFile { path: String::from("img.tm2"), data: b"TIM2 image bytes".to_vec() }]);
    let out = process_file("d/img.lzs", &packed, true).unwrap();
    assert_eq!(out.files, vec![OutputFile { path: String::from("d/img.tm2"), data: b"TIM2 image bytes".to_vec() }]);
}

#[test]
fn non_recursive_keeps_recorded_name() {
    let packed = literal_stream(8, b"plain bytes");
    let out = process_file("x/blob.lzs", &packed, false).unwrap();
    assert_eq!(out.files, vec![OutputFile { path: String::from("x/blob.lzs"), data: b"plain bytes".to_vec() }]);
}

#[test]
fn truncated_table_is_reported() {
    let t = table(&[(64, 3, 0, "a.bin")]);
    let mut offset = 0usize;
    assert_eq!(read_header(&t[..30], &mut offset), Err(Error::UnexpectedEnd(2)));
    let mut offset = 0usize;
    assert_eq!(read_header(&t[..1], &mut offset), Err(Error::UnexpectedEnd(0)));
}
