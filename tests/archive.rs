use grimarz::format::{Entry, Error};
use grimarz::reader::{read_entries, read_header, read_strings, Reader};
use grimarz::stream::{ByteStream, IoError};

fn push_u16(out: &mut Vec<u8>, v: u16) {
    out.extend_from_slice(&v.to_le_bytes());
}

fn push_u32(out: &mut Vec<u8>, v: u32) {
    out.extend_from_slice(&v.to_le_bytes());
}

fn push_u64(out: &mut Vec<u8>, v: u64) {
    out.extend_from_slice(&v.to_le_bytes());
}

fn push_str(out: &mut Vec<u8>, s: &[u8]) {
    push_u32(out, s.len() as u32);
    out.extend_from_slice(s);
}

struct Rec<'a> {
    path_index: u32,
    record_type: &'a [u8],
    offset: u32,
    compressed: u32,
    uncompressed: u32,
    time: u64,
}

fn push_record(out: &mut Vec<u8>, r: &Rec) {
    push_u32(out, r.path_index);
    push_str(out, r.record_type);
    push_u32(out, r.offset);
    push_u32(out, r.compressed);
    push_u32(out, r.uncompressed);
    push_u64(out, r.time);
}

/// An archive with the header, then the record table, then the string table.
fn build(id: u16, version: u16, strings: &[&[u8]], records: &[Rec], claimed: u32) -> Vec<u8> {
    let mut recs = Vec::new();
    for r in records {
        push_record(&mut recs, r);
    }
    let mut strs = Vec::new();
    push_u32(&mut strs, strings.len() as u32);
    for s in strings {
        push_str(&mut strs, s);
    }
    let mut out = Vec::new();
    push_u16(&mut out, id);
    push_u16(&mut out, version);
    push_u32(&mut out, 24);
    push_u32(&mut out, recs.len() as u32);
    push_u32(&mut out, claimed);
    push_u32(&mut out, 24 + recs.len() as u32);
    push_u32(&mut out, strs.len() as u32);
    out.extend_from_slice(&recs);
    out.extend_from_slice(&strs);
    out
}

fn rec(path_index: u32, record_type: &[u8], offset: u32) -> Rec<'_> {
    Rec { path_index, record_type, offset, compressed: 5, uncompressed: 8, time: 123456789 }
}

fn parse(bytes: Vec<u8>) -> Result<Vec<(String, String, u32, u32, u32, u64)>, Error> {
    match Reader::new(ByteStream::new(bytes)) {
        Ok(r) => Ok(r.entries().iter().map(fields).collect()),
        Err(e) => Err(e),
    }
}

fn fields(e: &Entry) -> (String, String, u32, u32, u32, u64) {
    (
        e.path.clone(),
        e.record_type.clone(),
        e.offset,
        e.compressed_size,
        e.uncompressed_size,
        e.file_time,
    )
}

#[test]
fn valid_minimal_archive() {
    let bytes = build(2, 3, &[b"hello"], &[rec(0, b"TAG", 10)], 1);
    let entries = parse(bytes).ok().unwrap();
    assert_eq!(
        entries,
        vec![("hello".to_string(), "TAG".to_string(), 10, 5, 8, 123456789)]
    );
}

#[test]
fn bad_magic_is_unsupported() {
    let mut bytes = vec![9, 0, 3, 0];
    bytes.extend_from_slice(&[0xAB; 40]);
    assert_eq!(parse(bytes).err(), Some(Error::UnsupportedFormat));
}

#[test]
fn bad_version_is_unsupported() {
    let bytes = build(2, 4, &[b"hello"], &[rec(0, b"TAG", 10)], 1);
    assert_eq!(parse(bytes).err(), Some(Error::UnsupportedFormat));
}

#[test]
fn dangling_index_with_empty_pool() {
    let bytes = build(2, 3, &[], &[rec(0, b"TAG", 10)], 1);
    assert_eq!(parse(bytes).err(), Some(Error::InvalidStringIndex(0)));
}

#[test]
fn index_equal_to_pool_length_is_rejected() {
    let bytes = build(2, 3, &[b"a", b"b"], &[rec(1, b"T", 0), rec(2, b"T", 0)], 2);
    assert_eq!(parse(bytes).err(), Some(Error::InvalidStringIndex(2)));
}

#[test]
fn large_index_carries_its_value() {
    let bytes = build(2, 3, &[b"a"], &[rec(0x0102_0304, b"T", 0)], 1);
    assert_eq!(parse(bytes).err(), Some(Error::InvalidStringIndex(0x0102_0304)));
}

#[test]
fn truncated_record_table() {
    let records = [rec(0, b"A", 1), rec(0, b"B", 2)];
    let mut bytes = Vec::new();
    push_u16(&mut bytes, 2);
    push_u16(&mut bytes, 3);
    push_u32(&mut bytes, 24 + 4 + 5);
    push_u32(&mut bytes, 0);
    push_u32(&mut bytes, 5);
    push_u32(&mut bytes, 24);
    push_u32(&mut bytes, 0);
    push_u32(&mut bytes, 1);
    push_str(&mut bytes, b"x");
    for r in &records {
        push_record(&mut bytes, r);
    }
    assert_eq!(parse(bytes).err(), Some(Error::Io(IoError::UnexpectedEof)));
}

#[test]
fn truncated_header() {
    assert_eq!(parse(vec![2, 0, 3, 0, 1]).err(), Some(Error::Io(IoError::UnexpectedEof)));
    assert_eq!(parse(Vec::new()).err(), Some(Error::Io(IoError::UnexpectedEof)));
}

#[test]
fn short_header_with_bad_magic_is_io() {
    assert_eq!(parse(vec![9, 0, 3, 0]).err(), Some(Error::Io(IoError::UnexpectedEof)));
}

#[test]
fn truncated_string_table() {
    let mut bytes = build(2, 3, &[b"hello"], &[rec(0, b"TAG", 10)], 1);
    bytes.pop();
    assert_eq!(parse(bytes).err(), Some(Error::Io(IoError::UnexpectedEof)));
}

#[test]
fn string_table_past_the_end() {
    let mut bytes = build(2, 3, &[], &[], 0);
    bytes[16..20].copy_from_slice(&1000u32.to_le_bytes());
    assert_eq!(parse(bytes).err(), Some(Error::Io(IoError::UnexpectedEof)));
}

#[test]
fn empty_tables() {
    let bytes = build(2, 3, &[], &[], 0);
    assert_eq!(parse(bytes).ok().unwrap(), vec![]);
}

#[test]
fn records_keep_table_order_and_resolve_paths() {
    let bytes = build(
        2,
        3,
        &[b"zero", b"one", b"two"],
        &[rec(2, b"X", 300), rec(0, b"Y", 100), rec(2, b"Z", 200), rec(1, b"", 0)],
        4,
    );
    let entries = parse(bytes).ok().unwrap();
    let got: Vec<(String, String, u32)> =
        entries.into_iter().map(|e| (e.0, e.1, e.2)).collect();
    assert_eq!(
        got,
        vec![
            ("two".to_string(), "X".to_string(), 300),
            ("zero".to_string(), "Y".to_string(), 100),
            ("two".to_string(), "Z".to_string(), 200),
            ("one".to_string(), "".to_string(), 0),
        ]
    );
}

#[test]
fn little_endian_fields_decode() {
    let r = Rec {
        path_index: 0,
        record_type: b"T",
        offset: 0x0403_0201,
        compressed: 0xDEAD_BEEF,
        uncompressed: 0x0000_0100,
        time: 0x0102_0304_0506_0708,
    };
    let bytes = build(2, 3, &[b"p"], &[r], 1);
    let entries = parse(bytes).ok().unwrap();
    assert_eq!(
        entries,
        vec![("p".to_string(), "T".to_string(), 0x0403_0201, 0xDEAD_BEEF, 0x100, 0x0102_0304_0506_0708)]
    );
}

#[test]
fn invalid_utf8_is_replaced() {
    let bytes = build(2, 3, &[b"a\xFFb"], &[rec(0, b"T\xC3", 0)], 1);
    let entries = parse(bytes).ok().unwrap();
    assert_eq!(entries[0].0, "a\u{FFFD}b");
    assert_eq!(entries[0].1, "T\u{FFFD}");
}

#[test]
fn duplicate_strings_are_kept() {
    let mut bytes = build(2, 3, &[b"same", b"same", b"other"], &[], 0);
    let mut stream = ByteStream::new(std::mem::take(&mut bytes));
    let header = read_header(&mut stream).ok().unwrap();
    let pool = read_strings(&mut stream, &header).ok().unwrap();
    assert_eq!(pool, vec!["same".to_string(), "same".to_string(), "other".to_string()]);
}

#[test]
fn parsing_twice_gives_the_same_records() {
    let bytes = build(2, 3, &[b"a", b"b"], &[rec(1, b"X", 7), rec(0, b"Y", 9)], 2);
    let first = parse(bytes.clone()).ok().unwrap();
    let second = parse(bytes).ok().unwrap();
    assert_eq!(first, second);
}

#[test]
fn known_format_never_unsupported_whatever_follows() {
    for fill in [0u8, 1, 0x7F, 0xFF] {
        let mut bytes = vec![2, 0, 3, 0];
        bytes.extend_from_slice(&[fill; 60]);
        assert_ne!(parse(bytes).err(), Some(Error::UnsupportedFormat));
    }
}

#[test]
fn header_fields_and_position() {
    let bytes = build(2, 3, &[b"hello"], &[rec(0, b"TAG", 10)], 1);
    let mut stream = ByteStream::new(bytes);
    let h = read_header(&mut stream).ok().unwrap();
    assert_eq!((h.id, h.version), (2, 3));
    assert_eq!(h.record_table_start, 24);
    assert_eq!(h.record_table_entry_count, 1);
    assert_eq!(h.record_table_size, 4 + 4 + 3 + 20);
    assert_eq!(h.string_table_start, 24 + 31);
    assert_eq!(h.string_table_size, 4 + 4 + 5);
    assert_eq!(stream.position(), 24);
}

#[test]
fn bad_header_stops_after_the_header() {
    let bytes = build(7, 3, &[b"hello"], &[rec(0, b"TAG", 10)], 1);
    let mut stream = ByteStream::new(bytes);
    assert_eq!(read_header(&mut stream).err(), Some(Error::UnsupportedFormat));
    assert_eq!(stream.position(), 24);
}

#[test]
fn read_entries_with_given_pool() {
    let bytes = build(2, 3, &[], &[rec(1, b"K", 3)], 1);
    let mut stream = ByteStream::new(bytes);
    let header = read_header(&mut stream).ok().unwrap();
    let pool = vec!["p0".to_string(), "p1".to_string()];
    let entries = read_entries(&mut stream, header, &pool).ok().unwrap();
    assert_eq!(entries.len(), 1);
    assert_eq!(entries[0].path, "p1");
    assert_eq!(entries[0].record_type, "K");
}
