//! Record-stream parsing: layout, the skipped middle field, and
//! truncation as end of stream.

use mflac_dec::decryptor::embedded_track_name;
use mflac_dec::records::parse_next_kv;
use mflac_dec::varint::encode_varint;

fn record(name: &[u8], ignored: &[u8], blob: &[u8]) -> Vec<u8> {
    let mut out = Vec::new();
    out.extend_from_slice(&encode_varint(name.len()));
    out.extend_from_slice(name);
    out.extend_from_slice(&encode_varint(ignored.len()));
    out.extend_from_slice(ignored);
    out.extend_from_slice(&encode_varint(blob.len()));
    out.extend_from_slice(blob);
    out
}

#[test]
fn test_parse_single_record() {
    let stream = record(b"T1", b"", b"keyblob");
    let (rest, name, blob) = parse_next_kv(&stream).unwrap();
    assert_eq!(name, b"T1");
    assert_eq!(blob, b"keyblob");
    assert!(rest.is_empty());
}

#[test]
fn test_parse_skips_middle_field() {
    let stream = record(b"name", b"reserved-stuff", b"blob");
    let (rest, name, blob) = parse_next_kv(&stream).unwrap();
    assert_eq!(name, b"name");
    assert_eq!(blob, b"blob");
    assert!(rest.is_empty());
}

#[test]
fn test_parse_two_records_in_order() {
    let mut stream = record(b"first", b"", b"k1");
    stream.extend_from_slice(&record(b"second", b"x", b"k2"));
    let (rest, name, blob) = parse_next_kv(&stream).unwrap();
    assert_eq!(name, b"first");
    assert_eq!(blob, b"k1");
    let (rest2, name2, blob2) = parse_next_kv(rest).unwrap();
    assert_eq!(name2, b"second");
    assert_eq!(blob2, b"k2");
    assert!(rest2.is_empty());
    assert!(parse_next_kv(rest2).is_none());
}

#[test]
fn test_embedded_track_name_decoding() {
    // "T1" as little-endian UTF-16 code units, NUL-terminated, with
    // bytes after the terminator ignored.
    let region = [b'T', 0, b'1', 0, 0, 0, 0xAB, 0xCD];
    assert_eq!(embedded_track_name(&region), b"T1");
    // A code unit with a high byte keeps only its low byte.
    assert_eq!(embedded_track_name(&[0x41, 0x03, 0, 0]), vec![0x41]);
    // No terminator: the name runs to the last whole code unit.
    assert_eq!(embedded_track_name(&[b'A', 0, b'B']), vec![b'A']);
    assert_eq!(embedded_track_name(&[]), Vec::<u8>::new());
}

#[test]
fn test_truncated_stream_is_end_not_error() {
    // A name length that promises more bytes than remain.
    let stream = vec![0x10u8, b'a', b'b'];
    assert!(parse_next_kv(&stream).is_none());
    // A varint cut off mid-way.
    assert!(parse_next_kv(&[0x80u8]).is_none());
    // An empty stream.
    assert!(parse_next_kv(&[]).is_none());
}
