use loose_objects::address::path_for;
use loose_objects::header::{canonical_bytes, header_bytes, parse_size, Kind};
use loose_objects::object::{decode, parse_header, Object, ObjectError};
use loose_objects::store::{encode_and_store, load};
use std::io::Write;

fn compress(data: &[u8]) -> Vec<u8> {
    let mut e = flate2::write::ZlibEncoder::new(Vec::new(), flate2::Compression::default());
    e.write_all(data).unwrap();
    e.finish().unwrap()
}

#[test]
fn round_trip_text() {
    let payload = b"hello world\n".to_vec();
    let stored = encode_and_store(Kind::Blob, &payload, true);
    let placement = stored.placement.unwrap();
    let object = load(&placement.bytes).unwrap();
    assert_eq!(
        object,
        Object { kind: Kind::Blob, expected_size: 12, payload: payload.clone() }
    );
}

#[test]
fn round_trip_binary_with_nul() {
    let payload: Vec<u8> = (0u16..600).map(|i| (i % 256) as u8).collect();
    let stored = encode_and_store(Kind::Blob, &payload, true);
    let object = load(&stored.placement.unwrap().bytes).unwrap();
    assert_eq!(object.kind, Kind::Blob);
    assert_eq!(object.expected_size, 600);
    assert_eq!(object.payload, payload);
}

#[test]
fn round_trip_empty() {
    let stored = encode_and_store(Kind::Blob, b"", true);
    let object = load(&stored.placement.unwrap().bytes).unwrap();
    assert_eq!(object, Object { kind: Kind::Blob, expected_size: 0, payload: Vec::new() });
}

#[test]
fn known_hash_of_text_blob() {
    let stored = encode_and_store(Kind::Blob, b"hello world\n", false);
    assert_eq!(stored.hash, "3b18e512dba79e4c8300dd08aeb37f8e728b8dad");
}

#[test]
fn empty_blob_header_and_hash() {
    assert_eq!(header_bytes(Kind::Blob, 0), b"blob 0\0".to_vec());
    assert_eq!(canonical_bytes(Kind::Blob, b""), b"blob 0\0".to_vec());
    let stored = encode_and_store(Kind::Blob, b"", false);
    assert_eq!(stored.hash, "e69de29bb2d1d6434b8b29ae775ad8c2e48c5391");
    let persisted = encode_and_store(Kind::Blob, b"", true);
    assert_eq!(persisted.hash, "e69de29bb2d1d6434b8b29ae775ad8c2e48c5391");
    assert_eq!(
        persisted.placement.unwrap().path,
        "objects/e6/9de29bb2d1d6434b8b29ae775ad8c2e48c5391"
    );
}

#[test]
fn deterministic_encoding() {
    let a = encode_and_store(Kind::Blob, b"same bytes", true);
    let b = encode_and_store(Kind::Blob, b"same bytes", true);
    assert_eq!(a, b);
}

#[test]
fn storing_again_keeps_bytes() {
    let first = encode_and_store(Kind::Blob, b"stored once", true);
    let again = encode_and_store(Kind::Blob, b"stored once", true);
    let p1 = first.placement.unwrap();
    let p2 = again.placement.unwrap();
    assert_eq!(p1.path, p2.path);
    assert_eq!(p1.bytes, p2.bytes);
}

#[test]
fn dry_run_same_hash_no_placement() {
    let dry = encode_and_store(Kind::Blob, b"dry run", false);
    let wet = encode_and_store(Kind::Blob, b"dry run", true);
    assert_eq!(dry.hash, wet.hash);
    assert!(dry.placement.is_none());
    let path = wet.placement.unwrap().path;
    assert_eq!(path, format!("objects/{}/{}", &wet.hash[..2], &wet.hash[2..]));
}

#[test]
fn placement_holds_compressed_canonical_bytes() {
    let wet = encode_and_store(Kind::Blob, b"abc", true);
    let bytes = wet.placement.unwrap().bytes;
    assert_ne!(bytes, b"blob 3\0abc".to_vec());
    assert_eq!(bytes, compress(b"blob 3\0abc"));
}

#[test]
fn path_for_empty_digest() {
    assert_eq!(
        path_for("da39a3ee5e6b4b0d3255bfef95601890afd80709").unwrap(),
        "objects/da/39a3ee5e6b4b0d3255bfef95601890afd80709"
    );
}

#[test]
fn path_for_rejects_malformed() {
    assert_eq!(path_for("da39"), Err(ObjectError::MalformedHash));
    assert_eq!(
        path_for("DA39A3EE5E6B4B0D3255BFEF95601890AFD80709"),
        Err(ObjectError::MalformedHash)
    );
    assert_eq!(
        path_for("da39a3ee5e6b4b0d3255bfef95601890afd8070g"),
        Err(ObjectError::MalformedHash)
    );
    assert_eq!(
        path_for("da39a3ee5e6b4b0d3255bfef95601890afd8070é"),
        Err(ObjectError::MalformedHash)
    );
    assert_eq!(path_for(""), Err(ObjectError::MalformedHash));
}

#[test]
fn declared_size_shorter_than_payload() {
    assert_eq!(
        decode(b"blob 3\0abcdef"),
        Err(ObjectError::SizeMismatch { expected: 3, actual: 6 })
    );
}

#[test]
fn declared_size_longer_than_payload() {
    let stored = compress(b"blob 10\0abc");
    assert_eq!(
        load(&stored),
        Err(ObjectError::SizeMismatch { expected: 10, actual: 3 })
    );
}

#[test]
fn unknown_kind_widget() {
    assert_eq!(
        decode(b"widget 3\0abc"),
        Err(ObjectError::UnsupportedKind(b"widget".to_vec()))
    );
    assert_eq!(
        load(&compress(b"widget 3\0abc")),
        Err(ObjectError::UnsupportedKind(b"widget".to_vec()))
    );
}

#[test]
fn header_without_nul() {
    assert_eq!(decode(b"blob 3abc"), Err(ObjectError::HeaderUnterminated));
    assert_eq!(decode(b""), Err(ObjectError::HeaderUnterminated));
}

#[test]
fn header_not_text() {
    assert_eq!(decode(b"bl\xffob 3\0abc"), Err(ObjectError::HeaderNotText));
}

#[test]
fn header_utf8_but_not_a_size() {
    assert_eq!(
        decode("blob 5\u{e9}\0abcde".as_bytes()),
        Err(ObjectError::InvalidSize("5\u{e9}".as_bytes().to_vec()))
    );
}

#[test]
fn header_without_space() {
    assert_eq!(decode(b"blob3\0abc"), Err(ObjectError::HeaderShape));
}

#[test]
fn header_with_bad_size() {
    assert_eq!(
        decode(b"blob x3\0abc"),
        Err(ObjectError::InvalidSize(b"x3".to_vec()))
    );
    assert_eq!(
        decode(b"blob \0"),
        Err(ObjectError::InvalidSize(Vec::new()))
    );
    assert_eq!(
        decode(b"blob 3 4\0abc"),
        Err(ObjectError::InvalidSize(b"3 4".to_vec()))
    );
}

#[test]
fn load_rejects_garbage() {
    assert_eq!(load(b"not a zlib stream"), Err(ObjectError::Corrupt));
}

#[test]
fn header_formula() {
    assert_eq!(header_bytes(Kind::Blob, 1234), b"blob 1234\0".to_vec());
    assert_eq!(header_bytes(Kind::Blob, 7), b"blob 7\0".to_vec());
    assert_eq!(
        header_bytes(Kind::Blob, u64::MAX),
        b"blob 18446744073709551615\0".to_vec()
    );
    assert_eq!(Kind::Blob.name(), b"blob".to_vec());
}

#[test]
fn size_field_reading() {
    assert_eq!(parse_size(b"0"), Some(0));
    assert_eq!(parse_size(b"+5"), Some(5));
    assert_eq!(parse_size(b"007"), Some(7));
    assert_eq!(parse_size(b"18446744073709551615"), Some(u64::MAX));
    assert_eq!(parse_size(b"18446744073709551616"), None);
    assert_eq!(parse_size(b"+"), None);
    assert_eq!(parse_size(b"-1"), None);
    assert_eq!(parse_size(b""), None);
}

#[test]
fn header_fields() {
    assert_eq!(parse_header(b"blob 42"), Ok((Kind::Blob, 42)));
    assert_eq!(
        parse_header(b"tree 42"),
        Err(ObjectError::UnsupportedKind(b"tree".to_vec()))
    );
}
