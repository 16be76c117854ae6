//! End-to-end tests of the archive decoder, driving it with hand-encoded
//! buffers: the wire format is an 8-byte little-endian length, the payload,
//! and zero filler up to the next multiple of 8.
use nar_decode::{nar, padded_bytes, padded_tag, padding, Entry, NarError};

fn field(payload: &[u8]) -> Vec<u8> {
    let mut v = (payload.len() as u64).to_le_bytes().to_vec();
    v.extend_from_slice(payload);
    let pad = if payload.len() % 8 == 0 {
        0
    } else {
        8 - payload.len() % 8
    };
    v.extend(std::iter::repeat(0u8).take(pad));
    v
}

fn tag(t: &str) -> Vec<u8> {
    field(t.as_bytes())
}

fn concat(parts: &[Vec<u8>]) -> Vec<u8> {
    let mut v = Vec::new();
    for p in parts {
        v.extend_from_slice(p);
    }
    v
}

/// An archive of a regular file holding `hi`, not executable.
fn regular_hi() -> Vec<u8> {
    concat(&[
        tag("nix-archive-1"),
        tag("("),
        tag("type"),
        tag("regular"),
        tag("contents"),
        field(b"hi"),
        tag(")"),
    ])
}

/// The same file with the executable marker.
fn regular_hi_executable() -> Vec<u8> {
    concat(&[
        tag("nix-archive-1"),
        tag("("),
        tag("type"),
        tag("regular"),
        tag("executable"),
        tag(""),
        tag("contents"),
        field(b"hi"),
        tag(")"),
    ])
}

/// An archive of an empty directory.
fn empty_directory() -> Vec<u8> {
    concat(&[tag("nix-archive-1"), tag("("), tag("type"), tag("directory"), tag(")")])
}

fn symlink_node(target: &[u8]) -> Vec<u8> {
    concat(&[tag("("), tag("type"), tag("symlink"), tag("target"), field(target), tag(")")])
}

/// An archive of a directory with one entry `a` holding a symlink to `/b`.
fn directory_with_symlink() -> Vec<u8> {
    concat(&[
        tag("nix-archive-1"),
        tag("("),
        tag("type"),
        tag("directory"),
        tag("entry"),
        tag("("),
        tag("name"),
        field(b"a"),
        tag("node"),
        symlink_node(b"/b"),
        tag(")"),
        tag(")"),
    ])
}

fn bytes_of<'a>(buf: &'a [u8], r: &nar_decode::ByteRange) -> &'a [u8] {
    &buf[r.start..r.start + r.len]
}

#[test]
fn regular_file_decodes() {
    let buf = regular_hi();
    let (next, e) = nar(&buf).unwrap();
    assert_eq!(next, buf.len());
    assert_eq!(next % 8, 0);
    match e {
        Entry::Regular(executable, contents) => {
            assert!(!executable);
            assert_eq!(bytes_of(&buf, &contents), b"hi");
        },
        other => panic!("expected a regular file, got {:?}", other),
    }
}

#[test]
fn executable_marker_sets_flag() {
    let buf = regular_hi_executable();
    let (next, e) = nar(&buf).unwrap();
    assert_eq!(next, buf.len());
    match e {
        Entry::Regular(executable, contents) => {
            assert!(executable);
            assert_eq!(bytes_of(&buf, &contents), b"hi");
        },
        other => panic!("expected a regular file, got {:?}", other),
    }
}

#[test]
fn empty_directory_decodes() {
    let buf = empty_directory();
    let (next, e) = nar(&buf).unwrap();
    assert_eq!(next, buf.len());
    match e {
        Entry::Directory(entries) => assert!(entries.is_empty()),
        other => panic!("expected a directory, got {:?}", other),
    }
}

#[test]
fn directory_with_symlink_entry() {
    let buf = directory_with_symlink();
    let (next, e) = nar(&buf).unwrap();
    assert_eq!(next, buf.len());
    match e {
        Entry::Directory(entries) => {
            assert_eq!(entries.len(), 1);
            assert_eq!(bytes_of(&buf, &entries[0].0), b"a");
            match &entries[0].1 {
                Entry::Symlink(target) => assert_eq!(bytes_of(&buf, target), b"/b"),
                other => panic!("expected a symlink, got {:?}", other),
            }
        },
        other => panic!("expected a directory, got {:?}", other),
    }
}

#[test]
fn truncated_by_one_byte_is_incomplete() {
    let buf = regular_hi();
    let cut = &buf[..buf.len() - 1];
    match nar(cut) {
        Err(NarError::Incomplete(_)) => {},
        other => panic!("expected Incomplete, got {:?}", other),
    }
}

#[test]
fn every_truncation_is_incomplete() {
    for buf in [regular_hi(), regular_hi_executable(), empty_directory(), directory_with_symlink()]
    {
        for k in 0..buf.len() {
            match nar(&buf[..k]) {
                Err(NarError::Incomplete(_)) => {},
                other => panic!("prefix of length {} gave {:?}", k, other),
            }
        }
    }
}

#[test]
fn corrupt_tag_length_is_permanent_error() {
    // The `regular` keyword's length field starts after the magic (24
    // bytes), `(` (16) and `type` (16) tags; its declared length 7 becomes 6.
    let mut buf = regular_hi();
    assert_eq!(buf[56], 7);
    buf[56] = 6;
    match nar(&buf) {
        Err(NarError::NoMatchingVariant) => {},
        other => panic!("expected a permanent error, got {:?}", other),
    }
}

#[test]
fn corrupt_magic_length_rejected() {
    let mut buf = regular_hi();
    assert_eq!(buf[0], 13);
    buf[0] = 12;
    match nar(&buf) {
        Err(NarError::TagMismatch) => {},
        other => panic!("expected a tag mismatch, got {:?}", other),
    }
}

#[test]
fn decode_is_deterministic() {
    let buf = directory_with_symlink();
    let first = nar(&buf);
    let second = nar(&buf);
    assert_eq!(first, second);
}

#[test]
fn contents_round_trip_exact() {
    let payload: Vec<u8> = vec![0, 255, 1, 254, 0, 200, 127, 128, 10, 0];
    let buf = concat(&[
        tag("nix-archive-1"),
        tag("("),
        tag("type"),
        tag("regular"),
        tag("contents"),
        field(&payload),
        tag(")"),
    ]);
    let (_, e) = nar(&buf).unwrap();
    match e {
        Entry::Regular(_, contents) => assert_eq!(bytes_of(&buf, &contents), &payload[..]),
        other => panic!("expected a regular file, got {:?}", other),
    }
}

#[test]
fn trailing_bytes_left_unconsumed() {
    let mut buf = regular_hi();
    let end = buf.len();
    buf.extend_from_slice(b"junk after the archive");
    let (next, _) = nar(&buf).unwrap();
    assert_eq!(next, end);
}

#[test]
fn directory_preserves_unsorted_order() {
    let buf = concat(&[
        tag("nix-archive-1"),
        tag("("),
        tag("type"),
        tag("directory"),
        tag("entry"),
        tag("("),
        tag("name"),
        field(b"b"),
        tag("node"),
        symlink_node(b"/one"),
        tag(")"),
        tag("entry"),
        tag("("),
        tag("name"),
        field(b"a"),
        tag("node"),
        symlink_node(b"/two"),
        tag(")"),
        tag(")"),
    ]);
    let (_, e) = nar(&buf).unwrap();
    match e {
        Entry::Directory(entries) => {
            assert_eq!(entries.len(), 2);
            assert_eq!(bytes_of(&buf, &entries[0].0), b"b");
            assert_eq!(bytes_of(&buf, &entries[1].0), b"a");
        },
        other => panic!("expected a directory, got {:?}", other),
    }
}

#[test]
fn unknown_variant_rejected() {
    let buf = concat(&[
        tag("nix-archive-1"),
        tag("("),
        tag("type"),
        tag("fifo"),
        tag(")"),
    ]);
    match nar(&buf) {
        Err(NarError::NoMatchingVariant) => {},
        other => panic!("expected NoMatchingVariant, got {:?}", other),
    }
}

#[test]
fn missing_target_keyword_rejected() {
    let buf = concat(&[
        tag("nix-archive-1"),
        tag("("),
        tag("type"),
        tag("symlink"),
        field(b"/b"),
        tag(")"),
    ]);
    match nar(&buf) {
        Err(NarError::TagMismatch) => {},
        other => panic!("expected a tag mismatch, got {:?}", other),
    }
}

#[test]
fn padding_computes_filler() {
    assert_eq!(padding(0), 0);
    assert_eq!(padding(1), 7);
    assert_eq!(padding(7), 1);
    assert_eq!(padding(8), 0);
    assert_eq!(padding(13), 3);
    assert_eq!(padding(16), 0);
}

#[test]
fn padded_bytes_reads_field() {
    let buf = field(b"abc");
    assert_eq!(buf.len(), 16);
    let (next, r) = padded_bytes(&buf, 0).unwrap();
    assert_eq!(next, 16);
    assert_eq!(r.start, 8);
    assert_eq!(r.len, 3);
    assert_eq!(bytes_of(&buf, &r), b"abc");
}

#[test]
fn padded_bytes_incomplete_counts_missing() {
    // length says 6 bytes of payload plus 2 of filler; only 2 payload bytes
    // are present, so 6 more bytes are needed
    let buf = &field(b"abcdef")[..10];
    match padded_bytes(buf, 0) {
        Err(NarError::Incomplete(need)) => assert_eq!(need, 6),
        other => panic!("expected Incomplete, got {:?}", other),
    }
    match padded_bytes(&[1, 2, 3], 0) {
        Err(NarError::Incomplete(need)) => assert_eq!(need, 5),
        other => panic!("expected Incomplete, got {:?}", other),
    }
}

#[test]
fn padded_tag_matches_literal() {
    let buf = tag("type");
    assert_eq!(padded_tag(&buf, 0, b"type").unwrap(), 16);
    match padded_tag(&buf, 0, b"node") {
        Err(NarError::TagMismatch) => {},
        other => panic!("expected a tag mismatch, got {:?}", other),
    }
    match padded_tag(&buf[..9], 0, b"type") {
        Err(NarError::Incomplete(need)) => assert_eq!(need, 7),
        other => panic!("expected Incomplete, got {:?}", other),
    }
}

#[test]
fn demo() {
    let buf = concat(&[
        tag("nix-archive-1"),
        tag("("),
        tag("type"),
        tag("regular"),
        tag("contents"),
        field(b"Hello, world!\n"),
        tag(")"),
    ]);
    let (_, e) = nar(&buf).unwrap();
    println!("{:?}", e);
    assert!(matches!(e, Entry::Regular(false, _)));
}
