use samuraizer::errors::NativeError;
use samuraizer::hashing::{
    begin_hash, compute_file_hash, feed_hash, format_hex16, hash_bytes, ContentHasher, FileRead,
    HashStep, OpenOutcome,
};
use samuraizer::mime::BytesRead;

#[test]
fn hex_is_zero_padded() {
    assert_eq!(format_hex16(0), "0000000000000000");
    assert_eq!(format_hex16(0xdead_beef), "00000000deadbeef");
    assert_eq!(format_hex16(u64::MAX), "ffffffffffffffff");
    assert_eq!(format_hex16(0x0123_4567_89ab_cdef), "0123456789abcdef");
}

#[test]
fn empty_input_has_the_known_digest() {
    assert_eq!(hash_bytes(b""), "ef46db3751d8e999");
}

#[test]
fn digest_agrees_with_the_one_shot_function() {
    let data: Vec<u8> = (0..5000u32).map(|i| (i * 31 % 251) as u8).collect();
    let expected = format!("{:016x}", xxhash_rust::xxh64::xxh64(&data, 0));
    assert_eq!(hash_bytes(&data), expected);
}

#[test]
fn hash_is_deterministic_and_has_sixteen_hex_digits() {
    let a = hash_bytes(b"hello");
    let b = hash_bytes(b"hello");
    assert_eq!(a, b);
    assert_eq!(a.len(), 16);
    assert!(a.chars().all(|c| c.is_ascii_digit() || ('a'..='f').contains(&c)));
    assert_ne!(a, hash_bytes(b"hellp"));
}

#[test]
fn chunking_does_not_change_the_digest() {
    let data: Vec<u8> = (0..200u32).map(|i| (i % 256) as u8).collect();
    let mut h = ContentHasher::new();
    h.update(&data[..7]);
    h.update(&data[7..64]);
    h.update(&data[64..]);
    assert_eq!(h.finish(), hash_bytes(&data));
}

#[test]
fn absent_file_has_no_hash() {
    assert!(matches!(compute_file_hash(&FileRead::Missing), Ok(None)));
}

#[test]
fn failed_read_is_a_hashing_error() {
    match compute_file_hash(&FileRead::Failed("denied".to_string())) {
        Err(NativeError::Hashing(m)) => assert_eq!(m, "denied"),
        other => panic!("unexpected {:?}", other),
    }
}

#[test]
fn content_in_chunks_hashes_like_the_whole() {
    let read = FileRead::Content(vec![b"he".to_vec(), Vec::new(), b"llo".to_vec()]);
    match compute_file_hash(&read) {
        Ok(Some(h)) => assert_eq!(h, hash_bytes(b"hello")),
        other => panic!("unexpected {:?}", other),
    }
}

#[test]
fn hashing_step_by_step() {
    assert!(matches!(begin_hash(OpenOutcome::Missing), HashStep::Done(Ok(None))));
    match begin_hash(OpenOutcome::Failed("denied".to_string())) {
        HashStep::Done(Err(NativeError::Hashing(m))) => assert_eq!(m, "denied"),
        _ => panic!("a failed open is a hashing error"),
    }
    let mut step = begin_hash(OpenOutcome::Opened);
    for chunk in [b"he".to_vec(), b"llo".to_vec(), Vec::new()] {
        step = match step {
            HashStep::Reading(h) => feed_hash(h, &BytesRead::Bytes(chunk)),
            HashStep::Done(_) => panic!("over too early"),
        };
    }
    match step {
        HashStep::Done(Ok(Some(h))) => assert_eq!(h, hash_bytes(b"hello")),
        _ => panic!("the end of the file gives the hash"),
    }
}

#[test]
fn a_read_that_fails_midway_gives_no_hash() {
    let step = match begin_hash(OpenOutcome::Opened) {
        HashStep::Reading(h) => feed_hash(h, &BytesRead::Bytes(b"part".to_vec())),
        HashStep::Done(_) => panic!("over too early"),
    };
    let step = match step {
        HashStep::Reading(h) => feed_hash(h, &BytesRead::Failed("eio".to_string())),
        HashStep::Done(_) => panic!("over too early"),
    };
    match step {
        HashStep::Done(Err(NativeError::Hashing(m))) => assert_eq!(m, "eio"),
        _ => panic!("a failed read is a hashing error"),
    }
}
