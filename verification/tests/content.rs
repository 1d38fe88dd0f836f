use samuraizer::content::{
    binary_preview, binary_read_size, decode_binary_preview, detect_encoding, read_binary_preview,
    read_text_preview, sniff_bom, text_preview, text_read_size, ExclusionReason, FileInfo,
    ENCODING_SAMPLE_BYTES, MAX_BINARY_CONTENT_BYTES, MAX_TEXT_CONTENT_BYTES,
};
use samuraizer::errors::NativeError;
use samuraizer::mime::BytesRead;
use std::cell::RefCell;

fn reader(data: Vec<u8>) -> impl Fn(usize) -> BytesRead {
    move |n: usize| BytesRead::Bytes(data[..data.len().min(n)].to_vec())
}

#[test]
fn type_tags() {
    let text = FileInfo::Text {
        encoding: "utf-8".to_string(),
        content: String::new(),
        preview_bytes: 0,
        truncated: false,
    };
    assert_eq!(text.type_tag(), "text");
    let binary = FileInfo::Binary { content: String::new(), preview_bytes: 0, truncated: false };
    assert_eq!(binary.type_tag(), "binary");
    let excluded = FileInfo::Excluded { reason: ExclusionReason::FileSize, size: Some(1) };
    assert_eq!(excluded.type_tag(), "excluded");
    let error = FileInfo::Error {
        content: String::new(),
        exception_type: String::new(),
        exception_message: String::new(),
    };
    assert_eq!(error.type_tag(), "error");
}

#[test]
fn reason_labels() {
    assert_eq!(ExclusionReason::BinaryTooLarge.as_str(), "binary_too_large");
    assert_eq!(ExclusionReason::FileSize.as_str(), "file_size");
    assert_eq!(ExclusionReason::BinaryOrImage.as_str(), "binary_or_image");
}

#[test]
fn binary_preview_is_base64() {
    match binary_preview(5, 100, b"hello") {
        FileInfo::Binary { content, preview_bytes, truncated } => {
            assert_eq!(content, "aGVsbG8=");
            assert_eq!(preview_bytes, 5);
            assert!(!truncated);
        }
        other => panic!("unexpected {:?}", other),
    }
}

#[test]
fn binary_preview_keeps_no_more_than_asked() {
    match binary_preview(5, 3, b"hello") {
        FileInfo::Binary { content, preview_bytes, truncated } => {
            assert_eq!(content, "aGVs");
            assert_eq!(preview_bytes, 3);
            assert!(truncated);
        }
        other => panic!("unexpected {:?}", other),
    }
}

#[test]
fn binary_read_sizes() {
    assert_eq!(binary_read_size(10, 100), 10);
    assert_eq!(binary_read_size(1000, 100), 100);
    assert_eq!(binary_read_size(u64::MAX, usize::MAX), MAX_BINARY_CONTENT_BYTES);
    assert_eq!(binary_read_size(0, 100), 0);
    assert_eq!(text_read_size(10), 10);
    assert_eq!(text_read_size(usize::MAX), MAX_TEXT_CONTENT_BYTES);
}

#[test]
fn large_binary_is_excluded_unread() {
    let asked = RefCell::new(Vec::new());
    let r = read_binary_preview(4 * 1024 * 1024, 3 * 1024 * 1024, |n: usize| {
        asked.borrow_mut().push(n);
        BytesRead::Failed("must not be read".to_string())
    });
    match r {
        Ok(FileInfo::Excluded { reason, size }) => {
            assert_eq!(reason, ExclusionReason::BinaryTooLarge);
            assert_eq!(size, Some(4194304));
        }
        other => panic!("unexpected {:?}", other),
    }
    assert!(asked.borrow().is_empty());
}

#[test]
fn binary_preview_asks_once_for_the_preview_size() {
    let asked = RefCell::new(Vec::new());
    let data = vec![7u8; 1000];
    let r = read_binary_preview(1000, 4096, |n: usize| {
        asked.borrow_mut().push(n);
        BytesRead::Bytes(data[..n.min(1000)].to_vec())
    });
    assert_eq!(*asked.borrow(), vec![1000]);
    match r {
        Ok(FileInfo::Binary { preview_bytes, truncated, .. }) => {
            assert_eq!(preview_bytes, 1000);
            assert!(!truncated);
        }
        other => panic!("unexpected {:?}", other),
    }
}

#[test]
fn short_read_is_marked_truncated() {
    let r = read_binary_preview(1000, 4096, |_n: usize| BytesRead::Bytes(vec![1, 2, 3]));
    match r {
        Ok(FileInfo::Binary { preview_bytes, truncated, content }) => {
            assert_eq!(preview_bytes, 3);
            assert!(truncated);
            assert_eq!(content, "AQID");
        }
        other => panic!("unexpected {:?}", other),
    }
}

#[test]
fn failed_binary_read_is_an_io_error() {
    match read_binary_preview(10, 100, |_n: usize| BytesRead::Failed("eio".to_string())) {
        Err(NativeError::Io(m)) => assert_eq!(m, "eio"),
        other => panic!("unexpected {:?}", other),
    }
}

#[test]
fn decoding_a_preview_gives_the_bytes_back() {
    let data: Vec<u8> = (0..=255u8).cycle().take(1000).collect();
    let info = binary_preview(1000, 700, &data);
    assert_eq!(decode_binary_preview(&info), Some(data[..700].to_vec()));
    let whole = binary_preview(1000, 5000, &data);
    assert_eq!(decode_binary_preview(&whole), Some(data.clone()));
    let empty = binary_preview(0, 10, &[]);
    assert_eq!(decode_binary_preview(&empty), Some(Vec::new()));
}

#[test]
fn decoding_another_kind_gives_nothing() {
    let info = FileInfo::Excluded { reason: ExclusionReason::FileSize, size: None };
    assert_eq!(decode_binary_preview(&info), None);
    let broken = FileInfo::Binary { content: "***".to_string(), preview_bytes: 0, truncated: false };
    assert_eq!(decode_binary_preview(&broken), None);
}

#[test]
fn byte_order_marks() {
    assert_eq!(sniff_bom(&[0xEF, 0xBB, 0xBF, b'a']), Some("UTF-8"));
    assert_eq!(sniff_bom(&[0xFF, 0xFE, 0, 0]), Some("UTF-16LE"));
    assert_eq!(sniff_bom(&[0xFE, 0xFF]), Some("UTF-16BE"));
    assert_eq!(sniff_bom(&[0xEF, 0xBB]), None);
    assert_eq!(sniff_bom(&[]), None);
}

#[test]
fn encoding_detection_order() {
    // a known label wins, under its canonical name
    assert_eq!(detect_encoding(&[0xEF, 0xBB, 0xBF], Some("latin1")), "windows-1252");
    assert_eq!(detect_encoding(b"abc", Some("UTF8")), "UTF-8");
    // an unknown label is passed over
    assert_eq!(detect_encoding(&[0xEF, 0xBB, 0xBF, b'a'], Some("no-such")), "UTF-8");
    assert_eq!(detect_encoding(&[0xFF, 0xFE, b'a', 0], None), "UTF-16LE");
    assert_eq!(detect_encoding("héllo".as_bytes(), None), "utf-8");
    assert_eq!(detect_encoding(&[], None), "utf-8");
    assert_eq!(detect_encoding(&[b'a', 0xA3, b'b'], None), "windows-1252");
}

#[test]
fn text_preview_of_plain_text() {
    match read_text_preview(5, 1024, None, reader(b"hello".to_vec())) {
        Ok(FileInfo::Text { encoding, content, preview_bytes, truncated }) => {
            assert_eq!(encoding, "utf-8");
            assert_eq!(content, "hello");
            assert_eq!(preview_bytes, 5);
            assert!(!truncated);
        }
        other => panic!("unexpected {:?}", other),
    }
}

#[test]
fn forced_encoding_decodes_the_bytes() {
    match read_text_preview(2, 1024, Some("windows-1252"), reader(vec![0xA3, 0xA4])) {
        Ok(FileInfo::Text { encoding, content, .. }) => {
            assert_eq!(encoding, "windows-1252");
            assert_eq!(content, "£¤");
        }
        other => panic!("unexpected {:?}", other),
    }
}

#[test]
fn invalid_utf8_falls_back_to_windows_1252() {
    match text_preview(3, 1024, None, &[b'a', 0xE9, b'b'], &[b'a', 0xE9, b'b']) {
        Ok(FileInfo::Text { encoding, content, .. }) => {
            assert_eq!(encoding, "windows-1252");
            assert_eq!(content, "aéb");
        }
        other => panic!("unexpected {:?}", other),
    }
}

#[test]
fn malformed_sequences_are_replaced() {
    match text_preview(3, 1024, Some("utf-8"), &[b'a', 0xFF, b'b'], &[b'a', 0xFF, b'b']) {
        Ok(FileInfo::Text { encoding, content, .. }) => {
            assert_eq!(encoding, "UTF-8");
            assert_eq!(content, "a\u{FFFD}b");
        }
        other => panic!("unexpected {:?}", other),
    }
}

#[test]
fn byte_order_mark_is_not_part_of_the_text() {
    let bytes = vec![0xFF, 0xFE, b'h', 0, b'i', 0];
    match read_text_preview(6, 1024, None, reader(bytes)) {
        Ok(FileInfo::Text { encoding, content, preview_bytes, .. }) => {
            assert_eq!(encoding, "UTF-16LE");
            assert_eq!(content, "hi");
            assert_eq!(preview_bytes, 6);
        }
        other => panic!("unexpected {:?}", other),
    }
}

#[test]
fn text_preview_is_cut_at_the_cap() {
    match read_text_preview(11, 5, None, reader(b"hello world".to_vec())) {
        Ok(FileInfo::Text { content, preview_bytes, truncated, .. }) => {
            assert_eq!(content, "hello");
            assert_eq!(preview_bytes, 5);
            assert!(truncated);
        }
        other => panic!("unexpected {:?}", other),
    }
}

#[test]
fn text_preview_asks_for_sample_then_body() {
    let asked = RefCell::new(Vec::new());
    let r = read_text_preview(3, 100, None, |n: usize| {
        asked.borrow_mut().push(n);
        BytesRead::Bytes(b"abc".to_vec())
    });
    assert!(r.is_ok());
    assert_eq!(*asked.borrow(), vec![ENCODING_SAMPLE_BYTES, 100]);
}

#[test]
fn failed_text_read_is_an_io_error() {
    match read_text_preview(3, 100, None, |_n: usize| BytesRead::Failed("bad".to_string())) {
        Err(NativeError::Io(m)) => assert_eq!(m, "bad"),
        other => panic!("unexpected {:?}", other),
    }
    let calls = RefCell::new(0);
    let r = read_text_preview(3, 100, None, |_n: usize| {
        *calls.borrow_mut() += 1;
        if *calls.borrow() == 1 {
            BytesRead::Bytes(b"abc".to_vec())
        } else {
            BytesRead::Failed("later".to_string())
        }
    });
    match r {
        Err(NativeError::Io(m)) => assert_eq!(m, "later"),
        other => panic!("unexpected {:?}", other),
    }
}

#[test]
fn encoding_names_decode_as_themselves() {
    for (label, bytes, text) in [
        ("Shift_JIS", vec![0x82u8, 0xA0], "あ"),
        ("koi8-r", vec![0xC1], "а"),
        ("UTF-16BE", vec![0x00, 0x41], "A"),
    ] {
        match text_preview(bytes.len() as u64, 100, Some(label), &bytes, &bytes) {
            Ok(FileInfo::Text { content, .. }) => assert_eq!(content, text, "{}", label),
            other => panic!("unexpected {:?}", other),
        }
    }
}
