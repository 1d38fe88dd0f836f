use samuraizer::content::classify_binary;
use samuraizer::errors::NativeError;
use samuraizer::meta::{FileMeta, Timestamp};
use samuraizer::mime::{
    analyse_sample, byte_counts, classify_by_extension, classify_counts, classify_mime_type,
    classify_sample, classify_suffix, classify_uncached, compute_stat_key, detect_with_infer,
    detect_with_mime_guess, file_extension, is_binary, lower_suffix, mime_implies_text,
    ByteCounts, BytesRead, ClassifierCache, MemoLookup, StatKey, HEURISTIC_SAMPLE_SIZE,
};
use std::cell::Cell;

fn meta(size: u64, secs: u64) -> FileMeta {
    FileMeta { size, modified: Some(Timestamp { secs, nanos: 5 }), created: None, mode: 0o644 }
}

fn noisy(len: usize) -> Vec<u8> {
    let mut state: u32 = 12345;
    let mut out = Vec::with_capacity(len);
    for i in 0..len {
        state = state.wrapping_mul(1103515245).wrapping_add(12345);
        out.push(if i % 97 == 0 { 0 } else { (state >> 16) as u8 });
    }
    out
}

#[test]
fn extension_of_a_name() {
    assert_eq!(file_extension("a.txt"), Some("txt".to_string()));
    assert_eq!(file_extension("archive.tar.GZ"), Some("GZ".to_string()));
    assert_eq!(file_extension("trailing."), Some(String::new()));
    assert_eq!(file_extension("noext"), None);
    assert_eq!(file_extension(".bashrc"), None);
    assert_eq!(file_extension(".."), None);
    assert_eq!(file_extension(""), None);
    assert_eq!(file_extension(".a.b"), Some("b".to_string()));
}

#[test]
fn suffix_is_lowercased_and_dotted() {
    assert_eq!(lower_suffix("Main.PY"), Some(".py".to_string()));
    assert_eq!(lower_suffix("README"), None);
}

#[test]
fn extension_tables_decide() {
    assert_eq!(classify_by_extension("main.py"), Some(false));
    assert_eq!(classify_by_extension("MAIN.RS"), Some(false));
    assert_eq!(classify_by_extension("notes.yml"), Some(false));
    assert_eq!(classify_by_extension("photo.JPG"), Some(true));
    assert_eq!(classify_by_extension("lib.so"), Some(true));
    assert_eq!(classify_by_extension("font.woff2"), Some(true));
    assert_eq!(classify_by_extension("data.bin"), None);
    assert_eq!(classify_by_extension("Makefile"), None);
    assert_eq!(classify_by_extension(".gitignore"), None);
}

#[test]
fn every_listed_suffix_is_found() {
    for s in [".c", ".cc", ".cfg", ".cmake", ".lock", ".properties", ".ps1", ".yml"] {
        assert_eq!(classify_suffix(s), Some(false), "{}", s);
    }
    for s in [".7z", ".apng", ".class", ".svgz", ".zip"] {
        assert_eq!(classify_suffix(s), Some(true), "{}", s);
    }
    assert_eq!(classify_suffix("py"), None);
    assert_eq!(classify_suffix(".PY"), None);
}

#[test]
fn mime_rules() {
    assert!(mime_implies_text("text/plain"));
    assert!(mime_implies_text("text/"));
    assert!(mime_implies_text("application/json"));
    assert!(mime_implies_text("application/x-sh"));
    assert!(mime_implies_text("inode/x-empty"));
    assert!(!mime_implies_text("application/json5"));
    assert!(!mime_implies_text("image/png"));
    assert!(!mime_implies_text("tex"));
    assert_eq!(classify_mime_type("text/html"), Some(false));
    assert_eq!(classify_mime_type("application/xml"), Some(false));
    assert_eq!(classify_mime_type("application/octet-stream"), None);
    assert_eq!(classify_mime_type("image/png"), Some(true));
    assert_eq!(classify_mime_type(""), Some(true));
}

#[test]
fn counts_of_a_sample() {
    let c = byte_counts(&[b'a', 9, 0, 0, 1, 200, 127, 13]);
    assert_eq!(
        c,
        ByteCounts { total: 8, printable: 3, control: 3, nul: 2, nul_pair: true }
    );
    let d = byte_counts(&[0, b'x', 0]);
    assert_eq!(d, ByteCounts { total: 3, printable: 1, control: 2, nul: 2, nul_pair: false });
}

#[test]
fn empty_sample_is_text() {
    assert_eq!(analyse_sample(&[]), Some(false));
}

#[test]
fn plain_text_is_text() {
    assert_eq!(analyse_sample(b"fn main() {\n\tprintln!(\"hi\");\r\n}\n"), Some(false));
}

#[test]
fn nul_share_of_one_in_a_thousand_is_binary() {
    let mut sample = vec![b'a'; 1000];
    sample[500] = 0;
    assert_eq!(analyse_sample(&sample), Some(true));
    let mut longer = vec![b'a'; 1001];
    longer[500] = 0;
    assert_eq!(analyse_sample(&longer), Some(false));
}

#[test]
fn two_adjacent_nuls_are_binary() {
    let mut sample = vec![b'a'; 8000];
    sample[10] = 0;
    sample[11] = 0;
    assert_eq!(analyse_sample(&sample), Some(true));
}

#[test]
fn thresholds_of_the_histogram() {
    let c = |total, printable, control| ByteCounts {
        total,
        printable,
        control,
        nul: 0,
        nul_pair: false,
    };
    // control above 10 % and printable below 90 %
    assert_eq!(classify_counts(&c(100, 89, 11)), Some(true));
    // control exactly 10 %: the second rule does not fire
    assert_eq!(classify_counts(&c(100, 89, 10)), None);
    // printable exactly 95 %, control exactly 2 %
    assert_eq!(classify_counts(&c(100, 95, 2)), Some(false));
    assert_eq!(classify_counts(&c(100, 94, 2)), None);
    assert_eq!(classify_counts(&c(100, 96, 3)), None);
    // printable exactly 60 %
    assert_eq!(classify_counts(&c(100, 60, 0)), Some(true));
    assert_eq!(classify_counts(&c(100, 61, 0)), None);
    // a nul pair decides alone
    assert_eq!(
        classify_counts(&ByteCounts { total: 100000, printable: 99998, control: 2, nul: 2, nul_pair: true }),
        Some(true)
    );
}

#[test]
fn high_bytes_defer() {
    let mut sample = vec![b'a'; 80];
    sample.extend(vec![0xC8u8; 20]);
    assert_eq!(analyse_sample(&sample), None);
}

#[test]
fn sniffing_knows_png() {
    let png = [0x89, b'P', b'N', b'G', 0x0D, 0x0A, 0x1A, 0x0A, 0, 0, 0, 0];
    assert_eq!(detect_with_infer(&png), Some(true));
    assert_eq!(detect_with_infer(b"plain words"), None);
}

#[test]
fn name_guess_uses_the_extension() {
    assert_eq!(detect_with_mime_guess("page.htm"), Some(false));
    assert_eq!(detect_with_mime_guess("movie.m4v"), Some(true));
    assert_eq!(detect_with_mime_guess("thing.zzzunknown"), None);
    assert_eq!(detect_with_mime_guess("noext"), None);
}

#[test]
fn cascade_on_content() {
    assert!(!classify_sample("notes", b"just some words\n"));
    assert!(classify_sample("blob", &noisy(2048)));
    // histogram defers, sniffing does not know it, the name says text
    let mut sample = vec![b'a'; 80];
    sample.extend(vec![0xC8u8; 20]);
    assert!(!classify_sample("letter.rtx", &sample));
    assert!(classify_sample("movie.m4v", &sample));
    // nothing decides: text
    assert!(!classify_sample("unknown", &sample));
}

#[test]
fn only_the_head_of_a_sample_counts() {
    let mut sample = vec![b'a'; HEURISTIC_SAMPLE_SIZE];
    sample.extend(vec![0u8; 4000]);
    assert!(!classify_sample("x", &sample));
}

#[test]
fn random_bytes_with_nuls_are_binary() {
    let data = noisy(2048);
    let r = classify_uncached("payload", || BytesRead::Bytes(data.clone()));
    assert!(matches!(r, Ok(true)));
}

#[test]
fn extension_decides_without_a_read() {
    let read = Cell::new(0);
    let r = classify_uncached("a.txt", || {
        read.set(read.get() + 1);
        BytesRead::Failed("must not be read".to_string())
    });
    assert!(matches!(r, Ok(false)));
    assert_eq!(read.get(), 0);
}

#[test]
fn failed_sample_is_an_io_error() {
    match classify_uncached("payload", || BytesRead::Failed("gone".to_string())) {
        Err(NativeError::Io(m)) => assert_eq!(m, "gone"),
        other => panic!("unexpected {:?}", other),
    }
}

#[test]
fn stat_key_from_metadata() {
    let m = meta(10, 3);
    let (path, key) = compute_stat_key("/x/y", Some(&m)).unwrap();
    assert_eq!(path, "/x/y");
    assert_eq!(key, StatKey { size: 10, mtime_ns: 3_000_000_005 });
    let unknown = FileMeta { size: 7, modified: None, created: None, mode: 0 };
    assert_eq!(compute_stat_key("p", Some(&unknown)).unwrap().1, StatKey { size: 7, mtime_ns: 0 });
    assert!(compute_stat_key("p", None).is_none());
}

#[test]
fn second_classification_is_answered_from_the_memo() {
    let mut cache = ClassifierCache::new();
    let m = meta(2048, 100);
    let reads = Cell::new(0);
    let data = noisy(2048);
    let first = is_binary(&mut cache, "/r/payload", "payload", Some(&m), || {
        reads.set(reads.get() + 1);
        BytesRead::Bytes(data.clone())
    });
    assert!(matches!(first, Ok(true)));
    assert_eq!(reads.get(), 1);
    let second = is_binary(&mut cache, "/r/payload", "payload", Some(&m), || {
        reads.set(reads.get() + 1);
        BytesRead::Bytes(b"now it is text".to_vec())
    });
    assert!(matches!(second, Ok(true)));
    assert_eq!(reads.get(), 1);
}

#[test]
fn changed_stat_is_classified_again() {
    let mut cache = ClassifierCache::new();
    let first = classify_binary(&mut cache, "/r/f", "f", Some(&meta(5, 1)), || {
        BytesRead::Bytes(noisy(512))
    });
    assert!(matches!(first, Ok(true)));
    let second = classify_binary(&mut cache, "/r/f", "f", Some(&meta(5, 2)), || {
        BytesRead::Bytes(b"words".to_vec())
    });
    assert!(matches!(second, Ok(false)));
    let third = classify_binary(&mut cache, "/r/f", "f", Some(&meta(6, 1)), || {
        BytesRead::Bytes(b"words".to_vec())
    });
    assert!(matches!(third, Ok(false)));
}

#[test]
fn failed_stat_bypasses_the_memo() {
    let mut cache = ClassifierCache::new();
    let reads = Cell::new(0);
    for _ in 0..2 {
        let r = is_binary(&mut cache, "/r/f", "f", None, || {
            reads.set(reads.get() + 1);
            BytesRead::Bytes(b"words".to_vec())
        });
        assert!(matches!(r, Ok(false)));
    }
    assert_eq!(reads.get(), 2);
}

#[test]
fn memo_evicts_the_least_recently_used() {
    let mut cache = ClassifierCache::new();
    let key = |i: u64| StatKey { size: i, mtime_ns: 0 };
    for i in 0..4096u64 {
        cache.record("p", &key(i), i % 2 == 0);
    }
    // touch the oldest, then add one more: the second oldest leaves
    assert_eq!(cache.lookup("p", &key(0)), Some(true));
    cache.record("p", &key(5000), true);
    assert_eq!(cache.lookup("p", &key(0)), Some(true));
    assert_eq!(cache.lookup("p", &key(1)), None);
    assert_eq!(cache.lookup("p", &key(2)), Some(true));
    assert_eq!(cache.lookup("q", &key(2)), None);
    cache.record("p", &key(2), false);
    assert_eq!(cache.lookup("p", &key(2)), Some(false));
}

#[test]
fn failed_cascade_is_not_remembered() {
    let mut cache = ClassifierCache::new();
    let m = meta(1, 1);
    let r = is_binary(&mut cache, "/r/f", "f", Some(&m), || BytesRead::Failed("io".to_string()));
    assert!(r.is_err());
    assert_eq!(cache.lookup("/r/f", &compute_stat_key("/r/f", Some(&m)).unwrap().1), None);
}

#[test]
fn memo_in_two_halves() {
    let mut cache = ClassifierCache::new();
    let m = meta(9, 9);
    let key = match cache.begin("/r/f", Some(&m)) {
        MemoLookup::Miss(Some(key)) => key,
        _ => panic!("nothing is remembered yet"),
    };
    assert_eq!(key.0, "/r/f");
    assert_eq!(key.1, StatKey { size: 9, mtime_ns: 9_000_000_005 });
    cache.conclude(&Some(key), &Ok(true));
    assert!(matches!(cache.begin("/r/f", Some(&m)), MemoLookup::Hit(true)));
    assert!(matches!(cache.begin("/r/g", Some(&m)), MemoLookup::Miss(Some(_))));
    assert!(matches!(cache.begin("/r/f", None), MemoLookup::Miss(None)));
    let other = match cache.begin("/r/g", Some(&m)) {
        MemoLookup::Miss(key) => key,
        MemoLookup::Hit(_) => panic!("nothing is remembered for the other file"),
    };
    cache.conclude(&other, &Err(NativeError::Io("x".to_string())));
    assert!(matches!(cache.begin("/r/g", Some(&m)), MemoLookup::Miss(Some(_))));
    cache.conclude(&None, &Ok(true));
    assert!(matches!(cache.begin("/r/g", Some(&m)), MemoLookup::Miss(Some(_))));
}
