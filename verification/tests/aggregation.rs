use samuraizer::aggregate::{join, Aggregator, Summary};
use samuraizer::content::{ExclusionReason, FileInfo};
use samuraizer::meta::Timestamp;
use samuraizer::options::TraversalOptions;
use samuraizer::pending::PendingRecords;
use samuraizer::record::{FileRecord, RecordStat};
use samuraizer::timezone::TimezoneInfo;
use samuraizer::traversal::{aggregate_entries, TraversalMessage};

fn record(parent: &str, name: &str, info: FileInfo) -> FileRecord {
    FileRecord {
        parent: parent.to_string(),
        filename: name.to_string(),
        info,
        details: None,
        stat: RecordStat {
            size: 0,
            mtime: Timestamp { secs: 0, nanos: 0 },
            ctime: Timestamp { secs: 0, nanos: 0 },
            mode: 0,
        },
        hash: None,
    }
}

fn text(parent: &str, name: &str, content: &str) -> FileRecord {
    record(
        parent,
        name,
        FileInfo::Text {
            encoding: "utf-8".to_string(),
            content: content.to_string(),
            preview_bytes: content.len(),
            truncated: false,
        },
    )
}

fn failed(parent: &str, name: &str, content: &str) -> FileRecord {
    record(
        parent,
        name,
        FileInfo::Error {
            content: content.to_string(),
            exception_type: "OSError".to_string(),
            exception_message: "m".to_string(),
        },
    )
}

fn excluded(name: &str) -> FileRecord {
    record("", name, FileInfo::Excluded { reason: ExclusionReason::FileSize, size: Some(9) })
}

fn options(chunk_size: usize, hashing: bool) -> TraversalOptions {
    TraversalOptions {
        root: "/base".to_string(),
        max_file_size: 1000,
        include_binary: true,
        image_extensions: Vec::new(),
        excluded_folders: Vec::new(),
        excluded_files: Vec::new(),
        exclude_patterns: Vec::new(),
        follow_symlinks: false,
        threads: 16,
        encoding: None,
        hashing_enabled: hashing,
        chunk_size,
        timezone: TimezoneInfo::with_local_label(true, None, ""),
    }
}

fn names(batch: &[FileRecord]) -> Vec<String> {
    batch.iter().map(|r| r.filename.clone()).collect()
}

fn split(messages: Vec<TraversalMessage>) -> (Vec<Vec<FileRecord>>, Summary) {
    let mut batches = Vec::new();
    let mut summary = None;
    for m in messages {
        assert!(summary.is_none(), "nothing may follow the summary");
        match m {
            TraversalMessage::Entries(b) => batches.push(b),
            TraversalMessage::Summary(s) => summary = Some(s),
            TraversalMessage::Error(e) => panic!("unexpected {:?}", e),
        }
    }
    (batches, summary.expect("a summary closes the stream"))
}

#[test]
fn paths_are_joined_with_one_slash() {
    assert_eq!(join("", "b"), "b");
    assert_eq!(join("a", "b"), "a/b");
    assert_eq!(join("a/", "b"), "a/b");
    assert_eq!(join("/", "b"), "/b");
    assert_eq!(join("a", ""), "a/");
}

#[test]
fn records_in_order_leave_at_once() {
    let mut a = Aggregator::new(2, false, "/base", 3, 0);
    assert!(a.accept(0, text("", "a", "1")).is_empty());
    let out = a.accept(1, text("", "b", "2"));
    assert_eq!(out.len(), 1);
    assert_eq!(names(&out[0]), vec!["a", "b"]);
    assert!(a.accept(2, text("", "c", "3")).is_empty());
    let (rest, summary) = a.finish(false);
    assert_eq!(rest.len(), 1);
    assert_eq!(names(&rest[0]), vec!["c"]);
    assert_eq!(summary.processed_files, 3);
    assert_eq!(summary.included_files, 3);
    assert_eq!(summary.total_files, 3);
    assert!(!summary.stopped_early);
    assert_eq!(summary.hash_algorithm, None);
}

#[test]
fn late_arrivals_wait_for_their_turn() {
    let mut a = Aggregator::new(2, true, "/base", 5, 0);
    assert!(a.accept(2, text("", "c", "")).is_empty());
    assert!(a.accept(1, text("", "b", "")).is_empty());
    assert!(a.accept(4, text("", "e", "")).is_empty());
    let out = a.accept(0, text("", "a", ""));
    assert_eq!(out.len(), 1);
    assert_eq!(names(&out[0]), vec!["a", "b"]);
    let out = a.accept(3, text("", "d", ""));
    assert_eq!(out.len(), 1);
    assert_eq!(names(&out[0]), vec!["c", "d"]);
    let (rest, summary) = a.finish(false);
    assert_eq!(rest.len(), 1);
    assert_eq!(names(&rest[0]), vec!["e"]);
    assert_eq!(summary.hash_algorithm.as_deref(), Some("xxhash"));
}

#[test]
fn one_arrival_can_complete_several_batches() {
    let mut a = Aggregator::new(1, false, "/base", 3, 0);
    assert!(a.accept(1, text("", "b", "")).is_empty());
    assert!(a.accept(2, text("", "c", "")).is_empty());
    let out = a.accept(0, text("", "a", ""));
    assert_eq!(out.len(), 3);
    assert_eq!(names(&out[0]), vec!["a"]);
    assert_eq!(names(&out[1]), vec!["b"]);
    assert_eq!(names(&out[2]), vec!["c"]);
}

#[test]
fn what_is_pending_at_the_end_is_flushed_in_index_order() {
    let mut a = Aggregator::new(10, false, "/base", 8, 0);
    a.accept(7, text("", "h", ""));
    a.accept(0, text("", "a", ""));
    a.accept(3, text("", "d", ""));
    a.accept(5, text("", "f", ""));
    let (rest, summary) = a.finish(true);
    assert_eq!(rest.len(), 1);
    assert_eq!(names(&rest[0]), vec!["a", "d", "f", "h"]);
    assert!(summary.stopped_early);
    assert_eq!(summary.processed_files, 4);
}

#[test]
fn a_second_record_under_one_index_replaces_the_first() {
    let mut a = Aggregator::new(10, false, "/base", 8, 0);
    a.accept(3, text("", "old", ""));
    a.accept(3, text("", "new", ""));
    let (rest, summary) = a.finish(false);
    assert_eq!(names(&rest[0]), vec!["new"]);
    assert_eq!(summary.processed_files, 2);
}

#[test]
fn a_batch_size_of_zero_counts_as_one() {
    let mut a = Aggregator::new(0, false, "/base", 1, 0);
    let out = a.accept(0, text("", "a", ""));
    assert_eq!(out.len(), 1);
}

#[test]
fn the_summary_reports_the_counts_of_the_walker() {
    let mut a = Aggregator::new(100, false, "/base", 5, 4);
    a.accept(0, text("", "a", ""));
    a.accept(1, excluded("b"));
    a.accept(2, failed("sub/dir", "c", "Failed to get file stats: x"));
    a.accept(3, failed("", "d", "boom"));
    a.accept(4, text("", "e", ""));
    assert!(a.room_left());
    let (rest, s) = a.finish(false);
    assert_eq!(rest[0].len(), 5);
    assert_eq!(s.processed_files, 5);
    assert_eq!(s.included_files, 5);
    assert_eq!(s.excluded_files, 4);
    assert_eq!(s.total_files, 9);
    assert_eq!(s.total_files, s.included_files + s.excluded_files);
    assert!(s.processed_files <= s.total_files + s.failed_files.len());
    assert_eq!(s.failed_files.len(), 2);
    assert_eq!(s.failed_files[0].file, "/base/sub/dir/c");
    assert_eq!(s.failed_files[0].error, "Failed to get file stats: x");
    assert_eq!(s.failed_files[1].file, "/base/d");
    assert_eq!(s.failed_files[1].error, "boom");
}

#[test]
fn a_record_that_reports_an_exclusion_changes_no_count() {
    let (_, s) = split(aggregate_entries(vec![(0, excluded("big"))], &options(10, false), 1, 7, false));
    assert_eq!(s.included_files, 1);
    assert_eq!(s.excluded_files, 7);
    assert_eq!(s.total_files, 8);
    assert_eq!(s.processed_files, 1);
    assert!(s.failed_files.is_empty());
}

#[test]
fn ordering_under_scrambled_arrival() {
    let mut arrivals = Vec::new();
    // a fixed permutation of 0..1000
    for k in 0..1000usize {
        let i = (k * 377 + 13) % 1000;
        arrivals.push((i, text("", &format!("f{:04}", i), "x")));
    }
    let (batches, summary) = split(aggregate_entries(arrivals, &options(100, true), 1000, 0, false));
    assert_eq!(batches.len(), 10);
    let mut all = Vec::new();
    for b in &batches {
        assert_eq!(b.len(), 100);
        all.extend(names(b));
    }
    let expected: Vec<String> = (0..1000).map(|i| format!("f{:04}", i)).collect();
    assert_eq!(all, expected);
    assert_eq!(summary.processed_files, 1000);
    assert_eq!(summary.included_files, 1000);
    assert_eq!(summary.total_files, 1000);
}

#[test]
fn all_text_tree() {
    let arrivals = vec![(1, text("sub", "b.md", "# h")), (0, text("", "a.txt", "hello"))];
    let (batches, summary) = split(aggregate_entries(arrivals, &options(256, true), 2, 0, false));
    assert_eq!(batches.len(), 1);
    let b = &batches[0];
    assert_eq!(b.len(), 2);
    assert_eq!((b[0].parent.as_str(), b[0].filename.as_str()), ("", "a.txt"));
    assert_eq!((b[1].parent.as_str(), b[1].filename.as_str()), ("sub", "b.md"));
    for (r, c) in b.iter().zip(["hello", "# h"]) {
        assert_eq!(r.info.type_tag(), "text");
        assert!(matches!(&r.info, FileInfo::Text { content, .. } if content == c));
    }
    assert_eq!(summary.total_files, 2);
    assert_eq!(summary.included_files, 2);
    assert_eq!(summary.excluded_files, 0);
    assert_eq!(summary.hash_algorithm.as_deref(), Some("xxhash"));
}

#[test]
fn cancelled_before_the_start() {
    let (batches, summary) = split(aggregate_entries(Vec::new(), &options(256, true), 0, 0, true));
    assert!(batches.is_empty());
    assert!(summary.stopped_early);
    assert_eq!(summary.processed_files, 0);
    assert!(summary.failed_files.is_empty());
    assert_eq!(summary.total_files, 0);
}

#[test]
fn cancelled_in_the_middle() {
    // the workers gave up after three files; one of the three never came
    let arrivals = vec![
        (0, text("", "a", "")),
        (1, text("", "b", "")),
        (3, text("", "d", "")),
    ];
    let (batches, summary) = split(aggregate_entries(arrivals, &options(2, false), 9, 1, true));
    assert_eq!(batches.len(), 2);
    assert_eq!(names(&batches[0]), vec!["a", "b"]);
    assert_eq!(names(&batches[1]), vec!["d"]);
    assert!(summary.stopped_early);
    assert_eq!(summary.processed_files, 3);
    assert_eq!(summary.included_files, 9);
    assert_eq!(summary.excluded_files, 1);
    assert_eq!(summary.total_files, 10);
}

#[test]
fn every_record_bears_one_of_four_tags() {
    let arrivals = vec![
        (0, text("", "a", "")),
        (1, excluded("b")),
        (2, failed("", "c", "x")),
        (
            3,
            record(
                "",
                "d",
                FileInfo::Binary { content: String::new(), preview_bytes: 0, truncated: false },
            ),
        ),
    ];
    let (batches, _) = split(aggregate_entries(arrivals, &options(3, false), 4, 0, false));
    let tags: Vec<&str> = batches.iter().flatten().map(|r| r.info.type_tag()).collect();
    assert_eq!(tags, vec!["text", "excluded", "error", "binary"]);
}

#[test]
fn the_reorder_buffer_keeps_index_order() {
    let mut p = PendingRecords::new();
    for (i, name) in [(7usize, "h"), (2, "c"), (9, "j"), (2, "c2"), (0, "a")] {
        p.insert(i, text("", name, ""));
    }
    assert!(p.take(3).is_none());
    assert_eq!(p.take(7).map(|r| r.filename), Some("h".to_string()));
    assert!(p.take(7).is_none());
    let rest: Vec<(usize, String)> =
        p.into_sorted().into_iter().map(|(i, r)| (i, r.filename)).collect();
    assert_eq!(
        rest,
        vec![(0, "a".to_string()), (2, "c2".to_string()), (9, "j".to_string())]
    );
    assert!(PendingRecords::new().into_sorted().is_empty());
}
