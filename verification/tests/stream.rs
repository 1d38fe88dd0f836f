use samuraizer::aggregate::Summary;
use samuraizer::cache::{get_cached_entry, set_cached_entry, CacheEntry, CacheStore};
use samuraizer::errors::NativeError;
use samuraizer::meta::Timestamp;
use samuraizer::timezone::{blank, char_is_space, TimezoneInfo, MAX_ZONED_SECS};
use samuraizer::traversal::{
    after_send, before_file, channel_capacity, check_cancellation, traversal_worker, StageEnd,
    StreamItem, TraversalIterator, TraversalMessage,
};

fn summary() -> Summary {
    Summary {
        total_files: 0,
        excluded_files: 0,
        included_files: 0,
        processed_files: 0,
        failed_files: Vec::new(),
        stopped_early: true,
        hash_algorithm: None,
    }
}

#[test]
fn error_texts() {
    assert_eq!(NativeError::Io("x".to_string()).message(), "I/O error: x");
    assert_eq!(NativeError::Encoding("x".to_string()).message(), "Encoding error: x");
    assert_eq!(NativeError::Hashing("x".to_string()).message(), "Hashing error: x");
    assert_eq!(NativeError::Cancelled.message(), "Traversal aborted");
    assert_eq!(NativeError::Other("x".to_string()).message(), "Unexpected error: x");
    assert!(NativeError::Cancelled.is_cancelled());
    assert!(!NativeError::Other(String::new()).is_cancelled());
}

#[test]
fn queues_hold_four_slots_per_unit() {
    assert_eq!(channel_capacity(0), 4);
    assert_eq!(channel_capacity(1), 4);
    assert_eq!(channel_capacity(256), 1024);
    assert_eq!(channel_capacity(16), 64);
    assert_eq!(channel_capacity(usize::MAX), usize::MAX);
}

#[test]
fn a_worker_stops_on_flag_or_token() {
    assert!(matches!(check_cancellation(true, None), Ok(true)));
    assert!(matches!(check_cancellation(true, Some(Err("x".to_string()))), Ok(true)));
    assert!(matches!(check_cancellation(false, None), Ok(false)));
    assert!(matches!(check_cancellation(false, Some(Ok(false))), Ok(false)));
    assert!(matches!(check_cancellation(false, Some(Ok(true))), Ok(true)));
    match check_cancellation(false, Some(Err("token broke".to_string()))) {
        Err(NativeError::Other(m)) => assert_eq!(m, "token broke"),
        other => panic!("unexpected {:?}", other),
    }
}

#[test]
fn cancellation_is_no_failure_of_a_run() {
    assert!(traversal_worker(StageEnd::Completed, StageEnd::Completed).is_ok());
    assert!(traversal_worker(
        StageEnd::Failed(NativeError::Cancelled),
        StageEnd::Failed(NativeError::Cancelled)
    )
    .is_ok());
    match traversal_worker(
        StageEnd::Failed(NativeError::Other("w".to_string())),
        StageEnd::Failed(NativeError::Io("a".to_string())),
    ) {
        Err(NativeError::Other(m)) => assert_eq!(m, "w"),
        other => panic!("unexpected {:?}", other),
    }
    match traversal_worker(StageEnd::Completed, StageEnd::Failed(NativeError::Io("a".to_string()))) {
        Err(NativeError::Io(m)) => assert_eq!(m, "a"),
        other => panic!("unexpected {:?}", other),
    }
    match traversal_worker(StageEnd::Failed(NativeError::Cancelled), StageEnd::Panicked) {
        Err(NativeError::Other(m)) => assert_eq!(m, "Traversal aggregator panicked"),
        other => panic!("unexpected {:?}", other),
    }
}

#[test]
fn nothing_follows_the_summary() {
    let mut it = TraversalIterator::new();
    assert!(!it.finished());
    assert!(matches!(
        it.next(Some(TraversalMessage::Entries(Vec::new()))),
        Ok(Some(StreamItem::Entries(_)))
    ));
    assert!(!it.finished());
    assert!(matches!(
        it.next(Some(TraversalMessage::Summary(summary()))),
        Ok(Some(StreamItem::Summary(_)))
    ));
    assert!(it.finished());
    assert!(matches!(it.next(Some(TraversalMessage::Entries(Vec::new()))), Ok(None)));
    assert!(matches!(it.next(None), Ok(None)));
}

#[test]
fn an_error_message_fails_the_pull() {
    let mut it = TraversalIterator::new();
    match it.next(Some(TraversalMessage::Error(NativeError::Other("x".to_string())))) {
        Err(NativeError::Other(m)) => assert_eq!(m, "x"),
        other => panic!("unexpected {:?}", other),
    }
    assert!(!it.finished());
    assert!(matches!(it.next(None), Ok(None)));
    assert!(it.finished());
}

#[test]
fn cache_round_trip() {
    let mut store = CacheStore::new();
    assert!(matches!(get_cached_entry(&store, "/a"), Ok(None)));
    set_cached_entry(&mut store, "/a", Some("00ff"), "{\"type\":\"text\"}", 12, 4609434218613702656, false);
    match get_cached_entry(&store, "/a") {
        Ok(Some(CacheEntry { file_hash, file_info, size, mtime_bits })) => {
            assert_eq!(file_hash.as_deref(), Some("00ff"));
            assert_eq!(file_info, "{\"type\":\"text\"}");
            assert_eq!(size, 12);
            assert_eq!(f64::from_bits(mtime_bits), 1.5);
        }
        other => panic!("unexpected {:?}", other),
    }
    assert!(matches!(get_cached_entry(&store, "/b"), Ok(None)));
}

#[test]
fn cache_writes_replace() {
    let mut store = CacheStore::new();
    set_cached_entry(&mut store, "/a", None, "1", 1, 0, false);
    set_cached_entry(&mut store, "/b", None, "2", 2, 0, true);
    set_cached_entry(&mut store, "/a", Some("h"), "[3]", 3, 7, false);
    assert_eq!(store.len(), 2);
    let a = get_cached_entry(&store, "/a").unwrap().unwrap();
    assert_eq!((a.file_hash.as_deref(), a.file_info.as_str(), a.size, a.mtime_bits), (Some("h"), "[3]", 3, 7));
    let b = get_cached_entry(&store, "/b").unwrap().unwrap();
    assert_eq!((b.file_hash, b.file_info.as_str(), b.size), (None, "2", 2));
}

#[test]
fn an_info_that_is_no_json_fails_the_read() {
    let mut store = CacheStore::new();
    set_cached_entry(&mut store, "/a", None, "{oops", 1, 0, false);
    match get_cached_entry(&store, "/a") {
        Err(NativeError::Other(m)) => assert_eq!(m, "Invalid cached file info: {oops"),
        other => panic!("unexpected {:?}", other),
    }
}

#[test]
fn white_space() {
    for c in [' ', '\t', '\n', '\u{b}', '\u{c}', '\r', '\u{85}', '\u{a0}', '\u{2028}', '\u{3000}'] {
        assert!(char_is_space(c));
        assert_eq!(char_is_space(c), c.is_whitespace());
    }
    for c in ['a', '.', '\u{200b}', '\0'] {
        assert!(!char_is_space(c));
        assert_eq!(char_is_space(c), c.is_whitespace());
    }
    assert!(blank(""));
    assert!(blank(" \t "));
    assert!(!blank(" x "));
}

#[test]
fn zone_labels() {
    assert_eq!(TimezoneInfo::with_local_label(true, None, "CET").label(), "UTC");
    assert_eq!(
        TimezoneInfo::with_local_label(true, Some("Asia/Tokyo".to_string()), "CET").label(),
        "UTC"
    );
    assert_eq!(
        TimezoneInfo::with_local_label(false, Some("Asia/Tokyo".to_string()), "CET").label(),
        "Asia/Tokyo"
    );
    assert_eq!(
        TimezoneInfo::with_local_label(false, Some("Not/AZone".to_string()), "CET").label(),
        "Not/AZone"
    );
    assert_eq!(TimezoneInfo::with_local_label(false, None, "CET").label(), "CET");
    assert!(!TimezoneInfo::new(false, None).label().is_empty());
    assert!(!TimezoneInfo::local_label().trim().is_empty());
}

#[test]
fn a_blank_abbreviation_gives_way_to_the_offset() {
    assert_eq!(TimezoneInfo::label_from("CET".to_string(), "+01:00".to_string()), "CET");
    assert_eq!(TimezoneInfo::label_from(String::new(), "+01:00".to_string()), "+01:00");
    assert_eq!(TimezoneInfo::label_from(" \t".to_string(), "-05:30".to_string()), "-05:30");
    assert_eq!(TimezoneInfo::label_from(" x ".to_string(), "+00:00".to_string()), " x ");
}

#[test]
fn times_in_utc() {
    let z = TimezoneInfo::with_local_label(true, None, "");
    assert_eq!(
        z.format_system_time(Timestamp { secs: 0, nanos: 0 }).as_deref(),
        Some("1970-01-01T00:00:00.000Z")
    );
    assert_eq!(
        z.format_system_time(Timestamp { secs: 1516991409, nanos: 453_829_000 }).as_deref(),
        Some("2018-01-26T18:30:09.453Z")
    );
    assert_eq!(z.format_system_time(Timestamp { secs: u64::MAX, nanos: 0 }), None);
    assert_eq!(z.format_system_time(Timestamp { secs: i64::MAX as u64, nanos: 0 }), None);
}

#[test]
fn times_in_named_zones() {
    let tokyo = TimezoneInfo::with_local_label(false, Some("Asia/Tokyo".to_string()), "");
    assert_eq!(
        tokyo.format_system_time(Timestamp { secs: 0, nanos: 1_000_000 }).as_deref(),
        Some("1970-01-01T09:00:00.001+09:00")
    );
    let new_york = TimezoneInfo::with_local_label(false, Some("America/New_York".to_string()), "");
    assert_eq!(
        new_york.format_system_time(Timestamp { secs: 1516991409, nanos: 0 }).as_deref(),
        Some("2018-01-26T13:30:09.000-05:00")
    );
    assert_eq!(tokyo.format_system_time(Timestamp { secs: MAX_ZONED_SECS + 1, nanos: 0 }), None);
    assert_eq!(
        tokyo.format_system_time(Timestamp { secs: MAX_ZONED_SECS, nanos: 0 }).as_deref(),
        Some("+262142-12-31T08:59:59.000+09:00")
    );
    assert_eq!(
        tokyo.format_system_time(Timestamp { secs: 253402300800, nanos: 0 }).as_deref(),
        Some("+10000-01-01T09:00:00.000+09:00")
    );
    let west = TimezoneInfo::with_local_label(false, Some("Pacific/Pago_Pago".to_string()), "");
    assert!(west.format_system_time(Timestamp { secs: MAX_ZONED_SECS, nanos: 0 }).is_some());
    let east = TimezoneInfo::with_local_label(false, Some("Pacific/Kiritimati".to_string()), "");
    assert_eq!(
        east.format_system_time(Timestamp { secs: MAX_ZONED_SECS, nanos: 0 }).as_deref(),
        Some("+262142-12-31T13:59:59.000+14:00")
    );
}

#[test]
fn an_unknown_zone_renders_in_the_zone_of_the_machine() {
    let z = TimezoneInfo::with_local_label(false, Some("Not/AZone".to_string()), "");
    let text = z.format_system_time(Timestamp { secs: 1516991409, nanos: 0 }).unwrap();
    assert!(text.starts_with("2018-01-2"));
    assert_eq!(&text[10..11], "T");
    let local = TimezoneInfo::with_local_label(false, None, "");
    assert_eq!(local.format_system_time(Timestamp { secs: 1516991409, nanos: 0 }), Some(text));
}

#[test]
fn a_closed_queue_cancels_the_stage() {
    let went = after_send(true);
    assert!(!went.raise_flag);
    assert!(went.outcome.is_ok());
    let closed = after_send(false);
    assert!(closed.raise_flag);
    assert!(matches!(closed.outcome, Err(NativeError::Cancelled)));
}

#[test]
fn a_worker_before_a_file() {
    let go = before_file(false, Some(Ok(false)));
    assert!(!go.raise_flag && go.outcome.is_ok());
    let free = before_file(false, None);
    assert!(!free.raise_flag && free.outcome.is_ok());
    let asked = before_file(false, Some(Ok(true)));
    assert!(asked.raise_flag);
    assert!(matches!(asked.outcome, Err(NativeError::Cancelled)));
    let flagged = before_file(true, None);
    assert!(!flagged.raise_flag);
    assert!(matches!(flagged.outcome, Err(NativeError::Cancelled)));
    let broken = before_file(false, Some(Err("token broke".to_string())));
    assert!(!broken.raise_flag);
    assert!(matches!(broken.outcome, Err(NativeError::Other(ref m)) if m == "token broke"));
}

#[test]
fn the_zone_of_the_machine_renders_at_an_offset() {
    let local = TimezoneInfo::with_local_label(false, None, "");
    for secs in [0u64, 1516991409, 253402300800, MAX_ZONED_SECS] {
        let text = local.format_system_time(Timestamp { secs, nanos: 7_000_000 }).unwrap();
        let (stamp, offset) = if let Some(stamp) = text.strip_suffix('Z') {
            (stamp.to_string(), "+00:00".to_string())
        } else {
            let cut = text.len() - 6;
            (text[..cut].to_string(), text[cut..].to_string())
        };
        assert!(stamp.ends_with(".007"), "{}", text);
        assert!(offset.starts_with('+') || offset.starts_with('-'), "{}", text);
        assert_eq!(&offset[3..4], ":", "{}", text);
    }
    assert_eq!(local.format_system_time(Timestamp { secs: MAX_ZONED_SECS + 1, nanos: 0 }), None);
}
