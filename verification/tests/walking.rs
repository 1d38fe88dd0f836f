use samuraizer::options::{contains_name, RawOptions, TraversalOptions, DEFAULT_CHUNK_SIZE};
use samuraizer::patterns::{
    compile_patterns, matches_patterns, PatternMatcher, MAX_GLOB_BRACES, MAX_GLOB_LENGTH,
};
use samuraizer::walker::{EntryKind, GatherResult, WalkAction, WalkEntry};

fn raw() -> RawOptions {
    RawOptions {
        root: "/r".to_string(),
        max_file_size: None,
        include_binary: None,
        follow_symlinks: None,
        threads: None,
        encoding: None,
        hashing_enabled: None,
        chunk_size: None,
        use_utc: Some(true),
        timezone: None,
        image_extensions: Vec::new(),
        excluded_folders: Vec::new(),
        excluded_files: Vec::new(),
        exclude_patterns: Vec::new(),
    }
}

fn entry(name: &str, path: &str, kind: EntryKind) -> WalkEntry {
    WalkEntry { name: name.to_string(), path: path.to_string(), kind }
}

#[test]
fn defaults_of_a_run() {
    let o = TraversalOptions::from_raw(raw(), 8);
    assert_eq!(o.root, "/r");
    assert_eq!(o.max_file_size, usize::MAX as u64);
    assert!(o.include_binary);
    assert!(!o.follow_symlinks);
    assert_eq!(o.threads, 8);
    assert_eq!(o.encoding, None);
    assert!(o.hashing_enabled);
    assert_eq!(o.chunk_size, DEFAULT_CHUNK_SIZE);
    assert_eq!(o.chunk_size, 256);
    assert_eq!(o.timezone.label(), "UTC");
    assert!(o.exclude_patterns.is_empty());
}

#[test]
fn settings_are_taken_over() {
    let o = TraversalOptions::from_raw(
        RawOptions {
            max_file_size: Some(10),
            include_binary: Some(false),
            follow_symlinks: Some(true),
            threads: Some(3),
            encoding: Some("latin1".to_string()),
            hashing_enabled: Some(false),
            chunk_size: Some(7),
            use_utc: None,
            timezone: Some("Asia/Tokyo".to_string()),
            image_extensions: vec![".PNG".to_string(), ".Jpg".to_string()],
            excluded_folders: vec!["node_modules".to_string()],
            excluded_files: vec!["x".to_string()],
            ..raw()
        },
        8,
    );
    assert_eq!(o.max_file_size, 10);
    assert!(!o.include_binary);
    assert!(o.follow_symlinks);
    assert_eq!(o.threads, 3);
    assert_eq!(o.encoding.as_deref(), Some("latin1"));
    assert!(!o.hashing_enabled);
    assert_eq!(o.chunk_size, 7);
    assert_eq!(o.timezone.label(), "Asia/Tokyo");
    assert_eq!(o.image_extensions, vec![".png", ".jpg"]);
    assert_eq!(o.excluded_folders, vec!["node_modules"]);
    assert_eq!(o.excluded_files, vec!["x"]);
}

#[test]
fn workers_and_batches_are_at_least_one() {
    let o = TraversalOptions::from_raw(
        RawOptions { threads: Some(0), chunk_size: Some(0), ..raw() },
        4,
    );
    assert_eq!(o.threads, 1);
    assert_eq!(o.chunk_size, 1);
    let p = TraversalOptions::from_raw(raw(), 0);
    assert_eq!(p.threads, 1);
}

#[test]
fn patterns_that_do_not_parse_are_dropped() {
    let texts = vec![
        "*.log".to_string(),
        "[".to_string(),
        "regex:^tmp\\d+$".to_string(),
        "regex:(".to_string(),
    ];
    let compiled = compile_patterns(&texts);
    assert_eq!(compiled.len(), 2);
    assert!(matches!(compiled[0], PatternMatcher::Glob(_)));
    assert!(matches!(compiled[1], PatternMatcher::Regex(_)));
    assert!(matches_patterns("a.log", &compiled));
    assert!(matches_patterns("tmp42", &compiled));
    assert!(!matches_patterns("tmp", &compiled));
    assert!(!matches_patterns("a.txt", &compiled));
    assert!(!matches_patterns("a.log", &Vec::new()));
}

#[test]
fn the_prefix_marks_a_regular_expression() {
    let glob = PatternMatcher::parse("a.c").unwrap();
    assert!(glob.is_match("a.c"));
    assert!(!glob.is_match("abc"));
    let regex = PatternMatcher::parse("regex:a.c").unwrap();
    assert!(regex.is_match("abc"));
    assert!(regex.is_match("xxabcxx"));
    assert!(PatternMatcher::parse("regex:").unwrap().is_match("anything"));
    assert!(PatternMatcher::parse("regex:[").is_none());
    assert!(PatternMatcher::parse("{a").is_none());
}

#[test]
fn names_are_compared_whole() {
    let names = vec!["a".to_string(), "node_modules".to_string()];
    assert!(contains_name(&names, "node_modules"));
    assert!(!contains_name(&names, "node"));
    assert!(!contains_name(&Vec::new(), "a"));
}

#[test]
fn excluded_folder_is_skipped_and_not_counted() {
    let o = TraversalOptions::from_raw(
        RawOptions { excluded_folders: vec!["node_modules".to_string()], ..raw() },
        1,
    );
    let mut g = GatherResult::new();
    assert_eq!(g.step(entry("r", "/r", EntryKind::Directory), false, &o), WalkAction::Continue);
    assert_eq!(
        g.step(entry("node_modules", "/r/node_modules", EntryKind::Directory), false, &o),
        WalkAction::SkipDirectory
    );
    assert_eq!(g.step(entry("main.py", "/r/main.py", EntryKind::File), false, &o), WalkAction::Continue);
    assert_eq!(g.files, vec!["/r/main.py"]);
    assert_eq!(g.included, 1);
    assert_eq!(g.excluded, 0);
    assert!(!g.cancelled);
}

#[test]
fn excluded_files_are_counted_and_dropped() {
    let o = TraversalOptions::from_raw(
        RawOptions {
            excluded_files: vec!["secret.txt".to_string()],
            exclude_patterns: vec!["*.log".to_string(), "regex:^build".to_string()],
            ..raw()
        },
        1,
    );
    let mut g = GatherResult::new();
    for (name, kind) in [
        ("a.txt", EntryKind::File),
        ("secret.txt", EntryKind::File),
        ("x.log", EntryKind::File),
        ("socket", EntryKind::Other),
        ("b.txt", EntryKind::File),
    ] {
        assert!(g.room_left());
        assert_eq!(g.step(entry(name, &format!("/r/{}", name), kind), false, &o), WalkAction::Continue);
    }
    assert_eq!(
        g.step(entry("build-out", "/r/build-out", EntryKind::Directory), false, &o),
        WalkAction::SkipDirectory
    );
    // a folder name is not tested against the excluded files
    assert_eq!(
        g.step(entry("secret.txt", "/r/secret.txt", EntryKind::Directory), false, &o),
        WalkAction::Continue
    );
    assert_eq!(g.files, vec!["/r/a.txt", "/r/b.txt"]);
    assert_eq!(g.included, 2);
    assert_eq!(g.excluded, 2);
}

#[test]
fn cancellation_stops_the_walk() {
    let o = TraversalOptions::from_raw(raw(), 1);
    let mut g = GatherResult::new();
    assert_eq!(g.step(entry("a", "/r/a", EntryKind::File), true, &o), WalkAction::Stop);
    assert!(g.cancelled);
    assert!(g.files.is_empty());
    assert_eq!(g.included, 0);
    assert_eq!(g.excluded, 0);
    let mut h = GatherResult::new();
    h.step(entry("a", "/r/a", EntryKind::File), false, &o);
    assert_eq!(h.step(entry("b", "/r/b", EntryKind::File), true, &o), WalkAction::Stop);
    assert!(h.cancelled);
    assert_eq!(h.files, vec!["/r/a"]);
}

#[test]
fn a_glob_that_is_too_large_is_no_pattern() {
    let longest = "a".repeat(MAX_GLOB_LENGTH);
    let p = PatternMatcher::parse(&longest).unwrap();
    assert!(p.is_match(&longest));
    assert!(PatternMatcher::parse(&"a".repeat(MAX_GLOB_LENGTH + 1)).is_none());
    assert!(PatternMatcher::parse(&"a".repeat(400_000)).is_none());
    assert!(PatternMatcher::parse(&"\u{10FFFF}".repeat(MAX_GLOB_LENGTH)).is_some());
    let nested = |depth: usize| format!("{}**/a*?[!b]{}", "{x,".repeat(depth), "}".repeat(depth));
    let deepest = PatternMatcher::parse(&nested(MAX_GLOB_BRACES)).unwrap();
    assert!(deepest.is_match("x"));
    assert!(PatternMatcher::parse(&nested(MAX_GLOB_BRACES + 1)).is_none());
    let many = |groups: usize| "{a,b}".repeat(groups);
    assert!(PatternMatcher::parse(&many(MAX_GLOB_BRACES)).is_some());
    assert!(PatternMatcher::parse(&many(MAX_GLOB_BRACES + 1)).is_none());
    let texts = vec!["*.log".to_string(), "x".repeat(5000), "*.tmp".to_string()];
    assert_eq!(compile_patterns(&texts).len(), 2);
    // the bounds are on globs; a long regular expression is left to its own limits
    let long_regex = format!("regex:{}", "a".repeat(5000));
    assert!(PatternMatcher::parse(&long_regex).is_some());
}
