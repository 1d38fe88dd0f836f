//! The record produced for each file.
use vstd::prelude::*;
use vstd::string::*;
use crate::content::{ExclusionReason, FileInfo, InfoModel};
use crate::errors::{error_text, NativeError};
use crate::meta::{FileMeta, Timestamp};
use crate::mime::extension_of;
use crate::options::{contains_name, name_views, TraversalOptions};
use crate::text::{chars_of, concat, lowercase_of, push_char, to_lowercase};
use crate::timezone::{char_is_space, is_local, is_space, local_text_ok, rendered, TimezoneInfo};

verus! {

/// What is stamped on the info of a file that was inspected.
#[derive(Debug, Clone)]
pub struct InfoDetails {
    /// Size in bytes.
    pub size: u64,
    /// The mode in octal, with the prefix `0o`.
    pub permissions: String,
    /// Last modification as an RFC 3339 text, where known.
    pub modified: Option<String>,
    /// Creation as an RFC 3339 text, where known.
    pub created: Option<String>,
    /// The label of the time zone in which both are rendered.
    pub timezone: String,
}

/// The stat fields of a record.
#[derive(Debug, Clone, Copy, PartialEq, Eq, Structural)]
pub struct RecordStat {
    /// Size in bytes.
    pub size: u64,
    /// Last modification since the epoch, zero where unknown.
    pub mtime: Timestamp,
    /// Creation since the epoch, zero where unknown.
    pub ctime: Timestamp,
    /// POSIX mode bits, or 0.
    pub mode: u32,
}

/// The `hash` field of a record of a run that hashes.
#[derive(Debug, Clone)]
pub enum HashField {
    /// Sixteen hex digits.
    Digest(String),
    /// The file was gone when it was to be hashed.
    Absent,
    /// Hashing failed; the text says how.
    Failed(String),
}

/// One file of a run.
#[derive(Debug, Clone)]
pub struct FileRecord {
    /// Directory of the file relative to the root, with forward slashes;
    /// empty at the root.
    pub parent: String,
    /// The file's name.
    pub filename: String,
    /// What is known of the content.
    pub info: FileInfo,
    /// Size, times and zone, stamped on the info of a file that was read.
    pub details: Option<InfoDetails>,
    /// Size, times and mode.
    pub stat: RecordStat,
    /// The content hash, in a run that hashes, of a file that was read.
    pub hash: Option<HashField>,
}


/// The mathematical value of an [`InfoDetails`].
pub ghost struct DetailsModel {
    pub size: u64,
    pub permissions: Seq<char>,
    pub modified: Option<Seq<char>>,
    pub created: Option<Seq<char>>,
    pub timezone: Seq<char>,
}

/// An optional text as a plain value.
pub open spec fn text_view(t: Option<String>) -> Option<Seq<char>> {
    match t {
        Some(s) => Some(s@),
        None => None,
    }
}

impl View for InfoDetails {
    type V = DetailsModel;

    open spec fn view(&self) -> DetailsModel {
        DetailsModel {
            size: self.size,
            permissions: self.permissions@,
            modified: text_view(self.modified),
            created: text_view(self.created),
            timezone: self.timezone@,
        }
    }
}

/// The mathematical value of a [`HashField`].
pub ghost enum HashModel {
    Digest(Seq<char>),
    Absent,
    Failed(Seq<char>),
}

impl View for HashField {
    type V = HashModel;

    open spec fn view(&self) -> HashModel {
        match *self {
            HashField::Digest(d) => HashModel::Digest(d@),
            HashField::Absent => HashModel::Absent,
            HashField::Failed(m) => HashModel::Failed(m@),
        }
    }
}

/// The mathematical value of a [`FileRecord`].
pub ghost struct RecordModel {
    pub parent: Seq<char>,
    pub filename: Seq<char>,
    pub info: InfoModel,
    pub details: Option<DetailsModel>,
    pub stat: RecordStat,
    pub hash: Option<HashModel>,
}

impl View for FileRecord {
    type V = RecordModel;

    open spec fn view(&self) -> RecordModel {
        RecordModel {
            parent: self.parent@,
            filename: self.filename@,
            info: self.info@,
            details: match self.details {
                Some(d) => Some(d@),
                None => None,
            },
            stat: self.stat,
            hash: match self.hash {
                Some(h) => Some(h@),
                None => None,
            },
        }
    }
}

/// The stat fields of a file whose stat failed.
pub open spec fn no_stat() -> RecordStat {
    RecordStat {
        size: 0,
        mtime: Timestamp { secs: 0, nanos: 0 },
        ctime: Timestamp { secs: 0, nanos: 0 },
        mode: 0,
    }
}

/// The stat fields of a file from its metadata: a time that is unknown
/// counts as the epoch.
pub open spec fn stat_of(meta: FileMeta) -> RecordStat {
    RecordStat {
        size: meta.size,
        mtime: match meta.modified {
            Some(t) => t,
            None => Timestamp { secs: 0, nanos: 0 },
        },
        ctime: match meta.created {
            Some(t) => t,
            None => Timestamp { secs: 0, nanos: 0 },
        },
        mode: meta.mode,
    }
}

/// Computes the stat fields of a file from its metadata.
pub fn record_stat(meta: &FileMeta) -> (s: RecordStat)
    ensures
        s == stat_of(*meta),
{
    RecordStat {
        size: meta.size,
        mtime: match meta.modified {
            Some(t) => t,
            None => Timestamp { secs: 0, nanos: 0 },
        },
        ctime: match meta.created {
            Some(t) => t,
            None => Timestamp { secs: 0, nanos: 0 },
        },
        mode: meta.mode,
    }
}

/// The octal digits of a number, most significant first; `0` for zero.
pub open spec fn octal_digits(n: nat) -> Seq<char>
    decreases n,
{
    if n < 8 {
        seq![(48 + n) as char]
    } else {
        octal_digits(n / 8).push((48 + n % 8) as char)
    }
}

/// The permissions text of a mode: `0o` and the mode in octal.
pub open spec fn permissions_of(mode: u32) -> Seq<char> {
    seq!['0', 'o'] + octal_digits(mode as nat)
}

/// Renders a mode as its permissions text.
pub fn format_permissions(mode: u32) -> (s: String)
    ensures
        s@ == permissions_of(mode),
{
    // Digits, least significant first.
    let mut digits: Vec<char> = Vec::new();
    let mut rest: u32 = mode;
    while rest >= 8
        invariant
            octal_digits(mode as nat) == octal_digits(rest as nat) + digits@.reverse(),
        decreases rest,
    {
        let d = ((48 + rest % 8) as u8) as char;
        let ghost before = digits@;
        digits.push(d);
        proof {
            assert(digits@.reverse() =~= seq![d] + before.reverse());
            assert(octal_digits(rest as nat) == octal_digits((rest / 8) as nat).push(d));
            assert(octal_digits((rest / 8) as nat).push(d) + before.reverse() =~= octal_digits(
                (rest / 8) as nat,
            ) + (seq![d] + before.reverse()));
        }
        rest = rest / 8;
    }
    let mut s = String::new();
    push_char(&mut s, '0');
    push_char(&mut s, 'o');
    push_char(&mut s, ((48 + rest) as u8) as char);
    let mut i: usize = digits.len();
    while i > 0
        invariant
            i <= digits.len(),
            s@ == seq!['0', 'o'] + octal_digits(rest as nat) + digits@.reverse().take(
                digits.len() - i,
            ),
        decreases i,
    {
        i = i - 1;
        let ghost before = s@;
        push_char(&mut s, digits[i]);
        proof {
            let rev = digits@.reverse();
            let k = digits.len() - i - 1;
            assert(rev[k] == digits@[i as int]);
            assert(rev.take(k + 1) =~= rev.take(k).push(rev[k]));
        }
    }
    proof {
        assert(digits@.reverse().take(digits.len() as int) =~= digits@.reverse());
    }
    s
}

/// A text without its leading white space.
pub open spec fn trim_start(s: Seq<char>) -> Seq<char>
    decreases s.len(),
{
    if s.len() > 0 && is_space(s[0]) {
        trim_start(s.drop_first())
    } else {
        s
    }
}

/// A text without its trailing white space.
pub open spec fn trim_end(s: Seq<char>) -> Seq<char>
    decreases s.len(),
{
    if s.len() > 0 && is_space(s.last()) {
        trim_end(s.drop_last())
    } else {
        s
    }
}

/// A text with every backslash turned into a forward slash.
pub open spec fn forward_slashes(s: Seq<char>) -> Seq<char> {
    Seq::new(s.len(), |i: int| if s[i] == '\\' { '/' } else { s[i] })
}

/// The parent of a record from the directory of the file relative to the
/// root, where the file lies below the root: trimmed, with forward slashes,
/// and empty for the root itself.
pub open spec fn parent_of(relative: Option<Seq<char>>) -> Seq<char> {
    match relative {
        None => Seq::empty(),
        Some(r) => {
            let t = trim_end(trim_start(r));
            if t.len() == 0 || t == seq!['.'] {
                Seq::empty()
            } else {
                forward_slashes(t)
            }
        },
    }
}

proof fn lemma_trim_start_scan(s: Seq<char>, i: int)
    requires
        0 <= i <= s.len(),
        forall|k: int| 0 <= k < i ==> is_space(#[trigger] s[k]),
        i < s.len() ==> !is_space(s[i]),
    ensures
        trim_start(s) == s.skip(i),
    decreases i,
{
    if i == 0 {
        assert(s.skip(0) == s);
    } else {
        let rest = s.drop_first();
        assert forall|k: int| 0 <= k < i - 1 implies is_space(#[trigger] rest[k]) by {
            assert(rest[k] == s[k + 1]);
        }
        if i < s.len() {
            assert(rest[i - 1] == s[i]);
        }
        assert(is_space(s[0]));
        lemma_trim_start_scan(rest, i - 1);
        assert(rest.skip(i - 1) == s.skip(i));
    }
}

proof fn lemma_trim_end_scan(s: Seq<char>, j: int)
    requires
        0 <= j <= s.len(),
        forall|k: int| j <= k < s.len() ==> is_space(#[trigger] s[k]),
        j > 0 ==> !is_space(s[j - 1]),
    ensures
        trim_end(s) == s.take(j),
    decreases s.len() - j,
{
    if j == s.len() {
        assert(s.take(j) == s);
    } else {
        let rest = s.drop_last();
        assert(is_space(s[s.len() - 1]));
        assert forall|k: int| j <= k < rest.len() implies is_space(#[trigger] rest[k]) by {
            assert(rest[k] == s[k]);
        }
        if j > 0 {
            assert(rest[j - 1] == s[j - 1]);
        }
        lemma_trim_end_scan(rest, j);
        assert(rest.take(j) == s.take(j));
    }
}

/// Computes the parent of a record.
pub fn relative_parent(relative: Option<&str>) -> (r: String)
    ensures
        r@ == parent_of(
            match relative {
                Some(t) => Some(t@),
                None => None,
            },
        ),
{
    let text = match relative {
        None => {
            return String::new();
        },
        Some(t) => t,
    };
    let chars = chars_of(text);
    let n = chars.len();
    let mut i: usize = 0;
    while i < n && char_is_space(chars[i])
        invariant
            i <= n,
            n == chars.len(),
            forall|k: int| 0 <= k < i ==> is_space(#[trigger] chars@[k]),
        decreases n - i,
    {
        i = i + 1;
    }
    let mut j: usize = n;
    while j > i && char_is_space(chars[j - 1])
        invariant
            i <= j <= n,
            n == chars.len(),
            forall|k: int| j <= k < n ==> is_space(#[trigger] chars@[k]),
        decreases j,
    {
        j = j - 1;
    }
    proof {
        lemma_trim_start_scan(chars@, i as int);
        let started = chars@.skip(i as int);
        assert forall|k: int| j - i <= k < started.len() implies is_space(#[trigger] started[k]) by {
            assert(started[k] == chars@[k + i]);
        }
        if j > i {
            assert(started[j - i - 1] == chars@[j - 1]);
        }
        lemma_trim_end_scan(started, j - i);
        assert(started.take(j - i) =~= chars@.subrange(i as int, j as int));
    }
    let ghost t = chars@.subrange(i as int, j as int);
    if j == i || (j - i == 1 && chars[i] == '.') {
        proof {
            if j - i == 1 {
                assert(t =~= seq!['.']);
            }
        }
        return String::new();
    }
    proof {
        if t == seq!['.'] {
            assert(seq!['.'].len() == 1);
            assert(t[0] == '.');
        }
    }
    let mut r = String::new();
    let mut k: usize = i;
    while k < j
        invariant
            i <= k <= j <= n,
            n == chars.len(),
            r@ == forward_slashes(chars@.subrange(i as int, k as int)),
        decreases j - k,
    {
        let c = chars[k];
        let ghost before = r@;
        push_char(&mut r, if c == '\\' { '/' } else { c });
        proof {
            assert(chars@.subrange(i as int, k + 1) =~= chars@.subrange(i as int, k as int).push(c));
            assert(r@ =~= forward_slashes(chars@.subrange(i as int, k + 1)));
        }
        k = k + 1;
    }
    r
}


/// The record of a file whose stat failed.
pub open spec fn stat_error_record(parent: Seq<char>, filename: Seq<char>, message: Seq<char>) -> RecordModel {
    RecordModel {
        parent,
        filename,
        info: InfoModel::Error {
            content: "Failed to get file stats: "@ + message,
            exception_type: "OSError"@,
            exception_message: message,
        },
        details: None,
        stat: no_stat(),
        hash: None,
    }
}

/// The record of a file above the size ceiling.
pub open spec fn size_excluded_record(parent: Seq<char>, filename: Seq<char>, meta: FileMeta) -> RecordModel {
    RecordModel {
        parent,
        filename,
        info: InfoModel::Excluded { reason: ExclusionReason::FileSize, size: Some(meta.size) },
        details: None,
        stat: stat_of(meta),
        hash: None,
    }
}

/// The record of a file whose classification failed.
pub open spec fn classify_error_record(
    parent: Seq<char>,
    filename: Seq<char>,
    meta: FileMeta,
    error: NativeError,
) -> RecordModel {
    RecordModel {
        parent,
        filename,
        info: InfoModel::Error {
            content: "Failed to classify file: "@ + error_text(error),
            exception_type: "NativeError"@,
            exception_message: error_text(error),
        },
        details: None,
        stat: stat_of(meta),
        hash: None,
    }
}

/// The record of a binary or image file in a run that leaves them out.
pub open spec fn kind_excluded_record(parent: Seq<char>, filename: Seq<char>, meta: FileMeta) -> RecordModel {
    RecordModel {
        parent,
        filename,
        info: InfoModel::Excluded { reason: ExclusionReason::BinaryOrImage, size: None },
        details: None,
        stat: stat_of(meta),
        hash: None,
    }
}

/// The suffix under which a file name is looked up among the image
/// suffixes: a dot and its lowercased extension, the dot alone where it has
/// none.
pub open spec fn image_suffix(filename: Seq<char>) -> Seq<char> {
    match extension_of(filename) {
        Some(e) => "."@ + lowercase_of(e),
        None => "."@ + lowercase_of(Seq::empty()),
    }
}

/// Whether a file name bears an image suffix of the run.
pub open spec fn is_image(filename: Seq<char>, options: TraversalOptions) -> bool {
    name_views(options.image_extensions@).contains(image_suffix(filename))
}

/// Tests whether a file name bears an image suffix of the run.
pub fn has_image_suffix(filename: &str, options: &TraversalOptions) -> (b: bool)
    ensures
        b == is_image(filename@, *options),
{
    let extension = match crate::mime::file_extension(filename) {
        Some(e) => e,
        None => String::new(),
    };
    let low = to_lowercase(extension.as_str());
    let suffix = concat(".", low.as_str());
    contains_name(&options.image_extensions, suffix.as_str())
}

/// What follows the stat of a file.
pub enum PathStep {
    /// The record is complete.
    Emit(FileRecord),
    /// The file, whose metadata these are, is to be classified.
    Classify(FileMeta),
}

/// First step for a file: a failed stat gives an error record, a file above
/// the size ceiling an exclusion; any other file is to be classified.
pub fn begin_path(
    parent: &str,
    filename: &str,
    stat: &Result<FileMeta, String>,
    options: &TraversalOptions,
) -> (step: PathStep)
    ensures
        match *stat {
            Err(message) => step matches PathStep::Emit(r) && r@ == stat_error_record(
                parent@,
                filename@,
                message@,
            ),
            Ok(meta) => if meta.size > options.max_file_size {
                step matches PathStep::Emit(r) && r@ == size_excluded_record(
                    parent@,
                    filename@,
                    meta,
                )
            } else {
                step matches PathStep::Classify(m) && m == meta
            },
        },
{
    match stat {
        Err(message) => PathStep::Emit(
            FileRecord {
                parent: String::from_str(parent),
                filename: String::from_str(filename),
                info: FileInfo::Error {
                    content: concat("Failed to get file stats: ", message.as_str()),
                    exception_type: String::from_str("OSError"),
                    exception_message: message.clone(),
                },
                details: None,
                stat: RecordStat {
                    size: 0,
                    mtime: Timestamp { secs: 0, nanos: 0 },
                    ctime: Timestamp { secs: 0, nanos: 0 },
                    mode: 0,
                },
                hash: None,
            },
        ),
        Ok(meta) => {
            if meta.size > options.max_file_size {
                PathStep::Emit(
                    FileRecord {
                        parent: String::from_str(parent),
                        filename: String::from_str(filename),
                        info: FileInfo::Excluded {
                            reason: ExclusionReason::FileSize,
                            size: Some(meta.size),
                        },
                        details: None,
                        stat: record_stat(meta),
                        hash: None,
                    },
                )
            } else {
                PathStep::Classify(*meta)
            }
        },
    }
}

/// What follows the classification of a file.
pub enum ClassifiedStep {
    /// The record is complete.
    Emit(FileRecord),
    /// The binary preview is to be read, with the given cap.
    ReadBinary { max_preview_bytes: usize },
    /// The text preview is to be read, with the given cap.
    ReadText { max_preview_bytes: usize },
}

/// The cap of the previews of a run: its size ceiling, as far as a machine
/// word reaches.
pub open spec fn preview_cap(options: TraversalOptions) -> usize {
    if options.max_file_size > usize::MAX {
        usize::MAX
    } else {
        options.max_file_size as usize
    }
}

/// Second step for a file: a failed classification gives an error record; a
/// binary or image file in a run that leaves them out gives an exclusion;
/// any other file is previewed, as binary or as text, up to the size
/// ceiling of the run.
pub fn after_classification(
    parent: &str,
    filename: &str,
    meta: &FileMeta,
    verdict: &Result<bool, NativeError>,
    options: &TraversalOptions,
) -> (step: ClassifiedStep)
    ensures
        match *verdict {
            Err(e) => step matches ClassifiedStep::Emit(r) && r@ == classify_error_record(
                parent@,
                filename@,
                *meta,
                e,
            ),
            Ok(binary) => if (binary || is_image(filename@, *options)) && !options.include_binary {
                step matches ClassifiedStep::Emit(r) && r@ == kind_excluded_record(
                    parent@,
                    filename@,
                    *meta,
                )
            } else if binary {
                step matches ClassifiedStep::ReadBinary { max_preview_bytes } && max_preview_bytes
                    == preview_cap(*options)
            } else {
                step matches ClassifiedStep::ReadText { max_preview_bytes } && max_preview_bytes
                    == preview_cap(*options)
            },
        },
{
    match verdict {
        Err(e) => {
            let text = e.message();
            ClassifiedStep::Emit(
                FileRecord {
                    parent: String::from_str(parent),
                    filename: String::from_str(filename),
                    info: FileInfo::Error {
                        content: concat("Failed to classify file: ", text.as_str()),
                        exception_type: String::from_str("NativeError"),
                        exception_message: text,
                    },
                    details: None,
                    stat: record_stat(meta),
                    hash: None,
                },
            )
        },
        Ok(binary) => {
            let image = has_image_suffix(filename, options);
            if (*binary || image) && !options.include_binary {
                ClassifiedStep::Emit(
                    FileRecord {
                        parent: String::from_str(parent),
                        filename: String::from_str(filename),
                        info: FileInfo::Excluded {
                            reason: ExclusionReason::BinaryOrImage,
                            size: None,
                        },
                        details: None,
                        stat: record_stat(meta),
                        hash: None,
                    },
                )
            } else {
                let max_preview_bytes = if options.max_file_size > usize::MAX as u64 {
                    usize::MAX
                } else {
                    options.max_file_size as usize
                };
                if *binary {
                    ClassifiedStep::ReadBinary { max_preview_bytes }
                } else {
                    ClassifiedStep::ReadText { max_preview_bytes }
                }
            }
        },
    }
}

/// The info of a file from the outcome of its preview: the preview itself,
/// or the report of the failure.
pub open spec fn preview_info(binary: bool, preview: Result<FileInfo, NativeError>) -> InfoModel {
    match preview {
        Ok(i) => i@,
        Err(e) => InfoModel::Error {
            content: (if binary {
                "Failed to read binary file: "@
            } else {
                "Failed to read text file: "@
            }) + error_text(e),
            exception_type: "NativeError"@,
            exception_message: error_text(e),
        },
    }
}

/// The hash field of a record from the outcome of hashing, in a run that
/// hashes; none in a run that does not.
pub open spec fn hash_field(
    hashing_enabled: bool,
    hash: Option<Result<Option<String>, NativeError>>,
) -> Option<HashModel> {
    if !hashing_enabled {
        None
    } else {
        Some(
            match hash {
                Some(Ok(Some(d))) => HashModel::Digest(d@),
                Some(Ok(None)) => HashModel::Absent,
                Some(Err(e)) => HashModel::Failed("Failed to compute hash: "@ + error_text(e)),
                None => HashModel::Absent,
            },
        )
    }
}

/// The record of a file that was previewed, for given texts of its times.
pub open spec fn inspected_record(
    parent: Seq<char>,
    filename: Seq<char>,
    meta: FileMeta,
    binary: bool,
    preview: Result<FileInfo, NativeError>,
    hash: Option<Result<Option<String>, NativeError>>,
    options: TraversalOptions,
    modified: Option<Seq<char>>,
    created: Option<Seq<char>>,
) -> RecordModel {
    RecordModel {
        parent,
        filename,
        info: preview_info(binary, preview),
        details: Some(
            DetailsModel {
                size: meta.size,
                permissions: permissions_of(meta.mode),
                modified,
                created,
                timezone: options.timezone@.label,
            },
        ),
        stat: stat_of(meta),
        hash: hash_field(options.hashing_enabled, hash),
    }
}

/// Completes the record of a file that was previewed, from texts of its
/// times that were rendered already.
pub fn finish_record(
    parent: &str,
    filename: &str,
    meta: &FileMeta,
    binary: bool,
    preview: Result<FileInfo, NativeError>,
    hash: Option<Result<Option<String>, NativeError>>,
    options: &TraversalOptions,
    modified: Option<String>,
    created: Option<String>,
) -> (r: FileRecord)
    ensures
        r@ == inspected_record(
            parent@,
            filename@,
            *meta,
            binary,
            preview,
            hash,
            *options,
            text_view(modified),
            text_view(created),
        ),
{
    let info = match preview {
        Ok(i) => i,
        Err(e) => {
            let text = e.message();
            FileInfo::Error {
                content: concat(
                    if binary {
                        "Failed to read binary file: "
                    } else {
                        "Failed to read text file: "
                    },
                    text.as_str(),
                ),
                exception_type: String::from_str("NativeError"),
                exception_message: text,
            }
        },
    };
    let hash_value = if !options.hashing_enabled {
        None
    } else {
        Some(
            match hash {
                Some(Ok(Some(d))) => HashField::Digest(d),
                Some(Ok(None)) => HashField::Absent,
                Some(Err(e)) => {
                    let text = e.message();
                    HashField::Failed(concat("Failed to compute hash: ", text.as_str()))
                },
                None => HashField::Absent,
            },
        )
    };
    FileRecord {
        parent: String::from_str(parent),
        filename: String::from_str(filename),
        info,
        details: Some(
            InfoDetails {
                size: meta.size,
                permissions: format_permissions(meta.mode),
                modified,
                created,
                timezone: String::from_str(options.timezone.label()),
            },
        ),
        stat: record_stat(meta),
        hash: hash_value,
    }
}

/// Whether a text is the rendering that a zone setting owes for a time: in
/// UTC and in a named zone the text is fixed; in the zone of the machine it
/// is the rendering at some offset. A time that is unknown has no text.
pub open spec fn time_text_ok(
    zone: crate::timezone::ZoneModel,
    time: Option<Timestamp>,
    text: Option<Seq<char>>,
) -> bool {
    match time {
        None => text is None,
        Some(t) => if is_local(zone) {
            local_text_ok(t, text)
        } else {
            text == rendered(zone, t)
        },
    }
}

fn render_time(zone: &TimezoneInfo, time: Option<Timestamp>) -> (r: Option<String>)
    ensures
        time_text_ok(zone@, time, text_view(r)),
{
    match time {
        None => None,
        Some(t) => zone.format_system_time(t),
    }
}

/// Last step for a file that was previewed: stamps size, permissions, times
/// and zone on the info, sets the stat fields and, in a run that hashes, the
/// hash field. A failed preview is reported in the info, a failed hash in
/// the hash field; neither fails the record.
pub fn after_preview(
    parent: &str,
    filename: &str,
    meta: &FileMeta,
    binary: bool,
    preview: Result<FileInfo, NativeError>,
    hash: Option<Result<Option<String>, NativeError>>,
    options: &TraversalOptions,
) -> (r: FileRecord)
    ensures
        r@.details matches Some(d) && r@ == inspected_record(
            parent@,
            filename@,
            *meta,
            binary,
            preview,
            hash,
            *options,
            d.modified,
            d.created,
        ) && time_text_ok(options.timezone@, meta.modified, d.modified) && time_text_ok(
            options.timezone@,
            meta.created,
            d.created,
        ),
{
    let modified = render_time(&options.timezone, meta.modified);
    let created = render_time(&options.timezone, meta.created);
    finish_record(parent, filename, meta, binary, preview, hash, options, modified, created)
}


/// Whether a file gets as far as its classification: its stat succeeded and
/// it is not above the size ceiling.
pub open spec fn reaches_classification(stat: Result<FileMeta, String>, options: TraversalOptions) -> bool {
    stat matches Ok(meta) && meta.size <= options.max_file_size
}

/// Whether a file gets as far as its preview: it was classified, and it is
/// not a binary or image file in a run that leaves them out.
pub open spec fn reaches_preview(
    filename: Seq<char>,
    stat: Result<FileMeta, String>,
    options: TraversalOptions,
    verdict: Result<bool, NativeError>,
) -> bool {
    reaches_classification(stat, options) && (verdict matches Ok(binary) && !((binary || is_image(
        filename,
        options,
    )) && !options.include_binary))
}

/// Whether a record is the one owed to a file, given the outcome of its
/// stat and, as far as the file got, the verdict of the classifier, the
/// outcome of the preview and the outcome of hashing:
/// a failed stat gives an error record;
/// a file above the size ceiling an exclusion;
/// a failed classification an error record;
/// a binary or image file in a run that leaves them out an exclusion;
/// any other file the record of its preview, stamped and hashed.
pub open spec fn path_outcome(
    r: FileRecord,
    parent: Seq<char>,
    filename: Seq<char>,
    stat: Result<FileMeta, String>,
    options: TraversalOptions,
    verdict: Result<bool, NativeError>,
    shown: Result<FileInfo, NativeError>,
    hashed: Option<Result<Option<String>, NativeError>>,
) -> bool {
    match stat {
        Err(message) => r@ == stat_error_record(parent, filename, message@),
        Ok(meta) => if meta.size > options.max_file_size {
            r@ == size_excluded_record(parent, filename, meta)
        } else {
            match verdict {
                Err(e) => r@ == classify_error_record(parent, filename, meta, e),
                Ok(binary) => if (binary || is_image(filename, options)) && !options.include_binary {
                    r@ == kind_excluded_record(parent, filename, meta)
                } else {
                    r@.details matches Some(d) && r@ == inspected_record(
                        parent,
                        filename,
                        meta,
                        binary,
                        shown,
                        hashed,
                        options,
                        d.modified,
                        d.created,
                    ) && time_text_ok(options.timezone@, meta.modified, d.modified) && time_text_ok(
                        options.timezone@,
                        meta.created,
                        d.created,
                    )
                },
            }
        },
    }
}

/// The record of one file, from the outcome of its stat. The three other
/// inspections are made only as far as the file gets, each at most once and
/// in this order: `classify` for the verdict, text or binary; `preview`,
/// with that verdict and the cap of the run, for the content; `hash`, in a
/// run that hashes, for the fingerprint. No failure of theirs fails the
/// record.
pub fn process_path<C, P, H>(
    parent: &str,
    filename: &str,
    stat: &Result<FileMeta, String>,
    options: &TraversalOptions,
    classify: C,
    preview: P,
    hash: H,
) -> (r: FileRecord) where
    C: FnOnce() -> Result<bool, NativeError>,
    P: FnOnce(bool, usize) -> Result<FileInfo, NativeError>,
    H: FnOnce() -> Result<Option<String>, NativeError>,

    requires
        classify.requires(()),
        forall|binary: bool, cap: usize| preview.requires((binary, cap)),
        hash.requires(()),
    ensures
        exists|
            verdict: Result<bool, NativeError>,
            shown: Result<FileInfo, NativeError>,
            hashed: Option<Result<Option<String>, NativeError>>,
        |
            #![trigger path_outcome(r, parent@, filename@, *stat, *options, verdict, shown, hashed)]
            (reaches_classification(*stat, *options) ==> classify.ensures((), verdict)) && (
            reaches_preview(filename@, *stat, *options, verdict) ==> preview.ensures(
                (verdict->Ok_0, preview_cap(*options)),
                shown,
            )) && (reaches_preview(filename@, *stat, *options, verdict) && options.hashing_enabled
                ==> (hashed matches Some(h) && hash.ensures((), h))) && (!(reaches_preview(
                filename@,
                *stat,
                *options,
                verdict,
            ) && options.hashing_enabled) ==> hashed is None) && path_outcome(
                r,
                parent@,
                filename@,
                *stat,
                *options,
                verdict,
                shown,
                hashed,
            ),
{
    let meta = match begin_path(parent, filename, stat, options) {
        PathStep::Emit(r) => {
            proof {
                let verdict: Result<bool, NativeError> = Ok(false);
                let shown: Result<FileInfo, NativeError> = Err(NativeError::Cancelled);
                assert(path_outcome(r, parent@, filename@, *stat, *options, verdict, shown, None));
            }
            return r;
        },
        PathStep::Classify(meta) => meta,
    };
    let verdict = classify();
    let step = after_classification(parent, filename, &meta, &verdict, options);
    let (binary, cap) = match step {
        ClassifiedStep::Emit(r) => {
            proof {
                let shown: Result<FileInfo, NativeError> = Err(NativeError::Cancelled);
                assert(path_outcome(r, parent@, filename@, *stat, *options, verdict, shown, None));
            }
            return r;
        },
        ClassifiedStep::ReadBinary { max_preview_bytes } => (true, max_preview_bytes),
        ClassifiedStep::ReadText { max_preview_bytes } => (false, max_preview_bytes),
    };
    let shown = preview(binary, cap);
    let hashed = if options.hashing_enabled {
        Some(hash())
    } else {
        None
    };
    let r = after_preview(parent, filename, &meta, binary, shown, hashed, options);
    proof {
        assert(path_outcome(r, parent@, filename@, *stat, *options, verdict, shown, hashed));
    }
    r
}

} // verus!
