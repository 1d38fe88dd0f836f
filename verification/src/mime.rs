//! The text-or-binary classifier: extension tables, byte histogram, content
//! sniffing and a name-based guess, in that order.
use vstd::prelude::*;
use vstd::string::*;
use crate::errors::NativeError;
use crate::meta::FileMeta;
use crate::text::{chars_of, str_eq, string_of, to_lowercase, lowercase_of, concat};
use lru::LruCache;

verus! {

/// Number of bytes sampled from the head of a file for the histogram.
pub const HEURISTIC_SAMPLE_SIZE: usize = 8192;

/// The suffixes that mark a file as text without looking inside.
pub open spec fn textual_extensions() -> Seq<Seq<char>> {
    seq![
        ".c"@, ".cc"@, ".cfg"@, ".cmake"@, ".conf"@, ".cpp"@, ".cs"@, ".css"@, ".csv"@,
        ".dart"@, ".env"@, ".go"@, ".gradle"@, ".h"@, ".hpp"@, ".html"@, ".ini"@, ".java"@,
        ".js"@, ".json"@, ".jsx"@, ".kt"@, ".less"@, ".lock"@, ".lua"@, ".m"@, ".md"@,
        ".php"@, ".pl"@, ".properties"@, ".ps1"@, ".py"@, ".pyi"@, ".r"@, ".rb"@, ".rs"@,
        ".rst"@, ".sass"@, ".scala"@, ".scss"@, ".sh"@, ".sql"@, ".swift"@, ".toml"@,
        ".ts"@, ".tsx"@, ".txt"@, ".vue"@, ".yaml"@, ".yml"@,
    ]
}

/// The suffixes that mark a file as binary without looking inside.
pub open spec fn binary_extensions() -> Seq<Seq<char>> {
    seq![
        ".7z"@, ".apng"@, ".avi"@, ".bmp"@, ".class"@, ".dll"@, ".dylib"@, ".exe"@, ".gif"@,
        ".gz"@, ".ico"@, ".iso"@, ".jar"@, ".jpeg"@, ".jpg"@, ".lz"@, ".mkv"@, ".mov"@,
        ".mp3"@, ".mp4"@, ".ogg"@, ".otf"@, ".pdf"@, ".png"@, ".psd"@, ".pyd"@, ".rar"@,
        ".so"@, ".svgz"@, ".tar"@, ".tgz"@, ".ttf"@, ".wav"@, ".webm"@, ".webp"@, ".woff"@,
        ".woff2"@, ".xz"@, ".zip"@,
    ]
}

/// The views of a list of texts.
pub open spec fn views(list: Seq<&'static str>) -> Seq<Seq<char>> {
    Seq::new(list.len(), |i: int| list[i]@)
}

fn textual_table() -> (t: Vec<&'static str>)
    ensures
        views(t@) == textual_extensions(),
{
    let t = vec![
        ".c", ".cc", ".cfg", ".cmake", ".conf", ".cpp", ".cs", ".css", ".csv",
        ".dart", ".env", ".go", ".gradle", ".h", ".hpp", ".html", ".ini", ".java",
        ".js", ".json", ".jsx", ".kt", ".less", ".lock", ".lua", ".m", ".md",
        ".php", ".pl", ".properties", ".ps1", ".py", ".pyi", ".r", ".rb", ".rs",
        ".rst", ".sass", ".scala", ".scss", ".sh", ".sql", ".swift", ".toml",
        ".ts", ".tsx", ".txt", ".vue", ".yaml", ".yml",
    ];
    assert(views(t@) =~= textual_extensions());
    t
}

fn binary_table() -> (t: Vec<&'static str>)
    ensures
        views(t@) == binary_extensions(),
{
    let t = vec![
        ".7z", ".apng", ".avi", ".bmp", ".class", ".dll", ".dylib", ".exe", ".gif",
        ".gz", ".ico", ".iso", ".jar", ".jpeg", ".jpg", ".lz", ".mkv", ".mov",
        ".mp3", ".mp4", ".ogg", ".otf", ".pdf", ".png", ".psd", ".pyd", ".rar",
        ".so", ".svgz", ".tar", ".tgz", ".ttf", ".wav", ".webm", ".webp", ".woff",
        ".woff2", ".xz", ".zip",
    ];
    assert(views(t@) =~= binary_extensions());
    t
}

fn table_contains(table: &Vec<&'static str>, s: &str) -> (r: bool)
    ensures
        r == views(table@).contains(s@),
{
    let mut i: usize = 0;
    while i < table.len()
        invariant
            i <= table.len(),
            forall|k: int| 0 <= k < i ==> views(table@)[k] != s@,
        decreases table.len() - i,
    {
        if str_eq(table[i], s) {
            assert(views(table@)[i as int] == s@);
            return true;
        }
        i = i + 1;
    }
    false
}

/// What the extension tables say of a lowercased dotted suffix: text
/// (`Some(false)`), binary (`Some(true)`), or nothing.
pub open spec fn suffix_class(suffix: Seq<char>) -> Option<bool> {
    if textual_extensions().contains(suffix) {
        Some(false)
    } else if binary_extensions().contains(suffix) {
        Some(true)
    } else {
        None
    }
}

/// Looks a lowercased dotted suffix up in the two extension tables.
pub fn classify_suffix(suffix: &str) -> (r: Option<bool>)
    ensures
        r == suffix_class(suffix@),
{
    let text = textual_table();
    if table_contains(&text, suffix) {
        return Some(false);
    }
    let binary = binary_table();
    if table_contains(&binary, suffix) {
        return Some(true);
    }
    None
}

/// Position of the last dot of a name, or -1 where it has none.
pub open spec fn last_dot(name: Seq<char>) -> int
    decreases name.len(),
{
    if name.len() == 0 {
        -1
    } else if name.last() == '.' {
        name.len() - 1
    } else {
        last_dot(name.drop_last())
    }
}

/// The extension of a file name: what follows its last dot. A name without a
/// dot, one whose only dot leads it, and `..` have none.
pub open spec fn extension_of(name: Seq<char>) -> Option<Seq<char>> {
    let i = last_dot(name);
    if i <= 0 || name == seq!['.', '.'] {
        None
    } else {
        Some(name.subrange(i + 1, name.len() as int))
    }
}

proof fn lemma_last_dot_scan(name: Seq<char>, j: int)
    requires
        -1 <= j < name.len(),
        forall|k: int| j < k < name.len() ==> name[k] != '.',
        j >= 0 ==> name[j] == '.',
    ensures
        last_dot(name) == j,
    decreases name.len(),
{
    if name.len() == 0 {
    } else if j == name.len() - 1 {
    } else {
        assert(name.last() != '.');
        let rest = name.drop_last();
        assert forall|k: int| j < k < rest.len() implies rest[k] != '.' by {
            assert(rest[k] == name[k]);
        }
        lemma_last_dot_scan(rest, j);
    }
}

/// Computes the extension of a file name.
pub fn file_extension(name: &str) -> (r: Option<String>)
    ensures
        r is Some == extension_of(name@) is Some,
        r matches Some(e) ==> e@ == extension_of(name@).unwrap(),
{
    let chars = chars_of(name);
    let n = chars.len();
    let mut j: usize = n;
    while j > 0 && chars[j - 1] != '.'
        invariant
            j <= n,
            n == chars.len(),
            forall|k: int| j <= k < n ==> chars@[k] != '.',
        decreases j,
    {
        j = j - 1;
    }
    proof {
        lemma_last_dot_scan(chars@, j as int - 1);
    }
    if j <= 1 {
        return None;
    }
    if n == 2 && chars[0] == '.' {
        assert(chars@ =~= seq!['.', '.']);
        return None;
    }
    proof {
        if chars@ == seq!['.', '.'] {
            assert(seq!['.', '.'].len() == 2);
            assert(seq!['.', '.'][0] == '.');
        }
    }
    Some(string_of(&chars, j, n))
}

/// The lowercased dotted suffix of a file name, where it has an extension.
pub open spec fn dotted_suffix(name: Seq<char>) -> Option<Seq<char>> {
    match extension_of(name) {
        Some(e) => Some("."@ + lowercase_of(e)),
        None => None,
    }
}

/// Computes the lowercased dotted suffix of a file name.
pub fn lower_suffix(name: &str) -> (r: Option<String>)
    ensures
        r is Some == dotted_suffix(name@) is Some,
        r matches Some(s) ==> s@ == dotted_suffix(name@).unwrap(),
{
    match file_extension(name) {
        Some(e) => {
            let low = to_lowercase(e.as_str());
            Some(concat(".", low.as_str()))
        },
        None => None,
    }
}

/// First stage of the cascade: the verdict of the extension tables on a file
/// name, `None` where they defer.
pub fn classify_by_extension(filename: &str) -> (r: Option<bool>)
    ensures
        r == match dotted_suffix(filename@) {
            Some(s) => suffix_class(s),
            None => None,
        },
{
    match lower_suffix(filename) {
        Some(s) => classify_suffix(s.as_str()),
        None => None,
    }
}


/// Whether a MIME type names text: any `text/` type and a few others.
pub open spec fn mime_is_text(mime: Seq<char>) -> bool {
    crate::text::has_prefix(mime, "text/"@) || mime == "application/json"@ || mime
        == "application/xml"@ || mime == "application/javascript"@ || mime
        == "application/x-javascript"@ || mime == "application/x-sh"@ || mime
        == "application/x-empty"@ || mime == "inode/x-empty"@
}

/// What a MIME type says of a file: text (`Some(false)`), nothing for the
/// catch-all `application/octet-stream`, binary (`Some(true)`) otherwise.
pub open spec fn mime_class(mime: Seq<char>) -> Option<bool> {
    if mime_is_text(mime) {
        Some(false)
    } else if mime == "application/octet-stream"@ {
        None
    } else {
        Some(true)
    }
}

/// Tests whether a MIME type names text.
pub fn mime_implies_text(mime_type: &str) -> (r: bool)
    ensures
        r == mime_is_text(mime_type@),
{
    let m = chars_of(mime_type);
    let prefix = chars_of("text/");
    if crate::text::starts_with(&m, &prefix) {
        return true;
    }
    str_eq(mime_type, "application/json") || str_eq(mime_type, "application/xml") || str_eq(
        mime_type,
        "application/javascript",
    ) || str_eq(mime_type, "application/x-javascript") || str_eq(mime_type, "application/x-sh")
        || str_eq(mime_type, "application/x-empty") || str_eq(mime_type, "inode/x-empty")
}

/// Classifies a file by a MIME type.
pub fn classify_mime_type(mime_type: &str) -> (r: Option<bool>)
    ensures
        r == mime_class(mime_type@),
{
    if mime_implies_text(mime_type) {
        return Some(false);
    }
    if str_eq(mime_type, "application/octet-stream") {
        return None;
    }
    Some(true)
}

/// True for the control bytes that ordinary text contains: TAB, LF, FF, CR.
pub open spec fn is_safe_control(b: u8) -> bool {
    b == 9 || b == 10 || b == 12 || b == 13
}

/// A byte that counts as printable: visible ASCII or a safe control byte.
pub open spec fn is_printable(b: u8) -> bool {
    (32 <= b && b <= 126) || is_safe_control(b)
}

/// A control byte outside the safe set.
pub open spec fn is_control(b: u8) -> bool {
    b < 32 && !is_safe_control(b)
}

/// Number of printable bytes of a sample.
pub open spec fn printable_count(s: Seq<u8>) -> nat
    decreases s.len(),
{
    if s.len() == 0 {
        0
    } else {
        printable_count(s.drop_last()) + if is_printable(s.last()) { 1nat } else { 0nat }
    }
}

/// Number of unsafe control bytes of a sample.
pub open spec fn control_count(s: Seq<u8>) -> nat
    decreases s.len(),
{
    if s.len() == 0 {
        0
    } else {
        control_count(s.drop_last()) + if is_control(s.last()) { 1nat } else { 0nat }
    }
}

/// Number of NUL bytes of a sample.
pub open spec fn nul_count(s: Seq<u8>) -> nat
    decreases s.len(),
{
    if s.len() == 0 {
        0
    } else {
        nul_count(s.drop_last()) + if s.last() == 0 { 1nat } else { 0nat }
    }
}

/// Whether two NUL bytes stand side by side somewhere in the sample.
pub open spec fn has_nul_pair(s: Seq<u8>) -> bool {
    exists|i: int| 0 <= i && i + 1 < s.len() && s[i] == 0 && #[trigger] s[i + 1] == 0
}

/// The byte counts on which the histogram heuristic decides.
#[derive(Debug, Clone, Copy, PartialEq, Eq)]
pub struct ByteCounts {
    pub total: usize,
    pub printable: usize,
    pub control: usize,
    pub nul: usize,
    pub nul_pair: bool,
}

/// The counts of a sample.
pub open spec fn counts_of(s: Seq<u8>) -> ByteCounts {
    ByteCounts {
        total: s.len() as usize,
        printable: printable_count(s) as usize,
        control: control_count(s) as usize,
        nul: nul_count(s) as usize,
        nul_pair: has_nul_pair(s),
    }
}

proof fn lemma_counts_bounded(s: Seq<u8>)
    ensures
        printable_count(s) <= s.len(),
        control_count(s) <= s.len(),
        nul_count(s) <= s.len(),
        printable_count(s) + control_count(s) <= s.len(),
    decreases s.len(),
{
    if s.len() > 0 {
        lemma_counts_bounded(s.drop_last());
    }
}

/// Counts the printable, control and NUL bytes of a sample, and looks for
/// two adjacent NULs.
pub fn byte_counts(sample: &[u8]) -> (c: ByteCounts)
    ensures
        c == counts_of(sample@),
{
    let mut printable: usize = 0;
    let mut control: usize = 0;
    let mut nul: usize = 0;
    let mut pair = false;
    let mut i: usize = 0;
    while i < sample.len()
        invariant
            i <= sample.len(),
            printable == printable_count(sample@.take(i as int)),
            control == control_count(sample@.take(i as int)),
            nul == nul_count(sample@.take(i as int)),
            pair == has_nul_pair(sample@.take(i as int)),
        decreases sample.len() - i,
    {
        let b = sample[i];
        proof {
            let before = sample@.take(i as int);
            let after = sample@.take(i + 1);
            assert(after.drop_last() == before);
            assert(after.last() == b);
            lemma_counts_bounded(before);
            if has_nul_pair(before) {
                let k = choose|k: int|
                    0 <= k && k + 1 < before.len() && before[k] == 0 && #[trigger] before[k + 1]
                        == 0;
                assert(after[k] == 0 && after[k + 1] == 0);
            }
            if has_nul_pair(after) && !has_nul_pair(before) {
                let k = choose|k: int|
                    0 <= k && k + 1 < after.len() && after[k] == 0 && #[trigger] after[k + 1] == 0;
                if k + 1 < before.len() {
                    assert(before[k] == 0 && before[k + 1] == 0);
                }
                assert(k + 1 == i);
            }
        }
        if b == 0 {
            nul = nul + 1;
            if i > 0 && sample[i - 1] == 0 {
                proof {
                    let after = sample@.take(i + 1);
                    assert(after[i - 1] == 0 && after[i - 1 + 1] == 0);
                }
                pair = true;
            }
        }
        if b < 32 && !(b == 9 || b == 10 || b == 12 || b == 13) {
            control = control + 1;
        }
        if (32 <= b && b <= 126) || b == 9 || b == 10 || b == 12 || b == 13 {
            printable = printable + 1;
        }
        i = i + 1;
    }
    proof {
        assert(sample@.take(sample.len() as int) == sample@);
    }
    ByteCounts { total: sample.len(), printable, control, nul, nul_pair: pair }
}

/// The verdict of the histogram heuristic on byte counts. Ratios are compared
/// exactly, by cross multiplication. An empty sample is text.
pub open spec fn histogram_class(c: ByteCounts) -> Option<bool> {
    let total = c.total as int;
    let p = c.printable as int;
    let k = c.control as int;
    let z = c.nul as int;
    if total == 0 {
        Some(false)
    } else if z * 1000 >= total || c.nul_pair {
        Some(true)
    } else if k * 10 > total && p * 10 < 9 * total {
        Some(true)
    } else if p * 100 >= 95 * total && k * 50 <= total {
        Some(false)
    } else if p * 5 <= 3 * total {
        Some(true)
    } else {
        None
    }
}

/// Decides on byte counts.
pub fn classify_counts(c: &ByteCounts) -> (r: Option<bool>)
    ensures
        r == histogram_class(*c),
{
    let total = c.total as u128;
    let p = c.printable as u128;
    let k = c.control as u128;
    let z = c.nul as u128;
    if total == 0 {
        Some(false)
    } else if z * 1000 >= total || c.nul_pair {
        Some(true)
    } else if k * 10 > total && p * 10 < 9 * total {
        Some(true)
    } else if p * 100 >= 95 * total && k * 50 <= total {
        Some(false)
    } else if p * 5 <= 3 * total {
        Some(true)
    } else {
        None
    }
}

/// Third stage of the cascade: the histogram heuristic on a sample of the
/// file's head. `None` where it defers.
pub fn analyse_sample(sample: &[u8]) -> (r: Option<bool>)
    ensures
        r == histogram_class(counts_of(sample@)),
{
    let c = byte_counts(sample);
    classify_counts(&c)
}


/// The MIME type that content sniffing gives for the head of a file, where
/// it recognises a format.
pub uninterp spec fn sniffed_mime(sample: Seq<u8>) -> Option<Seq<char>>;

/// Trusted: wraps `infer::get` and hands on the MIME type of the format it
/// found. The result depends on the bytes alone; the contract names it.
/// The bound keeps the matchers of the crate, some of which walk the sample
/// frame by frame, within a sample of the size they are meant for. For a
/// sample that begins as a compound file the crate hands the bytes to the
/// parser of the `cfb` crate, on which this contract relies as well.
#[verifier::external_body]
fn sniff_mime(sample: &[u8]) -> (r: Option<String>)
    requires
        sample.len() <= HEURISTIC_SAMPLE_SIZE,
    ensures
        r is Some == sniffed_mime(sample@) is Some,
        r matches Some(m) ==> m@ == sniffed_mime(sample@).unwrap(),
{
    infer::get(sample).map(|kind| kind.mime_type().to_string())
}

/// The first MIME type that the MIME database lists for an extension, where
/// it lists one.
pub uninterp spec fn guessed_mime(extension: Seq<char>) -> Option<Seq<char>>;

/// Trusted: wraps `mime_guess::from_ext` and hands on the first type of the
/// guess. The result depends on the extension alone; the contract names it.
#[verifier::external_body]
fn guess_mime(extension: &str) -> (r: Option<String>)
    ensures
        r is Some == guessed_mime(extension@) is Some,
        r matches Some(m) ==> m@ == guessed_mime(extension@).unwrap(),
{
    mime_guess::from_ext(extension).first_raw().map(|m| m.to_string())
}

/// What a sniffed or guessed MIME type, where there is one, says of a file.
pub open spec fn optional_mime_class(mime: Option<Seq<char>>) -> Option<bool> {
    match mime {
        Some(m) => mime_class(m),
        None => None,
    }
}

/// Fourth stage of the cascade: magic-number sniffing on the sample, which
/// is the head of a file and no longer than the heuristics look at.
pub fn detect_with_infer(sample: &[u8]) -> (r: Option<bool>)
    requires
        sample.len() <= HEURISTIC_SAMPLE_SIZE,
    ensures
        r == optional_mime_class(sniffed_mime(sample@)),
{
    match sniff_mime(sample) {
        Some(m) => classify_mime_type(m.as_str()),
        None => None,
    }
}

/// The MIME type guessed from a file name: that of its extension.
pub open spec fn name_mime(filename: Seq<char>) -> Option<Seq<char>> {
    match extension_of(filename) {
        Some(e) => guessed_mime(e),
        None => None,
    }
}

/// Fifth stage of the cascade: the MIME type that the file's name suggests.
pub fn detect_with_mime_guess(filename: &str) -> (r: Option<bool>)
    ensures
        r == optional_mime_class(name_mime(filename@)),
{
    match file_extension(filename) {
        Some(e) => match guess_mime(e.as_str()) {
            Some(m) => classify_mime_type(m.as_str()),
            None => None,
        },
        None => None,
    }
}

/// The part of a sample that the heuristics look at.
pub open spec fn sample_head(sample: Seq<u8>) -> Seq<u8> {
    if sample.len() > HEURISTIC_SAMPLE_SIZE {
        sample.take(HEURISTIC_SAMPLE_SIZE as int)
    } else {
        sample
    }
}

/// The verdict of the stages that look at content and name, for a file whose
/// extension decided nothing: histogram, sniffing, name guess, then text.
pub open spec fn content_class(filename: Seq<char>, sample: Seq<u8>) -> bool {
    let head = sample_head(sample);
    match histogram_class(counts_of(head)) {
        Some(b) => b,
        None => match optional_mime_class(sniffed_mime(head)) {
            Some(b) => b,
            None => match optional_mime_class(name_mime(filename)) {
                Some(b) => b,
                None => false,
            },
        },
    }
}

/// Classifies a file by the sample of its head and by its name, for a file
/// whose extension decided nothing.
pub fn classify_sample(filename: &str, sample: &[u8]) -> (r: bool)
    ensures
        r == content_class(filename@, sample@),
{
    let head: &[u8] = if sample.len() > HEURISTIC_SAMPLE_SIZE {
        vstd::slice::slice_subrange(sample, 0, HEURISTIC_SAMPLE_SIZE)
    } else {
        sample
    };
    if let Some(b) = analyse_sample(head) {
        return b;
    }
    if let Some(b) = detect_with_infer(head) {
        return b;
    }
    if let Some(b) = detect_with_mime_guess(filename) {
        return b;
    }
    false
}

/// What reading the head of a file gave.
pub enum BytesRead {
    /// The bytes read, from offset 0.
    Bytes(Vec<u8>),
    /// The read failed, with the system's message.
    Failed(String),
}

/// The verdict of the whole cascade for a file name and a read of its head.
pub open spec fn cascade_class(filename: Seq<char>, sample: BytesRead) -> Result<
    bool,
    NativeError,
> {
    match sample {
        BytesRead::Bytes(b) => Ok(content_class(filename, b@)),
        BytesRead::Failed(m) => Err(NativeError::Io(m)),
    }
}

/// The first-stage verdict on a file name.
pub open spec fn extension_class(filename: Seq<char>) -> Option<bool> {
    match dotted_suffix(filename) {
        Some(s) => suffix_class(s),
        None => None,
    }
}

/// Runs the cascade without the memo. The head of the file is read, by
/// `read_sample`, only where the extension decides nothing.
pub fn classify_uncached<F: FnOnce() -> BytesRead>(filename: &str, read_sample: F) -> (r: Result<
    bool,
    NativeError,
>)
    requires
        read_sample.requires(()),
    ensures
        extension_class(filename@) matches Some(b) ==> r == Ok::<bool, NativeError>(b),
        extension_class(filename@) is None ==> exists|s: BytesRead|
            read_sample.ensures((), s) && r == cascade_class(filename@, s),
{
    if let Some(b) = classify_by_extension(filename) {
        return Ok(b);
    }
    let sample = read_sample();
    match sample {
        BytesRead::Bytes(bytes) => {
            let b = classify_sample(filename, bytes.as_slice());
            assert(Ok::<bool, NativeError>(b) == cascade_class(
                filename@,
                BytesRead::Bytes(bytes),
            ));
            Ok(b)
        },
        BytesRead::Failed(m) => {
            assert(Err::<bool, NativeError>(NativeError::Io(m)) == cascade_class(
                filename@,
                BytesRead::Failed(m),
            ));
            Err(NativeError::Io(m))
        },
    }
}


/// What identifies an unchanged file besides its path.
#[derive(Default, Debug, Clone, Copy, PartialEq, Eq, Structural)]
pub struct StatKey {
    /// Size in bytes.
    pub size: u64,
    /// Last modification in nanoseconds since the epoch, 0 where unknown.
    pub mtime_ns: u128,
}

/// The key under which a stat memoises a file.
pub open spec fn stat_key_of(meta: FileMeta) -> StatKey {
    StatKey {
        size: meta.size,
        mtime_ns: match meta.modified {
            Some(t) => t.nanos_since_epoch() as u128,
            None => 0,
        },
    }
}

/// The memo key of a path from the outcome of its stat: none where the stat
/// failed, which bypasses the memo.
pub fn compute_stat_key(path: &str, meta: Option<&FileMeta>) -> (r: Option<(String, StatKey)>)
    ensures
        r is Some == meta is Some,
        r matches Some(k) ==> k.0@ == path@ && k.1 == stat_key_of(*meta.unwrap()),
{
    match meta {
        None => None,
        Some(m) => {
            let mtime_ns: u128 = match &m.modified {
                Some(t) => t.as_nanos(),
                None => 0,
            };
            Some((String::from_str(path), StatKey { size: m.size, mtime_ns }))
        },
    }
}

/// Number of verdicts the memo keeps.
pub const MEMO_CAPACITY: usize = 4096;

/// A memo key as plain values: path, size, modification time.
pub type MemoKey = (Seq<char>, u64, u128);

/// The bounded least-recently-used cache of the `lru` crate.
#[verifier::external_type_specification]
#[verifier::external_body]
#[verifier::reject_recursive_types(K)]
#[verifier::reject_recursive_types(V)]
#[verifier::reject_recursive_types(S)]
pub struct ExLruCache<K, V, S>(LruCache<K, V, S>);

/// The hasher that the `lru` crate gives its caches by default.
#[verifier::external_type_specification]
#[verifier::external_body]
pub struct ExMemoHasher(lru::DefaultHasher);

/// The entries of a memo, most recently used first.
pub uninterp spec fn memo_entries(c: LruCache<(String, u64, u128), bool>) -> Seq<(MemoKey, bool)>;

/// The number of entries a memo was made to hold.
pub uninterp spec fn memo_limit(c: LruCache<(String, u64, u128), bool>) -> nat;

/// The value stored for a key, where there is one.
pub open spec fn memo_find(entries: Seq<(MemoKey, bool)>, key: MemoKey) -> Option<bool>
    decreases entries.len(),
{
    if entries.len() == 0 {
        None
    } else if entries[0].0 == key {
        Some(entries[0].1)
    } else {
        memo_find(entries.drop_first(), key)
    }
}

/// The entries without those of a key, order kept.
pub open spec fn memo_without(entries: Seq<(MemoKey, bool)>, key: MemoKey) -> Seq<(MemoKey, bool)> {
    entries.filter(|e: (MemoKey, bool)| e.0 != key)
}

/// The entries after a key was read: a key that is present moves to the
/// front.
pub open spec fn memo_touched(entries: Seq<(MemoKey, bool)>, key: MemoKey) -> Seq<
    (MemoKey, bool),
> {
    match memo_find(entries, key) {
        Some(v) => seq![(key, v)] + memo_without(entries, key),
        None => entries,
    }
}

/// The entries after a value was stored: the key stands at the front; where
/// it is new and the memo is full, the least recently used entry leaves.
pub open spec fn memo_stored(
    entries: Seq<(MemoKey, bool)>,
    key: MemoKey,
    value: bool,
    limit: nat,
) -> Seq<(MemoKey, bool)> {
    if memo_find(entries, key) is Some {
        seq![(key, value)] + memo_without(entries, key)
    } else if entries.len() >= limit {
        seq![(key, value)] + entries.drop_last()
    } else {
        seq![(key, value)] + entries
    }
}

/// Trusted: wraps `LruCache::new`, which makes an empty cache of the given
/// capacity.
#[verifier::external_body]
fn memo_new(limit: usize) -> (c: LruCache<(String, u64, u128), bool>)
    requires
        limit > 0,
    ensures
        memo_entries(c) == Seq::<(MemoKey, bool)>::empty(),
        memo_limit(c) == limit,
{
    LruCache::new(std::num::NonZeroUsize::new(limit).unwrap())
}

/// Trusted: wraps `LruCache::get`, which returns the value of a key that is
/// present and moves that key to the front of the recency order.
#[verifier::external_body]
fn memo_get(c: &mut LruCache<(String, u64, u128), bool>, path: &str, size: u64, mtime_ns: u128) -> (r:
    Option<bool>)
    ensures
        r == memo_find(memo_entries(*old(c)), (path@, size, mtime_ns)),
        memo_entries(*final(c)) == memo_touched(memo_entries(*old(c)), (path@, size, mtime_ns)),
        memo_limit(*final(c)) == memo_limit(*old(c)),
{
    c.get(&(path.to_string(), size, mtime_ns)).copied()
}

/// Trusted: wraps `LruCache::put`, which stores the value at the front of
/// the recency order, replacing the key's old value or, for a new key in a
/// full cache, evicting the least recently used entry.
#[verifier::external_body]
fn memo_put(
    c: &mut LruCache<(String, u64, u128), bool>,
    path: &str,
    size: u64,
    mtime_ns: u128,
    value: bool,
)
    ensures
        memo_entries(*final(c)) == memo_stored(
            memo_entries(*old(c)),
            (path@, size, mtime_ns),
            value,
            memo_limit(*old(c)),
        ),
        memo_limit(*final(c)) == memo_limit(*old(c)),
{
    c.put((path.to_string(), size, mtime_ns), value);
}

/// The memo of classification verdicts, keyed by path, size and
/// modification time.
pub struct ClassifierCache {
    memo: LruCache<(String, u64, u128), bool>,
}

impl View for ClassifierCache {
    type V = Seq<(MemoKey, bool)>;

    /// The entries, most recently used first.
    closed spec fn view(&self) -> Seq<(MemoKey, bool)> {
        memo_entries(self.memo)
    }
}

/// The memo key of a path and a stat key.
pub open spec fn memo_key(path: Seq<char>, stat: StatKey) -> MemoKey {
    (path, stat.size, stat.mtime_ns)
}

impl ClassifierCache {
    /// The capacity the memo was made with.
    pub closed spec fn limit(&self) -> nat {
        memo_limit(self.memo)
    }

    /// An empty memo of the standard capacity.
    pub fn new() -> (c: Self)
        ensures
            c@ == Seq::<(MemoKey, bool)>::empty(),
            c.limit() == MEMO_CAPACITY,
    {
        ClassifierCache { memo: memo_new(MEMO_CAPACITY) }
    }

    /// The verdict remembered for a file, where there is one. A hit makes the
    /// entry the most recently used.
    pub fn lookup(&mut self, path: &str, stat: &StatKey) -> (r: Option<bool>)
        ensures
            r == memo_find(old(self)@, memo_key(path@, *stat)),
            final(self)@ == memo_touched(old(self)@, memo_key(path@, *stat)),
            final(self).limit() == old(self).limit(),
    {
        memo_get(&mut self.memo, path, stat.size, stat.mtime_ns)
    }

    /// Remembers a verdict as the most recently used entry.
    pub fn record(&mut self, path: &str, stat: &StatKey, verdict: bool)
        ensures
            final(self)@ == memo_stored(
                old(self)@,
                memo_key(path@, *stat),
                verdict,
                old(self).limit(),
            ),
            final(self).limit() == old(self).limit(),
    {
        memo_put(&mut self.memo, path, stat.size, stat.mtime_ns, verdict);
    }
}

/// What the memo answers before a file is classified.
pub enum MemoLookup {
    /// The verdict remembered for the file.
    Hit(bool),
    /// Nothing is remembered; the key under which the verdict is to be
    /// remembered, where the stat of the file is known.
    Miss(Option<(String, StatKey)>),
}

/// The entries after a classification was concluded: a verdict that was
/// reached for a file with a key is stored; a failure, and a verdict for a
/// file without a key, change nothing.
pub open spec fn memo_concluded(
    before: Seq<(MemoKey, bool)>,
    key: Option<(String, StatKey)>,
    verdict: Result<bool, NativeError>,
    limit: nat,
) -> Seq<(MemoKey, bool)> {
    match key {
        Some(k) => match verdict {
            Ok(b) => memo_stored(before, memo_key(k.0@, k.1), b, limit),
            Err(_) => before,
        },
        None => before,
    }
}

impl ClassifierCache {
    /// First half of a classification with the memo: asks the memo. A file
    /// whose stat failed has no key and always misses.
    pub fn begin(&mut self, path: &str, meta: Option<&FileMeta>) -> (r: MemoLookup)
        ensures
            final(self).limit() == old(self).limit(),
            match meta {
                None => r matches MemoLookup::Miss(None) && final(self)@ == old(self)@,
                Some(m) => {
                    let key = memo_key(path@, stat_key_of(*m));
                    match memo_find(old(self)@, key) {
                        Some(b) => r matches MemoLookup::Hit(x) && x == b && final(self)@
                            == memo_touched(old(self)@, key),
                        None => r matches MemoLookup::Miss(Some(k)) && k.0@ == path@ && k.1
                            == stat_key_of(*m) && final(self)@ == old(self)@,
                    }
                },
            },
    {
        match compute_stat_key(path, meta) {
            Some((key, stat)) => {
                match self.lookup(key.as_str(), &stat) {
                    Some(b) => MemoLookup::Hit(b),
                    None => MemoLookup::Miss(Some((key, stat))),
                }
            },
            None => MemoLookup::Miss(None),
        }
    }

    /// Second half: remembers the verdict that was reached after a miss.
    pub fn conclude(&mut self, key: &Option<(String, StatKey)>, verdict: &Result<bool, NativeError>)
        ensures
            final(self).limit() == old(self).limit(),
            final(self)@ == memo_concluded(old(self)@, *key, *verdict, old(self).limit()),
    {
        match key {
            Some(k) => match verdict {
                Ok(b) => {
                    self.record(k.0.as_str(), &k.1, *b);
                },
                Err(_) => {},
            },
            None => {},
        }
    }
}

/// A verdict that was stored is found again under the same key: the second
/// classification of an unchanged file is answered from the memo.
pub proof fn lemma_stored_verdict_is_found(
    entries: Seq<(MemoKey, bool)>,
    key: MemoKey,
    verdict: bool,
    limit: nat,
)
    ensures
        memo_find(memo_stored(entries, key, verdict, limit), key) == Some(verdict),
{
    let after = memo_stored(entries, key, verdict, limit);
    assert(after[0] == (key, verdict));
}

/// Reading a key does not change what the memo answers for it.
pub proof fn lemma_touch_keeps_verdict(entries: Seq<(MemoKey, bool)>, key: MemoKey)
    ensures
        memo_find(memo_touched(entries, key), key) == memo_find(entries, key),
{
    let after = memo_touched(entries, key);
    if memo_find(entries, key) is Some {
        assert(after[0] == (key, memo_find(entries, key).unwrap()));
    }
}

/// The verdict on a file, with the memo: a file whose stat is known and
/// whose path, size and modification time were seen before gets the verdict
/// remembered for them, and its head is not read again; any other file runs
/// the cascade, and a verdict reached for a file whose stat is known is
/// remembered. A failed cascade leaves the memo as the lookup left it.
pub fn is_binary<F: FnOnce() -> BytesRead>(
    cache: &mut ClassifierCache,
    path: &str,
    filename: &str,
    meta: Option<&FileMeta>,
    read_sample: F,
) -> (r: Result<bool, NativeError>)
    requires
        read_sample.requires(()),
    ensures
        final(cache).limit() == old(cache).limit(),
        memo_outcome(old(cache)@, old(cache).limit(), path@, filename@, meta, read_sample, r, final(cache)@),
{
    match cache.begin(path, meta) {
        MemoLookup::Hit(b) => Ok(b),
        MemoLookup::Miss(key) => {
            let r = classify_uncached(filename, read_sample);
            cache.conclude(&key, &r);
            r
        },
    }
}

/// What a classification with the memo owes: the verdict, and the entries
/// of the memo afterwards.
pub open spec fn memo_outcome<F: FnOnce() -> BytesRead>(
    before: Seq<(MemoKey, bool)>,
    limit: nat,
    path: Seq<char>,
    filename: Seq<char>,
    meta: Option<&FileMeta>,
    read_sample: F,
    r: Result<bool, NativeError>,
    after: Seq<(MemoKey, bool)>,
) -> bool {
    match meta {
        Some(m) => {
            let key = memo_key(path, stat_key_of(*m));
            match memo_find(before, key) {
                Some(b) => r == Ok::<bool, NativeError>(b) && after == memo_touched(before, key),
                None => uncached_outcome(filename, read_sample, r) && after == (match r {
                    Ok(b) => memo_stored(before, key, b, limit),
                    Err(_) => before,
                }),
            }
        },
        None => uncached_outcome(filename, read_sample, r) && after == before,
    }
}

/// What the cascade without the memo owes for a file name and a reader of
/// the file's head.
pub open spec fn uncached_outcome<F: FnOnce() -> BytesRead>(
    filename: Seq<char>,
    read_sample: F,
    r: Result<bool, NativeError>,
) -> bool {
    &&& extension_class(filename) matches Some(b) ==> r == Ok::<bool, NativeError>(b)
    &&& extension_class(filename) is None ==> exists|s: BytesRead|
        read_sample.ensures((), s) && r == cascade_class(filename, s)
}

} // verus!
