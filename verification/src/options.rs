//! The configuration of a run.
use vstd::prelude::*;
use vstd::string::*;
use crate::patterns::{compile_patterns, compiled_languages, languages, PatternMatcher};
use crate::text::{lowercase_of, str_eq, to_lowercase};
use crate::timezone::{is_blank, name_view, zone_setting, TimezoneInfo};

verus! {

/// Records per batch where none is asked for.
pub const DEFAULT_CHUNK_SIZE: usize = 256;

/// The immutable configuration of a run.
pub struct TraversalOptions {
    /// Base directory.
    pub root: String,
    /// Byte ceiling; larger files are excluded.
    pub max_file_size: u64,
    /// Whether binary and image files are previewed.
    pub include_binary: bool,
    /// Lowercased, dot-prefixed suffixes of image files.
    pub image_extensions: Vec<String>,
    /// Names of directories that are not entered.
    pub excluded_folders: Vec<String>,
    /// Names of files that are left out.
    pub excluded_files: Vec<String>,
    /// Patterns of names that are left out.
    pub exclude_patterns: Vec<PatternMatcher>,
    /// Whether symbolic links are followed.
    pub follow_symlinks: bool,
    /// Number of workers, at least one.
    pub threads: usize,
    /// An encoding label that overrides detection.
    pub encoding: Option<String>,
    /// Whether files are hashed.
    pub hashing_enabled: bool,
    /// Records per batch, at least one.
    pub chunk_size: usize,
    /// How times are rendered.
    pub timezone: TimezoneInfo,
}

/// The settings as a host hands them over: what it left out is `None`.
pub struct RawOptions {
    pub root: String,
    pub max_file_size: Option<u64>,
    pub include_binary: Option<bool>,
    pub follow_symlinks: Option<bool>,
    pub threads: Option<usize>,
    pub encoding: Option<String>,
    pub hashing_enabled: Option<bool>,
    pub chunk_size: Option<usize>,
    pub use_utc: Option<bool>,
    pub timezone: Option<String>,
    pub image_extensions: Vec<String>,
    pub excluded_folders: Vec<String>,
    pub excluded_files: Vec<String>,
    pub exclude_patterns: Vec<String>,
}

/// The views of a list of names.
pub open spec fn name_views(names: Seq<String>) -> Seq<Seq<char>> {
    Seq::new(names.len(), |i: int| names[i]@)
}

/// The lowercase forms of a list of names.
pub open spec fn lowercased(names: Seq<String>) -> Seq<Seq<char>> {
    Seq::new(names.len(), |i: int| lowercase_of(names[i]@))
}

/// Tests whether a list holds a name.
pub fn contains_name(names: &Vec<String>, name: &str) -> (b: bool)
    ensures
        b == name_views(names@).contains(name@),
{
    let mut i: usize = 0;
    while i < names.len()
        invariant
            i <= names.len(),
            forall|k: int| 0 <= k < i ==> name_views(names@)[k] != name@,
        decreases names.len() - i,
    {
        if str_eq(names[i].as_str(), name) {
            assert(name_views(names@)[i as int] == name@);
            return true;
        }
        i = i + 1;
    }
    false
}

fn lowercase_all(names: &Vec<String>) -> (r: Vec<String>)
    ensures
        name_views(r@) == lowercased(names@),
{
    let mut r: Vec<String> = Vec::new();
    let mut i: usize = 0;
    while i < names.len()
        invariant
            i <= names.len(),
            r.len() == i,
            forall|k: int| 0 <= k < i ==> r@[k]@ == lowercase_of(names@[k]@),
        decreases names.len() - i,
    {
        r.push(to_lowercase(names[i].as_str()));
        i = i + 1;
    }
    assert(name_views(r@) =~= lowercased(names@));
    r
}

/// A switch as asked for, else its default.
pub open spec fn flag_or(asked: Option<bool>, default: bool) -> bool {
    match asked {
        Some(b) => b,
        None => default,
    }
}

/// The number of workers for a request and a count of processors: what was
/// asked for, else one per processor, and never fewer than one.
pub open spec fn worker_count(asked: Option<usize>, cpus: usize) -> int {
    let n = match asked {
        Some(n) => n as int,
        None => cpus as int,
    };
    if n < 1 {
        1
    } else {
        n
    }
}

/// The batch size for a request: what was asked for, else the default, and
/// never less than one.
pub open spec fn batch_size(asked: Option<usize>) -> int {
    match asked {
        Some(n) => if n < 1 {
            1
        } else {
            n as int
        },
        None => DEFAULT_CHUNK_SIZE as int,
    }
}

/// The size ceiling for a request: what was asked for, capped at the
/// largest machine word; that cap where nothing was asked for.
pub open spec fn size_ceiling(asked: Option<u64>) -> int {
    match asked {
        Some(n) => if n > usize::MAX {
            usize::MAX as int
        } else {
            n as int
        },
        None => usize::MAX as int,
    }
}

impl TraversalOptions {
    /// What every configuration satisfies.
    pub open spec fn valid(&self) -> bool {
        &&& self.threads >= 1
        &&& self.chunk_size >= 1
        &&& self.max_file_size <= usize::MAX
    }

    /// Completes the settings of a host with the defaults: binary files
    /// included, links not followed, hashing on, times in the zone of the
    /// machine. Image suffixes are lowercased; patterns that do not parse
    /// are dropped.
    pub fn from_raw(raw: RawOptions, cpus: usize) -> (o: Self)
        ensures
            o.valid(),
            o.root@ == raw.root@,
            o.max_file_size == size_ceiling(raw.max_file_size),
            o.include_binary == flag_or(raw.include_binary, true),
            o.follow_symlinks == flag_or(raw.follow_symlinks, false),
            o.threads == worker_count(raw.threads, cpus),
            name_view(o.encoding) == name_view(raw.encoding),
            o.hashing_enabled == flag_or(raw.hashing_enabled, true),
            o.chunk_size == batch_size(raw.chunk_size),
            name_views(o.image_extensions@) == lowercased(raw.image_extensions@),
            o.excluded_folders@ == raw.excluded_folders@,
            o.excluded_files@ == raw.excluded_files@,
            languages(o.exclude_patterns@) == compiled_languages(raw.exclude_patterns@),
            exists|local_label: Seq<char>|
                o.timezone@ == #[trigger] zone_setting(
                    flag_or(raw.use_utc, false),
                    name_view(raw.timezone),
                    local_label,
                ),
            !flag_or(raw.use_utc, false) && raw.timezone is None ==> !is_blank(o.timezone@.label),
    {
        let max_file_size = match raw.max_file_size {
            Some(n) => if n > usize::MAX as u64 {
                usize::MAX as u64
            } else {
                n
            },
            None => usize::MAX as u64,
        };
        let threads = match raw.threads {
            Some(n) => n,
            None => cpus,
        };
        let chunk_size = match raw.chunk_size {
            Some(n) => n,
            None => DEFAULT_CHUNK_SIZE,
        };
        let use_utc = match raw.use_utc {
            Some(b) => b,
            None => false,
        };
        let image_extensions = lowercase_all(&raw.image_extensions);
        let exclude_patterns = compile_patterns(&raw.exclude_patterns);
        let timezone = TimezoneInfo::new(use_utc, raw.timezone);
        proof {
            let label = choose|l: Seq<char>|
                timezone@ == #[trigger] zone_setting(use_utc, name_view(raw.timezone), l);
            assert(timezone@ == zone_setting(
                flag_or(raw.use_utc, false),
                name_view(raw.timezone),
                label,
            ));
        }
        TraversalOptions {
            root: raw.root,
            max_file_size,
            include_binary: match raw.include_binary {
                Some(b) => b,
                None => true,
            },
            image_extensions,
            excluded_folders: raw.excluded_folders,
            excluded_files: raw.excluded_files,
            exclude_patterns,
            follow_symlinks: match raw.follow_symlinks {
                Some(b) => b,
                None => false,
            },
            threads: if threads < 1 {
                1
            } else {
                threads
            },
            encoding: raw.encoding,
            hashing_enabled: match raw.hashing_enabled {
                Some(b) => b,
                None => true,
            },
            chunk_size: if chunk_size < 1 {
                1
            } else {
                chunk_size
            },
            timezone,
        }
    }
}

} // verus!
