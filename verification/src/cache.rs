//! The cache of inspection results: one entry per absolute path, written by
//! upsert.
use vstd::prelude::*;
use vstd::string::*;
use crate::errors::{ErrorModel, NativeError};
use crate::text::{concat, str_eq};

verus! {

/// What the cache keeps for a path.
#[derive(Debug, Clone)]
pub struct CacheEntry {
    /// The content hash, where one was computed.
    pub file_hash: Option<String>,
    /// The info of the file as a JSON text.
    pub file_info: String,
    /// Size in bytes.
    pub size: i64,
    /// Last modification in seconds since the epoch, as the bits of a
    /// double.
    pub mtime_bits: u64,
}

/// The mathematical value of a [`CacheEntry`].
pub ghost struct EntryModel {
    pub file_hash: Option<Seq<char>>,
    pub file_info: Seq<char>,
    pub size: i64,
    pub mtime_bits: u64,
}

impl View for CacheEntry {
    type V = EntryModel;

    open spec fn view(&self) -> EntryModel {
        EntryModel {
            file_hash: match self.file_hash {
                Some(h) => Some(h@),
                None => None,
            },
            file_info: self.file_info@,
            size: self.size,
            mtime_bits: self.mtime_bits,
        }
    }
}

/// Whether a text is a JSON document that `serde_json` reads.
pub uninterp spec fn is_json(text: Seq<char>) -> bool;

/// Trusted: wraps `serde_json::from_str` into a `serde_json::Value`. Whether
/// it succeeds depends on the text alone; the contract names the answer.
#[verifier::external_body]
fn json_parses(text: &str) -> (b: bool)
    ensures
        b == is_json(text@),
{
    serde_json::from_str::<serde_json::Value>(text).is_ok()
}

/// The rows of a cache as plain values: path and entry.
pub type Rows = Seq<(Seq<char>, EntryModel)>;

/// Position of the row of a path, or -1.
pub open spec fn row_position(rows: Rows, path: Seq<char>) -> int
    decreases rows.len(),
{
    if rows.len() == 0 {
        -1
    } else if rows.last().0 == path {
        rows.len() - 1
    } else {
        row_position(rows.drop_last(), path)
    }
}

/// The entry stored for a path, where there is one.
pub open spec fn stored(rows: Rows, path: Seq<char>) -> Option<EntryModel> {
    let i = row_position(rows, path);
    if 0 <= i < rows.len() {
        Some(rows[i].1)
    } else {
        None
    }
}

/// The rows after an upsert: the row of the path is replaced, or a row is
/// added where the path had none.
pub open spec fn upserted(rows: Rows, path: Seq<char>, entry: EntryModel) -> Rows {
    let i = row_position(rows, path);
    if 0 <= i < rows.len() {
        rows.update(i, (path, entry))
    } else {
        rows.push((path, entry))
    }
}

/// Whether no path has two rows.
pub open spec fn one_row_per_path(rows: Rows) -> bool {
    forall|i: int, j: int| 0 <= i < j < rows.len() ==> rows[i].0 != rows[j].0
}

proof fn lemma_position(rows: Rows, path: Seq<char>)
    ensures
        -1 <= row_position(rows, path) < rows.len(),
        row_position(rows, path) >= 0 ==> rows[row_position(rows, path)].0 == path,
        row_position(rows, path) < 0 ==> forall|k: int| 0 <= k < rows.len() ==> rows[k].0 != path,
        forall|k: int| row_position(rows, path) < k < rows.len() ==> rows[k].0 != path,
    decreases rows.len(),
{
    if rows.len() > 0 && rows.last().0 != path {
        lemma_position(rows.drop_last(), path);
        assert forall|k: int| row_position(rows, path) < k < rows.len() implies rows[k].0
            != path by {
            if k < rows.len() - 1 {
                assert(rows.drop_last()[k] == rows[k]);
            }
        }
        if row_position(rows, path) < 0 {
            assert forall|k: int| 0 <= k < rows.len() implies rows[k].0 != path by {
                if k < rows.len() - 1 {
                    assert(rows.drop_last()[k] == rows[k]);
                }
            }
        }
    }
}

proof fn lemma_position_unique(rows: Rows, path: Seq<char>, i: int)
    requires
        one_row_per_path(rows),
        0 <= i < rows.len(),
        rows[i].0 == path,
    ensures
        row_position(rows, path) == i,
{
    lemma_position(rows, path);
}

/// What was written for a path is read back: after an upsert the cache
/// holds exactly the entry written, under that path.
pub proof fn lemma_upsert_round_trip(rows: Rows, path: Seq<char>, entry: EntryModel)
    requires
        one_row_per_path(rows),
    ensures
        stored(upserted(rows, path, entry), path) == Some(entry),
        one_row_per_path(upserted(rows, path, entry)),
{
    lemma_position(rows, path);
    let after = upserted(rows, path, entry);
    let i = row_position(rows, path);
    if 0 <= i < rows.len() {
        assert forall|a: int, b: int| 0 <= a < b < after.len() implies after[a].0 != after[b].0 by {
            assert(after[a].0 == rows[a].0 && after[b].0 == rows[b].0);
        }
        lemma_position_unique(after, path, i);
    } else {
        assert forall|a: int, b: int| 0 <= a < b < after.len() implies after[a].0 != after[b].0 by {
            if b < rows.len() {
                assert(after[a] == rows[a] && after[b] == rows[b]);
            } else {
                assert(after[a] == rows[a]);
            }
        }
        lemma_position_unique(after, path, rows.len() as int);
    }
}

/// An upsert touches no other path.
pub proof fn lemma_upsert_keeps_others(
    rows: Rows,
    path: Seq<char>,
    entry: EntryModel,
    other: Seq<char>,
)
    requires
        one_row_per_path(rows),
        other != path,
    ensures
        stored(upserted(rows, path, entry), other) == stored(rows, other),
{
    lemma_upsert_round_trip(rows, path, entry);
    lemma_position(rows, path);
    lemma_position(rows, other);
    let after = upserted(rows, path, entry);
    lemma_position(after, other);
    let j = row_position(rows, other);
    if 0 <= j < rows.len() {
        assert(after[j] == rows[j]);
        lemma_position_unique(after, other, j);
    } else {
        let k = row_position(after, other);
        if 0 <= k < after.len() {
            if k < rows.len() {
                assert(after[k].0 == rows[k].0);
            }
        }
    }
}

/// The cache: a table of entries keyed by path.
pub struct CacheStore {
    rows: Vec<(String, CacheEntry)>,
}

/// The rows of a table as plain values.
pub open spec fn row_views(rows: Seq<(String, CacheEntry)>) -> Rows {
    Seq::new(rows.len(), |i: int| (rows[i].0@, rows[i].1@))
}

impl View for CacheStore {
    type V = Rows;

    closed spec fn view(&self) -> Rows {
        row_views(self.rows@)
    }
}

/// The outcome of reading a path: nothing for a path without a row, the
/// entry where its info is a JSON document, an error otherwise.
pub open spec fn read_outcome(rows: Rows, path: Seq<char>) -> Result<Option<EntryModel>, ErrorModel> {
    match stored(rows, path) {
        None => Ok(None),
        Some(e) => if is_json(e.file_info) {
            Ok(Some(e))
        } else {
            Err(ErrorModel::Other("Invalid cached file info: "@ + e.file_info))
        },
    }
}

impl CacheStore {
    /// Whether no path has two rows.
    pub open spec fn well_formed(&self) -> bool {
        one_row_per_path(self@)
    }

    /// An empty cache.
    pub fn new() -> (c: Self)
        ensures
            c@ == Seq::<(Seq<char>, EntryModel)>::empty(),
            c.well_formed(),
    {
        let c = CacheStore { rows: Vec::new() };
        assert(c@ =~= Seq::<(Seq<char>, EntryModel)>::empty());
        c
    }

    /// Number of rows.
    pub fn len(&self) -> (n: usize)
        ensures
            n == self@.len(),
    {
        self.rows.len()
    }

    fn find(&self, path: &str) -> (r: Option<usize>)
        ensures
            match r {
                Some(i) => i == row_position(self@, path@) && i < self.rows.len(),
                None => row_position(self@, path@) < 0,
            },
    {
        let mut i: usize = self.rows.len();
        proof {
            lemma_position(self@, path@);
        }
        while i > 0
            invariant
                i <= self.rows.len(),
                forall|k: int| i <= k < self.rows.len() ==> self@[k].0 != path@,
            decreases i,
        {
            i = i - 1;
            if str_eq(self.rows[i].0.as_str(), path) {
                proof {
                    lemma_position(self@, path@);
                    assert(self@[i as int].0 == path@);
                }
                return Some(i);
            }
        }
        proof {
            lemma_position(self@, path@);
            let p = row_position(self@, path@);
            if p >= 0 {
                assert(self@[p].0 == path@);
            }
        }
        None
    }

    /// Reads the entry of a path. An entry whose info is no JSON document
    /// fails the read.
    pub fn get(&self, file_path: &str) -> (r: Result<Option<CacheEntry>, NativeError>)
        ensures
            match read_outcome(self@, file_path@) {
                Ok(None) => r matches Ok(None),
                Ok(Some(e)) => r matches Ok(Some(x)) && x@ == e,
                Err(m) => r matches Err(x) && x@ == m,
            },
    {
        match self.find(file_path) {
            None => Ok(None),
            Some(i) => {
                let entry = &self.rows[i].1;
                assert(self@[i as int].1 == entry@);
                if json_parses(entry.file_info.as_str()) {
                    Ok(
                        Some(
                            CacheEntry {
                                file_hash: match &entry.file_hash {
                                    Some(h) => Some(h.clone()),
                                    None => None,
                                },
                                file_info: entry.file_info.clone(),
                                size: entry.size,
                                mtime_bits: entry.mtime_bits,
                            },
                        ),
                    )
                } else {
                    Err(
                        NativeError::Other(
                            concat("Invalid cached file info: ", entry.file_info.as_str()),
                        ),
                    )
                }
            },
        }
    }

    /// Writes the entry of a path, replacing the one it had.
    pub fn set(&mut self, file_path: &str, entry: CacheEntry)
        ensures
            final(self)@ == upserted(old(self)@, file_path@, entry@),
            old(self).well_formed() ==> final(self).well_formed(),
    {
        let ghost before = self@;
        proof {
            if one_row_per_path(before) {
                lemma_upsert_round_trip(before, file_path@, entry@);
            }
        }
        match self.find(file_path) {
            Some(i) => {
                self.rows.set(i, (String::from_str(file_path), entry));
                assert(self@ =~= before.update(i as int, (file_path@, entry@)));
            },
            None => {
                self.rows.push((String::from_str(file_path), entry));
                assert(self@ =~= before.push((file_path@, entry@)));
            },
        }
    }
}

/// Reads the entry of a path from the cache.
pub fn get_cached_entry(store: &CacheStore, file_path: &str) -> (r: Result<
    Option<CacheEntry>,
    NativeError,
>)
    ensures
        match read_outcome(store@, file_path@) {
            Ok(None) => r matches Ok(None),
            Ok(Some(e)) => r matches Ok(Some(x)) && x@ == e,
            Err(m) => r matches Err(x) && x@ == m,
        },
{
    store.get(file_path)
}

/// The entry that a write stores.
pub open spec fn entry_of(
    file_hash: Option<Seq<char>>,
    file_info: Seq<char>,
    size: i64,
    mtime_bits: u64,
) -> EntryModel {
    EntryModel { file_hash, file_info, size, mtime_bits }
}

/// Writes the entry of a path to the cache, by upsert. The flag
/// `synchronous` is advisory and changes nothing that the cache holds.
pub fn set_cached_entry(
    store: &mut CacheStore,
    file_path: &str,
    file_hash: Option<&str>,
    file_info: &str,
    size: i64,
    mtime_bits: u64,
    synchronous: bool,
)
    ensures
        final(store)@ == upserted(
            old(store)@,
            file_path@,
            entry_of(
                match file_hash {
                    Some(h) => Some(h@),
                    None => None,
                },
                file_info@,
                size,
                mtime_bits,
            ),
        ),
        old(store).well_formed() ==> final(store).well_formed(),
{
    let entry = CacheEntry {
        file_hash: match file_hash {
            Some(h) => Some(String::from_str(h)),
            None => None,
        },
        file_info: String::from_str(file_info),
        size,
        mtime_bits,
    };
    store.set(file_path, entry);
}

/// The cache round trip: a read after a write of a JSON info gives the
/// entry written.
pub proof fn lemma_cache_round_trip(rows: Rows, path: Seq<char>, entry: EntryModel)
    requires
        one_row_per_path(rows),
        is_json(entry.file_info),
    ensures
        read_outcome(upserted(rows, path, entry), path) == Ok::<Option<EntryModel>, ErrorModel>(
            Some(entry),
        ),
{
    lemma_upsert_round_trip(rows, path, entry);
}

} // verus!
