//! The aggregator: restores submission order, cuts the record stream into
//! batches, keeps the counters and closes a run with its summary.
use vstd::prelude::*;
use vstd::string::*;
use crate::content::{FileInfo, InfoModel};
use crate::pending::PendingRecords;
use crate::record::FileRecord;
use crate::text::{chars_of, concat};

verus! {

/// A file that could not be inspected, for the summary.
#[derive(Debug, Clone)]
pub struct FailedFile {
    /// Path of the file below the root of the run.
    pub file: String,
    /// What went wrong.
    pub error: String,
}

impl View for FailedFile {
    type V = (Seq<char>, Seq<char>);

    open spec fn view(&self) -> (Seq<char>, Seq<char>) {
        (self.file@, self.error@)
    }
}

/// The views of a list of failed files.
pub open spec fn failed_views(v: Seq<FailedFile>) -> Seq<(Seq<char>, Seq<char>)> {
    Seq::new(v.len(), |i: int| v[i]@)
}

/// Two path parts joined by a forward slash; an empty first part adds
/// nothing, and a first part that ends in a slash gets no second one.
pub open spec fn join_path(base: Seq<char>, rest: Seq<char>) -> Seq<char> {
    if base.len() == 0 {
        rest
    } else if base.last() == '/' {
        base + rest
    } else {
        base + seq!['/'] + rest
    }
}

/// The path under which a failed file is reported.
pub open spec fn failed_path(root: Seq<char>, parent: Seq<char>, filename: Seq<char>) -> Seq<char> {
    join_path(root, join_path(parent, filename))
}

/// Joins two path parts.
pub fn join(base: &str, rest: &str) -> (r: String)
    ensures
        r@ == join_path(base@, rest@),
{
    let b = chars_of(base);
    if b.len() == 0 {
        String::from_str(rest)
    } else if b[b.len() - 1] == '/' {
        concat(base, rest)
    } else {
        let with_slash = concat(base, "/");
        proof {
            reveal_strlit("/");
            assert("/"@ =~= seq!['/']);
        }
        concat(with_slash.as_str(), rest)
    }
}

/// The state of an aggregator as a mathematical value.
pub ghost struct AggState {
    /// Records per batch, at least one.
    pub chunk_size: nat,
    /// Root of the run, for the paths of failed files.
    pub root: Seq<char>,
    /// Files the walker listed for inspection.
    pub walker_included: nat,
    /// Files the walker left out by name or pattern.
    pub walker_excluded: nat,
    /// The submission index that is released next.
    pub next_index: nat,
    /// Records that wait for earlier ones, in ascending index order.
    pub pending: Seq<(usize, FileRecord)>,
    /// The batch under construction.
    pub chunk: Seq<FileRecord>,
    /// Every batch emitted so far.
    pub batches: Seq<Seq<FileRecord>>,
    /// Every record released so far with its submission index, in the order
    /// in which the consumer gets them.
    pub released: Seq<(nat, FileRecord)>,
    /// Records taken in.
    pub processed: nat,
    /// The failed files, in order of arrival.
    pub failed: Seq<(Seq<char>, Seq<char>)>,
}

/// Position of the entry with a given index, or -1.
pub open spec fn find_pending(p: Seq<(usize, FileRecord)>, i: nat) -> int
    decreases p.len(),
{
    if p.len() == 0 {
        -1
    } else if p[0].0 == i {
        0
    } else {
        let r = find_pending(p.drop_first(), i);
        if r < 0 {
            -1
        } else {
            r + 1
        }
    }
}

/// The pending entries after one more is filed: it replaces an entry of the
/// same index, else it goes before the first entry of a larger index.
pub open spec fn insert_pending(p: Seq<(usize, FileRecord)>, i: usize, r: FileRecord) -> Seq<
    (usize, FileRecord),
>
    decreases p.len(),
{
    if p.len() == 0 {
        seq![(i, r)]
    } else if p[0].0 == i {
        seq![(i, r)] + p.drop_first()
    } else if p[0].0 > i {
        seq![(i, r)] + p
    } else {
        seq![p[0]] + insert_pending(p.drop_first(), i, r)
    }
}

/// The state after a record was released to the consumer's side: it joins
/// the batch under construction, which is emitted once it is full.
pub open spec fn release(s: AggState, index: nat, r: FileRecord) -> AggState {
    let c = s.chunk.push(r);
    if c.len() >= s.chunk_size {
        AggState {
            chunk: Seq::empty(),
            batches: s.batches.push(c),
            released: s.released.push((index, r)),
            ..s
        }
    } else {
        AggState { chunk: c, released: s.released.push((index, r)), ..s }
    }
}

/// The state after every record that is next in line was released.
pub open spec fn drain(s: AggState) -> AggState
    decreases s.pending.len(),
{
    let j = find_pending(s.pending, s.next_index);
    if j < 0 || j >= s.pending.len() {
        s
    } else {
        drain(
            release(
                AggState { pending: s.pending.remove(j), next_index: s.next_index + 1, ..s },
                s.pending[j].0 as nat,
                s.pending[j].1,
            ),
        )
    }
}

/// The state after all pending records were released in index order.
pub open spec fn flush(s: AggState) -> AggState
    decreases s.pending.len(),
{
    if s.pending.len() == 0 {
        s
    } else {
        flush(
            release(
                AggState { pending: s.pending.drop_first(), ..s },
                s.pending[0].0 as nat,
                s.pending[0].1,
            ),
        )
    }
}

/// The state after a record was counted: every record counts as processed,
/// and one that reports a failure is listed among the failed files.
pub open spec fn counted(s: AggState, r: FileRecord) -> AggState {
    match r.info@ {
        InfoModel::Error { content, .. } => AggState {
            processed: s.processed + 1,
            failed: s.failed.push((failed_path(s.root, r.parent@, r.filename@), content)),
            ..s
        },
        _ => AggState { processed: s.processed + 1, ..s },
    }
}

/// The state after a record arrived under a submission index.
pub open spec fn accepted(s: AggState, index: usize, r: FileRecord) -> AggState {
    let c = counted(s, r);
    drain(AggState { pending: insert_pending(c.pending, index, r), ..c })
}

/// The state at the end of a run: pending records flushed in index order,
/// the last partial batch emitted.
pub open spec fn finished(s: AggState) -> AggState {
    let f = flush(s);
    if f.chunk.len() > 0 {
        AggState { chunk: Seq::empty(), batches: f.batches.push(f.chunk), ..f }
    } else {
        f
    }
}

/// The closing message of a run.
#[derive(Debug, Clone)]
pub struct Summary {
    /// Included and excluded files together.
    pub total_files: usize,
    /// Files the walker left out by name or pattern.
    pub excluded_files: usize,
    /// Files the walker listed for inspection.
    pub included_files: usize,
    /// Records taken in.
    pub processed_files: usize,
    /// The files that failed.
    pub failed_files: Vec<FailedFile>,
    /// Whether the run was cancelled.
    pub stopped_early: bool,
    /// `xxhash` in a run that hashes.
    pub hash_algorithm: Option<String>,
}

/// The mathematical value of a [`Summary`].
pub ghost struct SummaryModel {
    pub total_files: nat,
    pub excluded_files: nat,
    pub included_files: nat,
    pub processed_files: nat,
    pub failed_files: Seq<(Seq<char>, Seq<char>)>,
    pub stopped_early: bool,
    pub hash_algorithm: Option<Seq<char>>,
}

impl View for Summary {
    type V = SummaryModel;

    open spec fn view(&self) -> SummaryModel {
        SummaryModel {
            total_files: self.total_files as nat,
            excluded_files: self.excluded_files as nat,
            included_files: self.included_files as nat,
            processed_files: self.processed_files as nat,
            failed_files: failed_views(self.failed_files@),
            stopped_early: self.stopped_early,
            hash_algorithm: match self.hash_algorithm {
                Some(a) => Some(a@),
                None => None,
            },
        }
    }
}

/// The summary of a state.
pub open spec fn summary_of(s: AggState, stopped_early: bool, hashing: bool) -> SummaryModel {
    SummaryModel {
        total_files: s.walker_included + s.walker_excluded,
        excluded_files: s.walker_excluded,
        included_files: s.walker_included,
        processed_files: s.processed,
        failed_files: s.failed,
        stopped_early,
        hash_algorithm: if hashing {
            Some("xxhash"@)
        } else {
            None
        },
    }
}

/// What holds of every state an aggregator can reach.
pub open spec fn well_formed(s: AggState) -> bool {
    &&& s.chunk_size >= 1
    &&& s.chunk.len() < s.chunk_size
    &&& s.next_index + s.pending.len() <= s.processed
    &&& s.failed.len() <= s.processed
    &&& s.processed <= usize::MAX
    &&& s.walker_included + s.walker_excluded <= usize::MAX
    &&& find_pending(s.pending, s.next_index) < 0
    &&& delivered(s) == records_of(s.released)
    &&& full_batches(s)
}

/// Whether every batch emitted so far holds exactly as many records as the
/// batch size asks.
pub open spec fn full_batches(s: AggState) -> bool {
    forall|i: int| 0 <= i < s.batches.len() ==> (#[trigger] s.batches[i]).len() == s.chunk_size
}

/// All batches joined in order.
pub open spec fn flat(b: Seq<Seq<FileRecord>>) -> Seq<FileRecord>
    decreases b.len(),
{
    if b.len() == 0 {
        Seq::empty()
    } else {
        flat(b.drop_last()) + b.last()
    }
}

/// The records that have left the reorder buffer, in the order in which the
/// consumer gets them: those of the batches emitted, then those of the batch
/// under construction.
pub open spec fn delivered(s: AggState) -> Seq<FileRecord> {
    flat(s.batches) + s.chunk
}

/// The records of a release history.
pub open spec fn records_of(r: Seq<(nat, FileRecord)>) -> Seq<FileRecord> {
    Seq::new(r.len(), |i: int| r[i].1)
}

/// Whether the submission indices of a release history rise strictly.
pub open spec fn increasing(r: Seq<(nat, FileRecord)>) -> bool {
    forall|a: int, b: int| 0 <= a < b < r.len() ==> r[a].0 < r[b].0
}

/// Whether pending entries stand in strictly ascending index order.
pub open spec fn ascending(p: Seq<(usize, FileRecord)>) -> bool {
    forall|a: int, b: int| 0 <= a < b < p.len() ==> p[a].0 < p[b].0
}

/// Whether a state has released its records in submission order so far and
/// holds nothing that would break that order: all that was released lies
/// below the index that is next, all that is pending at or above it.
pub open spec fn in_order(s: AggState) -> bool {
    &&& increasing(s.released)
    &&& forall|k: int| 0 <= k < s.released.len() ==> (#[trigger] s.released[k]).0 < s.next_index
    &&& ascending(s.pending)
    &&& forall|a: int| 0 <= a < s.pending.len() ==> (#[trigger] s.pending[a]).0 >= s.next_index
}

/// Whether a state may take in one more record.
pub open spec fn has_room(s: AggState) -> bool {
    s.processed < usize::MAX
}

/// Whether two states agree on everything but the records in flight.
pub open spec fn same_counts(a: AggState, b: AggState) -> bool {
    &&& a.chunk_size == b.chunk_size
    &&& a.root == b.root
    &&& a.walker_included == b.walker_included
    &&& a.walker_excluded == b.walker_excluded
    &&& a.processed == b.processed
    &&& a.failed == b.failed
}

/// The state of a run that has taken in nothing.
pub open spec fn initial(
    chunk_size: nat,
    root: Seq<char>,
    walker_included: nat,
    walker_excluded: nat,
) -> AggState {
    AggState {
        chunk_size,
        root,
        walker_included,
        walker_excluded,
        next_index: 0,
        pending: Seq::empty(),
        chunk: Seq::empty(),
        batches: Seq::empty(),
        released: Seq::empty(),
        processed: 0,
        failed: Seq::empty(),
    }
}


/// The contents of a list of batches.
pub open spec fn batch_views(out: Seq<Vec<FileRecord>>) -> Seq<Seq<FileRecord>> {
    Seq::new(out.len(), |i: int| out[i]@)
}

/// What is found lies within the list and bears the index sought.
pub proof fn lemma_find_range(p: Seq<(usize, FileRecord)>, i: nat)
    ensures
        -1 <= find_pending(p, i) < p.len(),
        find_pending(p, i) >= 0 ==> p[find_pending(p, i)].0 == i,
    decreases p.len(),
{
    if p.len() > 0 && p[0].0 != i {
        lemma_find_range(p.drop_first(), i);
    }
}

proof fn lemma_insert_len(p: Seq<(usize, FileRecord)>, i: usize, r: FileRecord)
    ensures
        p.len() <= insert_pending(p, i, r).len() <= p.len() + 1,
    decreases p.len(),
{
    if p.len() > 0 && p[0].0 < i {
        lemma_insert_len(p.drop_first(), i, r);
    }
}

proof fn lemma_drain_props(s: AggState)
    requires
        s.chunk_size >= 1,
        s.chunk.len() < s.chunk_size,
    ensures
        same_counts(drain(s), s),
        drain(s).chunk.len() < s.chunk_size,
        drain(s).next_index + drain(s).pending.len() == s.next_index + s.pending.len(),
        find_pending(drain(s).pending, drain(s).next_index) < 0,
        full_batches(s) ==> full_batches(drain(s)),
    decreases s.pending.len(),
{
    let j = find_pending(s.pending, s.next_index);
    lemma_find_range(s.pending, s.next_index);
    if j >= 0 {
        let next = release(
            AggState { pending: s.pending.remove(j), next_index: s.next_index + 1, ..s },
            s.pending[j].0 as nat,
            s.pending[j].1,
        );
        lemma_release_full(
            AggState { pending: s.pending.remove(j), next_index: s.next_index + 1, ..s },
            s.pending[j].0 as nat,
            s.pending[j].1,
        );
        lemma_drain_props(next);
    }
}

proof fn lemma_release_full(s: AggState, index: nat, r: FileRecord)
    requires
        s.chunk_size >= 1,
        s.chunk.len() < s.chunk_size,
    ensures
        full_batches(s) ==> full_batches(release(s, index, r)),
        release(s, index, r).released.len() == s.released.len() + 1,
{
    let n = release(s, index, r);
    if full_batches(s) {
        assert forall|i: int| 0 <= i < n.batches.len() implies (#[trigger] n.batches[i]).len()
            == n.chunk_size by {
            if i < s.batches.len() {
                assert(n.batches[i] == s.batches[i]);
            }
        }
    }
}

proof fn lemma_flush_props(s: AggState)
    requires
        s.chunk_size >= 1,
        s.chunk.len() < s.chunk_size,
    ensures
        same_counts(flush(s), s),
        flush(s).chunk.len() < s.chunk_size,
        flush(s).pending.len() == 0,
        full_batches(s) ==> full_batches(flush(s)),
        flush(s).released.len() == s.released.len() + s.pending.len(),
    decreases s.pending.len(),
{
    if s.pending.len() > 0 {
        let next = release(
            AggState { pending: s.pending.drop_first(), ..s },
            s.pending[0].0 as nat,
            s.pending[0].1,
        );
        lemma_release_full(
            AggState { pending: s.pending.drop_first(), ..s },
            s.pending[0].0 as nat,
            s.pending[0].1,
        );
        lemma_flush_props(next);
    }
}

/// Ending a run does not change its batch size.
pub proof fn lemma_finish_keeps_size(s: AggState)
    requires
        well_formed(s),
    ensures
        finished(s).chunk_size == s.chunk_size,
{
    lemma_flush_props(s);
}

/// Full batches joined hold as many records as their number and size say.
pub proof fn lemma_flat_len(b: Seq<Seq<FileRecord>>, size: nat)
    requires
        forall|i: int| 0 <= i < b.len() ==> (#[trigger] b[i]).len() == size,
    ensures
        flat(b).len() == b.len() * size,
    decreases b.len(),
{
    if b.len() > 0 {
        let rest = b.drop_last();
        assert forall|i: int| 0 <= i < rest.len() implies (#[trigger] rest[i]).len() == size by {
            assert(rest[i] == b[i]);
        }
        lemma_flat_len(rest, size);
        assert((b.len() - 1) * size + size == b.len() * size) by (nonlinear_arith);
    } else {
        assert(0 * size == 0) by (nonlinear_arith);
    }
}

/// The batches of a run that has ended: what was pending is released; every
/// batch but the last is full, and the last, if it is not, holds what was
/// left over; together they hold every record that was released.
pub proof fn lemma_finished_batches(s: AggState)
    requires
        well_formed(s),
    ensures
        finished(s).released.len() == s.released.len() + s.pending.len(),
        flat(finished(s).batches) == records_of(finished(s).released),
        finished(s).batches.len() == if finished(s).released.len() % s.chunk_size == 0 {
            finished(s).released.len() / s.chunk_size
        } else {
            finished(s).released.len() / s.chunk_size + 1
        },
        forall|i: int|
            0 <= i < finished(s).released.len() / s.chunk_size ==> (
            #[trigger] finished(s).batches[i]).len() == s.chunk_size,
        finished(s).released.len() % s.chunk_size != 0 ==> finished(s).batches.last().len()
            == finished(s).released.len() % s.chunk_size,
{
    lemma_flush_props(s);
    lemma_flush_delivery(s);
    let f = flush(s);
    let e = finished(s);
    let c = s.chunk_size as int;
    let k = f.batches.len() as int;
    let rest = f.chunk.len() as int;
    lemma_flat_len(f.batches, s.chunk_size);
    assert(records_of(f.released).len() == f.released.len());
    assert(delivered(f).len() == k * c + rest);
    let n = e.released.len() as int;
    assert(n == k * c + rest);
    vstd::arithmetic::div_mod::lemma_fundamental_div_mod_converse(n, c, k, rest);
    if rest > 0 {
        assert(f.batches.push(f.chunk).drop_last() =~= f.batches);
        assert(delivered(e) =~= delivered(f));
        assert(flat(e.batches) =~= delivered(e));
        assert forall|i: int| 0 <= i < n / c implies (#[trigger] e.batches[i]).len()
            == s.chunk_size by {
            assert(e.batches[i] == f.batches[i]);
        }
    } else {
        assert(flat(e.batches) =~= delivered(e));
    }
}

proof fn lemma_release_delivery(s: AggState, index: nat, r: FileRecord)
    requires
        delivered(s) == records_of(s.released),
    ensures
        delivered(release(s, index, r)) == records_of(release(s, index, r).released),
{
    let n = release(s, index, r);
    let c = s.chunk.push(r);
    assert(records_of(n.released) =~= records_of(s.released).push(r));
    if c.len() >= s.chunk_size {
        assert(s.batches.push(c).drop_last() =~= s.batches);
        assert(delivered(n) =~= delivered(s).push(r));
    } else {
        assert(delivered(n) =~= delivered(s).push(r));
    }
}

proof fn lemma_drain_delivery(s: AggState)
    requires
        delivered(s) == records_of(s.released),
    ensures
        delivered(drain(s)) == records_of(drain(s).released),
    decreases s.pending.len(),
{
    let j = find_pending(s.pending, s.next_index);
    lemma_find_range(s.pending, s.next_index);
    if j >= 0 {
        let before = AggState { pending: s.pending.remove(j), next_index: s.next_index + 1, ..s };
        lemma_release_delivery(before, s.pending[j].0 as nat, s.pending[j].1);
        lemma_drain_delivery(release(before, s.pending[j].0 as nat, s.pending[j].1));
    }
}

proof fn lemma_flush_delivery(s: AggState)
    requires
        delivered(s) == records_of(s.released),
    ensures
        delivered(flush(s)) == records_of(flush(s).released),
    decreases s.pending.len(),
{
    if s.pending.len() > 0 {
        let before = AggState { pending: s.pending.drop_first(), ..s };
        lemma_release_delivery(before, s.pending[0].0 as nat, s.pending[0].1);
        lemma_flush_delivery(release(before, s.pending[0].0 as nat, s.pending[0].1));
    }
}

/// Filing a record keeps the entries in ascending order and above a bound
/// that they and the new index were above.
pub proof fn lemma_insert_order(p: Seq<(usize, FileRecord)>, i: usize, r: FileRecord, n: nat)
    requires
        ascending(p),
        forall|a: int| 0 <= a < p.len() ==> (#[trigger] p[a]).0 >= n,
        i >= n,
    ensures
        ascending(insert_pending(p, i, r)),
        forall|a: int|
            0 <= a < insert_pending(p, i, r).len() ==> (#[trigger] insert_pending(p, i, r)[a]).0
                >= n,
    decreases p.len(),
{
    let q = insert_pending(p, i, r);
    if p.len() == 0 {
    } else if p[0].0 == i {
        assert forall|a: int, b: int| 0 <= a < b < q.len() implies q[a].0 < q[b].0 by {
            assert(q[b] == p[b]);
            if a > 0 {
                assert(q[a] == p[a]);
            } else {
                assert(p[0].0 < p[b].0);
            }
        }
        assert forall|a: int| 0 <= a < q.len() implies (#[trigger] q[a]).0 >= n by {
            if a > 0 {
                assert(q[a] == p[a]);
            }
        }
    } else if p[0].0 > i {
        assert forall|a: int, b: int| 0 <= a < b < q.len() implies q[a].0 < q[b].0 by {
            assert(q[b] == p[b - 1]);
            if a > 0 {
                assert(q[a] == p[a - 1]);
            } else {
                assert(p[0].0 <= p[b - 1].0);
            }
        }
        assert forall|a: int| 0 <= a < q.len() implies (#[trigger] q[a]).0 >= n by {
            if a > 0 {
                assert(q[a] == p[a - 1]);
            }
        }
    } else {
        let rest = p.drop_first();
        let low = (p[0].0 + 1) as nat;
        assert forall|a: int, b: int| 0 <= a < b < rest.len() implies rest[a].0 < rest[b].0 by {
            assert(rest[a] == p[a + 1] && rest[b] == p[b + 1]);
        }
        assert forall|a: int| 0 <= a < rest.len() implies (#[trigger] rest[a]).0 >= low by {
            assert(rest[a] == p[a + 1]);
            assert(p[0].0 < p[a + 1].0);
        }
        lemma_insert_order(rest, i, r, low);
        let tail = insert_pending(rest, i, r);
        assert forall|a: int, b: int| 0 <= a < b < q.len() implies q[a].0 < q[b].0 by {
            assert(q[b] == tail[b - 1]);
            if a > 0 {
                assert(q[a] == tail[a - 1]);
            } else {
                assert(q[0] == p[0]);
                assert(tail[b - 1].0 >= low);
            }
        }
        assert forall|a: int| 0 <= a < q.len() implies (#[trigger] q[a]).0 >= n by {
            if a > 0 {
                assert(q[a] == tail[a - 1]);
                assert(tail[a - 1].0 >= low);
            } else {
                assert(q[0] == p[0]);
            }
        }
    }
}

proof fn lemma_drain_order(s: AggState)
    requires
        in_order(s),
    ensures
        in_order(drain(s)),
    decreases s.pending.len(),
{
    let j = find_pending(s.pending, s.next_index);
    lemma_find_range(s.pending, s.next_index);
    if j >= 0 {
        let p = s.pending;
        let q = p.remove(j);
        let before = AggState { pending: q, next_index: s.next_index + 1, ..s };
        let next = release(before, p[j].0 as nat, p[j].1);
        assert(next.pending == q);
        assert(next.released == s.released.push((p[j].0 as nat, p[j].1)));
        assert forall|a: int, b: int| 0 <= a < b < q.len() implies q[a].0 < q[b].0 by {
            let a0 = if a < j { a } else { a + 1 };
            let b0 = if b < j { b } else { b + 1 };
            assert(q[a] == p[a0] && q[b] == p[b0]);
        }
        assert forall|a: int| 0 <= a < q.len() implies (#[trigger] q[a]).0 >= next.next_index by {
            let a0 = if a < j { a } else { a + 1 };
            assert(q[a] == p[a0]);
            assert(p[a0].0 >= s.next_index);
            if a0 < j {
                assert(p[a0].0 < p[j].0);
            } else {
                assert(p[j].0 < p[a0].0);
            }
        }
        assert forall|a: int, b: int| 0 <= a < b < next.released.len() implies next.released[a].0
            < next.released[b].0 by {
            if b < s.released.len() {
            } else {
                assert(next.released[a] == s.released[a]);
                assert(s.released[a].0 < s.next_index);
            }
        }
        assert forall|k: int| 0 <= k < next.released.len() implies (#[trigger] next.released[k]).0
            < next.next_index by {
            if k < s.released.len() {
                assert(next.released[k] == s.released[k]);
            }
        }
        lemma_drain_order(next);
    }
}

/// Whether flushing a state releases in submission order: what was released
/// rises strictly and lies below all that is pending, which is ascending.
pub open spec fn flush_ordered(s: AggState) -> bool {
    &&& increasing(s.released)
    &&& ascending(s.pending)
    &&& forall|k: int, a: int|
        0 <= k < s.released.len() && 0 <= a < s.pending.len() ==> (#[trigger] s.released[k]).0 < (
        #[trigger] s.pending[a]).0
}

proof fn lemma_flush_order(s: AggState)
    requires
        flush_ordered(s),
    ensures
        increasing(flush(s).released),
    decreases s.pending.len(),
{
    if s.pending.len() > 0 {
        let p = s.pending;
        let q = p.drop_first();
        let before = AggState { pending: q, ..s };
        let next = release(before, p[0].0 as nat, p[0].1);
        assert(next.pending == q);
        assert(next.released == s.released.push((p[0].0 as nat, p[0].1)));
        assert forall|a: int, b: int| 0 <= a < b < q.len() implies q[a].0 < q[b].0 by {
            assert(q[a] == p[a + 1] && q[b] == p[b + 1]);
        }
        assert forall|a: int, b: int| 0 <= a < b < next.released.len() implies next.released[a].0
            < next.released[b].0 by {
            if b < s.released.len() {
            } else {
                assert(next.released[a] == s.released[a]);
                assert(s.released[a].0 < p[0].0);
            }
        }
        assert forall|k: int, a: int|
            0 <= k < next.released.len() && 0 <= a < q.len() implies (#[trigger] next.released[k]).0
            < (#[trigger] q[a]).0 by {
            assert(q[a] == p[a + 1]);
            if k < s.released.len() {
                assert(next.released[k] == s.released[k]);
                assert(s.released[k].0 < p[a + 1].0);
            } else {
                assert(p[0].0 < p[a + 1].0);
            }
        }
        lemma_flush_order(next);
    }
}

/// Whether a state holds a submission index: it was released, or it is
/// pending.
pub open spec fn holds_index(s: AggState, i: nat) -> bool {
    i < s.next_index || find_pending(s.pending, i) >= 0
}

/// Whether a state has released exactly the indices below the one that is
/// next, each once and in rising order.
pub open spec fn gapless(s: AggState) -> bool {
    &&& in_order(s)
    &&& s.released.len() == s.next_index
    &&& forall|k: int| 0 <= k < s.released.len() ==> (#[trigger] s.released[k]).0 == k
    &&& s.released.len() + s.pending.len() == s.processed
}

proof fn lemma_insert_new_len(p: Seq<(usize, FileRecord)>, i: usize, r: FileRecord)
    requires
        find_pending(p, i as nat) < 0,
    ensures
        insert_pending(p, i, r).len() == p.len() + 1,
    decreases p.len(),
{
    if p.len() > 0 {
        assert(p[0].0 != i);
        if p[0].0 < i {
            lemma_insert_new_len(p.drop_first(), i, r);
        }
    }
}

/// An index that some entry bears is found.
pub proof fn lemma_find_exists(p: Seq<(usize, FileRecord)>, x: nat, b: int)
    requires
        0 <= b < p.len(),
        p[b].0 == x,
    ensures
        find_pending(p, x) >= 0,
    decreases b,
{
    if p[0].0 != x {
        let rest = p.drop_first();
        assert(rest[b - 1] == p[b]);
        lemma_find_exists(rest, x, b - 1);
    }
}

proof fn lemma_insert_has(p: Seq<(usize, FileRecord)>, i: usize, r: FileRecord, x: nat)
    requires
        find_pending(insert_pending(p, i, r), x) >= 0,
    ensures
        x == i || find_pending(p, x) >= 0,
    decreases p.len(),
{
    let q = insert_pending(p, i, r);
    if x == i {
    } else if p.len() == 0 {
        assert(q[0].0 == i);
        assert(q.drop_first() =~= Seq::<(usize, FileRecord)>::empty());
        assert(find_pending(q.drop_first(), x) == -1);
    } else if p[0].0 == i {
        assert(q[0].0 == i);
        assert(q.drop_first() =~= p.drop_first());
        assert(find_pending(p.drop_first(), x) >= 0);
    } else if p[0].0 > i {
        assert(q[0].0 == i);
        assert(q.drop_first() =~= p);
    } else {
        assert(q[0] == p[0]);
        if p[0].0 != x {
            assert(q.drop_first() =~= insert_pending(p.drop_first(), i, r));
            assert(find_pending(q.drop_first(), x) >= 0);
            lemma_insert_has(p.drop_first(), i, r, x);
            assert(find_pending(p.drop_first(), x) >= 0);
        }
    }
}

proof fn lemma_remove_has(p: Seq<(usize, FileRecord)>, j: int, x: nat)
    requires
        0 <= j < p.len(),
        find_pending(p.remove(j), x) >= 0,
    ensures
        find_pending(p, x) >= 0,
{
    let q = p.remove(j);
    lemma_find_range(q, x);
    let a = find_pending(q, x);
    let b = if a < j { a } else { a + 1 };
    assert(q[a] == p[b]);
    lemma_find_exists(p, x, b);
}

proof fn lemma_drain_gapless(s: AggState)
    requires
        gapless(s),
    ensures
        gapless(drain(s)),
        forall|x: nat| #[trigger] holds_index(drain(s), x) ==> holds_index(s, x),
    decreases s.pending.len(),
{
    let j = find_pending(s.pending, s.next_index);
    lemma_find_range(s.pending, s.next_index);
    lemma_drain_order(s);
    if j >= 0 {
        let p = s.pending;
        let q = p.remove(j);
        let before = AggState { pending: q, next_index: s.next_index + 1, ..s };
        let next = release(before, p[j].0 as nat, p[j].1);
        assert(next.pending == q);
        assert(next.next_index == s.next_index + 1);
        assert(next.released == s.released.push((p[j].0 as nat, p[j].1)));
        assert(in_order(next)) by {
            assert forall|a: int, b: int| 0 <= a < b < q.len() implies q[a].0 < q[b].0 by {
                let a0 = if a < j { a } else { a + 1 };
                let b0 = if b < j { b } else { b + 1 };
                assert(q[a] == p[a0] && q[b] == p[b0]);
            }
            assert forall|a: int| 0 <= a < q.len() implies (#[trigger] q[a]).0
                >= next.next_index by {
                let a0 = if a < j { a } else { a + 1 };
                assert(q[a] == p[a0]);
                assert(p[a0].0 >= s.next_index);
                if a0 < j {
                    assert(p[a0].0 < p[j].0);
                } else {
                    assert(p[j].0 < p[a0].0);
                }
            }
            assert forall|a: int, b: int| 0 <= a < b < next.released.len() implies next.released[a].0
                < next.released[b].0 by {
                if b < s.released.len() {
                } else {
                    assert(next.released[a] == s.released[a]);
                    assert(s.released[a].0 < s.next_index);
                }
            }
            assert forall|k: int| 0 <= k < next.released.len() implies (
            #[trigger] next.released[k]).0 < next.next_index by {
                if k < s.released.len() {
                    assert(next.released[k] == s.released[k]);
                }
            }
        }
        assert forall|k: int| 0 <= k < next.released.len() implies (#[trigger] next.released[k]).0
            == k by {
            if k < s.released.len() {
                assert(next.released[k] == s.released[k]);
            }
        }
        assert(next.processed == s.processed);
        assert(next.released.len() + next.pending.len() == next.processed);
        lemma_drain_gapless(next);
        assert forall|x: nat| #[trigger] holds_index(drain(s), x) implies holds_index(s, x) by {
            assert(holds_index(next, x));
            if x < next.next_index {
                if x == s.next_index {
                    assert(find_pending(p, x) >= 0);
                }
            } else {
                lemma_remove_has(p, j, x);
            }
        }
    }
}

/// A record that arrives under an index that the state does not hold yet
/// keeps a gapless state gapless, and afterwards the state holds that index
/// and no other new one.
pub proof fn lemma_accept_keeps_gapless(s: AggState, index: usize, r: FileRecord)
    requires
        gapless(s),
        !holds_index(s, index as nat),
    ensures
        gapless(accepted(s, index, r)),
        forall|x: nat|
            #[trigger] holds_index(accepted(s, index, r), x) ==> x == index || holds_index(s, x),
{
    let c = counted(s, r);
    let filed = AggState { pending: insert_pending(c.pending, index, r), ..c };
    lemma_insert_order(c.pending, index, r, s.next_index);
    lemma_insert_new_len(c.pending, index, r);
    assert(c.processed == s.processed + 1);
    assert(gapless(filed));
    lemma_drain_gapless(filed);
    assert forall|x: nat| #[trigger] holds_index(accepted(s, index, r), x) implies x == index
        || holds_index(s, x) by {
        assert(holds_index(filed, x));
        if x >= filed.next_index {
            lemma_insert_has(c.pending, index, r, x);
        }
    }
}

/// Whether a list of records under their indices holds a given record under
/// a given index.
pub open spec fn has_pair(p: Seq<(usize, FileRecord)>, index: nat, r: FileRecord) -> bool {
    exists|a: int| 0 <= a < p.len() && (#[trigger] p[a]).0 == index && p[a].1 == r
}

/// Whether a release history holds a given record under a given index.
pub open spec fn was_released(released: Seq<(nat, FileRecord)>, index: nat, r: FileRecord) -> bool {
    exists|k: int| 0 <= k < released.len() && (#[trigger] released[k]).0 == index && released[k].1 == r
}

/// Whether a state holds a given record under a given index, released or
/// pending.
pub open spec fn holds_record(s: AggState, index: nat, r: FileRecord) -> bool {
    was_released(s.released, index, r) || has_pair(s.pending, index, r)
}

/// Every entry after a filing is the record filed or was an entry before.
pub proof fn lemma_insert_member(p: Seq<(usize, FileRecord)>, i: usize, r: FileRecord, a: int)
    requires
        0 <= a < insert_pending(p, i, r).len(),
    ensures
        (insert_pending(p, i, r)[a].0 == i && insert_pending(p, i, r)[a].1 == r) || has_pair(
            p,
            insert_pending(p, i, r)[a].0 as nat,
            insert_pending(p, i, r)[a].1,
        ),
    decreases p.len(),
{
    let q = insert_pending(p, i, r);
    if p.len() == 0 {
    } else if p[0].0 == i {
        if a > 0 {
            assert(q[a] == p[a]);
        }
    } else if p[0].0 > i {
        if a > 0 {
            assert(q[a] == p[a - 1]);
        }
    } else {
        if a == 0 {
            assert(q[0] == p[0]);
        } else {
            let rest = p.drop_first();
            let tail = insert_pending(rest, i, r);
            assert(q[a] == tail[a - 1]);
            lemma_insert_member(rest, i, r, a - 1);
            if !(tail[a - 1].0 == i && tail[a - 1].1 == r) {
                let b = choose|b: int|
                    0 <= b < rest.len() && (#[trigger] rest[b]).0 == tail[a - 1].0 && rest[b].1
                        == tail[a - 1].1;
                assert(p[b + 1] == rest[b]);
            }
        }
    }
}

/// Filing a record keeps every entry of another index and holds the record
/// filed.
pub proof fn lemma_insert_keeps_pairs(
    p: Seq<(usize, FileRecord)>,
    i: usize,
    r: FileRecord,
    xi: nat,
    xr: FileRecord,
)
    requires
        (xi == i && xr == r) || (has_pair(p, xi, xr) && xi != i),
    ensures
        has_pair(insert_pending(p, i, r), xi, xr),
    decreases p.len(),
{
    let q = insert_pending(p, i, r);
    if xi == i && xr == r {
        if p.len() == 0 || p[0].0 >= i {
            assert(q[0].0 == i && q[0].1 == r);
        } else {
            let rest = p.drop_first();
            lemma_insert_keeps_pairs(rest, i, r, xi, xr);
            let tail = insert_pending(rest, i, r);
            let a = choose|a: int| 0 <= a < tail.len() && (#[trigger] tail[a]).0 == xi && tail[a].1 == xr;
            assert(q[a + 1] == tail[a]);
        }
    } else {
        let b = choose|b: int| 0 <= b < p.len() && (#[trigger] p[b]).0 == xi && p[b].1 == xr;
        if p[0].0 == i {
            assert(b > 0);
            assert(q[b] == p[b]);
        } else if p[0].0 > i {
            assert(q[b + 1] == p[b]);
        } else if b == 0 {
            assert(q[0] == p[0]);
        } else {
            let rest = p.drop_first();
            assert(rest[b - 1] == p[b]);
            lemma_insert_keeps_pairs(rest, i, r, xi, xr);
            let tail = insert_pending(rest, i, r);
            let a = choose|a: int| 0 <= a < tail.len() && (#[trigger] tail[a]).0 == xi && tail[a].1 == xr;
            assert(q[a + 1] == tail[a]);
        }
    }
}

proof fn lemma_move_pair(
    released: Seq<(nat, FileRecord)>,
    p: Seq<(usize, FileRecord)>,
    j: int,
    xi: nat,
    xr: FileRecord,
)
    requires
        0 <= j < p.len(),
    ensures
        (was_released(released.push((p[j].0 as nat, p[j].1)), xi, xr) || has_pair(p.remove(j), xi, xr))
            == (was_released(released, xi, xr) || has_pair(p, xi, xr)),
{
    let after = released.push((p[j].0 as nat, p[j].1));
    let q = p.remove(j);
    if was_released(after, xi, xr) {
        let k = choose|k: int| 0 <= k < after.len() && (#[trigger] after[k]).0 == xi && after[k].1 == xr;
        if k < released.len() {
            assert(released[k] == after[k]);
        } else {
            assert(p[j].0 == xi && p[j].1 == xr);
        }
    }
    if has_pair(q, xi, xr) {
        let a = choose|a: int| 0 <= a < q.len() && (#[trigger] q[a]).0 == xi && q[a].1 == xr;
        let b = if a < j { a } else { a + 1 };
        assert(q[a] == p[b]);
    }
    if was_released(released, xi, xr) {
        let k = choose|k: int|
            0 <= k < released.len() && (#[trigger] released[k]).0 == xi && released[k].1 == xr;
        assert(after[k] == released[k]);
    }
    if has_pair(p, xi, xr) {
        let b = choose|b: int| 0 <= b < p.len() && (#[trigger] p[b]).0 == xi && p[b].1 == xr;
        if b == j {
            assert(after[released.len() as int].0 == xi && after[released.len() as int].1 == xr);
        } else {
            let a = if b < j { b } else { b - 1 };
            assert(q[a] == p[b]);
        }
    }
}

proof fn lemma_drain_pairs(s: AggState, xi: nat, xr: FileRecord)
    ensures
        holds_record(drain(s), xi, xr) == holds_record(s, xi, xr),
    decreases s.pending.len(),
{
    let j = find_pending(s.pending, s.next_index);
    lemma_find_range(s.pending, s.next_index);
    if j >= 0 {
        let before = AggState { pending: s.pending.remove(j), next_index: s.next_index + 1, ..s };
        let next = release(before, s.pending[j].0 as nat, s.pending[j].1);
        assert(next.pending == s.pending.remove(j));
        assert(next.released == s.released.push((s.pending[j].0 as nat, s.pending[j].1)));
        lemma_move_pair(s.released, s.pending, j, xi, xr);
        lemma_drain_pairs(next, xi, xr);
    }
}

proof fn lemma_flush_pairs(s: AggState, xi: nat, xr: FileRecord)
    ensures
        was_released(flush(s).released, xi, xr) == holds_record(s, xi, xr),
    decreases s.pending.len(),
{
    if s.pending.len() > 0 {
        let before = AggState { pending: s.pending.drop_first(), ..s };
        let next = release(before, s.pending[0].0 as nat, s.pending[0].1);
        assert(s.pending.drop_first() =~= s.pending.remove(0));
        assert(next.pending == s.pending.remove(0));
        assert(next.released == s.released.push((s.pending[0].0 as nat, s.pending[0].1)));
        lemma_move_pair(s.released, s.pending, 0, xi, xr);
        lemma_flush_pairs(next, xi, xr);
    }
}

/// Nothing is lost and nothing is made up when a record is taken in under
/// an index that the state does not hold yet: afterwards the state holds
/// that record under that index, and besides it exactly what it held.
pub proof fn lemma_accept_keeps_records(
    s: AggState,
    index: usize,
    r: FileRecord,
    xi: nat,
    xr: FileRecord,
)
    requires
        !holds_index(s, index as nat),
    ensures
        holds_record(accepted(s, index, r), xi, xr) == ((xi == index && xr == r) || holds_record(
            s,
            xi,
            xr,
        )),
{
    let c = counted(s, r);
    let filed = AggState { pending: insert_pending(c.pending, index, r), ..c };
    assert(c.pending == s.pending && c.released == s.released);
    lemma_drain_pairs(filed, xi, xr);
    let q = filed.pending;
    if has_pair(q, xi, xr) {
        let a = choose|a: int| 0 <= a < q.len() && (#[trigger] q[a]).0 == xi && q[a].1 == xr;
        lemma_insert_member(s.pending, index, r, a);
    }
    if has_pair(s.pending, xi, xr) {
        let b = choose|b: int|
            0 <= b < s.pending.len() && (#[trigger] s.pending[b]).0 == xi && s.pending[b].1 == xr;
        if xi == index {
            lemma_find_exists(s.pending, index as nat, b);
        }
        lemma_insert_keeps_pairs(s.pending, index, r, xi, xr);
    }
    if xi == index && xr == r {
        lemma_insert_keeps_pairs(s.pending, index, r, xi, xr);
    }
}

/// At the end of a run everything that the state held was released, and
/// nothing else.
pub proof fn lemma_finish_releases_records(s: AggState, xi: nat, xr: FileRecord)
    ensures
        was_released(finished(s).released, xi, xr) == holds_record(s, xi, xr),
{
    lemma_flush_pairs(s, xi, xr);
}

/// Order is kept: where a state is in order and a record arrives under an
/// index that was not released yet, the state after it is in order again,
/// so the consumer gets records in strictly rising submission order
/// whatever the order of their arrival.
pub proof fn lemma_accept_keeps_order(s: AggState, index: usize, r: FileRecord)
    requires
        in_order(s),
        index >= s.next_index,
    ensures
        in_order(accepted(s, index, r)),
{
    let c = counted(s, r);
    lemma_insert_order(c.pending, index, r, s.next_index);
    lemma_drain_order(AggState { pending: insert_pending(c.pending, index, r), ..c });
}

/// Order is kept to the end: the records of a run that was in order, the
/// flushed ones included, rise strictly in submission index.
pub proof fn lemma_finish_keeps_order(s: AggState)
    requires
        in_order(s),
    ensures
        increasing(finished(s).released),
        well_formed(s) ==> delivered(finished(s)) == records_of(finished(s).released),
{
    assert(flush_ordered(s)) by {
        assert forall|k: int, a: int|
            0 <= k < s.released.len() && 0 <= a < s.pending.len() implies (
        #[trigger] s.released[k]).0 < (#[trigger] s.pending[a]).0 by {
            assert(s.released[k].0 < s.next_index);
            assert(s.pending[a].0 >= s.next_index);
        }
    }
    lemma_flush_order(s);
    if well_formed(s) {
        lemma_flush_delivery(s);
        let f = flush(s);
        if f.chunk.len() > 0 {
            assert(f.batches.push(f.chunk).drop_last() =~= f.batches);
            assert(delivered(finished(s)) =~= delivered(f));
        }
    }
}

/// A run that is cancelled before it takes in anything emits no batch, and
/// its summary reports no processed and no failed file.
pub proof fn lemma_cancelled_before_start(
    chunk_size: nat,
    root: Seq<char>,
    walker_included: nat,
    walker_excluded: nat,
    hashing: bool,
)
    requires
        chunk_size >= 1,
    ensures
        finished(initial(chunk_size, root, walker_included, walker_excluded)).batches == Seq::<
            Seq<FileRecord>,
        >::empty(),
        summary_of(
            finished(initial(chunk_size, root, walker_included, walker_excluded)),
            true,
            hashing,
        ).stopped_early,
        summary_of(
            finished(initial(chunk_size, root, walker_included, walker_excluded)),
            true,
            hashing,
        ).processed_files == 0,
        summary_of(
            finished(initial(chunk_size, root, walker_included, walker_excluded)),
            true,
            hashing,
        ).failed_files == Seq::<(Seq<char>, Seq<char>)>::empty(),
        in_order(initial(chunk_size, root, walker_included, walker_excluded)),
{
}

/// The counters of a summary are the walker's: the included and the
/// excluded files as it counted them, and their sum. Every record taken in
/// was processed; where no more records came than the walker listed, no
/// more were processed than the total and the failed files together.
pub proof fn lemma_summary_adds_up(s: AggState, stopped_early: bool, hashing: bool)
    requires
        well_formed(s),
    ensures
        summary_of(finished(s), stopped_early, hashing).included_files == s.walker_included,
        summary_of(finished(s), stopped_early, hashing).excluded_files == s.walker_excluded,
        summary_of(finished(s), stopped_early, hashing).total_files == s.walker_included
            + s.walker_excluded,
        summary_of(finished(s), stopped_early, hashing).processed_files == s.processed,
        summary_of(finished(s), stopped_early, hashing).failed_files == s.failed,
        s.processed <= s.walker_included ==> summary_of(
            finished(s),
            stopped_early,
            hashing,
        ).processed_files <= summary_of(finished(s), stopped_early, hashing).total_files
            + summary_of(finished(s), stopped_early, hashing).failed_files.len(),
{
    lemma_flush_props(s);
}

/// Taking in a record keeps a state well formed: a batch under construction
/// is never full, nothing that is next in line stays pending, and every
/// record is counted exactly once, as included, excluded or failed.
pub proof fn lemma_accept_keeps_well_formed(s: AggState, index: usize, r: FileRecord)
    requires
        well_formed(s),
        has_room(s),
    ensures
        well_formed(accepted(s, index, r)),
        accepted(s, index, r).processed == s.processed + 1,
{
    let c = counted(s, r);
    lemma_insert_len(c.pending, index, r);
    lemma_drain_props(AggState { pending: insert_pending(c.pending, index, r), ..c });
    lemma_drain_delivery(AggState { pending: insert_pending(c.pending, index, r), ..c });
}

/// Taking in a record changes neither the batch size nor the root nor the
/// walker's count.
pub proof fn lemma_accept_keeps_counts(s: AggState, index: usize, r: FileRecord)
    requires
        well_formed(s),
    ensures
        accepted(s, index, r).chunk_size == s.chunk_size,
        accepted(s, index, r).root == s.root,
        accepted(s, index, r).walker_included == s.walker_included,
        accepted(s, index, r).walker_excluded == s.walker_excluded,
{
    let c = counted(s, r);
    lemma_drain_props(AggState { pending: insert_pending(c.pending, index, r), ..c });
}

/// The aggregator of a run.
pub struct Aggregator {
    chunk_size: usize,
    hashing: bool,
    root: String,
    walker_included: usize,
    walker_excluded: usize,
    next_index: usize,
    pending: PendingRecords,
    chunk: Vec<FileRecord>,
    processed: usize,
    failed: Vec<FailedFile>,
    batches: Ghost<Seq<Seq<FileRecord>>>,
    released: Ghost<Seq<(nat, FileRecord)>>,
}

impl Aggregator {
    /// The state as a mathematical value.
    pub closed spec fn state(&self) -> AggState {
        AggState {
            chunk_size: self.chunk_size as nat,
            root: self.root@,
            walker_included: self.walker_included as nat,
            walker_excluded: self.walker_excluded as nat,
            next_index: self.next_index as nat,
            pending: self.pending@,
            chunk: self.chunk@,
            batches: self.batches@,
            released: self.released@,
            processed: self.processed as nat,
            failed: failed_views(self.failed@),
        }
    }

    /// Whether the run hashes.
    pub closed spec fn hashing(&self) -> bool {
        self.hashing
    }

    /// Whether the reorder buffer holds what the state says is pending.
    pub closed spec fn consistent(&self) -> bool {
        self.pending.consistent()
    }

    /// Whether the counters have room for one more record.
    pub open spec fn has_room(&self) -> bool {
        has_room(self.state())
    }

    /// Whether the counters have room for one more record.
    pub fn room_left(&self) -> (b: bool)
        ensures
            b == self.has_room(),
    {
        self.processed < usize::MAX
    }

    /// An aggregator that has taken in nothing, for a run in which the
    /// walker listed `included` files and left out `excluded`. A batch size
    /// of zero counts as one.
    pub fn new(chunk_size: usize, hashing: bool, root: &str, included: usize, excluded: usize) -> (a:
        Self)
        requires
            included + excluded <= usize::MAX,
        ensures
            a.state() == initial(
                if chunk_size == 0 {
                    1nat
                } else {
                    chunk_size as nat
                },
                root@,
                included as nat,
                excluded as nat,
            ),
            a.hashing() == hashing,
            well_formed(a.state()),
            a.consistent(),
    {
        let a = Aggregator {
            chunk_size: if chunk_size == 0 {
                1
            } else {
                chunk_size
            },
            hashing,
            root: String::from_str(root),
            walker_included: included,
            walker_excluded: excluded,
            next_index: 0,
            pending: PendingRecords::new(),
            chunk: Vec::new(),
            processed: 0,
            failed: Vec::new(),
            batches: Ghost(Seq::empty()),
            released: Ghost(Seq::empty()),
        };
        assert(failed_views(a.failed@) =~= Seq::empty());
        assert(delivered(a.state()) =~= records_of(a.state().released));
        assert(full_batches(a.state()));
        a
    }

    fn release_record(
        &mut self,
        index: usize,
        r: FileRecord,
        out: &mut Vec<Vec<FileRecord>>,
        Ghost(base): Ghost<Seq<Seq<FileRecord>>>,
    )
        requires
            old(self).chunk_size >= 1,
            old(self).chunk.len() < old(self).chunk_size,
            old(self).state().batches == base + batch_views(old(out)@),
        ensures
            final(self).state() == release(old(self).state(), index as nat, r),
            final(self).state().batches == base + batch_views(final(out)@),
            final(self).chunk.len() < final(self).chunk_size,
            final(self).hashing == old(self).hashing,
            final(self).pending == old(self).pending,
    {
        self.released = Ghost(self.released@.push((index as nat, r)));
        self.chunk.push(r);
        if self.chunk.len() >= self.chunk_size {
            let mut full: Vec<FileRecord> = Vec::new();
            core::mem::swap(&mut full, &mut self.chunk);
            self.batches = Ghost(self.batches@.push(full@));
            out.push(full);
            assert(batch_views(out@) =~= batch_views(old(out)@).push(full@));
            assert(base + batch_views(out@) =~= (base + batch_views(old(out)@)).push(full@));
        }
    }

    fn file_pending(&mut self, index: usize, r: FileRecord)
        requires
            old(self).pending.consistent(),
        ensures
            final(self).state() == (AggState {
                pending: insert_pending(old(self).pending@, index, r),
                ..old(self).state()
            }),
            final(self).pending.consistent(),
            final(self).hashing == old(self).hashing,
    {
        self.pending.insert(index, r);
    }

    fn count_record(&mut self, r: &FileRecord)
        requires
            old(self).processed < usize::MAX,
        ensures
            final(self).state() == counted(old(self).state(), *r),
            final(self).hashing == old(self).hashing,
            final(self).pending == old(self).pending,
    {
        self.processed = self.processed + 1;
        match &r.info {
            FileInfo::Error { content, .. } => {
                let inner = join(r.parent.as_str(), r.filename.as_str());
                let file = join(self.root.as_str(), inner.as_str());
                let ghost before = self.failed@;
                let entry = FailedFile { file, error: content.clone() };
                self.failed.push(entry);
                assert(failed_views(self.failed@) =~= failed_views(before).push(
                    (failed_path(self.root@, r.parent@, r.filename@), content@),
                ));
            },
            _ => {},
        }
    }

    fn drain_ready(&mut self, out: &mut Vec<Vec<FileRecord>>, Ghost(base): Ghost<Seq<Seq<FileRecord>>>)
        requires
            old(self).chunk_size >= 1,
            old(self).chunk.len() < old(self).chunk_size,
            old(self).next_index + old(self).pending@.len() <= usize::MAX,
            old(self).state().batches == base + batch_views(old(out)@),
            old(self).pending.consistent(),
        ensures
            final(self).state() == drain(old(self).state()),
            final(self).state().batches == base + batch_views(final(out)@),
            final(self).chunk.len() < final(self).chunk_size,
            final(self).hashing == old(self).hashing,
            final(self).pending.consistent(),
    {
        loop
            invariant
                self.chunk_size >= 1,
                self.chunk.len() < self.chunk_size,
                self.next_index + self.pending@.len() <= usize::MAX,
                drain(self.state()) == drain(old(self).state()),
                self.state().batches == base + batch_views(out@),
                self.hashing == old(self).hashing,
                self.pending.consistent(),
            ensures
                self.state() == drain(old(self).state()),
                self.state().batches == base + batch_views(out@),
                self.chunk.len() < self.chunk_size,
                self.hashing == old(self).hashing,
                self.pending.consistent(),
            decreases self.pending@.len(),
        {
            proof {
                lemma_find_range(self.pending@, self.next_index as nat);
            }
            let index = self.next_index;
            match self.pending.take(index) {
                None => {
                    break ;
                },
                Some(r) => {
                    self.next_index = self.next_index + 1;
                    self.release_record(index, r, out, Ghost(base));
                },
            }
        }
    }

    /// Takes in the record that arrived under a submission index. Returns
    /// the batches that this arrival completed, in order.
    pub fn accept(&mut self, index: usize, record: FileRecord) -> (out: Vec<Vec<FileRecord>>)
        requires
            well_formed(old(self).state()),
            old(self).consistent(),
            old(self).has_room(),
        ensures
            final(self).state() == accepted(old(self).state(), index, record),
            final(self).state().batches == old(self).state().batches + batch_views(out@),
            well_formed(final(self).state()),
            final(self).consistent(),
            final(self).hashing() == old(self).hashing(),
    {
        let mut out: Vec<Vec<FileRecord>> = Vec::new();
        let ghost base = self.batches@;
        assert(base + batch_views(out@) =~= base);
        proof {
            lemma_accept_keeps_well_formed(old(self).state(), index, record);
            lemma_insert_len(self.pending@, index, record);
        }
        let ghost waiting = self.pending;
        self.count_record(&record);
        assert(self.pending == waiting);
        self.file_pending(index, record);
        self.drain_ready(&mut out, Ghost(base));
        out
    }

    /// Ends the run: releases what is pending in index order, emits the last
    /// batch and draws the summary. Returns the batches that were still
    /// owed, then the summary.
    pub fn finish(self, stopped_early: bool) -> (out: (Vec<Vec<FileRecord>>, Summary))
        requires
            well_formed(self.state()),
            self.consistent(),
        ensures
            finished(self.state()).batches == self.state().batches + batch_views(out.0@),
            out.1@ == summary_of(finished(self.state()), stopped_early, self.hashing()),
            out.1@.total_files == out.1@.included_files + out.1@.excluded_files,
            out.1@.processed_files <= out.1@.included_files ==> out.1@.processed_files
                <= out.1@.total_files + out.1@.failed_files.len(),
    {
        let mut me = self;
        let mut out: Vec<Vec<FileRecord>> = Vec::new();
        let ghost base = me.batches@;
        assert(base + batch_views(out@) =~= base);
        let mut waiting = PendingRecords::new();
        core::mem::swap(&mut waiting, &mut me.pending);
        let rest = waiting.into_sorted();
        let ghost all = rest@;
        assert(all.skip(0) =~= all);
        assert(me.state() == (AggState { pending: Seq::empty(), ..self.state() }));
        for entry in it: rest
            invariant
                it.seq() == all,
                me.chunk_size >= 1,
                me.chunk.len() < me.chunk_size,
                me.pending@ == Seq::<(usize, FileRecord)>::empty(),
                flush(AggState { pending: all.skip(it.index() as int), ..me.state() }) == flush(
                    self.state(),
                ),
                me.state().batches == base + batch_views(out@),
                me.hashing == self.hashing,
        {
            let ghost i = it.index() as int;
            let ghost before = me.state();
            proof {
                assert(all.skip(i).drop_first() =~= all.skip(i + 1));
                assert(all.skip(i)[0] == all[i]);
            }
            let (index, r) = entry;
            me.release_record(index, r, &mut out, Ghost(base));
            proof {
                assert((AggState { pending: all.skip(i + 1), ..me.state() }) == release(
                    AggState { pending: all.skip(i + 1), ..before },
                    index as nat,
                    r,
                ));
            }
        }
        proof {
            assert(all.skip(all.len() as int) =~= Seq::<(usize, FileRecord)>::empty());
            assert((AggState { pending: all.skip(all.len() as int), ..me.state() }) == me.state());
        }
        if me.chunk.len() > 0 {
            let mut last: Vec<FileRecord> = Vec::new();
            core::mem::swap(&mut last, &mut me.chunk);
            me.batches = Ghost(me.batches@.push(last@));
            let ghost prev = out@;
            out.push(last);
            assert(batch_views(out@) =~= batch_views(prev).push(last@));
            assert(base + batch_views(out@) =~= (base + batch_views(prev)).push(last@));
        }
        proof {
            lemma_flush_props(self.state());
        }
        let summary = Summary {
            total_files: me.walker_included + me.walker_excluded,
            excluded_files: me.walker_excluded,
            included_files: me.walker_included,
            processed_files: me.processed,
            failed_files: me.failed,
            stopped_early,
            hash_algorithm: if me.hashing {
                Some(String::from_str("xxhash"))
            } else {
                None
            },
        };
        (out, summary)
    }
}

} // verus!
