//! The messages of a run, the decisions of its workers and of the consumer's
//! iterator, and the aggregation of a complete sequence of arrivals.
use vstd::prelude::*;
use vstd::string::*;
use crate::aggregate::{
    accepted, delivered, finished, flat, gapless, has_pair, holds_index, holds_record,
    increasing, initial, lemma_accept_keeps_gapless, lemma_accept_keeps_records,
    lemma_accept_keeps_well_formed, lemma_finish_keeps_order, lemma_finish_releases_records,
    lemma_finished_batches, lemma_summary_adds_up, records_of, summary_of, was_released,
    well_formed, AggState,
    Aggregator, Summary, SummaryModel,
};
use crate::errors::{ErrorModel, NativeError};
use crate::options::TraversalOptions;
use crate::record::FileRecord;

verus! {

/// What a run sends to its consumer.
#[derive(Debug)]
pub enum TraversalMessage {
    /// A batch of records, in submission order.
    Entries(Vec<FileRecord>),
    /// The closing summary.
    Summary(Summary),
    /// The run failed.
    Error(NativeError),
}

/// Slots of a hand-off queue per unit of work.
pub const QUEUE_FACTOR: usize = 4;

/// The capacity of a hand-off queue for a number of units: four slots per
/// unit, for at least one unit, as far as a machine word reaches.
pub open spec fn queue_capacity(units: usize) -> int {
    let n = if units < 1 {
        1
    } else {
        units as int
    };
    if n * QUEUE_FACTOR > usize::MAX {
        usize::MAX as int
    } else {
        n * QUEUE_FACTOR
    }
}

/// The capacity of the queue of batches for a batch size, and of the queue
/// of records for a number of workers.
pub fn channel_capacity(units: usize) -> (c: usize)
    ensures
        c == queue_capacity(units),
        c >= 1,
{
    let n = if units < 1 {
        1
    } else {
        units
    };
    if n > usize::MAX / QUEUE_FACTOR {
        usize::MAX
    } else {
        n * QUEUE_FACTOR
    }
}

/// What a worker does before it begins a file.
pub open spec fn worker_gate(flag_set: bool, token: Option<Result<bool, String>>) -> Result<
    bool,
    NativeError,
> {
    if flag_set {
        Ok(true)
    } else {
        match token {
            None => Ok(false),
            Some(Ok(b)) => Ok(b),
            Some(Err(m)) => Err(NativeError::Other(m)),
        }
    }
}

/// Decides whether a worker stops before a file: it stops where the shared
/// flag is set, and where the token of the host, if there is one, asks for
/// cancellation; an answer of `true` is to be recorded in the shared flag.
/// A token that fails fails the run.
pub fn check_cancellation(flag_set: bool, token: Option<Result<bool, String>>) -> (r: Result<
    bool,
    NativeError,
>)
    ensures
        r == worker_gate(flag_set, token),
{
    if flag_set {
        return Ok(true);
    }
    match token {
        None => Ok(false),
        Some(Ok(b)) => Ok(b),
        Some(Err(m)) => Err(NativeError::Other(m)),
    }
}

/// What a stage of a run does next: whether it raises the shared
/// cancellation flag, and whether it goes on (`Ok`) or ends.
pub struct StageStep {
    /// Whether the shared flag is to be set.
    pub raise_flag: bool,
    /// `Ok` to go on; the error with which the stage ends otherwise.
    pub outcome: Result<(), NativeError>,
}

/// What a worker does before a file, by its gate: it goes on where nothing
/// asks for cancellation; it ends as cancelled where the flag is set or the
/// token asks for it, and in the second case raises the flag for the others;
/// a token that fails ends it with that failure.
pub open spec fn worker_step(flag_set: bool, token: Option<Result<bool, String>>) -> StageStep {
    match worker_gate(flag_set, token) {
        Ok(false) => StageStep { raise_flag: false, outcome: Ok(()) },
        Ok(true) => StageStep { raise_flag: !flag_set, outcome: Err(NativeError::Cancelled) },
        Err(e) => StageStep { raise_flag: false, outcome: Err(e) },
    }
}

/// Decides what a worker does before it begins a file.
pub fn before_file(flag_set: bool, token: Option<Result<bool, String>>) -> (step: StageStep)
    ensures
        step == worker_step(flag_set, token),
{
    match check_cancellation(flag_set, token) {
        Ok(false) => StageStep { raise_flag: false, outcome: Ok(()) },
        Ok(true) => StageStep { raise_flag: !flag_set, outcome: Err(NativeError::Cancelled) },
        Err(e) => StageStep { raise_flag: false, outcome: Err(e) },
    }
}

/// What a stage does after it offered something to the next queue: it goes
/// on where the queue took it; where the queue is closed, because its reader
/// is gone, it raises the flag, sends nothing more and ends as cancelled.
pub open spec fn send_step(delivered: bool) -> StageStep {
    if delivered {
        StageStep { raise_flag: false, outcome: Ok(()) }
    } else {
        StageStep { raise_flag: true, outcome: Err(NativeError::Cancelled) }
    }
}

/// Decides what a stage does after a send.
pub fn after_send(delivered: bool) -> (step: StageStep)
    ensures
        step == send_step(delivered),
{
    if delivered {
        StageStep { raise_flag: false, outcome: Ok(()) }
    } else {
        StageStep { raise_flag: true, outcome: Err(NativeError::Cancelled) }
    }
}

/// How one stage of a run ended.
pub enum StageEnd {
    /// It ran to its end.
    Completed,
    /// It ended with an error, cancellation included.
    Failed(NativeError),
    /// Its thread panicked.
    Panicked,
}

/// The end of a run from the ends of its two stages: cancellation is no
/// failure, a panic is; a failure of the workers comes before one of the
/// aggregator.
pub open spec fn run_end(workers: StageEnd, aggregator: StageEnd) -> Result<(), ErrorModel> {
    match stage_failure(workers, "Traversal workers panicked"@) {
        Some(e) => Err(e),
        None => match stage_failure(aggregator, "Traversal aggregator panicked"@) {
            Some(e) => Err(e),
            None => Ok(()),
        },
    }
}

/// The failure that the end of a stage amounts to, if any.
pub open spec fn stage_failure(end: StageEnd, panic_text: Seq<char>) -> Option<ErrorModel> {
    match end {
        StageEnd::Completed => None,
        StageEnd::Failed(e) => if e is Cancelled {
            None
        } else {
            Some(e@)
        },
        StageEnd::Panicked => Some(ErrorModel::Other(panic_text)),
    }
}

/// Joins the ends of the worker stage and of the aggregator stage into the
/// end of the run. Cancellation is not an error. A panic is reported as an
/// error of its own.
pub fn traversal_worker(workers: StageEnd, aggregator: StageEnd) -> (r: Result<(), NativeError>)
    ensures
        match run_end(workers, aggregator) {
            Ok(_) => r is Ok,
            Err(m) => r matches Err(e) && e@ == m,
        },
{
    match workers {
        StageEnd::Failed(e) => {
            if !e.is_cancelled() {
                return Err(e);
            }
        },
        StageEnd::Panicked => {
            return Err(NativeError::Other(String::from_str("Traversal workers panicked")));
        },
        StageEnd::Completed => {},
    }
    match aggregator {
        StageEnd::Failed(e) => {
            if !e.is_cancelled() {
                return Err(e);
            }
            Ok(())
        },
        StageEnd::Panicked => Err(
            NativeError::Other(String::from_str("Traversal aggregator panicked")),
        ),
        StageEnd::Completed => Ok(()),
    }
}

/// What the consumer gets from one pull.
#[derive(Debug)]
pub enum StreamItem {
    /// The next batch.
    Entries(Vec<FileRecord>),
    /// The summary; nothing follows it.
    Summary(Summary),
}

/// The consumer's end of a run.
pub struct TraversalIterator {
    done: bool,
}

/// What a pull gives for what the queue delivered, `None` standing for a
/// queue that was closed: the item, an error, or the end of the stream; and
/// whether the stream is over afterwards.
pub open spec fn pulled(done: bool, event: Option<TraversalMessage>) -> (
    Result<Option<StreamItem>, NativeError>,
    bool,
) {
    if done {
        (Ok(None), true)
    } else {
        match event {
            Some(TraversalMessage::Entries(batch)) => (Ok(Some(StreamItem::Entries(batch))), false),
            Some(TraversalMessage::Summary(s)) => (Ok(Some(StreamItem::Summary(s))), true),
            Some(TraversalMessage::Error(e)) => (Err(e), false),
            None => (Ok(None), true),
        }
    }
}

impl TraversalIterator {
    /// Whether the stream is over.
    pub closed spec fn is_done(&self) -> bool {
        self.done
    }

    /// The consumer's end of a run that has delivered nothing yet.
    pub fn new() -> (it: Self)
        ensures
            !it.is_done(),
    {
        TraversalIterator { done: false }
    }

    /// Whether the stream is over, so that the queue need not be asked.
    pub fn finished(&self) -> (b: bool)
        ensures
            b == self.is_done(),
    {
        self.done
    }

    /// One pull: turns what the queue delivered into what the consumer
    /// gets. After the summary, and after the queue was closed, every pull
    /// gives the end of the stream.
    pub fn next(&mut self, event: Option<TraversalMessage>) -> (r: Result<
        Option<StreamItem>,
        NativeError,
    >)
        ensures
            r == pulled(old(self).is_done(), event).0,
            final(self).is_done() == pulled(old(self).is_done(), event).1,
    {
        if self.done {
            return Ok(None);
        }
        match event {
            Some(TraversalMessage::Entries(batch)) => Ok(Some(StreamItem::Entries(batch))),
            Some(TraversalMessage::Summary(s)) => {
                self.done = true;
                Ok(Some(StreamItem::Summary(s)))
            },
            Some(TraversalMessage::Error(e)) => Err(e),
            None => {
                self.done = true;
                Ok(None)
            },
        }
    }
}

/// Once the summary was pulled the stream is over: every later pull gives
/// the end of the stream, whatever the queue holds.
pub proof fn lemma_nothing_follows_summary(s: Summary, later: Option<TraversalMessage>)
    ensures
        pulled(false, Some(TraversalMessage::Summary(s))).1,
        pulled(true, later).0 == Ok::<Option<StreamItem>, NativeError>(None),
        pulled(true, later).1,
{
}

/// The state of an aggregator after a sequence of arrivals.
pub open spec fn run_state(start: AggState, arrivals: Seq<(usize, FileRecord)>) -> AggState
    decreases arrivals.len(),
{
    if arrivals.len() == 0 {
        start
    } else {
        accepted(run_state(start, arrivals.drop_last()), arrivals.last().0, arrivals.last().1)
    }
}

/// Whether a list of messages is the stream of a run: its batches in order,
/// then its summary and nothing else.
pub open spec fn is_stream_of(
    messages: Seq<TraversalMessage>,
    batches: Seq<Seq<FileRecord>>,
    summary: SummaryModel,
) -> bool {
    &&& messages.len() == batches.len() + 1
    &&& forall|i: int|
        0 <= i < batches.len() ==> (#[trigger] messages[i] matches TraversalMessage::Entries(b)
            && b@ == batches[i])
    &&& messages.last() matches TraversalMessage::Summary(s) && s@ == summary
}

proof fn lemma_run_well_formed(start: AggState, arrivals: Seq<(usize, FileRecord)>)
    requires
        well_formed(start),
        start.processed + arrivals.len() <= usize::MAX,
    ensures
        well_formed(run_state(start, arrivals)),
        run_state(start, arrivals).processed == start.processed + arrivals.len(),
        run_state(start, arrivals).walker_included == start.walker_included,
        run_state(start, arrivals).walker_excluded == start.walker_excluded,
    decreases arrivals.len(),
{
    if arrivals.len() > 0 {
        lemma_run_well_formed(start, arrivals.drop_last());
        let before = run_state(start, arrivals.drop_last());
        lemma_accept_keeps_well_formed(before, arrivals.last().0, arrivals.last().1);
        crate::aggregate::lemma_accept_keeps_counts(before, arrivals.last().0, arrivals.last().1);
    }
}

/// Whether no two arrivals bear the same submission index.
pub open spec fn distinct_indices(arrivals: Seq<(usize, FileRecord)>) -> bool {
    forall|a: int, b: int| 0 <= a < b < arrivals.len() ==> arrivals[a].0 != arrivals[b].0
}

/// Whether an index is among those of the arrivals.
pub open spec fn has_arrived(arrivals: Seq<(usize, FileRecord)>, x: nat) -> bool {
    exists|k: int| 0 <= k < arrivals.len() && (#[trigger] arrivals[k]).0 == x
}

proof fn lemma_run_gapless(start: AggState, arrivals: Seq<(usize, FileRecord)>)
    requires
        gapless(start),
        start.next_index == 0,
        start.pending.len() == 0,
        distinct_indices(arrivals),
    ensures
        gapless(run_state(start, arrivals)),
        forall|x: nat|
            #[trigger] holds_index(run_state(start, arrivals), x) ==> has_arrived(arrivals, x),
    decreases arrivals.len(),
{
    if arrivals.len() > 0 {
        let earlier = arrivals.drop_last();
        let last = arrivals.last();
        assert forall|a: int, b: int| 0 <= a < b < earlier.len() implies earlier[a].0
            != earlier[b].0 by {
            assert(earlier[a] == arrivals[a] && earlier[b] == arrivals[b]);
        }
        lemma_run_gapless(start, earlier);
        let before = run_state(start, earlier);
        if holds_index(before, last.0 as nat) {
            assert(has_arrived(earlier, last.0 as nat));
            let k = choose|k: int| 0 <= k < earlier.len() && (#[trigger] earlier[k]).0 == last.0;
            assert(earlier[k] == arrivals[k]);
            assert(false);
        }
        lemma_accept_keeps_gapless(before, last.0, last.1);
        assert forall|x: nat| #[trigger] holds_index(run_state(start, arrivals), x) implies has_arrived(
            arrivals,
            x,
        ) by {
            if x == last.0 {
                assert(arrivals[arrivals.len() - 1].0 == x);
            } else {
                assert(holds_index(before, x));
                let k = choose|k: int| 0 <= k < earlier.len() && (#[trigger] earlier[k]).0 == x;
                assert(arrivals[k] == earlier[k]);
            }
        }
    }
}

/// The order of a whole run: whatever the order in which the records of
/// distinct submission indices arrive, the consumer gets them in strictly
/// rising index order, and gets exactly the records that were released.
pub proof fn lemma_run_in_order(
    chunk_size: nat,
    root: Seq<char>,
    walker_included: nat,
    walker_excluded: nat,
    arrivals: Seq<(usize, FileRecord)>,
)
    requires
        chunk_size >= 1,
        arrivals.len() <= usize::MAX,
        walker_included + walker_excluded <= usize::MAX,
        distinct_indices(arrivals),
    ensures
        increasing(finished(run_state(initial(chunk_size, root, walker_included, walker_excluded), arrivals)).released),
        delivered(finished(run_state(initial(chunk_size, root, walker_included, walker_excluded), arrivals)))
            == records_of(
            finished(run_state(initial(chunk_size, root, walker_included, walker_excluded), arrivals)).released,
        ),
{
    let start = initial(chunk_size, root, walker_included, walker_excluded);
    assert(delivered(start) =~= records_of(start.released));
    lemma_run_gapless(start, arrivals);
    lemma_run_well_formed(start, arrivals);
    lemma_finish_keeps_order(run_state(start, arrivals));
}

/// The state in which a run ends that took in the given arrivals. A batch
/// size of zero counts as one.
pub open spec fn run_result(
    chunk_size: usize,
    root: Seq<char>,
    walker_included: usize,
    walker_excluded: usize,
    arrivals: Seq<(usize, FileRecord)>,
) -> AggState {
    finished(
        run_state(
            initial(
                if chunk_size == 0 {
                    1nat
                } else {
                    chunk_size as nat
                },
                root,
                walker_included as nat,
                walker_excluded as nat,
            ),
            arrivals,
        ),
    )
}

/// Whether the counters of a summary are those of a run of `taken` records
/// in which the walker listed `included` files and left out `excluded`:
/// the two counts stand as the walker gave them, the total is their sum,
/// and every record taken was processed. Where no more records were taken
/// than the walker listed, no more were processed than the total and the
/// failed files together.
pub open spec fn sums_add_up(s: SummaryModel, taken: nat, included: nat, excluded: nat) -> bool {
    &&& s.processed_files == taken
    &&& s.included_files == included
    &&& s.excluded_files == excluded
    &&& s.total_files == s.included_files + s.excluded_files
    &&& taken <= included ==> s.processed_files <= s.total_files + s.failed_files.len()
}

/// Whether a run that took in `taken` records of distinct indices ended as
/// it should: every record was released, in strictly rising index order;
/// the batches joined are the released records; every batch is full but for
/// a last one that holds what is left over.
pub open spec fn in_submission_order(e: AggState, taken: nat) -> bool {
    &&& increasing(e.released)
    &&& e.released.len() == taken
    &&& flat(e.batches) == records_of(e.released)
    &&& e.batches.len() == if taken % e.chunk_size == 0 {
        taken / e.chunk_size
    } else {
        taken / e.chunk_size + 1
    }
    &&& forall|i: int| 0 <= i < taken / e.chunk_size ==> (#[trigger] e.batches[i]).len() == e.chunk_size
    &&& taken % e.chunk_size != 0 ==> e.batches.last().len() == taken % e.chunk_size
}

proof fn lemma_run_records(
    start: AggState,
    arrivals: Seq<(usize, FileRecord)>,
    xi: nat,
    xr: FileRecord,
)
    requires
        gapless(start),
        start.next_index == 0,
        start.pending.len() == 0,
        distinct_indices(arrivals),
    ensures
        holds_record(run_state(start, arrivals), xi, xr) == has_pair(arrivals, xi, xr),
    decreases arrivals.len(),
{
    if arrivals.len() == 0 {
        assert(start.released.len() == 0);
    } else {
        let earlier = arrivals.drop_last();
        let last = arrivals.last();
        assert forall|a: int, b: int| 0 <= a < b < earlier.len() implies earlier[a].0
            != earlier[b].0 by {
            assert(earlier[a] == arrivals[a] && earlier[b] == arrivals[b]);
        }
        lemma_run_gapless(start, earlier);
        lemma_run_records(start, earlier, xi, xr);
        let before = run_state(start, earlier);
        if holds_index(before, last.0 as nat) {
            assert(has_arrived(earlier, last.0 as nat));
            let k = choose|k: int| 0 <= k < earlier.len() && (#[trigger] earlier[k]).0 == last.0;
            assert(earlier[k] == arrivals[k]);
            assert(false);
        }
        lemma_accept_keeps_records(before, last.0, last.1, xi, xr);
        if has_pair(earlier, xi, xr) {
            let a = choose|a: int|
                0 <= a < earlier.len() && (#[trigger] earlier[a]).0 == xi && earlier[a].1 == xr;
            assert(arrivals[a] == earlier[a]);
        }
        if has_pair(arrivals, xi, xr) {
            let a = choose|a: int|
                0 <= a < arrivals.len() && (#[trigger] arrivals[a]).0 == xi && arrivals[a].1 == xr;
            if a < earlier.len() {
                assert(earlier[a] == arrivals[a]);
            }
        }
        if xi == last.0 && xr == last.1 {
            assert(arrivals[arrivals.len() - 1] == last);
        }
    }
}

/// What is delivered is what arrived: in a run whose arrivals bear distinct
/// submission indices, a record was released under an index exactly where
/// it arrived under that index. With the order and the count of the
/// releases this fixes the stream: its k-th record is the one that arrived
/// under the k-th smallest index.
pub proof fn lemma_run_delivers_arrivals(
    chunk_size: nat,
    root: Seq<char>,
    walker_included: nat,
    walker_excluded: nat,
    arrivals: Seq<(usize, FileRecord)>,
    index: nat,
    record: FileRecord,
)
    requires
        chunk_size >= 1,
        distinct_indices(arrivals),
    ensures
        was_released(
            finished(
                run_state(initial(chunk_size, root, walker_included, walker_excluded), arrivals),
            ).released,
            index,
            record,
        ) == has_pair(arrivals, index, record),
{
    let start = initial(chunk_size, root, walker_included, walker_excluded);
    lemma_run_records(start, arrivals, index, record);
    lemma_finish_releases_records(run_state(start, arrivals), index, record);
}

/// The batches of a whole run: whatever the order in which the records of
/// distinct submission indices arrive, the consumer gets each of them once,
/// in strictly rising index order, in full batches and one last batch for
/// what is left over.
pub proof fn lemma_run_batches(
    chunk_size: nat,
    root: Seq<char>,
    walker_included: nat,
    walker_excluded: nat,
    arrivals: Seq<(usize, FileRecord)>,
)
    requires
        chunk_size >= 1,
        arrivals.len() <= usize::MAX,
        walker_included + walker_excluded <= usize::MAX,
        distinct_indices(arrivals),
    ensures
        in_submission_order(
            finished(run_state(initial(chunk_size, root, walker_included, walker_excluded), arrivals)),
            arrivals.len(),
        ),
{
    let start = initial(chunk_size, root, walker_included, walker_excluded);
    assert(delivered(start) =~= records_of(start.released));
    lemma_run_gapless(start, arrivals);
    lemma_run_well_formed(start, arrivals);
    let s = run_state(start, arrivals);
    lemma_run_keeps_size(start, arrivals);
    lemma_finish_keeps_order(s);
    lemma_finished_batches(s);
}

/// A run does not change its batch size.
pub proof fn lemma_run_keeps_size(start: AggState, arrivals: Seq<(usize, FileRecord)>)
    requires
        well_formed(start),
        start.processed + arrivals.len() <= usize::MAX,
    ensures
        run_state(start, arrivals).chunk_size == start.chunk_size,
        finished(run_state(start, arrivals)).chunk_size == start.chunk_size,
    decreases arrivals.len(),
{
    if arrivals.len() > 0 {
        lemma_run_keeps_size(start, arrivals.drop_last());
        lemma_run_well_formed(start, arrivals.drop_last());
        crate::aggregate::lemma_accept_keeps_counts(
            run_state(start, arrivals.drop_last()),
            arrivals.last().0,
            arrivals.last().1,
        );
    }
    lemma_run_well_formed(start, arrivals);
    crate::aggregate::lemma_finish_keeps_size(run_state(start, arrivals));
}

/// Aggregates a complete sequence of arrivals, each a record under its
/// submission index: the stream that a consumer of the run gets. Records
/// come in batches of the configured size, a last partial batch included,
/// in the order that the aggregator restores; the summary closes the
/// stream, and its counters add up. Where no two arrivals bear the same
/// index, every record is delivered once, in rising index order.
pub fn aggregate_entries(
    arrivals: Vec<(usize, FileRecord)>,
    options: &TraversalOptions,
    included: usize,
    excluded: usize,
    stopped_early: bool,
) -> (messages: Vec<TraversalMessage>)
    requires
        arrivals.len() < usize::MAX,
        included + excluded <= usize::MAX,
    ensures
        is_stream_of(
            messages@,
            run_result(options.chunk_size, options.root@, included, excluded, arrivals@).batches,
            summary_of(
                run_result(options.chunk_size, options.root@, included, excluded, arrivals@),
                stopped_early,
                options.hashing_enabled,
            ),
        ),
        sums_add_up(
            summary_of(
                run_result(options.chunk_size, options.root@, included, excluded, arrivals@),
                stopped_early,
                options.hashing_enabled,
            ),
            arrivals@.len(),
            included as nat,
            excluded as nat,
        ),
        run_result(options.chunk_size, options.root@, included, excluded, arrivals@).chunk_size
            == if options.chunk_size == 0 {
            1nat
        } else {
            options.chunk_size as nat
        },
        distinct_indices(arrivals@) ==> in_submission_order(
            run_result(options.chunk_size, options.root@, included, excluded, arrivals@),
            arrivals@.len(),
        ),
{
    let mut aggregator = Aggregator::new(
        options.chunk_size,
        options.hashing_enabled,
        options.root.as_str(),
        included,
        excluded,
    );
    let ghost start = aggregator.state();
    let mut messages: Vec<TraversalMessage> = Vec::new();
    let ghost all = arrivals@;
    for arrival in it: arrivals
        invariant
            it.seq() == all,
            all.len() < usize::MAX,
            start.walker_included == included,
            start.walker_excluded == excluded,
            start.processed == 0,
            well_formed(start),
            aggregator.state() == run_state(start, all.take(it.index() as int)),
            aggregator.consistent(),
            aggregator.hashing() == options.hashing_enabled,
            is_prefix_of(messages@, aggregator.state().batches),
    {
        let ghost i = it.index() as int;
        proof {
            lemma_run_well_formed(start, all.take(i));
            assert(all.take(i + 1).drop_last() == all.take(i));
            assert(all.take(i + 1).last() == all[i]);
        }
        let (index, record) = arrival;
        let out = aggregator.accept(index, record);
        append_batches(&mut messages, out, Ghost(aggregator.state().batches));
    }
    proof {
        assert(all.take(all.len() as int) == all);
        lemma_run_well_formed(start, all);
    }
    proof {
        lemma_run_keeps_size(start, all);
        lemma_summary_adds_up(aggregator.state(), stopped_early, options.hashing_enabled);
        if distinct_indices(all) {
            lemma_run_batches(
                start.chunk_size,
                options.root@,
                included as nat,
                excluded as nat,
                all,
            );
        }
    }
    let ghost target = finished(aggregator.state()).batches;
    let (out, summary) = aggregator.finish(stopped_early);
    append_batches(&mut messages, out, Ghost(target));
    let ghost prev = messages@;
    messages.push(TraversalMessage::Summary(summary));
    proof {
        assert forall|k: int| 0 <= k < target.len() implies (
        #[trigger] messages@[k] matches TraversalMessage::Entries(b) && b@ == target[k]) by {
            assert(messages@[k] == prev[k]);
        }
    }
    messages
}

/// Whether a list of messages holds exactly the given batches, in order.
pub open spec fn is_prefix_of(messages: Seq<TraversalMessage>, batches: Seq<Seq<FileRecord>>) -> bool {
    &&& messages.len() == batches.len()
    &&& forall|k: int|
        0 <= k < messages.len() ==> (#[trigger] messages[k] matches TraversalMessage::Entries(b)
            && b@ == batches[k])
}

fn append_batches(
    messages: &mut Vec<TraversalMessage>,
    out: Vec<Vec<FileRecord>>,
    Ghost(target): Ghost<Seq<Seq<FileRecord>>>,
)
    requires
        old(messages).len() + out.len() == target.len(),
        forall|k: int|
            0 <= k < old(messages).len() ==> (
            #[trigger] old(messages)@[k] matches TraversalMessage::Entries(b) && b@ == target[k]),
        forall|k: int| 0 <= k < out.len() ==> (#[trigger] out@[k])@ == target[old(messages).len() + k],
    ensures
        is_prefix_of(final(messages)@, target),
{
    let ghost base = messages@;
    let ghost emitted = out@;
    for batch in it: out
        invariant
            it.seq() == emitted,
            base.len() + emitted.len() == target.len(),
            messages.len() == base.len() + it.index(),
            forall|k: int| 0 <= k < emitted.len() ==> (#[trigger] emitted[k])@ == target[base.len() + k],
            forall|k: int|
                0 <= k < messages.len() ==> (#[trigger] messages@[k] matches TraversalMessage::Entries(
                    b,
                ) && b@ == target[k]),
    {
        let ghost prev = messages@;
        let ghost j = it.index() as int;
        assert(batch == emitted[j]);
        messages.push(TraversalMessage::Entries(batch));
        proof {
            assert forall|k: int| 0 <= k < messages.len() implies (
            #[trigger] messages@[k] matches TraversalMessage::Entries(b) && b@ == target[k]) by {
                if k < prev.len() {
                    assert(messages@[k] == prev[k]);
                }
            }
        }
    }
}

} // verus!
