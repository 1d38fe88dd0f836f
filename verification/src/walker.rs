//! The walker's decisions: which directories are entered, which files are
//! listed for inspection, and when the enumeration stops.
use vstd::prelude::*;
use vstd::string::*;
use crate::options::{contains_name, name_views, TraversalOptions};
use crate::patterns::{any_matches, matches_patterns};

verus! {

/// What kind of thing a directory entry is.
#[derive(Debug, Clone, Copy, PartialEq, Eq, Structural)]
pub enum EntryKind {
    Directory,
    File,
    /// Neither a directory nor a regular file.
    Other,
}

/// One entry that the directory walk yields.
#[derive(Debug, Clone)]
pub struct WalkEntry {
    /// The entry's own name.
    pub name: String,
    /// Its full path.
    pub path: String,
    /// What it is.
    pub kind: EntryKind,
}

/// What the walk does after an entry.
#[derive(Debug, Clone, Copy, PartialEq, Eq, Structural)]
pub enum WalkAction {
    /// Go on with the next entry.
    Continue,
    /// Do not enter the directory just yielded.
    SkipDirectory,
    /// End the enumeration.
    Stop,
}

/// What the walker has gathered.
#[derive(Debug, Clone)]
pub struct GatherResult {
    /// The paths to inspect; the position of a path is its submission index.
    pub files: Vec<String>,
    /// Number of files listed.
    pub included: usize,
    /// Number of files left out by name or pattern.
    pub excluded: usize,
    /// Whether the enumeration was cancelled.
    pub cancelled: bool,
}

/// Whether a name is excluded by a list of names or by a pattern.
pub open spec fn name_excluded(
    names: Seq<String>,
    options: TraversalOptions,
    name: Seq<char>,
) -> bool {
    name_views(names).contains(name) || any_matches(options.exclude_patterns@, name)
}

/// What the walk does after an entry, given whether cancellation was
/// requested when the entry was yielded.
pub open spec fn action_for(entry: WalkEntry, cancel_requested: bool, options: TraversalOptions) -> WalkAction {
    if cancel_requested {
        WalkAction::Stop
    } else if entry.kind == EntryKind::Directory && name_excluded(
        options.excluded_folders@,
        options,
        entry.name@,
    ) {
        WalkAction::SkipDirectory
    } else {
        WalkAction::Continue
    }
}

/// Whether an entry is a file that is listed for inspection.
pub open spec fn is_listed(entry: WalkEntry, cancel_requested: bool, options: TraversalOptions) -> bool {
    !cancel_requested && entry.kind == EntryKind::File && !name_excluded(
        options.excluded_files@,
        options,
        entry.name@,
    )
}

/// Whether an entry is a file that is counted as excluded.
pub open spec fn is_dropped(entry: WalkEntry, cancel_requested: bool, options: TraversalOptions) -> bool {
    !cancel_requested && entry.kind == EntryKind::File && name_excluded(
        options.excluded_files@,
        options,
        entry.name@,
    )
}

impl GatherResult {
    /// What holds of every gathering: each listed file was counted.
    pub open spec fn well_formed(&self) -> bool {
        self.included == self.files.len()
    }

    /// Whether the counters have room for one more file.
    pub open spec fn has_room(&self) -> bool {
        self.included < usize::MAX && self.excluded < usize::MAX
    }

    /// Whether the counters have room for one more file.
    pub fn room_left(&self) -> (b: bool)
        ensures
            b == self.has_room(),
    {
        self.included < usize::MAX && self.excluded < usize::MAX
    }

    /// A gathering that has seen nothing.
    pub fn new() -> (g: Self)
        ensures
            g.files@.len() == 0,
            g.included == 0,
            g.excluded == 0,
            !g.cancelled,
            g.well_formed(),
    {
        GatherResult { files: Vec::new(), included: 0, excluded: 0, cancelled: false }
    }

    /// Takes in the next entry of the walk, with the answer of the
    /// cancellation token at that moment. A positive answer stops the walk
    /// and marks the gathering as cancelled. An excluded directory is
    /// skipped with all below it. A file is listed, or counted as excluded
    /// where its name is excluded. Anything else is passed over.
    pub fn step(&mut self, entry: WalkEntry, cancel_requested: bool, options: &TraversalOptions) -> (action:
        WalkAction)
        requires
            old(self).well_formed(),
            old(self).has_room(),
        ensures
            action == action_for(entry, cancel_requested, *options),
            final(self).well_formed(),
            final(self).cancelled == (old(self).cancelled || cancel_requested),
            final(self).files@ == if is_listed(entry, cancel_requested, *options) {
                old(self).files@.push(entry.path)
            } else {
                old(self).files@
            },
            final(self).excluded == if is_dropped(entry, cancel_requested, *options) {
                old(self).excluded + 1
            } else {
                old(self).excluded as int
            },
    {
        if cancel_requested {
            self.cancelled = true;
            return WalkAction::Stop;
        }
        match entry.kind {
            EntryKind::Directory => {
                if contains_name(&options.excluded_folders, entry.name.as_str())
                    || matches_patterns(entry.name.as_str(), &options.exclude_patterns) {
                    WalkAction::SkipDirectory
                } else {
                    WalkAction::Continue
                }
            },
            EntryKind::Other => WalkAction::Continue,
            EntryKind::File => {
                if contains_name(&options.excluded_files, entry.name.as_str()) || matches_patterns(
                    entry.name.as_str(),
                    &options.exclude_patterns,
                ) {
                    self.excluded = self.excluded + 1;
                } else {
                    self.included = self.included + 1;
                    self.files.push(entry.path);
                }
                WalkAction::Continue
            },
        }
    }
}

/// A walk that finds cancellation requested at its first entry lists no
/// file and is marked as cancelled.
pub proof fn lemma_cancelled_walk_lists_nothing(entry: WalkEntry, options: TraversalOptions)
    ensures
        action_for(entry, true, options) == WalkAction::Stop,
        !is_listed(entry, true, options),
        !is_dropped(entry, true, options),
{
}

} // verus!
