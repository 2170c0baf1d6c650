//! The decisions of a walk through a directory: what to do with each entry,
//! how the count of renamed files adds up, and what to report at the end.
//!
//! Listing a directory and renaming a file are the caller's part. For each
//! entry of a listing the caller asks `visit` what to do, does it, and tells
//! the `Tally` of the directory what came of it.

use crate::config::{ConfigView, RenameConfig};
use crate::swap::{outcome_of, plan_rename, OutcomeView, RenameOutcome};
use vstd::prelude::*;

verus! {

/// What to do with one entry of a directory.
#[derive(Debug, PartialEq, Eq)]
pub enum Step {
    /// A directory to walk through in turn.
    Descend,
    /// A directory that is left alone, with all that is in it.
    Bypass,
    /// A file, and what becomes of it.
    File { outcome: RenameOutcome },
}

/// A `Step` as plain values.
pub enum StepView {
    Descend,
    Bypass,
    File { outcome: OutcomeView },
}

impl View for Step {
    type V = StepView;

    open spec fn view(&self) -> StepView {
        match self {
            Step::Descend => StepView::Descend,
            Step::Bypass => StepView::Bypass,
            Step::File { outcome } => StepView::File { outcome: outcome@ },
        }
    }
}

/// What to do with the entry called `name`. A directory is walked through
/// only in a recursive run, whatever its name; a file is renamed or not as
/// `outcome_of` says.
pub open spec fn step_of(name: Seq<char>, is_directory: bool, settings: ConfigView) -> StepView {
    if is_directory {
        if settings.recursive {
            StepView::Descend
        } else {
            StepView::Bypass
        }
    } else {
        StepView::File { outcome: outcome_of(name, settings) }
    }
}

/// Decides what to do with one entry of a directory.
pub fn visit(name: &str, is_directory: bool, config: &RenameConfig) -> (step: Step)
    ensures
        step@ == step_of(name@, is_directory, config@),
        is_directory && !config@.recursive ==> step@ == StepView::Bypass,
{
    if is_directory {
        if config.recursive() {
            Step::Descend
        } else {
            Step::Bypass
        }
    } else {
        Step::File { outcome: plan_rename(name, config) }
    }
}

/// The files renamed in the walk through one directory, as numbers.
pub struct TallyView {
    /// Files of the directory itself.
    pub here: nat,
    /// Files of the directories below it.
    pub below: nat,
}

impl TallyView {
    /// All the files renamed.
    pub open spec fn total(self) -> nat {
        self.here + self.below
    }
}

/// The count of the files renamed in the walk through one directory.
pub struct Tally {
    here: u64,
    below: u64,
}

impl View for Tally {
    type V = TallyView;

    closed spec fn view(&self) -> TallyView {
        TallyView { here: self.here as nat, below: self.below as nat }
    }
}

impl Tally {
    #[verifier::type_invariant]
    spec fn fits(&self) -> bool {
        self.here + self.below <= u64::MAX
    }

    /// The tally of a walk that has renamed nothing yet.
    pub fn new() -> (tally: Tally)
        ensures
            tally@.here == 0,
            tally@.below == 0,
    {
        Tally { here: 0, below: 0 }
    }

    /// Counts one renamed file of the directory itself.
    pub fn add_renamed(&mut self)
        requires
            old(self)@.total() < u64::MAX,
        ensures
            final(self)@.here == old(self)@.here + 1,
            final(self)@.below == old(self)@.below,
    {
        self.here = self.here + 1;
    }

    /// Adds the count that the walk through a directory below came back with.
    pub fn add_nested(&mut self, nested: u64)
        requires
            old(self)@.total() + nested <= u64::MAX,
        ensures
            final(self)@.here == old(self)@.here,
            final(self)@.below == old(self)@.below + nested,
    {
        self.below = self.below + nested;
    }

    /// The count that the walk comes back with: the files of the directory
    /// itself and those of the directories below it.
    pub fn total(&self) -> (total: u64)
        ensures
            total == self@.total(),
            total == self@.here + self@.below,
    {
        proof {
            use_type_invariant(self);
        }
        self.here + self.below
    }
}

/// What a finished run reports.
#[derive(Clone, Copy, Debug, PartialEq, Eq, Structural)]
pub enum Summary {
    /// No file was renamed.
    NothingRenamed,
    /// This many files were renamed.
    Renamed { files: u64 },
}

/// The report for a count of renamed files.
pub open spec fn summary_of(renamed: u64) -> Summary {
    if renamed == 0 {
        Summary::NothingRenamed
    } else {
        Summary::Renamed { files: renamed }
    }
}

/// Chooses the report of a finished run.
pub fn summarize(renamed: u64) -> (summary: Summary)
    ensures
        summary == summary_of(renamed),
{
    if renamed == 0 {
        Summary::NothingRenamed
    } else {
        Summary::Renamed { files: renamed }
    }
}

} // verus!
