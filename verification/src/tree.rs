//! A directory tree held in memory, and the run over it: which files are
//! renamed, in which order, what is reported, how many files it makes, and
//! where the run ends when the file system refuses something.
//!
//! The run asks `visit` about each entry and keeps a `Tally` for each
//! directory, as a run over a real file system does; the listings come from
//! the tree, and every renaming is written down in place of being carried
//! out.

use crate::config::{ConfigView, RenameConfig};
use crate::swap::{outcome_of, OutcomeView, RenameOutcome, SkipReason};
use crate::walk::{summary_of, visit, Step, Summary, Tally};
use vstd::prelude::*;

verus! {

/// An entry of a directory.
#[derive(Debug, PartialEq, Eq)]
pub enum Node {
    /// A file.
    File { name: String },
    /// A file that the file system lets nobody rename.
    LockedFile { name: String },
    /// A directory, with its listing.
    Directory { name: String, entries: Vec<Node> },
    /// A directory that the file system lets nobody list.
    LockedDirectory { name: String },
}

/// A `Node` as plain values.
pub enum NodeView {
    File { name: Seq<char> },
    LockedFile { name: Seq<char> },
    Directory { name: Seq<char>, entries: Seq<NodeView> },
    LockedDirectory { name: Seq<char> },
}

impl View for Node {
    type V = NodeView;

    open spec fn view(&self) -> NodeView
        decreases self,
    {
        match self {
            Node::File { name } => NodeView::File { name: name@ },
            Node::LockedFile { name } => NodeView::LockedFile { name: name@ },
            Node::Directory { name, entries } => NodeView::Directory {
                name: name@,
                entries: Seq::new(
                    entries@.len(),
                    |i: int|
                        if 0 <= i < entries@.len() {
                            entries@[i]@
                        } else {
                            NodeView::File { name: Seq::empty() }
                        },
                ),
            },
            Node::LockedDirectory { name } => NodeView::LockedDirectory { name: name@ },
        }
    }
}

/// The entries of a listing as plain values.
pub open spec fn views_of(entries: Seq<Node>) -> Seq<NodeView> {
    Seq::new(entries.len(), |i: int| entries[i]@)
}

/// One line of what a run reports while it goes.
#[derive(Debug, PartialEq, Eq)]
pub enum Notice {
    /// The file at `from` is given the path `to`.
    Renaming { from: String, to: String },
    /// The file at `path` has a wanted extension, but its base name does not
    /// come apart.
    Skipping { path: String },
}

/// A `Notice` as plain values.
pub enum NoticeView {
    Renaming { from: Seq<char>, to: Seq<char> },
    Skipping { path: Seq<char> },
}

impl View for Notice {
    type V = NoticeView;

    open spec fn view(&self) -> NoticeView {
        match self {
            Notice::Renaming { from, to } => NoticeView::Renaming { from: from@, to: to@ },
            Notice::Skipping { path } => NoticeView::Skipping { path: path@ },
        }
    }
}

/// The notices of a list as plain values.
pub open spec fn notice_views(notices: Seq<Notice>) -> Seq<NoticeView> {
    Seq::new(notices.len(), |i: int| notices[i]@)
}

/// What the file system refused.
#[derive(Clone, Copy, Debug, PartialEq, Eq, Structural)]
pub enum FailureKind {
    /// A directory could not be listed.
    DirectoryAccess,
    /// A file could not be renamed.
    RenameRefused,
}

/// What ended a run before its time.
#[derive(Debug, PartialEq, Eq)]
pub struct Failure {
    pub kind: FailureKind,
    /// The directory that could not be listed, or the file that could not be
    /// renamed.
    pub path: String,
}

/// A `Failure` as plain values.
pub struct FailureView {
    pub kind: FailureKind,
    pub path: Seq<char>,
}

impl View for Failure {
    type V = FailureView;

    open spec fn view(&self) -> FailureView {
        FailureView { kind: self.kind, path: self.path@ }
    }
}

/// What a run over a tree comes back with.
#[derive(Debug, PartialEq, Eq)]
pub struct Report {
    /// The notices, in the order of the run. After a failure they tell what
    /// was done before it; none of it is undone.
    pub notices: Vec<Notice>,
    /// The number of files renamed, or what ended the run.
    pub result: Result<u64, Failure>,
}

/// A run as plain values: its notices, and what ended it before its time,
/// if anything did.
pub struct RunView {
    pub notices: Seq<NoticeView>,
    pub failure: Option<FailureView>,
}

/// The path of the entry called `name` in `directory`.
pub open spec fn path_of(directory: Seq<char>, name: Seq<char>) -> Seq<char> {
    directory + seq!['/'] + name
}

/// The run in which nothing happens.
pub open spec fn idle() -> RunView {
    RunView { notices: Seq::empty(), failure: None }
}

/// The notice for the file called `name` in `directory`, if it gets one. A
/// file whose extension is not wanted is passed over without a word.
pub open spec fn file_notices(directory: Seq<char>, name: Seq<char>, settings: ConfigView) -> Seq<
    NoticeView,
> {
    match outcome_of(name, settings) {
        OutcomeView::Renamed { new_name } => seq![
            NoticeView::Renaming {
                from: path_of(directory, name),
                to: path_of(directory, new_name),
            },
        ],
        OutcomeView::Skipped { reason } => match reason {
            SkipReason::NotSplittable => seq![
                NoticeView::Skipping { path: path_of(directory, name) },
            ],
            SkipReason::ExtensionMismatch => Seq::empty(),
        },
    }
}

/// What ends the run at the file called `name` in `directory` when the file
/// system lets nobody rename it: nothing, unless the file was to get a new
/// name.
pub open spec fn file_failure(directory: Seq<char>, name: Seq<char>, settings: ConfigView) -> Option<
    FailureView,
> {
    if outcome_of(name, settings) is Renamed {
        Some(FailureView { kind: FailureKind::RenameRefused, path: path_of(directory, name) })
    } else {
        None
    }
}

/// The run over one entry of `directory`. A file gives its notice. A
/// directory gives, in a recursive run, the run over its listing, and
/// nothing otherwise. A locked file gives its notice too, and ends the run
/// if it was to be renamed; a locked directory ends a recursive run.
pub open spec fn node_run(directory: Seq<char>, node: NodeView, settings: ConfigView) -> RunView
    decreases node, 0int,
{
    match node {
        NodeView::File { name } => RunView {
            notices: file_notices(directory, name, settings),
            failure: None,
        },
        NodeView::LockedFile { name } => RunView {
            notices: file_notices(directory, name, settings),
            failure: file_failure(directory, name, settings),
        },
        NodeView::Directory { name, entries } => if settings.recursive {
            run_of(path_of(directory, name), entries, settings)
        } else {
            idle()
        },
        NodeView::LockedDirectory { name } => if settings.recursive {
            RunView {
                notices: Seq::empty(),
                failure: Some(
                    FailureView {
                        kind: FailureKind::DirectoryAccess,
                        path: path_of(directory, name),
                    },
                ),
            }
        } else {
            idle()
        },
    }
}

/// The run over `entries`, the listing of `directory`: the runs over each
/// entry, in the order of the listing, up to the first that fails. A
/// directory is gone through when the run comes to it, before the entries
/// that follow it.
pub open spec fn run_of(directory: Seq<char>, entries: Seq<NodeView>, settings: ConfigView) -> RunView
    decreases entries, 1int,
{
    if entries.len() == 0 {
        idle()
    } else {
        let before = run_of(directory, entries.drop_last(), settings);
        if before.failure is Some {
            before
        } else {
            let last = node_run(directory, entries.last(), settings);
            RunView { notices: before.notices + last.notices, failure: last.failure }
        }
    }
}

/// The run that starts at `root`, taken as the directory that the settings
/// name. A root that is no directory, or one that cannot be listed, ends the
/// run before anything is done.
pub open spec fn run_from(root: NodeView, settings: ConfigView) -> RunView {
    match root {
        NodeView::Directory { name, entries } => run_of(settings.directory, entries, settings),
        _ => RunView {
            notices: Seq::empty(),
            failure: Some(
                FailureView { kind: FailureKind::DirectoryAccess, path: settings.directory },
            ),
        },
    }
}

/// The number of renamings among the notices.
pub open spec fn renamings_in(notices: Seq<NoticeView>) -> nat {
    notices.filter(|notice: NoticeView| notice is Renaming).len()
}

/// Renamings add up over notices put one after the other, and there are no
/// more of them than notices.
pub proof fn lemma_renamings_add(first: Seq<NoticeView>, second: Seq<NoticeView>)
    ensures
        renamings_in(first + second) == renamings_in(first) + renamings_in(second),
        renamings_in(first) <= first.len(),
{
    let is_renaming = |notice: NoticeView| notice is Renaming;
    Seq::filter_distributes_over_add(first, second, is_renaming);
    first.lemma_filter_len(is_renaming);
}

/// The notices of one file hold one renaming where the file gets a new
/// name, and none where it does not.
pub proof fn lemma_file_renamings(directory: Seq<char>, name: Seq<char>, settings: ConfigView)
    ensures
        renamings_in(file_notices(directory, name, settings)) == if outcome_of(name, settings)
            is Renamed {
            1nat
        } else {
            0nat
        },
        file_notices(directory, name, settings).len() <= 1,
{
    reveal_with_fuel(Seq::filter, 2);
}

/// What a directory node holds is the listing of its entries.
pub proof fn lemma_directory_view(node: Node)
    requires
        node is Directory,
    ensures
        node@ is Directory,
        node@->Directory_name == node->Directory_name@,
        node@->Directory_entries == views_of(node->entries@),
{
}

/// The first failure ends the run: the entries behind it change nothing.
pub proof fn law_failure_ends_run(
    directory: Seq<char>,
    entries: Seq<NodeView>,
    settings: ConfigView,
    reached: int,
)
    requires
        0 <= reached <= entries.len(),
        run_of(directory, entries.take(reached), settings).failure is Some,
    ensures
        run_of(directory, entries, settings) == run_of(directory, entries.take(reached), settings),
    decreases entries.len(),
{
    if reached < entries.len() {
        assert(entries.drop_last().take(reached) =~= entries.take(reached));
        law_failure_ends_run(directory, entries.drop_last(), settings, reached);
    } else {
        assert(entries.take(reached) =~= entries);
    }
}

/// The number of files of the listing itself that a run renames.
pub open spec fn renamed_here(entries: Seq<NodeView>, settings: ConfigView) -> nat
    decreases entries.len(),
{
    if entries.len() == 0 {
        0
    } else {
        renamed_here(entries.drop_last(), settings) + match entries.last() {
            NodeView::File { name } => if outcome_of(name, settings) is Renamed {
                1nat
            } else {
                0nat
            },
            _ => 0nat,
        }
    }
}

/// The number of files renamed by the runs over the directories of the
/// listing: the sum of what each of these runs counts.
pub open spec fn renamed_below(
    directory: Seq<char>,
    entries: Seq<NodeView>,
    settings: ConfigView,
) -> nat
    decreases entries.len(),
{
    if entries.len() == 0 {
        0
    } else {
        renamed_below(directory, entries.drop_last(), settings) + match entries.last() {
            NodeView::Directory { name, entries } => if settings.recursive {
                renamings_in(run_of(path_of(directory, name), entries, settings).notices)
            } else {
                0nat
            },
            _ => 0nat,
        }
    }
}

/// The files among the entries of a listing.
pub open spec fn files_of(entries: Seq<NodeView>) -> Seq<NodeView> {
    entries.filter(|node: NodeView| node is File || node is LockedFile)
}

/// Whether no file that a run over `entries` can come to gets a new name.
pub open spec fn keeps_all_names(entries: Seq<NodeView>, settings: ConfigView) -> bool
    decreases entries, 1int,
{
    entries.len() > 0 ==> keeps_all_names(entries.drop_last(), settings) && keeps_names(
        entries.last(),
        settings,
    )
}

/// Whether the file keeps its name or, for a directory in a recursive run,
/// every file that the run over it can come to.
pub open spec fn keeps_names(node: NodeView, settings: ConfigView) -> bool
    decreases node, 0int,
{
    match node {
        NodeView::File { name } => outcome_of(name, settings) is Skipped,
        NodeView::LockedFile { name } => outcome_of(name, settings) is Skipped,
        NodeView::Directory { name, entries } => settings.recursive ==> keeps_all_names(
            entries,
            settings,
        ),
        NodeView::LockedDirectory { name } => true,
    }
}

/// The count of a run that nothing ends before its time is the number of
/// files renamed in the directory itself plus the counts of the runs over
/// the directories in it.
pub proof fn law_aggregation(directory: Seq<char>, entries: Seq<NodeView>, settings: ConfigView)
    requires
        run_of(directory, entries, settings).failure is None,
    ensures
        renamings_in(run_of(directory, entries, settings).notices) == renamed_here(
            entries,
            settings,
        ) + renamed_below(directory, entries, settings),
    decreases entries.len(),
{
    if entries.len() == 0 {
        lemma_renamings_add(Seq::empty(), Seq::empty());
    } else {
        law_aggregation(directory, entries.drop_last(), settings);
        lemma_renamings_add(
            run_of(directory, entries.drop_last(), settings).notices,
            node_run(directory, entries.last(), settings).notices,
        );
        match entries.last() {
            NodeView::File { name } => {
                lemma_file_renamings(directory, name, settings);
            },
            NodeView::LockedFile { name } => {
                lemma_file_renamings(directory, name, settings);
            },
            _ => {
                lemma_renamings_add(Seq::empty(), Seq::empty());
            },
        }
    }
}

/// A run that is not recursive sees the files of the directory itself and
/// nothing else: what the directories in it hold, and whether they can be
/// listed, changes neither the notices nor the count nor the failure.
pub proof fn law_not_recursive(directory: Seq<char>, entries: Seq<NodeView>, settings: ConfigView)
    requires
        !settings.recursive,
    ensures
        run_of(directory, entries, settings) == run_of(directory, files_of(entries), settings),
        renamed_below(directory, entries, settings) == 0,
        run_of(directory, entries, settings).failure is None ==> renamings_in(
            run_of(directory, entries, settings).notices,
        ) == renamed_here(entries, settings),
    decreases entries.len(),
{
    reveal(Seq::filter);
    if run_of(directory, entries, settings).failure is None {
        law_aggregation(directory, entries, settings);
    }
    if entries.len() > 0 {
        let rest = entries.drop_last();
        let last = entries.last();
        law_not_recursive(directory, rest, settings);
        if last is File || last is LockedFile {
            assert(files_of(entries).drop_last() =~= files_of(rest));
        } else {
            assert(node_run(directory, last, settings) == idle());
        }
    }
}

/// A run that can come to no file that gets a new name renames nothing, and
/// where it comes to its end the report says that nothing was renamed.
pub proof fn law_nothing_renamed(directory: Seq<char>, entries: Seq<NodeView>, settings: ConfigView)
    requires
        keeps_all_names(entries, settings),
    ensures
        renamings_in(run_of(directory, entries, settings).notices) == 0,
        summary_of(renamings_in(run_of(directory, entries, settings).notices) as u64)
            == Summary::NothingRenamed,
    decreases entries, 1int,
{
    reveal_with_fuel(keeps_all_names, 2);
    reveal_with_fuel(keeps_names, 2);
    if entries.len() == 0 {
        lemma_renamings_add(Seq::empty(), Seq::empty());
    } else {
        let rest = entries.drop_last();
        law_nothing_renamed(directory, rest, settings);
        lemma_renamings_add(
            run_of(directory, rest, settings).notices,
            node_run(directory, entries.last(), settings).notices,
        );
        match entries.last() {
            NodeView::File { name } => {
                lemma_file_renamings(directory, name, settings);
            },
            NodeView::LockedFile { name } => {
                lemma_file_renamings(directory, name, settings);
            },
            NodeView::Directory { name, entries: inner } => {
                if settings.recursive {
                    law_nothing_renamed(path_of(directory, name), inner, settings);
                } else {
                    lemma_renamings_add(Seq::empty(), Seq::empty());
                }
            },
            NodeView::LockedDirectory { name } => {
                lemma_renamings_add(Seq::empty(), Seq::empty());
            },
        }
    }
}

/// The path of the entry called `name` in `directory`.
pub fn join_path(directory: &str, name: &str) -> (path: String)
    ensures
        path@ == path_of(directory@, name@),
{
    let mut path = String::new();
    path.append(directory);
    path.append("/");
    path.append(name);
    proof {
        reveal_strlit("/");
    }
    path
}

/// Writes down the notice for the file called `name` in `directory`, if it
/// gets one, and says whether the file is to be renamed.
fn note_file(
    directory: &str,
    name: &str,
    config: &RenameConfig,
    notices: &mut Vec<Notice>,
) -> (renames: bool)
    ensures
        notice_views(final(notices)@) == notice_views(old(notices)@) + file_notices(
            directory@,
            name@,
            config@,
        ),
        renames == (outcome_of(name@, config@) is Renamed),
{
    match visit(name, false, config) {
        Step::File { outcome } => match outcome {
            RenameOutcome::Renamed { new_name } => {
                let from = join_path(directory, name);
                let to = join_path(directory, new_name.as_str());
                notices.push(Notice::Renaming { from, to });
                true
            },
            RenameOutcome::Skipped { reason } => {
                match reason {
                    SkipReason::NotSplittable => {
                        let path = join_path(directory, name);
                        notices.push(Notice::Skipping { path });
                    },
                    SkipReason::ExtensionMismatch => {},
                }
                false
            },
        },
        Step::Descend => {
            assert(false);
            false
        },
        Step::Bypass => {
            assert(false);
            false
        },
    }
}

/// Runs over `entries`, the listing of `directory`, and over the
/// directories below it in a recursive run. The notices are added to
/// `notices`; the count of renamed files comes back, or what ended the run.
fn walk_through(
    directory: &str,
    entries: &Vec<Node>,
    config: &RenameConfig,
    notices: &mut Vec<Notice>,
) -> (result: Result<u64, Failure>)
    ensures
        notice_views(final(notices)@) == notice_views(old(notices)@) + run_of(
            directory@,
            views_of(entries@),
            config@,
        ).notices,
        match result {
            Ok(renamed) => {
                &&& run_of(directory@, views_of(entries@), config@).failure is None
                &&& renamed == renamings_in(
                    run_of(directory@, views_of(entries@), config@).notices,
                )
            },
            Err(failure) => run_of(directory@, views_of(entries@), config@).failure == Some(
                failure@,
            ),
        },
    decreases entries,
{
    let ghost listing = views_of(entries@);
    let ghost before = notice_views(notices@);
    let mut tally = Tally::new();
    let mut i: usize = 0;
    proof {
        lemma_renamings_add(Seq::empty(), Seq::empty());
    }
    while i < entries.len()
        invariant
            i <= entries.len(),
            listing == views_of(entries@),
            before == notice_views(old(notices)@),
            run_of(directory@, listing.take(i as int), config@).failure is None,
            notice_views(notices@) == before + run_of(
                directory@,
                listing.take(i as int),
                config@,
            ).notices,
            tally@.total() == renamings_in(
                run_of(directory@, listing.take(i as int), config@).notices,
            ),
        decreases entries.len() - i,
    {
        let ghost done = run_of(directory@, listing.take(i as int), config@).notices;
        let ghost step = node_run(directory@, listing[i as int], config@);
        let ghost reached = run_of(directory@, listing.take(i + 1), config@);
        proof {
            assert(listing.take(i + 1).drop_last() =~= listing.take(i as int));
            lemma_renamings_add(done, step.notices);
            lemma_renamings_add(step.notices, Seq::empty());
            if reached.failure is Some {
                law_failure_ends_run(directory@, listing, config@, i + 1);
            }
        }
        match &entries[i] {
            Node::File { name } => {
                let renames = note_file(directory, name.as_str(), config, notices);
                proof {
                    lemma_file_renamings(directory@, name@, config@);
                }
                if renames {
                    assert(notice_views(notices@).len() == notices.len());
                    tally.add_renamed();
                }
            },
            Node::LockedFile { name } => {
                let renames = note_file(directory, name.as_str(), config, notices);
                proof {
                    lemma_file_renamings(directory@, name@, config@);
                }
                if renames {
                    let path = join_path(directory, name.as_str());
                    return Err(Failure { kind: FailureKind::RenameRefused, path });
                }
            },
            Node::Directory { name, entries: inner } => {
                proof {
                    lemma_directory_view(entries@[i as int]);
                }
                match visit(name.as_str(), true, config) {
                    Step::Descend => {
                        let below = join_path(directory, name.as_str());
                        match walk_through(below.as_str(), inner, config, notices) {
                            Ok(nested) => {
                                assert(notice_views(notices@).len() == notices.len());
                                tally.add_nested(nested);
                            },
                            Err(failure) => {
                                return Err(failure);
                            },
                        }
                    },
                    Step::Bypass => {},
                    Step::File { outcome } => {
                        assert(false);
                    },
                }
            },
            Node::LockedDirectory { name } => {
                match visit(name.as_str(), true, config) {
                    Step::Descend => {
                        let path = join_path(directory, name.as_str());
                        return Err(Failure { kind: FailureKind::DirectoryAccess, path });
                    },
                    Step::Bypass => {},
                    Step::File { outcome } => {
                        assert(false);
                    },
                }
            },
        }
        i += 1;
    }
    assert(listing.take(entries.len() as int) =~= listing);
    Ok(tally.total())
}

/// Runs over the tree under `root`, which stands for the directory that the
/// settings name; the name of `root` itself plays no part.
///
/// The notices come in the order of the run. The run ends at once where
/// `root` is no directory that can be listed, else at the first directory
/// below that a recursive run cannot list and at the first file that was to
/// be renamed and cannot be; the report then holds that failure in place of
/// a count, and the notices up to it.
pub fn rename_tree(root: &Node, config: &RenameConfig) -> (report: Report)
    ensures
        notice_views(report.notices@) == run_from(root@, config@).notices,
        match report.result {
            Ok(renamed) => {
                &&& run_from(root@, config@).failure is None
                &&& renamed == renamings_in(notice_views(report.notices@))
            },
            Err(failure) => run_from(root@, config@).failure == Some(failure@),
        },
{
    let mut notices: Vec<Notice> = Vec::new();
    match root {
        Node::Directory { name, entries } => {
            let result = walk_through(config.directory(), entries, config, &mut notices);
            proof {
                lemma_directory_view(*root);
            }
            Report { notices, result }
        },
        _ => {
            let path = config.directory().to_owned();
            Report {
                notices,
                result: Err(Failure { kind: FailureKind::DirectoryAccess, path }),
            }
        },
    }
}

} // verus!
