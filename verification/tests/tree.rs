use batch_renamer::config::RenameConfig;
use batch_renamer::tree::{join_path, rename_tree, Failure, FailureKind, Node, Notice, Report};
use batch_renamer::walk::{summarize, Summary};

fn settings(directory: &str, recursive: bool) -> RenameConfig {
    RenameConfig::new(
        String::from(directory),
        vec![String::from("mp3")],
        String::from("-"),
        String::from("-"),
        String::new(),
        recursive,
    )
    .unwrap()
}

fn file(name: &str) -> Node {
    Node::File { name: String::from(name) }
}

fn locked_file(name: &str) -> Node {
    Node::LockedFile { name: String::from(name) }
}

fn directory(name: &str, entries: Vec<Node>) -> Node {
    Node::Directory { name: String::from(name), entries }
}

fn locked_directory(name: &str) -> Node {
    Node::LockedDirectory { name: String::from(name) }
}

fn renaming(from: &str, to: &str) -> Notice {
    Notice::Renaming { from: String::from(from), to: String::from(to) }
}

fn skipping(path: &str) -> Notice {
    Notice::Skipping { path: String::from(path) }
}

fn root(entries: Vec<Node>) -> Node {
    directory("anything", entries)
}

fn failure(kind: FailureKind, path: &str) -> Result<u64, Failure> {
    Err(Failure { kind, path: String::from(path) })
}

fn album() -> Vec<Node> {
    vec![
        file("one-first.mp3"),
        directory("bonus", vec![file("extra-take.mp3"), file("cover.jpg")]),
        file("two-second.mp3"),
    ]
}

fn music() -> Vec<Node> {
    vec![
        file("song-title.mp3"),
        directory("album", album()),
        file("report.txt"),
        file("track.mp3"),
        file("last-one.mp3"),
    ]
}

#[test]
fn join_path_puts_a_slash_between() {
    assert_eq!(join_path(".", "song.mp3"), "./song.mp3");
    assert_eq!(join_path("a/b", "c"), "a/b/c");
    assert_eq!(join_path("", "c"), "/c");
}

#[test]
fn empty_directory_gives_nothing() {
    let report = rename_tree(&root(Vec::new()), &settings(".", true));
    assert_eq!(report, Report { notices: Vec::new(), result: Ok(0) });
}

#[test]
fn files_in_subdirectories_stay_when_not_recursive() {
    let report = rename_tree(&root(music()), &settings(".", false));
    assert_eq!(
        report.notices,
        vec![
            renaming("./song-title.mp3", "./title-song.mp3"),
            skipping("./track.mp3"),
            renaming("./last-one.mp3", "./one-last.mp3"),
        ]
    );
    assert_eq!(report.result, Ok(2));
}

#[test]
fn subdirectories_do_not_count_when_not_recursive() {
    let flat =
        vec![file("song-title.mp3"), file("report.txt"), file("track.mp3"), file("last-one.mp3")];
    let config = settings(".", false);
    assert_eq!(rename_tree(&root(music()), &config), rename_tree(&root(flat), &config));
}

#[test]
fn recursive_run_goes_through_a_directory_when_it_comes_to_it() {
    let report = rename_tree(&root(music()), &settings("music", true));
    assert_eq!(
        report.notices,
        vec![
            renaming("music/song-title.mp3", "music/title-song.mp3"),
            renaming("music/album/one-first.mp3", "music/album/first-one.mp3"),
            renaming("music/album/bonus/extra-take.mp3", "music/album/bonus/take-extra.mp3"),
            renaming("music/album/two-second.mp3", "music/album/second-two.mp3"),
            skipping("music/track.mp3"),
            renaming("music/last-one.mp3", "music/one-last.mp3"),
        ]
    );
    assert_eq!(report.result, Ok(5));
}

#[test]
fn count_is_the_files_here_and_the_counts_below() {
    let config = settings(".", true);
    let whole = rename_tree(&root(music()), &config).result.unwrap();
    let here = rename_tree(&root(music()), &settings(".", false)).result.unwrap();
    let below = rename_tree(&root(album()), &config).result.unwrap();
    assert_eq!(here, 2);
    assert_eq!(below, 3);
    assert_eq!(whole, here + below);
}

#[test]
fn directory_with_a_name_that_splits_is_not_renamed() {
    let tree = root(vec![directory("live-set.mp3", vec![file("a-b.mp3")])]);
    let report = rename_tree(&tree, &settings(".", true));
    assert_eq!(report.notices, vec![renaming("./live-set.mp3/a-b.mp3", "./live-set.mp3/b-a.mp3")]);
    assert_eq!(report.result, Ok(1));
    let report = rename_tree(&tree, &settings(".", false));
    assert_eq!(report, Report { notices: Vec::new(), result: Ok(0) });
}

#[test]
fn nothing_to_rename_counts_nothing() {
    let tree = root(vec![
        file("report.txt"),
        file("track.mp3"),
        directory("empty", Vec::new()),
        directory("notes", vec![file("todo.txt"), file("README")]),
    ]);
    for recursive in [false, true] {
        let report = rename_tree(&tree, &settings(".", recursive));
        assert_eq!(report.notices, vec![skipping("./track.mp3")]);
        assert_eq!(report.result, Ok(0));
        assert_eq!(summarize(report.result.unwrap()), Summary::NothingRenamed);
    }
}

#[test]
fn wrong_extension_is_passed_over_without_a_notice() {
    let report = rename_tree(&root(vec![file("report.txt"), file("a-b.txt")]), &settings(".", true));
    assert_eq!(report, Report { notices: Vec::new(), result: Ok(0) });
}

#[test]
fn summary_of_a_run_gives_its_count() {
    let report = rename_tree(&root(music()), &settings(".", true));
    assert_eq!(summarize(report.result.unwrap()), Summary::Renamed { files: 5 });
}

#[test]
fn locked_directory_ends_a_recursive_run() {
    let tree = root(vec![
        file("song-title.mp3"),
        directory("album", vec![file("one-first.mp3"), locked_directory("vault"), file("x-y.mp3")]),
        file("last-one.mp3"),
    ]);
    let report = rename_tree(&tree, &settings(".", true));
    assert_eq!(
        report.notices,
        vec![
            renaming("./song-title.mp3", "./title-song.mp3"),
            renaming("./album/one-first.mp3", "./album/first-one.mp3"),
        ]
    );
    assert_eq!(report.result, failure(FailureKind::DirectoryAccess, "./album/vault"));
}

#[test]
fn locked_directory_is_nothing_to_a_run_that_is_not_recursive() {
    let tree = root(vec![locked_directory("vault"), file("song-title.mp3")]);
    let report = rename_tree(&tree, &settings(".", false));
    assert_eq!(report.notices, vec![renaming("./song-title.mp3", "./title-song.mp3")]);
    assert_eq!(report.result, Ok(1));
}

#[test]
fn locked_file_ends_the_run_when_it_was_to_be_renamed() {
    let tree = root(vec![
        file("song-title.mp3"),
        locked_file("fixed-name.mp3"),
        file("last-one.mp3"),
    ]);
    let report = rename_tree(&tree, &settings(".", false));
    assert_eq!(
        report.notices,
        vec![
            renaming("./song-title.mp3", "./title-song.mp3"),
            renaming("./fixed-name.mp3", "./name-fixed.mp3"),
        ]
    );
    assert_eq!(report.result, failure(FailureKind::RenameRefused, "./fixed-name.mp3"));
}

#[test]
fn locked_file_that_keeps_its_name_ends_nothing() {
    let tree = root(vec![locked_file("report.txt"), locked_file("track.mp3"), file("last-one.mp3")]);
    let report = rename_tree(&tree, &settings(".", false));
    assert_eq!(
        report.notices,
        vec![skipping("./track.mp3"), renaming("./last-one.mp3", "./one-last.mp3")]
    );
    assert_eq!(report.result, Ok(1));
}

#[test]
fn failure_below_ends_the_run_above() {
    let tree = root(vec![
        directory("a", vec![directory("b", vec![locked_file("x-y.mp3"), file("p-q.mp3")])]),
        file("last-one.mp3"),
    ]);
    let report = rename_tree(&tree, &settings("root", true));
    assert_eq!(report.notices, vec![renaming("root/a/b/x-y.mp3", "root/a/b/y-x.mp3")]);
    assert_eq!(report.result, failure(FailureKind::RenameRefused, "root/a/b/x-y.mp3"));
    let report = rename_tree(&tree, &settings("root", false));
    assert_eq!(report.notices, vec![renaming("root/last-one.mp3", "root/one-last.mp3")]);
    assert_eq!(report.result, Ok(1));
}

#[test]
fn root_that_cannot_be_listed_ends_the_run_at_once() {
    for recursive in [false, true] {
        let report = rename_tree(&locked_directory("music"), &settings("music", recursive));
        assert_eq!(report.notices, Vec::new());
        assert_eq!(report.result, failure(FailureKind::DirectoryAccess, "music"));
        let report = rename_tree(&file("a-b.mp3"), &settings("a-b.mp3", recursive));
        assert_eq!(report.notices, Vec::new());
        assert_eq!(report.result, failure(FailureKind::DirectoryAccess, "a-b.mp3"));
    }
}

#[test]
fn root_is_named_by_the_settings() {
    let tree = directory("elsewhere", vec![file("a-b.mp3")]);
    let report = rename_tree(&tree, &settings("here", false));
    assert_eq!(report.notices, vec![renaming("here/a-b.mp3", "here/b-a.mp3")]);
}
