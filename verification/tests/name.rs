use batch_renamer::name::{file_extension, file_stem, find_extension_dot};

fn extension(name: &str) -> Option<String> {
    file_extension(name)
}

#[test]
fn extension_follows_the_last_dot() {
    assert_eq!(extension("song.mp3"), Some(String::from("mp3")));
    assert_eq!(extension("archive.tar.gz"), Some(String::from("gz")));
    assert_eq!(extension("a.b.c.d"), Some(String::from("d")));
    assert_eq!(file_stem("song.mp3"), "song");
    assert_eq!(file_stem("archive.tar.gz"), "archive.tar");
    assert_eq!(file_stem("a.b.c.d"), "a.b.c");
}

#[test]
fn name_without_dot_has_no_extension() {
    assert_eq!(extension("README"), None);
    assert_eq!(file_stem("README"), "README");
    assert_eq!(extension(""), None);
    assert_eq!(file_stem(""), "");
}

#[test]
fn leading_dot_alone_sets_no_extension_off() {
    assert_eq!(extension(".bashrc"), None);
    assert_eq!(file_stem(".bashrc"), ".bashrc");
    assert_eq!(extension("."), None);
    assert_eq!(file_stem("."), ".");
    assert_eq!(extension(".config.toml"), Some(String::from("toml")));
    assert_eq!(file_stem(".config.toml"), ".config");
}

#[test]
fn parent_name_has_no_extension() {
    assert_eq!(extension(".."), None);
    assert_eq!(file_stem(".."), "..");
    assert_eq!(extension("..."), Some(String::new()));
    assert_eq!(file_stem("..."), "..");
    assert_eq!(extension("..a"), Some(String::from("a")));
    assert_eq!(file_stem("..a"), ".");
}

#[test]
fn trailing_dot_gives_an_empty_extension() {
    assert_eq!(extension("song."), Some(String::new()));
    assert_eq!(file_stem("song."), "song");
}

#[test]
fn extension_dot_is_a_position_in_characters() {
    let name: Vec<char> = "é-è.mp3".chars().collect();
    assert_eq!(find_extension_dot(&name), Some(3));
    assert_eq!(extension("é-è.mp3"), Some(String::from("mp3")));
    assert_eq!(file_stem("é-è.mp3"), "é-è");
    let name: Vec<char> = ".mp3".chars().collect();
    assert_eq!(find_extension_dot(&name), None);
}

#[test]
fn parts_agree_with_the_standard_library() {
    let names = [
        "song.mp3", "a.b.c", ".hidden", "..", "...", "..a", "x.", "", "plain", ".a.b", "a..b",
        "title - song.mp3", "é.è",
    ];
    for name in names {
        let path = std::path::Path::new(name);
        let wanted_extension = path.extension().map(|e| e.to_str().unwrap().to_string());
        assert_eq!(file_extension(name), wanted_extension, "extension of {:?}", name);
        if let Some(wanted_stem) = path.file_stem() {
            assert_eq!(file_stem(name), wanted_stem.to_str().unwrap(), "stem of {:?}", name);
        }
    }
}
