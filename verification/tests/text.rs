use batch_renamer::text::{chars_of, find_last, stands_at, strip_char, trim_range};

fn chars(s: &str) -> Vec<char> {
    s.chars().collect()
}

#[test]
fn chars_of_decodes_every_character() {
    assert_eq!(chars_of("a-b"), vec!['a', '-', 'b']);
    assert_eq!(chars_of("né à"), vec!['n', 'é', ' ', 'à']);
    assert_eq!(chars_of(""), Vec::<char>::new());
}

#[test]
fn stands_at_compares_the_whole_pattern() {
    let text = chars("ab--cd");
    assert!(stands_at(&text, &chars("--"), 2));
    assert!(!stands_at(&text, &chars("--"), 1));
    assert!(!stands_at(&text, &chars("--"), 3));
    assert!(stands_at(&text, &chars("cd"), 4));
    assert!(!stands_at(&text, &chars("cd"), 5));
    assert!(!stands_at(&text, &chars("cd"), 60));
    assert!(stands_at(&text, &chars(""), 6));
    assert!(!stands_at(&text, &chars(""), 7));
    assert!(!stands_at(&chars("a"), &chars("ab"), 0));
}

#[test]
fn find_last_gives_the_greatest_position() {
    assert_eq!(find_last(&chars("a-b-c"), &chars("-")), Some(3));
    assert_eq!(find_last(&chars("-a"), &chars("-")), Some(0));
    assert_eq!(find_last(&chars("a-"), &chars("-")), Some(1));
    assert_eq!(find_last(&chars("abc"), &chars("-")), None);
    assert_eq!(find_last(&chars(""), &chars("-")), None);
    assert_eq!(find_last(&chars("a"), &chars("ab")), None);
    assert_eq!(find_last(&chars("a--b--c"), &chars("--")), Some(4));
}

#[test]
fn find_last_counts_overlapping_occurrences() {
    assert_eq!(find_last(&chars("aaa"), &chars("aa")), Some(1));
    assert_eq!(find_last(&chars("x---y"), &chars("--")), Some(2));
}

#[test]
fn find_last_of_nothing_is_the_end() {
    assert_eq!(find_last(&chars("abc"), &chars("")), Some(3));
    assert_eq!(find_last(&chars(""), &chars("")), Some(0));
}

#[test]
fn trim_range_drops_white_space_at_both_ends() {
    let text = chars("  song title \t");
    assert_eq!(trim_range(&text, 0, text.len()), (2, 12));
    assert_eq!(trim_range(&text, 0, 7), (2, 6));
    assert_eq!(trim_range(&text, 6, text.len()), (7, 12));
}

#[test]
fn trim_range_of_white_space_is_empty() {
    let text = chars("a   b");
    let kept = trim_range(&text, 1, 4);
    assert_eq!(kept.0, kept.1);
    let kept = trim_range(&text, 2, 2);
    assert_eq!(kept, (2, 2));
}

#[test]
fn trim_range_knows_white_space_beyond_ascii() {
    let text = chars("\u{a0}\u{3000}x\u{2003}\n");
    assert_eq!(trim_range(&text, 0, text.len()), (2, 3));
    let text = chars("_x_");
    assert_eq!(trim_range(&text, 0, text.len()), (0, 3));
}

#[test]
fn strip_char_takes_every_occurrence_out() {
    assert_eq!(strip_char("\\-", '\\'), "-");
    assert_eq!(strip_char("\\-\\-", '\\'), "--");
    assert_eq!(strip_char("a\\\\b\\", '\\'), "ab");
    assert_eq!(strip_char("-", '\\'), "-");
    assert_eq!(strip_char("\\", '\\'), "");
    assert_eq!(strip_char("", '\\'), "");
    assert_eq!(strip_char("é\\è", '\\'), "éè");
}

#[test]
fn trim_range_agrees_with_the_standard_library() {
    let texts = [
        "", " ", "   ", "a", " a", "a ", " a ", "\ta b\n", "  song  title  ", "\u{a0}x\u{a0}",
        "\u{2028}y", "z\u{85}", "\u{200b}w\u{200b}", " é ", "\r\n", "_ _",
    ];
    for text in texts {
        let decoded = chars(text);
        let (start, end) = trim_range(&decoded, 0, decoded.len());
        let kept: String = decoded[start..end].iter().collect();
        assert_eq!(kept, text.trim(), "trimming {:?}", text);
    }
}

#[test]
fn find_last_agrees_with_the_standard_library() {
    let texts = ["", "a-b", "a-b-c", "--", "a--b--", "aaa", "é-è-é", "no separator", "-"];
    let patterns = ["-", "--", "a", "aa", "é", " ", "-é", ""];
    for text in texts {
        for pattern in patterns {
            let wanted = text.rfind(pattern).map(|bytes| text[..bytes].chars().count());
            assert_eq!(
                find_last(&chars(text), &chars(pattern)),
                wanted,
                "{:?} in {:?}",
                pattern,
                text
            );
        }
    }
}

#[test]
fn strip_char_agrees_with_the_standard_library() {
    for text in ["", "\\", "\\-", "a\\b\\c", "\\\\", "plain", "é\\"] {
        assert_eq!(strip_char(text, '\\'), text.replace("\\", ""));
    }
    assert_eq!(strip_char("a-b-c", '-'), "abc");
}
