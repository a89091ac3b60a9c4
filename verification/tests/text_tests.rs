use rustimoji::text::{chars_of, contains_substring, is_white_space, split_once_space, trim};

#[test]
fn white_space_agrees_with_std_on_every_char() {
    let mut code: u32 = 0;
    while code <= 0x10FFFF {
        if let Some(c) = char::from_u32(code) {
            assert_eq!(is_white_space(c), c.is_whitespace(), "U+{:04X}", code);
        }
        code += 1;
    }
}

#[test]
fn white_space_named_characters() {
    assert!(is_white_space(' '));
    assert!(is_white_space('\t'));
    assert!(is_white_space('\n'));
    assert!(is_white_space('\r'));
    assert!(is_white_space('\u{A0}'));
    assert!(is_white_space('\u{3000}'));
    assert!(!is_white_space('a'));
    assert!(!is_white_space('\u{200B}'));
    assert!(!is_white_space('👋'));
}

#[test]
fn chars_of_keeps_every_char_in_order() {
    assert_eq!(chars_of("a👋 ñ"), vec!['a', '👋', ' ', 'ñ']);
    assert_eq!(chars_of(""), Vec::<char>::new());
}

#[test]
fn trim_removes_both_ends_only() {
    assert_eq!(trim("  a b  "), "a b");
    assert_eq!(trim("a b"), "a b");
    assert_eq!(trim("\t 👋 wave\r\n"), "👋 wave");
    assert_eq!(trim(""), "");
    assert_eq!(trim("   "), "");
    assert_eq!(trim("\u{3000}x\u{A0}"), "x");
}

#[test]
fn trim_agrees_with_std() {
    let samples = vec![
        "",
        " ",
        "x",
        " x",
        "x ",
        "  two  words  ",
        "\u{2003}em space\u{2003}",
        "\u{200B}zero width stays\u{200B}",
        "IMG  tag ",
        "👋 waving hand <small>(hand, wave, waving)</small>",
    ];
    for s in samples {
        assert_eq!(trim(s), s.trim());
    }
}

#[test]
fn trim_is_idempotent() {
    let once = trim("  a  b \t");
    assert_eq!(trim(&once), once);
}

#[test]
fn split_once_space_splits_at_the_first_space() {
    assert_eq!(split_once_space("a b c"), Some(("a".to_string(), "b c".to_string())));
    assert_eq!(split_once_space("👋 wave"), Some(("👋".to_string(), "wave".to_string())));
    assert_eq!(split_once_space(" x"), Some(("".to_string(), "x".to_string())));
    assert_eq!(split_once_space("x "), Some(("x".to_string(), "".to_string())));
    assert_eq!(split_once_space(" "), Some(("".to_string(), "".to_string())));
}

#[test]
fn split_once_space_without_space_is_none() {
    assert_eq!(split_once_space(""), None);
    assert_eq!(split_once_space("word"), None);
    assert_eq!(split_once_space("tab\tonly"), None);
}

#[test]
fn split_once_space_agrees_with_std() {
    let samples = vec!["", "a", "a b", " a", "a ", "IMG icons/foo.png catface", "ñ ü ö"];
    for s in samples {
        let expected = s.split_once(' ').map(|(a, b)| (a.to_string(), b.to_string()));
        assert_eq!(split_once_space(s), expected);
    }
}

#[test]
fn contains_substring_finds_parts() {
    assert!(contains_substring("animals.csv", "animals"));
    assert!(contains_substring("animals.csv", ".csv"));
    assert!(contains_substring("animals.csv", "mal"));
    assert!(contains_substring("animals.csv", "animals.csv"));
    assert!(contains_substring("a👋b", "👋b"));
}

#[test]
fn contains_substring_rejects_what_is_not_there() {
    assert!(!contains_substring("animals.csv", "food"));
    assert!(!contains_substring("animals.csv", "Animals"));
    assert!(!contains_substring("abc", "abcd"));
    assert!(!contains_substring("", "a"));
    assert!(!contains_substring("abab", "abb"));
}

#[test]
fn contains_substring_empty_needle_is_everywhere() {
    assert!(contains_substring("abc", ""));
    assert!(contains_substring("", ""));
}

#[test]
fn contains_substring_agrees_with_std() {
    let hays = vec!["", "a", "ab", "aab", "abcabc", "food.csv", "ñandú"];
    let needles = vec!["", "a", "b", "ab", "bc", "abc", "cab", "ú", ".csv", "x"];
    for h in &hays {
        for n in &needles {
            assert_eq!(contains_substring(h, n), h.contains(n), "{:?} in {:?}", n, h);
        }
    }
}
