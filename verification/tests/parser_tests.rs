use rustimoji::normalizer::normalize;
use rustimoji::parser::{is_sentinel, parse, ParseError, ParsedLine};
use rustimoji::record::{ImagePathEntry, Record};

fn plain(text: &str, origin: &str) -> ParsedLine {
    ParsedLine {
        record: Record { display_text: text.to_string(), origin_tag: origin.to_string() },
        image: None,
    }
}

#[test]
fn normalize_removes_diacritics() {
    assert_eq!(normalize("ñ"), "n");
    assert_eq!(normalize("TÅRÖÄÆØ"), "TAROAAO");
    assert_eq!(normalize("čďêƒíó"), "cdefio");
    assert_eq!(normalize("e\u{300}"), "e");
}

#[test]
fn normalize_keeps_plain_text_and_symbols() {
    assert_eq!(normalize("👋 wave"), "👋 wave");
    assert_eq!(normalize("IMG icons/foo.png catface"), "IMG icons/foo.png catface");
    assert_eq!(normalize(""), "");
}

#[test]
fn parse_image_line() {
    let parsed = parse("IMG icons/foo.png catface", "pics.csv").unwrap();
    assert_eq!(parsed.record.display_text, "IMG catface");
    assert_eq!(parsed.record.origin_tag, "pics.csv");
    assert_eq!(
        parsed.image,
        Some(ImagePathEntry { tag: "catface".to_string(), path: "icons/foo.png".to_string() })
    );
}

#[test]
fn parse_plain_line_is_the_whole_line() {
    assert_eq!(parse("👋 wave", "a.csv"), Ok(plain("👋 wave", "a.csv")));
    assert_eq!(
        parse("😀 grinning face <small>(face, grin)</small>", "faces.csv"),
        Ok(plain("😀 grinning face <small>(face, grin)</small>", "faces.csv"))
    );
}

#[test]
fn parse_trims_the_display_text() {
    assert_eq!(parse("  👋 wave \t", "a.csv"), Ok(plain("👋 wave", "a.csv")));
    assert_eq!(parse("x ", "a.csv"), Ok(plain("x", "a.csv")));
    assert_eq!(parse("   ", "a.csv"), Ok(plain("", "a.csv")));
}

#[test]
fn parse_without_space_is_malformed() {
    assert_eq!(parse("", "a.csv"), Err(ParseError::MalformedLine));
    assert_eq!(parse("👋", "a.csv"), Err(ParseError::MalformedLine));
    assert_eq!(parse("IMG", "a.csv"), Err(ParseError::MalformedLine));
}

#[test]
fn parse_image_line_without_tag_is_malformed() {
    assert_eq!(parse("IMG icons/foo.png", "a.csv"), Err(ParseError::MalformedLine));
    assert_eq!(parse("IMG ", "a.csv"), Err(ParseError::MalformedLine));
}

#[test]
fn parse_image_tag_is_all_that_follows_the_path() {
    let parsed = parse("IMG a/b.png cat face ", "p.csv").unwrap();
    assert_eq!(parsed.record.display_text, "IMG cat face");
    assert_eq!(
        parsed.image,
        Some(ImagePathEntry { tag: "cat face ".to_string(), path: "a/b.png".to_string() })
    );
}

#[test]
fn parse_image_line_with_empty_tag() {
    let parsed = parse("IMG a.png ", "p.csv").unwrap();
    assert_eq!(parsed.record.display_text, "IMG");
    assert_eq!(parsed.image, Some(ImagePathEntry { tag: "".to_string(), path: "a.png".to_string() }));
}

#[test]
fn parse_sentinel_is_case_sensitive_and_whole() {
    assert_eq!(parse("img a.png cat", "p.csv"), Ok(plain("img a.png cat", "p.csv")));
    assert_eq!(parse("IMGS a.png cat", "p.csv"), Ok(plain("IMGS a.png cat", "p.csv")));
    assert_eq!(parse(" IMG a.png cat", "p.csv"), Ok(plain("IMG a.png cat", "p.csv")));
}

#[test]
fn is_sentinel_only_for_the_sentinel() {
    assert!(is_sentinel("IMG"));
    assert!(!is_sentinel("IM"));
    assert!(!is_sentinel("IMG "));
    assert!(!is_sentinel("img"));
    assert!(!is_sentinel(""));
}
