use rustimoji::catalog::{list_contains, origin_matches, Catalog, Snapshot};
use rustimoji::record::{ImagePathEntry, Record};

fn record(text: &str, origin: &str) -> Record {
    Record { display_text: text.to_string(), origin_tag: origin.to_string() }
}

fn entry(tag: &str, path: &str) -> ImagePathEntry {
    ImagePathEntry { tag: tag.to_string(), path: path.to_string() }
}

fn strings(items: &[&str]) -> Vec<String> {
    items.iter().map(|s| s.to_string()).collect()
}

fn sample() -> Catalog {
    let mut c = Catalog::empty();
    c.append(record("🐱 cat", "animals.csv"), None);
    c.append(record("🍕 pizza", "food.csv"), None);
    c.append(record("🐶 dog", "animals.csv"), None);
    c.append(record("IMG catface", "pics.csv"), Some(entry("catface", "icons/foo.png")));
    c
}

#[test]
fn empty_catalog_holds_nothing() {
    let c = Catalog::empty();
    assert!(c.is_empty());
    assert_eq!(c.len(), 0);
    assert_eq!(c.all(), Vec::<String>::new());
    assert!(!c.contains("🐱 cat"));
    assert_eq!(c.lookup_path("catface"), None);
}

#[test]
fn append_keeps_the_order_of_arrival() {
    let c = sample();
    assert_eq!(c.len(), 4);
    assert!(!c.is_empty());
    assert_eq!(c.all(), strings(&["🐱 cat", "🍕 pizza", "🐶 dog", "IMG catface"]));
}

#[test]
fn append_skips_a_text_that_is_present() {
    let mut c = sample();
    c.append(record("🍕 pizza", "other.csv"), None);
    c.append(record("🐱 cat", "animals.csv"), None);
    assert_eq!(c.all(), strings(&["🐱 cat", "🍕 pizza", "🐶 dog", "IMG catface"]));
    assert_eq!(c.snapshot().records[1], record("🍕 pizza", "food.csv"));
}

#[test]
fn append_skips_an_empty_text() {
    let mut c = Catalog::empty();
    c.append(record("", "a.csv"), None);
    assert!(c.is_empty());
    assert!(!c.contains(""));
}

#[test]
fn appends_never_leave_two_equal_texts() {
    let mut c = Catalog::empty();
    let texts = ["a b", "c d", "a b", "", "e f", "c d", "a b", "e f"];
    for t in texts {
        c.append(record(t, "x.csv"), None);
    }
    let all = c.all();
    assert_eq!(all, strings(&["a b", "c d", "e f"]));
    for i in 0..all.len() {
        for j in (i + 1)..all.len() {
            assert_ne!(all[i], all[j]);
        }
    }
}

#[test]
fn append_stores_the_path_even_for_a_known_record() {
    let mut c = sample();
    c.append(record("IMG catface", "pics.csv"), Some(entry("catface", "icons/new.png")));
    assert_eq!(c.len(), 4);
    assert_eq!(c.lookup_path("catface"), Some(&"icons/new.png".to_string()));
    c.append(record("", "pics.csv"), Some(entry("dog", "icons/dog.png")));
    assert_eq!(c.len(), 4);
    assert_eq!(c.lookup_path("dog"), Some(&"icons/dog.png".to_string()));
}

#[test]
fn lookup_path_finds_only_stored_tags() {
    let c = sample();
    assert_eq!(c.lookup_path("catface"), Some(&"icons/foo.png".to_string()));
    assert_eq!(c.lookup_path("catfac"), None);
    assert_eq!(c.lookup_path("Catface"), None);
    assert_eq!(c.lookup_path(""), None);
}

#[test]
fn contains_is_exact() {
    let c = sample();
    assert!(c.contains("🐶 dog"));
    assert!(!c.contains("🐶 dog "));
    assert!(!c.contains("dog"));
    assert!(!c.contains(""));
}

#[test]
fn promote_moves_the_record_to_the_front() {
    let mut c = sample();
    c.promote("🐶 dog");
    assert_eq!(c.all()[0], "🐶 dog");
    assert_eq!(c.all(), strings(&["🐶 dog", "🐱 cat", "🍕 pizza", "IMG catface"]));
    c.promote("IMG catface");
    assert_eq!(c.all(), strings(&["IMG catface", "🐶 dog", "🐱 cat", "🍕 pizza"]));
    c.promote("IMG catface");
    assert_eq!(c.all(), strings(&["IMG catface", "🐶 dog", "🐱 cat", "🍕 pizza"]));
    assert_eq!(c.snapshot().records[1], record("🐶 dog", "animals.csv"));
}

#[test]
fn promote_of_an_unknown_text_changes_nothing() {
    let mut c = sample();
    let before = c.snapshot();
    c.promote("🦊 fox");
    c.promote("");
    assert_eq!(c.snapshot(), before);
}

#[test]
fn filter_by_origin_keyword() {
    let c = sample();
    assert_eq!(c.filter_by_origin(&strings(&["animals"])), strings(&["🐱 cat", "🐶 dog"]));
    assert_eq!(c.filter_by_origin(&strings(&["food.csv"])), strings(&["🍕 pizza"]));
}

#[test]
fn filter_by_origin_matches_any_keyword() {
    let c = sample();
    assert_eq!(
        c.filter_by_origin(&strings(&["food", "pics"])),
        strings(&["🍕 pizza", "IMG catface"])
    );
    assert_eq!(c.filter_by_origin(&strings(&["nothing", "animals"])), strings(&["🐱 cat", "🐶 dog"]));
    assert_eq!(c.filter_by_origin(&strings(&[".csv"])), c.all());
}

#[test]
fn filter_by_origin_is_case_sensitive() {
    let c = sample();
    assert_eq!(c.filter_by_origin(&strings(&["Animals"])), Vec::<String>::new());
}

#[test]
fn filter_by_origin_without_keywords_is_empty() {
    let c = sample();
    assert_eq!(c.filter_by_origin(&Vec::new()), Vec::<String>::new());
}

#[test]
fn filter_by_origin_empty_keyword_matches_all() {
    let c = sample();
    assert_eq!(c.filter_by_origin(&strings(&[""])), c.all());
}

#[test]
fn origin_matches_any_keyword() {
    let origin = "animals.csv".to_string();
    assert!(origin_matches(&origin, &strings(&["x", "mal"])));
    assert!(!origin_matches(&origin, &strings(&["x", "y"])));
    assert!(!origin_matches(&origin, &Vec::new()));
}

#[test]
fn list_contains_is_exact() {
    let list = strings(&["a b", "c d"]);
    assert!(list_contains(&list, &"c d".to_string()));
    assert!(!list_contains(&list, &"c".to_string()));
    assert!(!list_contains(&Vec::new(), &"c".to_string()));
}

#[test]
fn retain_only_drops_the_others_in_place() {
    let mut c = sample();
    c.promote("🐶 dog");
    c.retain_only(&strings(&["IMG catface", "🐱 cat", "🦊 fox"]));
    assert_eq!(c.all(), strings(&["🐱 cat", "IMG catface"]));
    assert_eq!(c.lookup_path("catface"), Some(&"icons/foo.png".to_string()));
}

#[test]
fn retain_only_with_nothing_surviving_empties_the_records() {
    let mut c = sample();
    c.retain_only(&Vec::new());
    assert!(c.is_empty());
    assert_eq!(c.lookup_path("catface"), Some(&"icons/foo.png".to_string()));
}

#[test]
fn retain_only_with_all_surviving_changes_nothing() {
    let mut c = sample();
    let before = c.snapshot();
    let all = c.all();
    c.retain_only(&all);
    assert_eq!(c.snapshot(), before);
}

#[test]
fn snapshot_and_restore_round_trip() {
    let mut c = sample();
    c.append(record("IMG dog", "pics.csv"), Some(entry("dog", "icons/dog.png")));
    c.promote("🍕 pizza");
    let snapshot = c.snapshot();
    let back = Catalog::restore(Some(c.snapshot()));
    assert_eq!(back.snapshot(), snapshot);
    assert_eq!(back.all(), c.all());
    assert_eq!(back.all()[0], "🍕 pizza");
    assert_eq!(back.lookup_path("catface"), Some(&"icons/foo.png".to_string()));
    assert_eq!(back.lookup_path("dog"), Some(&"icons/dog.png".to_string()));
}

#[test]
fn snapshot_lists_records_and_paths() {
    let c = sample();
    let s = c.snapshot();
    assert_eq!(
        s.records,
        vec![
            record("🐱 cat", "animals.csv"),
            record("🍕 pizza", "food.csv"),
            record("🐶 dog", "animals.csv"),
            record("IMG catface", "pics.csv"),
        ]
    );
    assert_eq!(s.paths, vec![entry("catface", "icons/foo.png")]);
}

#[test]
fn restore_of_nothing_is_empty() {
    let c = Catalog::restore(None);
    assert!(c.is_empty());
    assert_eq!(c.snapshot(), Snapshot { records: Vec::new(), paths: Vec::new() });
}

#[test]
fn restore_repairs_a_damaged_snapshot() {
    let damaged = Snapshot {
        records: vec![
            record("a b", "x.csv"),
            record("", "x.csv"),
            record("a b", "y.csv"),
            record("c d", "y.csv"),
        ],
        paths: vec![entry("t", "old.png"), entry("u", "u.png"), entry("t", "new.png")],
    };
    let c = Catalog::restore(Some(damaged));
    assert_eq!(c.snapshot().records, vec![record("a b", "x.csv"), record("c d", "y.csv")]);
    assert_eq!(c.lookup_path("t"), Some(&"new.png".to_string()));
    assert_eq!(c.lookup_path("u"), Some(&"u.png".to_string()));
    assert_eq!(c.snapshot().paths.len(), 2);
}
