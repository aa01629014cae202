use note_pipeline::path::{shared_root_of, FilePath};
use note_pipeline::strutil::{file_stem, replace, split_segments, starts_with};
use note_pipeline::value::{Frontmatter, Value};

fn s(x: &str) -> String {
    x.to_string()
}

#[test]
fn replace_substitutes_every_occurrence() {
    assert_eq!(replace(":date-:date.md", ":date", "2024"), "2024-2024.md");
    assert_eq!(replace("no placeholder", ":date", "2024"), "no placeholder");
    assert_eq!(replace("", ":date", "2024"), "");
    assert_eq!(replace("aaa", "aa", "b"), "ba");
}

#[test]
fn starts_with_checks_prefixes() {
    assert!(starts_with("https://example.com", "https://"));
    assert!(!starts_with("http://example.com", "https://"));
    assert!(starts_with("/abs/path", "/"));
    assert!(!starts_with("", "/"));
}

#[test]
fn file_stem_drops_the_last_extension() {
    assert_eq!(file_stem("note.md"), "note");
    assert_eq!(file_stem("archive.tar.gz"), "archive.tar");
    assert_eq!(file_stem("no_extension"), "no_extension");
    assert_eq!(file_stem(".hidden"), ".hidden");
}

#[test]
fn parse_splits_paths_into_segments() {
    let p = FilePath::parse("a/b/c.md");
    assert!(!p.absolute);
    assert_eq!(p.segments, vec![s("a"), s("b"), s("c.md")]);
    let q = FilePath::parse("/r//x/");
    assert!(q.absolute);
    assert_eq!(q.segments, vec![s("r"), s("x")]);
}

#[test]
fn shared_root_strips_the_common_tail() {
    let from = FilePath::parse("a/b/note.md");
    let to = FilePath::parse("out/b/note.md");
    let root = shared_root_of(&from, &to);
    assert_eq!(root, FilePath::parse("out"));
    let disjoint = shared_root_of(&FilePath::parse("x/a.md"), &FilePath::parse("y/b.md"));
    assert_eq!(disjoint, FilePath::parse("y/b.md"));
}

#[test]
fn join_appends_or_replaces() {
    let root = FilePath::parse("out");
    assert_eq!(root.join(&FilePath::parse("a/b.md")), FilePath::parse("out/a/b.md"));
    assert_eq!(root.join(&FilePath::parse("/abs.md")), FilePath::parse("/abs.md"));
    assert_eq!(FilePath::parse("a/b").parent(), FilePath::parse("a"));
}

#[test]
fn frontmatter_lookup_and_insert() {
    let empty = Frontmatter::new();
    assert!(empty.entries.is_empty());
    let mut fm = Frontmatter { entries: vec![(s("date"), Value::Str(s("2024-01-02")))] };
    assert_eq!(fm.get_str("date"), Some(s("2024-01-02")));
    assert_eq!(fm.get_str("title"), None);
    assert_eq!(fm.get("missing"), None);
    fm.insert(s("date"), Value::Str(s("2025-06-07")));
    fm.insert(s("title"), Value::Str(s("new")));
    assert_eq!(
        fm.entries,
        vec![
            (s("date"), Value::Str(s("2025-06-07"))),
            (s("title"), Value::Str(s("new"))),
        ]
    );
    assert_eq!(fm.get_str("tags"), None);
}
