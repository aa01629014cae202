use note_pipeline::events::Event;
use note_pipeline::path::FilePath;
use note_pipeline::postprocessors::destination_from_frontmatter;
use note_pipeline::value::{Frontmatter, Value};
use note_pipeline::{Context, PostprocessorResult};

fn s(x: &str) -> String {
    x.to_string()
}

fn context(entries: Vec<(String, Value)>, current: &str, dest: &str) -> Context {
    Context {
        frontmatter: Frontmatter { entries },
        current_file: FilePath::parse(current),
        destination: FilePath::parse(dest),
    }
}

#[test]
fn resolves_destination_from_template() {
    let mut ctx = context(
        vec![
            (s("title"), Value::Str(s("My Note"))),
            (s("date"), Value::Str(s("2024-01-02"))),
            (s("export_to"), Value::Str(s(":date-:title.md"))),
        ],
        "a/b/note.md",
        "out/b/note.md",
    );
    let mut events = vec![];
    let (verdict, copies) = destination_from_frontmatter(&mut ctx, &mut events);
    assert_eq!(verdict, PostprocessorResult::Continue);
    assert_eq!(ctx.destination, FilePath::parse("out/2024-01-02-my-note.md"));
    assert!(copies.is_empty());
    assert_eq!(ctx.current_file, FilePath::parse("a/b/note.md"));
}

#[test]
fn plans_copy_of_adjacent_image() {
    let mut ctx = context(
        vec![
            (s("title"), Value::Str(s("My Note"))),
            (s("date"), Value::Str(s("2024-01-02"))),
            (s("export_to"), Value::Str(s(":date-:title.md"))),
        ],
        "a/b/note.md",
        "out/b/note.md",
    );
    let mut events = vec![
        Event::Text(s("see picture")),
        Event::Image { url: s("img.png"), title: s("") },
    ];
    let (_, copies) = destination_from_frontmatter(&mut ctx, &mut events);
    assert_eq!(copies.len(), 1);
    assert_eq!(copies[0].source, FilePath::parse("a/b/img.png"));
    assert_eq!(copies[0].target, FilePath::parse("out/img.png"));
    assert_eq!(
        events,
        vec![Event::Text(s("see picture")), Event::Image { url: s("img.png"), title: s("") }]
    );
}

#[test]
fn leaves_remote_and_absolute_images_alone() {
    let mut ctx = context(
        vec![(s("export_to"), Value::Str(s("exported.md")))],
        "a/b/note.md",
        "out/b/note.md",
    );
    let mut events = vec![
        Event::Image { url: s("https://example.com/pic.png"), title: s("") },
        Event::Image { url: s("/var/pic.png"), title: s("") },
        Event::Image { url: s("nested/pic.png"), title: s("") },
    ];
    let (_, copies) = destination_from_frontmatter(&mut ctx, &mut events);
    assert_eq!(copies.len(), 1);
    assert_eq!(copies[0].source, FilePath::parse("a/b/nested/pic.png"));
    assert_eq!(copies[0].target, FilePath::parse("out/nested/pic.png"));
}

#[test]
fn without_export_field_nothing_changes() {
    let mut ctx = context(
        vec![(s("title"), Value::Str(s("My Note")))],
        "a/b/note.md",
        "out/b/note.md",
    );
    let mut events = vec![Event::Image { url: s("img.png"), title: s("") }];
    let (verdict, copies) = destination_from_frontmatter(&mut ctx, &mut events);
    assert_eq!(verdict, PostprocessorResult::Continue);
    assert!(copies.is_empty());
    assert_eq!(ctx.destination, FilePath::parse("out/b/note.md"));
}

#[test]
fn non_string_export_field_is_ignored() {
    let mut ctx = context(
        vec![(s("export_to"), Value::Num(3))],
        "a/b/note.md",
        "out/b/note.md",
    );
    let mut events = vec![];
    let (_, copies) = destination_from_frontmatter(&mut ctx, &mut events);
    assert!(copies.is_empty());
    assert_eq!(ctx.destination, FilePath::parse("out/b/note.md"));
}

#[test]
fn absent_date_defaults_and_title_falls_back_to_file_stem() {
    let mut ctx = context(
        vec![(s("export_to"), Value::Str(s(":date-:title.md")))],
        "a/b/Winter Trip.md",
        "out/b/Winter Trip.md",
    );
    let mut events = vec![];
    destination_from_frontmatter(&mut ctx, &mut events);
    assert_eq!(ctx.destination, FilePath::parse("out/1970-01-01-winter-trip.md"));
}

#[test]
fn template_may_point_into_subdirectories() {
    let mut ctx = context(
        vec![
            (s("title"), Value::Str(s("Deep")),),
            (s("export_to"), Value::Str(s("archive/:title.md"))),
        ],
        "notes/topic/deep.md",
        "html/topic/deep.md",
    );
    let mut events = vec![Event::Image { url: s("img.png"), title: s("") }];
    let (_, copies) = destination_from_frontmatter(&mut ctx, &mut events);
    assert_eq!(ctx.destination, FilePath::parse("html/archive/deep.md"));
    assert_eq!(copies[0].source, FilePath::parse("notes/topic/img.png"));
    assert_eq!(copies[0].target, FilePath::parse("html/archive/img.png"));
}

#[test]
fn paths_without_shared_tail_anchor_at_destination_root() {
    let mut ctx = context(
        vec![(s("export_to"), Value::Str(s("x.md")))],
        "notes/a.md",
        "html/b.md",
    );
    let mut events = vec![];
    destination_from_frontmatter(&mut ctx, &mut events);
    assert_eq!(ctx.destination, FilePath::parse("html/b.md/x.md"));
}
