use note_pipeline::events::Event;
use note_pipeline::path::FilePath;
use note_pipeline::postprocessors::{
    filter_by_tags_, run_tag_filter, run_tag_remover, softbreaks_to_hardbreaks,
};
use note_pipeline::value::{Frontmatter, Value};
use note_pipeline::{Context, PostprocessorResult};

fn s(x: &str) -> String {
    x.to_string()
}

fn context_with(entries: Vec<(String, Value)>) -> Context {
    Context {
        frontmatter: Frontmatter { entries },
        current_file: FilePath::parse("a/b/note.md"),
        destination: FilePath::parse("out/b/note.md"),
    }
}

#[test]
fn test_filter_tags() {
    let tags = vec![Value::Str(s("skip")), Value::Str(s("publish"))];
    let empty_tags = vec![];
    let no_strings: Vec<String> = vec![];
    assert_eq!(
        filter_by_tags_(&empty_tags, &no_strings, &no_strings),
        PostprocessorResult::Continue,
        "When no exclusion & inclusion are specified, files without tags are included"
    );
    assert_eq!(
        filter_by_tags_(&tags, &no_strings, &no_strings),
        PostprocessorResult::Continue,
        "When no exclusion & inclusion are specified, files with tags are included"
    );
    assert_eq!(
        filter_by_tags_(&tags, &vec![s("exclude")], &no_strings),
        PostprocessorResult::Continue,
        "When exclusion tags don't match files with tags are included"
    );
    assert_eq!(
        filter_by_tags_(&empty_tags, &vec![s("exclude")], &no_strings),
        PostprocessorResult::Continue,
        "When exclusion tags don't match files without tags are included"
    );
    assert_eq!(
        filter_by_tags_(&tags, &no_strings, &vec![s("publish")]),
        PostprocessorResult::Continue,
        "When exclusion tags don't match files with tags are included"
    );
    assert_eq!(
        filter_by_tags_(&empty_tags, &no_strings, &vec![s("include")]),
        PostprocessorResult::StopAndSkipNote,
        "When inclusion tags are specified files without tags are excluded"
    );
    assert_eq!(
        filter_by_tags_(&tags, &no_strings, &vec![s("include")]),
        PostprocessorResult::StopAndSkipNote,
        "When exclusion tags don't match files with tags are exluded"
    );
    assert_eq!(
        filter_by_tags_(&tags, &vec![s("skip")], &vec![s("skip")]),
        PostprocessorResult::StopAndSkipNote,
        "When both inclusion and exclusion tags are the same exclusion wins"
    );
    assert_eq!(
        filter_by_tags_(&tags, &vec![s("skip")], &vec![s("publish")]),
        PostprocessorResult::StopAndSkipNote,
        "When both inclusion and exclusion tags match exclusion wins"
    );
}

#[test]
fn softbreaks_become_hardbreaks() {
    let mut ctx = context_with(vec![]);
    let mut events = vec![
        Event::SoftBreak,
        Event::Text(s("hello")),
        Event::HardBreak,
        Event::SoftBreak,
        Event::Other,
        Event::Image { url: s("img.png"), title: s("") },
    ];
    let verdict = softbreaks_to_hardbreaks(&mut ctx, &mut events);
    assert_eq!(verdict, PostprocessorResult::Continue);
    assert_eq!(
        events,
        vec![
            Event::HardBreak,
            Event::Text(s("hello")),
            Event::HardBreak,
            Event::HardBreak,
            Event::Other,
            Event::Image { url: s("img.png"), title: s("") },
        ]
    );
    assert_eq!(ctx, context_with(vec![]));
}

#[test]
fn softbreak_normalization_is_idempotent() {
    let mut ctx = context_with(vec![]);
    let mut events = vec![Event::SoftBreak, Event::Text(s("x")), Event::SoftBreak];
    softbreaks_to_hardbreaks(&mut ctx, &mut events);
    let once = vec![Event::HardBreak, Event::Text(s("x")), Event::HardBreak];
    assert_eq!(events, once);
    softbreaks_to_hardbreaks(&mut ctx, &mut events);
    assert_eq!(events, once);
}

#[test]
fn remover_strips_configured_tags_in_order() {
    let mut ctx = context_with(vec![(
        s("tags"),
        Value::List(vec![
            Value::Str(s("alpha")),
            Value::Str(s("drop")),
            Value::Str(s("beta")),
            Value::Str(s("drop")),
            Value::Str(s("gamma")),
        ]),
    )]);
    let mut events = vec![];
    let verdict = run_tag_remover(&vec![s("drop")], &mut ctx, &mut events);
    assert_eq!(verdict, PostprocessorResult::Continue);
    assert_eq!(
        ctx.frontmatter.entries,
        vec![(
            s("tags"),
            Value::List(vec![
                Value::Str(s("alpha")),
                Value::Str(s("beta")),
                Value::Str(s("gamma")),
            ]),
        )]
    );
}

#[test]
fn remover_creates_empty_tag_list_when_field_absent() {
    let mut ctx = context_with(vec![(s("title"), Value::Str(s("t")))]);
    let mut events = vec![];
    run_tag_remover(&vec![s("drop")], &mut ctx, &mut events);
    assert_eq!(
        ctx.frontmatter.entries,
        vec![(s("title"), Value::Str(s("t"))), (s("tags"), Value::List(vec![]))]
    );
}

#[test]
fn remover_replaces_malformed_tag_field_with_empty_list() {
    let mut ctx = context_with(vec![(s("tags"), Value::Str(s("not-a-list")))]);
    let mut events = vec![];
    run_tag_remover(&vec![], &mut ctx, &mut events);
    assert_eq!(ctx.frontmatter.entries, vec![(s("tags"), Value::List(vec![]))]);
}

#[test]
fn remover_treats_list_with_non_string_element_as_malformed() {
    let mut ctx = context_with(vec![(
        s("tags"),
        Value::List(vec![Value::Str(s("keep")), Value::Num(7), Value::Null]),
    )]);
    let mut events = vec![];
    run_tag_remover(&vec![], &mut ctx, &mut events);
    assert_eq!(ctx.frontmatter.entries, vec![(s("tags"), Value::List(vec![]))]);
}

#[test]
fn filter_treats_malformed_tags_as_empty() {
    // A present but non-list `tags` field reads as the empty tag set: the
    // note is kept without an allow list and vetoed with one.
    let mut events = vec![];
    let no_strings: Vec<String> = vec![];
    let mut ctx = context_with(vec![(s("tags"), Value::Str(s("not-a-list")))]);
    assert_eq!(
        run_tag_filter(&no_strings, &no_strings, &mut ctx, &mut events),
        PostprocessorResult::Continue
    );
    assert_eq!(
        run_tag_filter(&no_strings, &vec![s("publish")], &mut ctx, &mut events),
        PostprocessorResult::StopAndSkipNote
    );
    assert_eq!(
        run_tag_filter(&vec![s("not-a-list")], &no_strings, &mut ctx, &mut events),
        PostprocessorResult::Continue,
        "a malformed field holds no tags, so a deny list cannot match"
    );
}
