//! The built-in postprocessor stages: line-break normalization, tag-based
//! inclusion/exclusion filtering, tag removal, and frontmatter-driven
//! destination resolution.

use vstd::prelude::*;

use crate::events::Event;
use crate::path::{
    clone_string, shared_root_of, spec_join, spec_parent, spec_parse_path, spec_shared_root,
    FilePath, PathModel,
};
use crate::strutil::{
    file_stem, replace, spec_file_stem, spec_replace, spec_starts_with, starts_with,
};
use crate::value::{spec_find, spec_fm_str, spec_get, Frontmatter, Value};
use crate::{AssetCopy, Context, CopyModel, PostprocessorResult};

verus! {

/// Configuration of one stage of the chain, fixed at construction time.
#[derive(Debug, PartialEq, Eq)]
pub enum Stage {
    /// Rewrite every soft line break to a hard one.
    SoftbreaksToHardbreaks,
    /// Rewrite the note's destination from its `export_to` frontmatter
    /// field and plan the relocation of locally-referenced images.
    DestinationFromFrontmatter,
    /// Veto the note when a tag of `skip_tags` matches, or when
    /// `only_tags` is non-empty and none of its tags matches.
    FilterByTags { skip_tags: Vec<String>, only_tags: Vec<String> },
    /// Strip every tag of `to_remove` from the frontmatter's tag list.
    RemoveSpecifiedTags { to_remove: Vec<String> },
}

/// Builds the tag-filtering stage from its deny and allow lists.
pub fn filter_by_tags(skip_tags: Vec<String>, only_tags: Vec<String>) -> (r: Stage)
    ensures
        r == (Stage::FilterByTags { skip_tags, only_tags }),
{
    Stage::FilterByTags { skip_tags, only_tags }
}

/// Builds the tag-removal stage from the list of tags to strip.
pub fn remove_specified_tags(to_remove: Vec<String>) -> (r: Stage)
    ensures
        r == (Stage::RemoveSpecifiedTags { to_remove }),
{
    Stage::RemoveSpecifiedTags { to_remove }
}

// ---------------------------------------------------------------------
// Line-break normalization
// ---------------------------------------------------------------------

/// A soft break becomes a hard break; every other event is itself.
pub open spec fn spec_normalize_event(e: Event) -> Event {
    match e {
        Event::SoftBreak => Event::HardBreak,
        _ => e,
    }
}

/// The stream with every soft break become a hard break and every other
/// event, the length and the order untouched.
pub open spec fn spec_normalize_stream(s: Seq<Event>) -> Seq<Event> {
    s.map_values(|e: Event| spec_normalize_event(e))
}

/// Rewrites every soft line break in the stream to a hard line break;
/// every other event, the stream's length and its order are untouched.
pub fn softbreaks_to_hardbreaks(context: &mut Context, events: &mut Vec<Event>) -> (r:
    PostprocessorResult)
    ensures
        r == PostprocessorResult::Continue,
        *final(context) == *old(context),
        final(events)@ == spec_normalize_stream(old(events)@),
{
    let n = events.len();
    let mut i: usize = 0;
    while i < n
        invariant
            0 <= i <= n,
            n == events@.len(),
            events@.len() == old(events)@.len(),
            forall|j: int| 0 <= j < i ==> events@[j] == spec_normalize_event(old(events)@[j]),
            forall|j: int| i <= j < n ==> events@[j] == old(events)@[j],
        decreases n - i,
    {
        let replace = match &events[i] {
            Event::SoftBreak => true,
            _ => false,
        };
        if replace {
            events[i] = Event::HardBreak;
        }
        i += 1;
    }
    assert(events@ =~= old(events)@.map_values(|e: Event| spec_normalize_event(e)));
    PostprocessorResult::Continue
}

/// Normalizing line breaks twice yields the same stream as normalizing
/// them once.
pub proof fn lemma_normalize_idempotent(s: Seq<Event>)
    ensures
        spec_normalize_stream(spec_normalize_stream(s)) == spec_normalize_stream(s),
{
    assert(spec_normalize_stream(spec_normalize_stream(s)) =~= spec_normalize_stream(s));
}

/// After normalization no soft break remains in the stream.
pub proof fn lemma_normalized_has_no_softbreaks(s: Seq<Event>)
    ensures
        forall|i: int|
            0 <= i < s.len() ==> !((#[trigger] spec_normalize_stream(s)[i]) is SoftBreak),
{
}

// ---------------------------------------------------------------------
// Tag-based filtering
// ---------------------------------------------------------------------

/// `v` is the string value `t`.
pub open spec fn spec_value_is_tag(v: Value, t: Seq<char>) -> bool {
    v matches Value::Str(s) && s@ == t
}

/// Some element of `tags` is the string value `t`.
pub open spec fn spec_has_tag(tags: Seq<Value>, t: Seq<char>) -> bool {
    exists|i: int| 0 <= i < tags.len() && spec_value_is_tag(#[trigger] tags[i], t)
}

/// Some element of `tags` is a string of `list`.
pub open spec fn spec_any_in(tags: Seq<Value>, list: Seq<Seq<char>>) -> bool {
    exists|j: int| 0 <= j < list.len() && spec_has_tag(tags, #[trigger] list[j])
}

/// The filter's decision over a note's tag list: veto when a deny-listed
/// tag matches, or when the allow list is non-empty and no allowed tag
/// matches; the deny list always wins.
pub open spec fn spec_filter_verdict_(
    tags: Seq<Value>,
    skip: Seq<Seq<char>>,
    only: Seq<Seq<char>>,
) -> PostprocessorResult {
    let skip_hit = spec_any_in(tags, skip);
    let allowed = only.len() == 0 || spec_any_in(tags, only);
    if skip_hit || !allowed {
        PostprocessorResult::StopAndSkipNote
    } else {
        PostprocessorResult::Continue
    }
}

/// The filter's decision over a whole frontmatter: an absent `tags`
/// field, and equally a present but non-list one (malformed metadata
/// reads as field absent), gives the empty tag list. With an empty tag
/// list the note is kept exactly when no allow list is configured.
pub open spec fn spec_filter_verdict(
    fm: Frontmatter,
    skip: Seq<Seq<char>>,
    only: Seq<Seq<char>>,
) -> PostprocessorResult {
    match spec_get(fm.entries@, "tags"@) {
        Some(Value::List(tags)) => spec_filter_verdict_(tags@, skip, only),
        _ => spec_filter_verdict_(Seq::<Value>::empty(), skip, only),
    }
}

/// The deny list always wins: a note bearing a deny-listed tag is vetoed
/// whatever the allow list says.
pub proof fn lemma_deny_wins(tags: Seq<Value>, skip: Seq<Seq<char>>, only: Seq<Seq<char>>)
    requires
        spec_any_in(tags, skip),
    ensures
        spec_filter_verdict_(tags, skip, only) == PostprocessorResult::StopAndSkipNote,
{
}

/// Decides whether some element of `tags` is the string `t`.
fn has_tag(tags: &Vec<Value>, t: &String) -> (r: bool)
    ensures
        r == spec_has_tag(tags@, t@),
{
    let n = tags.len();
    let mut i: usize = 0;
    while i < n
        invariant
            0 <= i <= n,
            n == tags@.len(),
            forall|k: int| 0 <= k < i ==> !spec_value_is_tag(#[trigger] tags@[k], t@),
        decreases n - i,
    {
        let hit = match &tags[i] {
            Value::Str(s) => crate::path::strings_equal(s, t),
            _ => false,
        };
        if hit {
            assert(spec_value_is_tag(tags@[i as int], t@));
            return true;
        }
        i += 1;
    }
    false
}

/// Decides whether some element of `tags` is a string of `list`.
fn any_tag_in(tags: &Vec<Value>, list: &Vec<String>) -> (r: bool)
    ensures
        r == spec_any_in(tags@, list.deep_view()),
{
    let n = list.len();
    let mut j: usize = 0;
    while j < n
        invariant
            0 <= j <= n,
            n == list@.len(),
            forall|k: int| 0 <= k < j ==> !spec_has_tag(tags@, #[trigger] list.deep_view()[k]),
        decreases n - j,
    {
        if has_tag(tags, &list[j]) {
            assert(spec_has_tag(tags@, list.deep_view()[j as int]));
            return true;
        }
        j += 1;
    }
    false
}

/// Decides the filter's verdict over an explicit tag list.
pub fn filter_by_tags_(tags: &Vec<Value>, skip_tags: &Vec<String>, only_tags: &Vec<String>) -> (r:
    PostprocessorResult)
    ensures
        r == spec_filter_verdict_(tags@, skip_tags.deep_view(), only_tags.deep_view()),
{
    let skip = any_tag_in(tags, skip_tags);
    let allowed = only_tags.len() == 0 || any_tag_in(tags, only_tags);
    if skip || !allowed {
        PostprocessorResult::StopAndSkipNote
    } else {
        PostprocessorResult::Continue
    }
}

/// Runs the tag filter over the note: decides from the frontmatter's
/// `tags` field whether the note is kept; nothing is mutated.
pub fn run_tag_filter(
    skip_tags: &Vec<String>,
    only_tags: &Vec<String>,
    context: &mut Context,
    events: &mut Vec<Event>,
) -> (r: PostprocessorResult)
    ensures
        *final(context) == *old(context),
        *final(events) == *old(events),
        r == spec_filter_verdict(
            old(context).frontmatter,
            skip_tags.deep_view(),
            only_tags.deep_view(),
        ),
{
    let empty: Vec<Value> = Vec::new();
    match context.frontmatter.get("tags") {
        Some(v) => match v {
            Value::List(tags) => filter_by_tags_(tags, skip_tags, only_tags),
            _ => filter_by_tags_(&empty, skip_tags, only_tags),
        },
        None => filter_by_tags_(&empty, skip_tags, only_tags),
    }
}

// ---------------------------------------------------------------------
// Tag removal
// ---------------------------------------------------------------------

/// How a tag-list element reads as text: its string value. The fallback
/// arm keeps the function total; the remover only reads elements of
/// well-typed lists, which hold no non-string element.
pub open spec fn spec_tag_text(v: Value) -> Seq<char> {
    match v {
        Value::Str(s) => s@,
        _ => Seq::<char>::empty(),
    }
}

/// Every element of the list is a string: the well-typedness asked of a
/// `tags` field.
pub open spec fn spec_string_list(tags: Seq<Value>) -> bool {
    forall|i: int| 0 <= i < tags.len() ==> (#[trigger] tags[i]) is Str
}

/// The texts of `tags`, in order, with every text of `remove` left out.
pub open spec fn spec_remove_tags(tags: Seq<Value>, remove: Seq<Seq<char>>) -> Seq<Seq<char>>
    decreases tags.len(),
{
    if tags.len() == 0 {
        Seq::<Seq<char>>::empty()
    } else {
        let rest = spec_remove_tags(tags.drop_last(), remove);
        let t = spec_tag_text(tags.last());
        if remove.contains(t) {
            rest
        } else {
            rest.push(t)
        }
    }
}

/// The tag texts the remover writes back: a well-typed tag list with
/// every removed text left out. An absent `tags` field, a non-list one,
/// and a list holding any non-string element (malformed metadata reads
/// as field absent) all give the empty list.
pub open spec fn spec_removed_tags(fm: Frontmatter, remove: Seq<Seq<char>>) -> Seq<Seq<char>> {
    match spec_get(fm.entries@, "tags"@) {
        Some(Value::List(tags)) => if spec_string_list(tags@) {
            spec_remove_tags(tags@, remove)
        } else {
            Seq::<Seq<char>>::empty()
        },
        _ => Seq::<Seq<char>>::empty(),
    }
}

/// The elements of a tag list read as texts, in order.
pub open spec fn spec_texts(tags: Seq<Value>) -> Seq<Seq<char>> {
    tags.map_values(|v: Value| spec_tag_text(v))
}

/// The texts of a tag list with every text of `remove` filtered out.
pub open spec fn spec_filtered_texts(tags: Seq<Value>, remove: Seq<Seq<char>>) -> Seq<Seq<char>> {
    spec_texts(tags).filter(|t: Seq<char>| !remove.contains(t))
}

/// What the remover writes is exactly the input read as texts with every
/// configured tag filtered out, order preserved.
pub proof fn lemma_remove_tags_is_filter(tags: Seq<Value>, remove: Seq<Seq<char>>)
    ensures
        spec_remove_tags(tags, remove) == spec_filtered_texts(tags, remove),
    decreases tags.len(),
{
    reveal(Seq::filter);
    if tags.len() == 0 {
        assert(spec_texts(tags) =~= Seq::<Seq<char>>::empty());
        assert(spec_remove_tags(tags, remove) =~= spec_filtered_texts(tags, remove));
    } else {
        lemma_remove_tags_is_filter(tags.drop_last(), remove);
        assert(spec_texts(tags).drop_last() =~= spec_texts(tags.drop_last()));
        assert(spec_texts(tags).last() == spec_tag_text(tags.last()));
        assert(spec_remove_tags(tags, remove) =~= spec_filtered_texts(tags, remove));
    }
}

/// No configured tag survives removal: a text of the removal list never
/// occurs in the tag list the remover writes back.
pub proof fn lemma_remove_tags_excludes(tags: Seq<Value>, remove: Seq<Seq<char>>, t: Seq<char>)
    requires
        remove.contains(t),
    ensures
        !spec_remove_tags(tags, remove).contains(t),
    decreases tags.len(),
{
    if tags.len() > 0 {
        lemma_remove_tags_excludes(tags.drop_last(), remove, t);
        let rest = spec_remove_tags(tags.drop_last(), remove);
        let last = spec_tag_text(tags.last());
        if !remove.contains(last) {
            assert forall|i: int| 0 <= i < rest.push(last).len() implies rest.push(last)[i]
                != t by {
                if i < rest.len() {
                    assert(!rest.contains(t));
                }
            }
        }
    }
}

/// `v` is a list value holding exactly the strings `texts`, in order.
pub open spec fn spec_is_str_list(v: Value, texts: Seq<Seq<char>>) -> bool {
    v matches Value::List(l) && l@.len() == texts.len() && (forall|i: int|
        0 <= i < texts.len() ==> spec_value_is_tag(#[trigger] l@[i], texts[i]))
}

/// `new_e` is `old_e` with the `tags` entry set to a list of exactly the
/// strings `texts`: an existing entry keeps its place and its stored key;
/// otherwise a `tags` entry is appended.
pub open spec fn spec_tags_update(
    old_e: Seq<(String, Value)>,
    new_e: Seq<(String, Value)>,
    texts: Seq<Seq<char>>,
) -> bool {
    match spec_find(old_e, "tags"@) {
        Some(i) => new_e.len() == old_e.len() && (forall|j: int|
            0 <= j < old_e.len() && j != i ==> new_e[j] == old_e[j]) && new_e[i].0 == old_e[i].0
            && spec_is_str_list(new_e[i].1, texts),
        None => new_e.len() == old_e.len() + 1 && new_e.take(old_e.len() as int) == old_e
            && new_e.last().0@ == "tags"@ && spec_is_str_list(new_e.last().1, texts),
    }
}

/// Decides whether `list` holds a string reading `t`.
fn contains_string(list: &Vec<String>, t: &String) -> (r: bool)
    ensures
        r == list.deep_view().contains(t@),
{
    let n = list.len();
    let mut j: usize = 0;
    while j < n
        invariant
            0 <= j <= n,
            n == list@.len(),
            forall|k: int| 0 <= k < j ==> list.deep_view()[k] != t@,
        decreases n - j,
    {
        if crate::path::strings_equal(&list[j], t) {
            assert(list.deep_view()[j as int] == t@);
            return true;
        }
        j += 1;
    }
    assert(!list.deep_view().contains(t@));
    false
}

/// Decides whether every element of `tags` is a string.
fn all_strings(tags: &Vec<Value>) -> (r: bool)
    ensures
        r == spec_string_list(tags@),
{
    let n = tags.len();
    let mut i: usize = 0;
    while i < n
        invariant
            0 <= i <= n,
            n == tags@.len(),
            forall|k: int| 0 <= k < i ==> (#[trigger] tags@[k]) is Str,
        decreases n - i,
    {
        let is_str = match &tags[i] {
            Value::Str(_) => true,
            _ => false,
        };
        if !is_str {
            assert(!(tags@[i as int] is Str));
            return false;
        }
        i += 1;
    }
    true
}

/// Runs the tag remover over the note: rewrites the frontmatter's `tags`
/// field to its old string elements with every configured tag left out,
/// creating the field (as an empty list) when it was absent, not a list,
/// or a list holding any non-string element. Nothing else is mutated.
pub fn run_tag_remover(
    to_remove: &Vec<String>,
    context: &mut Context,
    events: &mut Vec<Event>,
) -> (r: PostprocessorResult)
    ensures
        r == PostprocessorResult::Continue,
        *final(events) == *old(events),
        final(context).current_file == old(context).current_file,
        final(context).destination == old(context).destination,
        spec_tags_update(
            old(context).frontmatter.entries@,
            final(context).frontmatter.entries@,
            spec_removed_tags(old(context).frontmatter, to_remove.deep_view()),
        ),
{
    let mut result_tags: Vec<String> = Vec::new();
    let has_list = match context.frontmatter.get("tags") {
        Some(v) => match v {
            Value::List(tags) => {
                if all_strings(tags) {
                    let n = tags.len();
                    let mut i: usize = 0;
                    while i < n
                        invariant
                            0 <= i <= n,
                            n == tags@.len(),
                            result_tags.deep_view() == spec_remove_tags(
                                tags@.take(i as int),
                                to_remove.deep_view(),
                            ),
                        decreases n - i,
                    {
                        let text = match &tags[i] {
                            Value::Str(s) => clone_string(s),
                            _ => String::new(),
                        };
                        assert(text@ == spec_tag_text(tags@[i as int]));
                        let ghost tv = text@;
                        let ghost before = result_tags.deep_view();
                        if !contains_string(to_remove, &text) {
                            result_tags.push(text);
                            assert(result_tags.deep_view() =~= before.push(tv));
                        }
                        i += 1;
                        proof {
                            let taken = tags@.take(i as int);
                            assert(taken.drop_last() =~= tags@.take(i - 1));
                            assert(taken.last() == tags@[i - 1]);
                            if !to_remove.deep_view().contains(spec_tag_text(tags@[i - 1])) {
                                assert(result_tags.deep_view() =~= before.push(
                                    spec_tag_text(tags@[i - 1]),
                                ));
                            }
                        }
                    }
                    assert(tags@.take(n as int) =~= tags@);
                    true
                } else {
                    false
                }
            },
            _ => false,
        },
        None => false,
    };
    if !has_list {
        assert(result_tags.deep_view() =~= Seq::<Seq<char>>::empty());
    }
    let mut vals: Vec<Value> = Vec::new();
    let m = result_tags.len();
    let mut k: usize = 0;
    while k < m
        invariant
            0 <= k <= m,
            m == result_tags@.len(),
            vals@.len() == k,
            forall|j: int|
                0 <= j < k ==> spec_value_is_tag(
                    #[trigger] vals@[j],
                    result_tags.deep_view()[j],
                ),
        decreases m - k,
    {
        let text = clone_string(&result_tags[k]);
        vals.push(Value::Str(text));
        k += 1;
    }
    let ghost texts = result_tags.deep_view();
    let ghost old_entries = context.frontmatter.entries@;
    let new_val = Value::List(vals);
    let ghost nv = new_val;
    context.frontmatter.insert("tags".to_owned(), new_val);
    proof {
        assert(spec_is_str_list(nv, texts));
        crate::value::lemma_find_in_range(old_entries, "tags"@);
        match spec_find(old_entries, "tags"@) {
            Some(i) => {
                assert(context.frontmatter.entries@[i] == (old_entries[i].0, nv));
                assert(forall|j: int|
                    0 <= j < old_entries.len() && j != i
                        ==> context.frontmatter.entries@[j] == old_entries[j]);
            },
            None => {
                assert(context.frontmatter.entries@.take(old_entries.len() as int) =~= old_entries);
                assert(context.frontmatter.entries@.last().1 == nv);
            },
        }
    }
    PostprocessorResult::Continue
}

// ---------------------------------------------------------------------
// Destination resolution
// ---------------------------------------------------------------------

/// The slug of a title: what `slug::slugify` returns for it.
pub uninterp spec fn slug_of(s: Seq<char>) -> Seq<char>;

/// Relies on slug::slugify: a URL/filesystem-safe slug of the title,
/// depending on the title's characters alone. Its documentation promises
/// that the result consists of `a`–`z`, `0`–`9` and `-` alone — so in
/// particular it holds no `/` and cannot add path separators to a
/// destination template.
#[verifier::external_body]
fn slugify(title: &str) -> (r: String)
    ensures
        r@ == slug_of(title@),
        forall|i: int|
            0 <= i < r@.len() ==> ('a' <= (#[trigger] r@[i]) && r@[i] <= 'z') || ('0' <= r@[i]
                && r@[i] <= '9') || r@[i] == '-',
{
    slug::slugify(title)
}

/// The note's date text: the frontmatter's `date` field when it holds a
/// string, else `1970-01-01`.
pub open spec fn spec_date(fm: Frontmatter) -> Seq<char> {
    match spec_fm_str(fm, "date"@) {
        Some(d) => d,
        None => "1970-01-01"@,
    }
}

/// The note's title text: the frontmatter's `title` field when it holds a
/// string, else the source file's base name without its extension.
pub open spec fn spec_title(ctx: Context) -> Seq<char> {
    match spec_fm_str(ctx.frontmatter, "title"@) {
        Some(t) => t,
        None => spec_file_stem(ctx.current_file@.segments.last()),
    }
}

/// The `export_to` template with `:date` replaced by the note's date and,
/// after that, `:title` by the slug of its title.
pub open spec fn spec_substituted(ctx: Context, template: Seq<char>) -> Seq<char> {
    spec_replace(
        spec_replace(template, ":date"@, spec_date(ctx.frontmatter)),
        ":title"@,
        slug_of(spec_title(ctx)),
    )
}

/// The shared root that the template is anchored at: what is left of the
/// default destination after walking it and the source path upward from
/// their leaves while their final components agree.
pub open spec fn spec_template_root(ctx: Context) -> PathModel {
    PathModel {
        absolute: ctx.destination@.absolute,
        segments: spec_shared_root(ctx.current_file@.segments, ctx.destination@.segments),
    }
}

/// Where the note goes: with an `export_to` string in the frontmatter,
/// the substituted template anchored at the shared root; otherwise the
/// destination stands unchanged.
pub open spec fn spec_new_destination(ctx: Context) -> PathModel {
    match spec_fm_str(ctx.frontmatter, "export_to"@) {
        Some(t) => spec_join(spec_template_root(ctx), spec_parse_path(spec_substituted(ctx, t))),
        None => ctx.destination@,
    }
}

/// An image URL that is neither a remote URL nor an absolute filesystem
/// path: such an image is relocated along with the note.
pub open spec fn spec_is_relative_local(url: Seq<char>) -> bool {
    !spec_starts_with(url, "https://"@) && !spec_starts_with(url, "/"@)
}

/// The planned copy for one locally-referenced image: the URL resolved
/// against the source note's directory, copied to the URL resolved
/// against the new destination's directory.
pub open spec fn spec_copy_for(ctx: Context, newdest: PathModel, url: Seq<char>) -> CopyModel {
    CopyModel {
        source: spec_join(spec_parent(ctx.current_file@), spec_parse_path(url)),
        target: spec_join(spec_parent(newdest), spec_parse_path(url)),
    }
}

/// The planned copies for every relative local image of the stream, in
/// stream order.
pub open spec fn spec_event_copies(ctx: Context, newdest: PathModel, events: Seq<Event>) -> Seq<
    CopyModel,
>
    decreases events.len(),
{
    if events.len() == 0 {
        Seq::<CopyModel>::empty()
    } else {
        let rest = spec_event_copies(ctx, newdest, events.drop_last());
        match events.last() {
            Event::Image { url, title } => if spec_is_relative_local(url@) {
                rest.push(spec_copy_for(ctx, newdest, url@))
            } else {
                rest
            },
            _ => rest,
        }
    }
}

/// The stage's whole copy plan: empty without an `export_to` string,
/// else the copies for every relative local image.
pub open spec fn spec_asset_copies(ctx: Context, events: Seq<Event>) -> Seq<CopyModel> {
    match spec_fm_str(ctx.frontmatter, "export_to"@) {
        Some(_) => spec_event_copies(ctx, spec_new_destination(ctx), events),
        None => Seq::<CopyModel>::empty(),
    }
}

/// Rewrites the note's destination from the frontmatter's `export_to`
/// template — `:date` and `:title` substituted, the result anchored at
/// the shared root of the source path and the default destination — and
/// plans one copy for every locally-referenced image so that its relative
/// link keeps working at the new destination. Without an `export_to`
/// string the stage changes nothing and plans nothing. The event stream
/// is never mutated, and the note is never vetoed.
pub fn destination_from_frontmatter(context: &mut Context, events: &mut Vec<Event>) -> (r: (
    PostprocessorResult,
    Vec<AssetCopy>,
))
    requires
        old(context).current_file@.segments.len() > 0,
    ensures
        r.0 == PostprocessorResult::Continue,
        *final(events) == *old(events),
        final(context).frontmatter == old(context).frontmatter,
        final(context).current_file == old(context).current_file,
        final(context).destination@ == spec_new_destination(*old(context)),
        r.1.deep_view() == spec_asset_copies(*old(context), old(events)@),
{
    let date = match context.frontmatter.get_str("date") {
        Some(d) => d,
        None => "1970-01-01".to_owned(),
    };
    assert(date@ == spec_date(old(context).frontmatter));
    let title = match context.frontmatter.get_str("title") {
        Some(t) => t,
        None => {
            let k = context.current_file.segments.len();
            assert(context.current_file.segments@[k - 1]@ == context.current_file@.segments.last());
            file_stem(context.current_file.segments[k - 1].as_str())
        },
    };
    assert(title@ == spec_title(*old(context)));
    let slug = slugify(title.as_str());
    match context.frontmatter.get_str("export_to") {
        Some(template) => {
            proof {
                reveal_strlit(":date");
                reveal_strlit(":title");
            }
            let partly = replace(template.as_str(), ":date", date.as_str());
            let target = replace(partly.as_str(), ":title", slug.as_str());
            assert(target@ == spec_substituted(*old(context), template@));
            let root = shared_root_of(&context.current_file, &context.destination);
            let rel = FilePath::parse(target.as_str());
            let newdest = root.join(&rel);
            context.destination = newdest;
            assert(context.destination@ == spec_new_destination(*old(context)));
            let src_parent = context.current_file.parent();
            let dst_parent = context.destination.parent();
            let mut copies: Vec<AssetCopy> = Vec::new();
            let n = events.len();
            let mut i: usize = 0;
            proof {
                assert(copies.deep_view() =~= spec_event_copies(
                    *old(context),
                    context.destination@,
                    events@.take(0),
                ));
            }
            while i < n
                invariant
                    0 <= i <= n,
                    n == events@.len(),
                    src_parent@ == spec_parent(old(context).current_file@),
                    dst_parent@ == spec_parent(context.destination@),
                    copies.deep_view() == spec_event_copies(
                        *old(context),
                        context.destination@,
                        events@.take(i as int),
                    ),
                decreases n - i,
            {
                let ghost before = copies.deep_view();
                match &events[i] {
                    Event::Image { url, title: _ } => {
                        if !starts_with(url.as_str(), "https://") && !starts_with(
                            url.as_str(),
                            "/",
                        ) {
                            let relurl = FilePath::parse(url.as_str());
                            let source = src_parent.join(&relurl);
                            let target_path = dst_parent.join(&relurl);
                            copies.push(AssetCopy { source, target: target_path });
                            assert(copies.deep_view() =~= before.push(
                                spec_copy_for(
                                    *old(context),
                                    context.destination@,
                                    events@[i as int]->Image_url@,
                                ),
                            ));
                        }
                    },
                    _ => {},
                }
                i += 1;
                proof {
                    let taken = events@.take(i as int);
                    assert(taken.drop_last() =~= events@.take(i - 1));
                    assert(taken.last() == events@[i - 1]);
                }
            }
            assert(events@.take(n as int) =~= events@);
            (PostprocessorResult::Continue, copies)
        },
        None => {
            let copies: Vec<AssetCopy> = Vec::new();
            assert(copies.deep_view() =~= Seq::<CopyModel>::empty());
            (PostprocessorResult::Continue, copies)
        },
    }
}

} // verus!
