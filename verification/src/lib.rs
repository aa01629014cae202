//! A per-note postprocessing pipeline for a static-note exporter.
//!
//! Given a parsed stream of markdown structural events and a note's
//! frontmatter, the pipeline mutates the event stream, may redirect the
//! note's output location, may plan relocation of referenced local assets,
//! and may veto emission of the note entirely.

use vstd::prelude::*;

pub mod events;
pub mod path;
pub mod postprocessors;
pub mod strutil;
pub mod value;

use crate::events::Event;
use crate::path::{FilePath, PathModel};
use crate::postprocessors::{
    destination_from_frontmatter, run_tag_filter, run_tag_remover, softbreaks_to_hardbreaks,
    spec_asset_copies, spec_filter_verdict, spec_new_destination, spec_normalize_stream,
    spec_removed_tags, spec_tags_update, Stage,
};
use crate::value::Frontmatter;

verus! {

/// The verdict a postprocessor stage hands back to the chain.
///
/// `Continue` lets the next stage run (and, after the last stage, the note
/// be emitted); `StopAndSkipNote` aborts the remaining stages and discards
/// the note.
#[derive(Debug, Clone, Copy, PartialEq, Eq, Structural)]
pub enum PostprocessorResult {
    Continue,
    StopAndSkipNote,
}

/// The per-note execution state: the note's frontmatter, its source path,
/// and the output path it is currently bound for. `current_file` never
/// changes during a pipeline run; `destination` may be rewritten by the
/// destination resolver.
#[derive(Debug, PartialEq, Eq)]
pub struct Context {
    pub frontmatter: Frontmatter,
    pub current_file: FilePath,
    pub destination: FilePath,
}

/// One planned asset relocation: copy the file at `source` to `target`,
/// creating missing ancestor directories of `target` as needed. The
/// pipeline plans these copies; the surrounding exporter performs them.
#[derive(Debug, PartialEq, Eq)]
pub struct AssetCopy {
    pub source: FilePath,
    pub target: FilePath,
}

/// The mathematical model of an [`AssetCopy`].
pub ghost struct CopyModel {
    pub source: PathModel,
    pub target: PathModel,
}

impl View for AssetCopy {
    type V = CopyModel;

    open spec fn view(&self) -> CopyModel {
        CopyModel { source: self.source@, target: self.target@ }
    }
}

impl DeepView for AssetCopy {
    type V = CopyModel;

    open spec fn deep_view(&self) -> CopyModel {
        self@
    }
}

/// What one stage does to the note, over the models: how the context and
/// event stream after it relate to those before it, which verdict it
/// returns and which asset copies it plans.
pub open spec fn stage_rel(
    stage: Stage,
    ctx0: Context,
    ev0: Seq<Event>,
    ctx1: Context,
    ev1: Seq<Event>,
    r: PostprocessorResult,
    copies: Seq<CopyModel>,
) -> bool {
    match stage {
        Stage::SoftbreaksToHardbreaks => ctx1 == ctx0 && ev1 == spec_normalize_stream(ev0) && r
            == PostprocessorResult::Continue && copies.len() == 0,
        Stage::DestinationFromFrontmatter => ev1 == ev0 && ctx1.frontmatter == ctx0.frontmatter
            && ctx1.current_file == ctx0.current_file && ctx1.destination@
            == spec_new_destination(ctx0) && r == PostprocessorResult::Continue && copies
            == spec_asset_copies(ctx0, ev0),
        Stage::FilterByTags { skip_tags, only_tags } => ctx1 == ctx0 && ev1 == ev0 && copies.len()
            == 0 && r == spec_filter_verdict(
            ctx0.frontmatter,
            skip_tags.deep_view(),
            only_tags.deep_view(),
        ),
        Stage::RemoveSpecifiedTags { to_remove } => ev1 == ev0 && ctx1.current_file
            == ctx0.current_file && ctx1.destination == ctx0.destination && spec_tags_update(
            ctx0.frontmatter.entries@,
            ctx1.frontmatter.entries@,
            spec_removed_tags(ctx0.frontmatter, to_remove.deep_view()),
        ) && r == PostprocessorResult::Continue && copies.len() == 0,
    }
}

/// What the whole chain does: the stages apply in order, each to the
/// state the previous one left, their copy plans concatenate, and a
/// `StopAndSkipNote` verdict aborts the remaining stages at once. An
/// empty chain changes nothing, plans nothing and continues.
pub open spec fn chain_rel(
    stages: Seq<Stage>,
    ctx0: Context,
    ev0: Seq<Event>,
    ctx1: Context,
    ev1: Seq<Event>,
    r: PostprocessorResult,
    copies: Seq<CopyModel>,
) -> bool
    decreases stages.len(),
{
    if stages.len() == 0 {
        ctx1 == ctx0 && ev1 == ev0 && r == PostprocessorResult::Continue && copies.len() == 0
    } else {
        exists|ctxm: Context, evm: Seq<Event>, r0: PostprocessorResult, c0: Seq<CopyModel>, c1: Seq<
            CopyModel,
        >|
            #[trigger] stage_rel(stages[0], ctx0, ev0, ctxm, evm, r0, c0) && #[trigger] rel_tail(
                stages.skip(1),
                ctxm,
                evm,
                ctx1,
                ev1,
                r,
                c1,
            ) && (if r0 == PostprocessorResult::StopAndSkipNote {
                ctx1 == ctxm && ev1 == evm && r == PostprocessorResult::StopAndSkipNote && copies
                    == c0
            } else {
                chain_rel(stages.skip(1), ctxm, evm, ctx1, ev1, r, c1) && copies == c0 + c1
            })
    }
}

/// Marks the tail of one chain decomposition. The predicate always
/// holds; it exists so that a single term of [`chain_rel`]'s existential
/// names every value of the decomposition, the tail's copy plan included,
/// which is what the solver matches on when the decomposition is
/// exhibited.
pub open spec fn rel_tail(
    stages: Seq<Stage>,
    ctx0: Context,
    ev0: Seq<Event>,
    ctx1: Context,
    ev1: Seq<Event>,
    r: PostprocessorResult,
    copies: Seq<CopyModel>,
) -> bool {
    true
}

/// Some stage of `stages` is the destination resolver, which reads the
/// source file's name.
pub open spec fn chain_reads_file_name(stages: Seq<Stage>) -> bool {
    exists|i: int| 0 <= i < stages.len() && #[trigger] stages[i] is DestinationFromFrontmatter
}

/// Runs one configured stage over the note.
pub fn run_stage(stage: &Stage, context: &mut Context, events: &mut Vec<Event>) -> (r: (
    PostprocessorResult,
    Vec<AssetCopy>,
))
    requires
        stage is DestinationFromFrontmatter ==> old(context).current_file@.segments.len() > 0,
    ensures
        stage_rel(
            *stage,
            *old(context),
            old(events)@,
            *final(context),
            final(events)@,
            r.0,
            r.1.deep_view(),
        ),
        final(context).current_file == old(context).current_file,
{
    match stage {
        Stage::SoftbreaksToHardbreaks => {
            let v = softbreaks_to_hardbreaks(context, events);
            let copies: Vec<AssetCopy> = Vec::new();
            assert(copies.deep_view() =~= Seq::<CopyModel>::empty());
            (v, copies)
        },
        Stage::DestinationFromFrontmatter => destination_from_frontmatter(context, events),
        Stage::FilterByTags { skip_tags, only_tags } => {
            let v = run_tag_filter(skip_tags, only_tags, context, events);
            let copies: Vec<AssetCopy> = Vec::new();
            assert(copies.deep_view() =~= Seq::<CopyModel>::empty());
            (v, copies)
        },
        Stage::RemoveSpecifiedTags { to_remove } => {
            let v = run_tag_remover(to_remove, context, events);
            let copies: Vec<AssetCopy> = Vec::new();
            assert(copies.deep_view() =~= Seq::<CopyModel>::empty());
            (v, copies)
        },
    }
}

/// Runs the stages from `idx` on, in order, over the note.
fn run_chain_from(stages: &Vec<Stage>, idx: usize, context: &mut Context, events: &mut Vec<
    Event,
>) -> (r: (PostprocessorResult, Vec<AssetCopy>))
    requires
        idx <= stages@.len(),
        chain_reads_file_name(stages@.skip(idx as int)) ==> old(
            context,
        ).current_file@.segments.len() > 0,
    ensures
        chain_rel(
            stages@.skip(idx as int),
            *old(context),
            old(events)@,
            *final(context),
            final(events)@,
            r.0,
            r.1.deep_view(),
        ),
        final(context).current_file == old(context).current_file,
        idx == stages@.len() ==> *final(context) == *old(context) && *final(events) == *old(events)
            && r.0 == PostprocessorResult::Continue && r.1@.len() == 0,
    decreases stages@.len() - idx,
{
    let n = stages.len();
    if idx == n {
        let copies: Vec<AssetCopy> = Vec::new();
        proof {
            assert(stages@.skip(idx as int) =~= Seq::<Stage>::empty());
            assert(copies.deep_view() =~= Seq::<CopyModel>::empty());
        }
        return (PostprocessorResult::Continue, copies);
    }
    let ghost rest = stages@.skip(idx as int);
    let ghost ctx0 = *old(context);
    let ghost ev0 = old(events)@;
    proof {
        assert(rest[0] == stages@[idx as int]);
        if stages@[idx as int] is DestinationFromFrontmatter {
            assert(chain_reads_file_name(rest)) by {
                assert(rest[0] is DestinationFromFrontmatter);
            }
        }
    }
    let (r0, mut c0) = run_stage(&stages[idx], context, events);
    let ghost ctxm = *context;
    let ghost evm = events@;
    let ghost c0v = c0.deep_view();
    if r0 == PostprocessorResult::StopAndSkipNote {
        proof {
            assert(stage_rel(rest[0], ctx0, ev0, ctxm, evm, r0, c0v));
            assert(rel_tail(rest.skip(1), ctxm, evm, *context, events@, r0, Seq::<
                CopyModel,
            >::empty()));
        }
        return (r0, c0);
    }
    proof {
        assert(rest.skip(1) =~= stages@.skip(idx + 1));
        if chain_reads_file_name(stages@.skip(idx + 1)) {
            let i = choose|i: int|
                0 <= i < stages@.skip(idx + 1).len() && #[trigger] stages@.skip(idx + 1)[i]
                    is DestinationFromFrontmatter;
            assert(rest[i + 1] is DestinationFromFrontmatter);
            assert(chain_reads_file_name(rest));
        }
    }
    let (r1, mut c1) = run_chain_from(stages, idx + 1, context, events);
    let ghost c1v = c1.deep_view();
    c0.append(&mut c1);
    proof {
        assert(c0.deep_view() =~= c0v + c1v);
        assert(stage_rel(rest[0], ctx0, ev0, ctxm, evm, r0, c0v));
        assert(rel_tail(rest.skip(1), ctxm, evm, *context, events@, r1, c1v));
        assert(chain_rel(rest.skip(1), ctxm, evm, *context, events@, r1, c1v));
        assert(chain_rel(rest, ctx0, ev0, *context, events@, r1, c0.deep_view()));
    }
    (r1, c0)
}

/// Applies the configured stages to one note, in order. Each stage sees
/// the context and event stream the previous one left. A stage that
/// returns `StopAndSkipNote` aborts the chain at once: the note is to be
/// discarded and no later stage runs. When every stage continues, the
/// note is to be emitted at the (possibly rewritten) destination, and the
/// returned plan lists every asset copy the stages requested, in order.
/// An empty chain is a no-op: context and event stream are returned
/// bit-for-bit unchanged, with the verdict `Continue` and an empty plan.
pub fn run_chain(stages: &Vec<Stage>, context: &mut Context, events: &mut Vec<Event>) -> (r: (
    PostprocessorResult,
    Vec<AssetCopy>,
))
    requires
        chain_reads_file_name(stages@) ==> old(context).current_file@.segments.len() > 0,
    ensures
        chain_rel(
            stages@,
            *old(context),
            old(events)@,
            *final(context),
            final(events)@,
            r.0,
            r.1.deep_view(),
        ),
        final(context).current_file == old(context).current_file,
        stages@.len() == 0 ==> *final(context) == *old(context) && *final(events) == *old(events)
            && r.0 == PostprocessorResult::Continue && r.1@.len() == 0,
{
    proof {
        assert(stages@.skip(0) =~= stages@);
    }
    run_chain_from(stages, 0, context, events)
}

} // verus!
