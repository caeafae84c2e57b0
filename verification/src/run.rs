//! The quickest way to try a schedule out.

use crate::engine::{Engine, EngineConfig, RoundTrace, RunReport};
use crate::model::TreeModel;
use crate::passes::Passes;
use crate::span::Span;
use crate::tree::ParseTree;
use vstd::prelude::*;

verus! {

/// The span of all of `source` at revision 0.
pub open spec fn whole(source: Seq<char>) -> Span {
    Span { start: 0, end: crate::text::bytes_of(source).len() as usize, rev: 0 }
}

/// Running `passes` with the default configuration over a fresh tree for
/// `source`, without anything to cancel it, may end in `tree` and report
/// `report`.
pub open spec fn ran<C: Clone + PartialEq, P: Passes<C>>(
    source: &str,
    passes: P,
    root_ctx: C,
    tree: TreeModel<C>,
    report: RunReport,
) -> bool {
    &&& !report.cancelled
    &&& exists|engine: Engine<C>, rounds: Seq<RoundTrace<C>>|
        engine.runs(passes) && engine.settings() == (EngineConfig {
            enforce_shrink: false,
            max_rounds: None,
        }) && #[trigger] engine.run_ok(
            source,
            TreeModel::root_only(0, whole(source@), root_ctx),
            rounds,
            tree,
            report,
        )
}

/// Parses `source` from scratch with `passes` and returns the settled tree
/// plus the run report — the quickest way to try a schedule out, in a test
/// or a first experiment.
///
/// It is exactly [`Engine::run`] over a fresh [`ParseTree::from_source`],
/// one job after another and with nobody to cancel it — for cancellation, custom executors, or
/// incremental sessions, use [`Engine`] and [`Session`](crate::Session)
/// directly.
pub fn run<C, P: Passes<C>>(source: &str, passes: P, root_ctx: C) -> (result: (
    ParseTree<C>,
    RunReport,
)) where C: Clone + PartialEq + Send + 'static
    requires
        forall|round: int, span: Span, ctx: &C|
            0 <= round < passes.count() && whole(source@).nests(span)
                ==> #[trigger] passes.pass_accepts(round, source, span, ctx),
    ensures
        result.0@.wf(),
        ran(source, passes, root_ctx, result.0@, result.1),
{
    let engine = Engine::with(passes);
    let mut tree = ParseTree::from_source(source, 0, root_ctx);
    let ghost start = tree@;
    let report = engine.run_through(source, &mut tree);
    proof {
        let rounds = choose|rounds: Seq<RoundTrace<C>>| #[trigger]
            engine.run_ok(source, start, rounds, tree@, report);
        assert(start =~= TreeModel::root_only(0, whole(source@), root_ctx));
        assert(engine.run_ok(
            source,
            TreeModel::root_only(0, whole(source@), root_ctx),
            rounds,
            tree@,
            report,
        ));
        assert(ran(source, passes, root_ctx, tree@, report));
    }
    (tree, report)
}

/// A trial run starts from one unparsed node that covers all of the source and
/// carries the root context, runs the passes in order over it with the default
/// configuration, and is not cancelled.
pub proof fn law_trial_run_is_a_run<C: Clone + PartialEq, P: Passes<C>>(
    source: &str,
    passes: P,
    root_ctx: C,
    tree: TreeModel<C>,
    report: RunReport,
)
    requires
        crate::text::bytes_of(source@).len() <= usize::MAX,
        ran(source, passes, root_ctx, tree, report),
    ensures
        !report.cancelled,
        exists|engine: Engine<C>, start: TreeModel<C>, rounds: Seq<RoundTrace<C>>|
            {
                &&& #[trigger] engine.run_ok(source, start, rounds, tree, report)
                &&& engine.runs(passes)
                &&& !engine.settings().enforce_shrink
                &&& engine.settings().max_rounds is None
                &&& start.rev == 0
                &&& start.nodes.len() == 1
                &&& start.nodes[0].span.start == 0
                &&& start.nodes[0].span.end == crate::text::bytes_of(source@).len()
                &&& start.nodes[0].span.rev == 0
                &&& start.nodes[0].ctx == root_ctx
                &&& start.nodes[0].status is Unparsed
            },
{
    let (engine, rounds) = choose|engine: Engine<C>, rounds: Seq<RoundTrace<C>>|
        engine.runs(passes) && engine.settings() == (EngineConfig {
            enforce_shrink: false,
            max_rounds: None,
        }) && #[trigger] engine.run_ok(
            source,
            TreeModel::root_only(0, whole(source@), root_ctx),
            rounds,
            tree,
            report,
        );
    assert(engine.run_ok(
        source,
        TreeModel::root_only(0, whole(source@), root_ctx),
        rounds,
        tree,
        report,
    ));
}

} // verus!
