//! What runs do to a tree, node by node, and what they report of it.

use crate::engine::{Engine, RoundTrace, RunReport};
use crate::job::Job;
use crate::model::{NodeModel, TreeModel};
use crate::node::NodeId;
use crate::outcome::{Outcome, OutcomeModel};
use crate::span::Span;
use crate::violation::ViolationKind;
use vstd::prelude::*;

verus! {

/// Regions take a node's place exactly where each of them is on the node's
/// revision and lies between its start and its end, and, where children must be
/// shorter, is shorter than it. The node then has just these children, in
/// order: those it had already, as they were, and new ones that the next round
/// is due on. Otherwise it fails, childless, and the next round is due on it.
pub proof fn law_regions_become_children<C: PartialEq>(
    t: TreeModel<C>,
    id: NodeId,
    produced: Seq<(Span, C)>,
    round: nat,
    enforce_shrink: bool,
    post: TreeModel<C>,
)
    requires
        t.wf(),
        t.live(id.0 as int),
        produced.len() > 0,
        post.wf(),
        t.may_apply(id, OutcomeModel::Expand(produced), round, enforce_shrink, post),
    ensures
        ({
            let node = t.nodes[id.0 as int];
            let after = post.nodes[id.0 as int];
            let taken = forall|k: int|
                0 <= k < produced.len() ==> (#[trigger] produced[k]).0.rev == node.span.rev
                    && node.span.start <= produced[k].0.start && produced[k].0.start
                    <= produced[k].0.end && produced[k].0.end <= node.span.end && (enforce_shrink
                    ==> produced[k].0.end - produced[k].0.start < node.span.end - node.span.start);
            &&& taken == (after.status is Expanded)
            &&& !taken == (after.status is Failed)
            &&& after.span == node.span && after.ctx == node.ctx && after.parent == node.parent
            &&& !taken ==> after.children.len() == 0 && after.depth == round + 1 && after.attempts
                == node.attempts + 1
            &&& taken ==> after.children.len() == produced.len() && after.depth == node.depth
                && after.attempts == node.attempts
            &&& taken ==> forall|s: int|
                #![trigger produced[s]]
                #![trigger after.children[s]]
                0 <= s < produced.len() ==> {
                    let c = after.children[s];
                    let child = post.nodes[c.0 as int];
                    &&& 0 <= c.0 < post.nodes.len()
                    &&& child.alive
                    &&& child.span == produced[s].0
                    &&& child.parent == Some(id)
                    &&& if c.0 < t.nodes.len() {
                        &&& node.children.contains(c)
                        &&& child == t.nodes[c.0 as int]
                        &&& crate::model::may_equal(child.ctx, produced[s].1, true)
                    } else {
                        &&& child.ctx == produced[s].1
                        &&& child.status is Unparsed
                        &&& child.depth == round + 1
                        &&& child.attempts == 0
                        &&& child.children.len() == 0
                    }
                }
        }),
{
    let i0 = id.0 as int;
    let node = t.nodes[i0];
    let after = post.nodes[i0];
    crate::violation::law_verdicts(node.span, OutcomeModel::Expand(produced), enforce_shrink);
    assert(t.node_ok(i0));
    if crate::violation::verdict(node.span, OutcomeModel::Expand(produced), enforce_shrink)
        is Expanded {
        let kept = choose|kept: Seq<Option<NodeId>>| #[trigger]
            t.reuse_ok(id, produced, kept) && post == t.expanded(id, produced, kept, round);
        crate::model::lemma_child_ids(id, produced, kept, round + 1, t.nodes.len());
        assert forall|s: int|
            #![trigger produced[s]]
            #![trigger after.children[s]]
            0 <= s < produced.len() implies {
            let c = after.children[s];
            let child = post.nodes[c.0 as int];
            &&& 0 <= c.0 < post.nodes.len()
            &&& child.alive
            &&& child.span == produced[s].0
            &&& child.parent == Some(id)
            &&& if c.0 < t.nodes.len() {
                &&& node.children.contains(c)
                &&& child == t.nodes[c.0 as int]
                &&& crate::model::may_equal(child.ctx, produced[s].1, true)
            } else {
                &&& child.ctx == produced[s].1
                &&& child.status is Unparsed
                &&& child.depth == round + 1
                &&& child.attempts == 0
                &&& child.children.len() == 0
            }
        } by {
            let c = after.children[s];
            assert(t.slot_ok(node.children, produced[s], kept, s)) by {
                assert(kept[s] == kept[s]);
            }
            match kept[s] {
                Some(old) => {
                    crate::laws::law_reused_child_keeps_subtree(t, id, produced, kept, round, s);
                    crate::model::lemma_kept_child(t, id, produced, kept, s);
                    let k = choose|k: int| 0 <= k < node.children.len() && node.children[k] == old;
                    assert(t.child_ok(i0, node.children[k]));
                    assert(t.under(old.0 as int, old.0 as int));
                    assert(t.may_match(old, produced[s]));
                },
                None => {
                    let n = c.0 - t.nodes.len();
                    let fresh = crate::model::new_nodes(id, produced, kept, round + 1);
                    assert(post.nodes[c.0 as int] == fresh[n]);
                },
            }
        }
    }
}

/// Accepting a node, be it by an expansion into nothing, makes it done and drops
/// whatever was below it; a failure fails it, drops the same, counts one more
/// attempt and leaves the node to the next round. Either way every other node
/// is as it was.
pub proof fn law_acceptance_and_failure<C: PartialEq>(
    t: TreeModel<C>,
    id: NodeId,
    outcome: OutcomeModel<C>,
    round: nat,
    enforce_shrink: bool,
    post: TreeModel<C>,
)
    requires
        t.wf(),
        t.live(id.0 as int),
        outcome matches OutcomeModel::Expand(produced) ==> produced.len() == 0,
        t.may_apply(id, outcome, round, enforce_shrink, post),
    ensures
        ({
            let node = t.nodes[id.0 as int];
            let after = post.nodes[id.0 as int];
            &&& post.rev == t.rev
            &&& post.nodes.len() == t.nodes.len()
            &&& after.span == node.span && after.ctx == node.ctx && after.parent == node.parent
            &&& after.alive
            &&& after.children.len() == 0
            &&& outcome is Failed ==> after.status is Failed && after.depth == round + 1
                && after.attempts == node.attempts + 1
            &&& !(outcome is Failed) ==> after.status is Done && after.depth == node.depth
                && after.attempts == node.attempts
            &&& forall|d: int|
                #![trigger post.nodes[d]]
                0 <= d < t.nodes.len() && d != id.0 && !t.under(id.0 as int, d) ==> post.nodes[d]
                    == t.nodes[d]
            &&& forall|d: int|
                #![trigger post.nodes[d]]
                0 <= d < t.nodes.len() && d != id.0 && t.under(id.0 as int, d)
                    ==> !post.nodes[d].alive
        }),
{
}

/// An expansion touches nothing but the node and what was below it: it drops the
/// children that no region matches, with all that is below them, and adds new
/// nodes behind the old.
pub proof fn law_expansion_leaves_the_rest<C: PartialEq>(
    t: TreeModel<C>,
    id: NodeId,
    produced: Seq<(Span, C)>,
    round: nat,
    enforce_shrink: bool,
    post: TreeModel<C>,
)
    requires
        t.wf(),
        t.live(id.0 as int),
        produced.len() > 0,
        post.wf(),
        t.may_apply(id, OutcomeModel::Expand(produced), round, enforce_shrink, post),
    ensures
        post.rev == t.rev,
        t.nodes.len() <= post.nodes.len(),
        forall|d: int|
            #![trigger post.nodes[d]]
            0 <= d < t.nodes.len() && !t.under(id.0 as int, d) ==> post.nodes[d] == t.nodes[d],
        forall|k: int|
            0 <= k < t.nodes[id.0 as int].children.len() && !post.nodes[id.0 as int].children.contains(
                #[trigger] t.nodes[id.0 as int].children[k],
            ) ==> !post.nodes[t.nodes[id.0 as int].children[k].0 as int].alive,
{
    let i0 = id.0 as int;
    let node = t.nodes[i0];
    assert(t.node_ok(i0));
    if crate::violation::verdict(node.span, OutcomeModel::Expand(produced), enforce_shrink)
        is Expanded {
        let kept = choose|kept: Seq<Option<NodeId>>| #[trigger]
            t.reuse_ok(id, produced, kept) && post == t.expanded(id, produced, kept, round);
        crate::model::lemma_child_ids(id, produced, kept, round + 1, t.nodes.len());
        assert forall|d: int|
            #![trigger post.nodes[d]]
            0 <= d < t.nodes.len() && !t.under(i0, d) implies post.nodes[d] == t.nodes[d] by {
            if t.orphaned(id, kept, d) {
                let k = choose|k: int|
                    0 <= k < node.children.len() && !crate::model::kept_within(
                        kept,
                        kept.len() as int,
                        #[trigger] node.children[k],
                    ) && t.under(node.children[k].0 as int, d);
                assert(t.child_ok(i0, node.children[k]));
                crate::model::lemma_child_below(t, i0, node.children[k].0 as int);
                crate::model::lemma_under_composes(t, i0, node.children[k].0 as int, d);
            }
        }
        assert forall|k: int|
            0 <= k < node.children.len() && !post.nodes[i0].children.contains(
                #[trigger] node.children[k],
            ) implies !post.nodes[node.children[k].0 as int].alive by {
            let c = node.children[k];
            assert(t.child_ok(i0, c));
            if crate::model::kept_within(kept, kept.len() as int, c) {
                let s = choose|s: int| 0 <= s < kept.len() && #[trigger] kept[s] == Some(c);
                assert(post.nodes[i0].children[s] == c);
            }
            assert(t.under(c.0 as int, c.0 as int));
            assert(t.orphaned(id, kept, c.0 as int));
        }
    } else {
        assert forall|k: int| 0 <= k < node.children.len() implies !post.nodes[(
        #[trigger] node.children[k]).0 as int].alive by {
            assert(t.child_ok(i0, node.children[k]));
            crate::model::lemma_child_below(t, i0, node.children[k].0 as int);
        }
    }
}

/// A round is due on exactly the nodes of the tree that are unparsed or failed
/// and whose turn it is; each becomes one job, in the order in which the nodes
/// were made, with the node's region and a copy of its context, for the pass of
/// the round.
pub proof fn law_jobs_are_the_nodes_due<C: Clone>(t: TreeModel<C>, round: usize, jobs: Seq<Job<C>>)
    requires
        t.wf(),
        t.batch_ok(round, jobs),
    ensures
        forall|d: int|
            #![trigger t.nodes[d]]
            0 <= d < t.nodes.len() ==> (exists|k: int|
                0 <= k < jobs.len() && (#[trigger] jobs[k]).node.0 == d) == (t.nodes[d].alive
                && t.nodes[d].depth == round && (t.nodes[d].status is Unparsed
                || t.nodes[d].status is Failed)),
        forall|j: int, k: int|
            0 <= j < k < jobs.len() ==> (#[trigger] jobs[j]).node.0 < (#[trigger] jobs[k]).node.0,
        forall|k: int|
            0 <= k < jobs.len() ==> {
                let job = #[trigger] jobs[k];
                &&& job.node.0 < t.nodes.len()
                &&& job.span == t.nodes[job.node.0 as int].span
                &&& crate::model::may_clone(t.nodes[job.node.0 as int].ctx, job.ctx)
                &&& job.pass_index == round
            },
{
    let keep = |node: NodeModel<C>| node.ready(round as nat);
    crate::model::lemma_ids_where(t, t.nodes.len() as int, keep);
    let due = t.ready_ids(round as nat);
    assert forall|d: int| #![trigger t.nodes[d]] 0 <= d < t.nodes.len() implies (exists|k: int|
        0 <= k < jobs.len() && (#[trigger] jobs[k]).node.0 == d) == (t.nodes[d].alive
        && t.nodes[d].depth == round && (t.nodes[d].status is Unparsed
        || t.nodes[d].status is Failed)) by {
        if keep(t.nodes[d]) {
            assert(due.contains(NodeId(d as usize)));
            let k = choose|k: int| 0 <= k < due.len() && due[k] == NodeId(d as usize);
            assert(jobs[k].node.0 == d);
        }
        if exists|k: int| 0 <= k < jobs.len() && (#[trigger] jobs[k]).node.0 == d {
            let k = choose|k: int| 0 <= k < jobs.len() && (#[trigger] jobs[k]).node.0 == d;
            assert(jobs[k].node == due[k]);
            assert(keep(t.at(due[k])));
        }
    }
    assert forall|j: int, k: int| 0 <= j < k < jobs.len() implies (#[trigger] jobs[j]).node.0 < (
    #[trigger] jobs[k]).node.0 by {
        assert(due[j].0 < due[k].0);
    }
    assert forall|k: int| 0 <= k < jobs.len() implies ({
        let job = #[trigger] jobs[k];
        &&& job.node.0 < t.nodes.len()
        &&& job.span == t.nodes[job.node.0 as int].span
        &&& crate::model::may_clone(t.nodes[job.node.0 as int].ctx, job.ctx)
        &&& job.pass_index == round
    }) by {
        assert(jobs[k].node == due[k]);
    }
}

/// The nodes with work left within `rounds` rounds are the unparsed ones, and
/// the failed ones whose next round is among these; they are listed in the order
/// in which they were made, each once.
pub proof fn law_pending_nodes<C>(t: TreeModel<C>, rounds: nat)
    requires
        t.nodes.len() <= usize::MAX,
    ensures
        forall|d: int|
            #![trigger t.nodes[d]]
            0 <= d < t.nodes.len() ==> t.pending_ids(rounds).contains(NodeId(d as usize)) == (
            t.nodes[d].alive && (t.nodes[d].status is Unparsed || (t.nodes[d].status is Failed
                && t.nodes[d].depth < rounds))),
        forall|j: int, k: int|
            0 <= j < k < t.pending_ids(rounds).len() ==> (#[trigger] t.pending_ids(rounds)[j]).0 < (
            #[trigger] t.pending_ids(rounds)[k]).0,
        forall|k: int|
            0 <= k < t.pending_ids(rounds).len() ==> (#[trigger] t.pending_ids(rounds)[k]).0
                < t.nodes.len(),
{
    let keep = |node: NodeModel<C>| node.pending(rounds);
    crate::model::lemma_ids_where(t, t.nodes.len() as int, keep);
    assert forall|d: int| #![trigger t.nodes[d]] 0 <= d < t.nodes.len() implies t.pending_ids(
        rounds,
    ).contains(NodeId(d as usize)) == (t.nodes[d].alive && (t.nodes[d].status is Unparsed || (
    t.nodes[d].status is Failed && t.nodes[d].depth < rounds))) by {
        let ids = t.pending_ids(rounds);
        if ids.contains(NodeId(d as usize)) {
            let k = choose|k: int| 0 <= k < ids.len() && ids[k] == NodeId(d as usize);
            assert(keep(t.at(ids[k])));
        }
        if keep(t.nodes[d]) {
        }
    }
}

/// The nodes of a tree are those still part of it, in the order in which they
/// were made; those of one status are those of them that have it.
pub proof fn law_listed_nodes<C>(t: TreeModel<C>, status: crate::status::Status, d: int)
    requires
        t.nodes.len() <= usize::MAX,
        0 <= d < t.nodes.len(),
    ensures
        t.live_ids().contains(NodeId(d as usize)) == t.nodes[d].alive,
        t.ids_with(status).contains(NodeId(d as usize)) == (t.nodes[d].alive && t.nodes[d].status
            == status),
        forall|j: int, k: int|
            0 <= j < k < t.live_ids().len() ==> (#[trigger] t.live_ids()[j]).0 < (
            #[trigger] t.live_ids()[k]).0,
        forall|j: int, k: int|
            0 <= j < k < t.ids_with(status).len() ==> (#[trigger] t.ids_with(status)[j]).0 < (
            #[trigger] t.ids_with(status)[k]).0,
{
    let alive = |node: NodeModel<C>| node.alive;
    let having = |node: NodeModel<C>| node.alive && node.status == status;
    crate::model::lemma_ids_where(t, t.nodes.len() as int, alive);
    crate::model::lemma_ids_where(t, t.nodes.len() as int, having);
    let id = NodeId(d as usize);
    if t.live_ids().contains(id) {
        let k = choose|k: int| 0 <= k < t.live_ids().len() && t.live_ids()[k] == id;
        assert(alive(t.at(t.live_ids()[k])));
    }
    if t.ids_with(status).contains(id) {
        let k = choose|k: int| 0 <= k < t.ids_with(status).len() && t.ids_with(status)[k] == id;
        assert(having(t.at(t.ids_with(status)[k])));
    }
    if alive(t.nodes[d]) {
    }
    if having(t.nodes[d]) {
    }
}

/// How many rounds a run may make, and how it ends: one round per pass, fewer if
/// the configuration says so. A run that is not cancelled goes on until they are
/// used up or no node has work left, and says that it reached its fixpoint
/// exactly where none has.
pub proof fn law_runs_end_where_nothing_is_left<C: Clone + PartialEq>(
    engine: &Engine<C>,
    source: &str,
    start: TreeModel<C>,
    rounds: Seq<RoundTrace<C>>,
    end: TreeModel<C>,
    report: RunReport,
)
    requires
        end.wf(),
        engine.run_ok(source, start, rounds, end, report),
    ensures
        ({
            let passes = engine.passes().len();
            let limit: nat = match engine.settings().max_rounds {
                Some(cap) => if cap < passes {
                    cap as nat
                } else {
                    passes
                },
                None => passes,
            };
            let left = exists|d: int|
                0 <= d < end.nodes.len() && (#[trigger] end.nodes[d]).alive && (
                end.nodes[d].status is Unparsed || (end.nodes[d].status is Failed
                    && end.nodes[d].depth < limit));
            &&& rounds.len() <= limit
            &&& report.reached_fixpoint == (!report.cancelled && !left)
            &&& !report.cancelled && left ==> rounds.len() == limit
            &&& report.cancelled ==> rounds.len() < limit || (rounds.len() > 0
                && rounds.last().executed.len() < rounds.last().jobs.len())
        }),
{
    let limit = engine.round_limit();
    law_pending_nodes(end, limit);
    let ids = end.pending_ids(limit);
    if ids.len() > 0 {
        assert(ids.contains(ids[0]));
        assert(NodeId(ids[0].0) == ids[0]);
        let d = ids[0].0 as int;
        assert(end.nodes[d].alive);
    }
    if rounds.len() > 0 && !rounds.last().complete() {
        let r = rounds.len() - 1;
        assert(engine.step_ok(source, start, rounds, r));
        reveal(Engine::round_ok);
    }
}

/// Every attempt of round `r` hands the pass of that round the region of a node
/// that was due, and what it reports is the outcome.
pub proof fn law_rounds_run_their_pass<C: Clone + PartialEq>(
    engine: &Engine<C>,
    source: &str,
    start: TreeModel<C>,
    rounds: Seq<RoundTrace<C>>,
    end: TreeModel<C>,
    report: RunReport,
    r: int,
    k: int,
)
    requires
        start.wf(),
        engine.round_limit() <= usize::MAX,
        engine.run_ok(source, start, rounds, end, report),
        0 <= r < rounds.len(),
        0 <= k < rounds[r].executed.len(),
    ensures
        ({
            let before = if r == 0 {
                start
            } else {
                rounds[r - 1].trees.last()
            };
            let (job, outcome) = rounds[r].executed[k];
            let node = before.nodes[job.node.0 as int];
            &&& r < engine.passes().len()
            &&& 0 <= job.node.0 < before.nodes.len()
            &&& node.alive && node.depth == r && (node.status is Unparsed || node.status is Failed)
            &&& job.span == node.span
            &&& crate::model::may_clone(node.ctx, job.ctx)
            &&& engine.passes()[r].may_return(source, node.span, &job.ctx, outcome)
        }),
{
    assert(engine.step_ok(source, start, rounds, r));
    reveal(Engine::round_ok);
    let t = rounds[r].trees[0];
    assert(t.wf());
    law_jobs_are_the_nodes_due(t, r as usize, rounds[r].jobs);
    assert(rounds[r].executed[k].0 == rounds[r].jobs[k]);
    let d = rounds[r].jobs[k].node.0 as int;
    assert(0 <= d < t.nodes.len());
    assert(t.nodes[d].alive && t.nodes[d].depth == r);
}

/// A node fails by an attempt whose outcome says so, or whose regions are not
/// all within it, on its revision and, where that is asked for, shorter.
pub open spec fn attempt_fails<C>(tried: (Job<C>, Outcome<C>), enforce_shrink: bool) -> bool {
    match tried.1@ {
        OutcomeModel::Done => false,
        OutcomeModel::Failed => true,
        OutcomeModel::Expand(_) => attempt_is_refused(tried, enforce_shrink),
    }
}

/// One of the regions that the attempt came to must not be.
pub open spec fn attempt_is_refused<C>(tried: (Job<C>, Outcome<C>), enforce_shrink: bool) -> bool {
    match tried.1@ {
        OutcomeModel::Expand(produced) => exists|k: int|
            0 <= k < produced.len() && refused_region(
                tried.0.span,
                (#[trigger] produced[k]).0,
                enforce_shrink,
            ),
        _ => false,
    }
}

/// `child` must not be a region of `parent`.
pub open spec fn refused_region(parent: Span, child: Span, enforce_shrink: bool) -> bool {
    child.rev != parent.rev || child.start < parent.start || child.end > parent.end || child.start
        > child.end || (enforce_shrink && child.end - child.start >= parent.end - parent.start)
}

/// The attempts before number `n` of round `r`, by round and number.
pub open spec fn tries_before<C>(rounds: Seq<RoundTrace<C>>, r: int, n: int) -> Set<(int, int)> {
    Set::new(
        |at: (int, int)|
            0 <= at.0 < rounds.len() && 0 <= at.1 < rounds[at.0].executed.len() && (at.0 < r || (
            at.0 == r && at.1 < n)),
    )
}

/// Those of them that failed their node.
pub open spec fn failures_before<C>(
    rounds: Seq<RoundTrace<C>>,
    r: int,
    n: int,
    enforce_shrink: bool,
) -> Set<(int, int)> {
    Set::new(
        |at: (int, int)|
            tries_before(rounds, r, n).contains(at) && attempt_fails(
                rounds[at.0].executed[at.1],
                enforce_shrink,
            ),
    )
}

/// The rounds before round `r` that made an attempt.
pub open spec fn busy_before<C>(rounds: Seq<RoundTrace<C>>, r: int) -> Set<int> {
    Set::new(|q: int| 0 <= q < r && q < rounds.len() && rounds[q].executed.len() > 0)
}

/// What the engine makes of an attempt.
proof fn lemma_attempt_verdict<C>(tried: (Job<C>, Outcome<C>), enforce_shrink: bool)
    ensures
        crate::engine::job_verdict(tried, enforce_shrink).fails() == attempt_fails(
            tried,
            enforce_shrink,
        ),
        crate::engine::job_verdict(tried, enforce_shrink) is Rejected == attempt_is_refused(
            tried,
            enforce_shrink,
        ),
{
    crate::violation::law_verdicts(tried.0.span, tried.1@, enforce_shrink);
    if let OutcomeModel::Expand(produced) = tried.1@ {
        if attempt_is_refused(tried, enforce_shrink) {
            let k = choose|k: int|
                0 <= k < produced.len() && refused_region(
                    tried.0.span,
                    (#[trigger] produced[k]).0,
                    enforce_shrink,
                );
            assert(refused_region(tried.0.span, produced[k].0, enforce_shrink));
        }
    }
}

/// Counting attempts one by one.
proof fn lemma_count_tries<C>(rounds: Seq<RoundTrace<C>>, r: int, n: int, enforce_shrink: bool)
    requires
        0 <= r <= rounds.len(),
        0 <= n,
        r < rounds.len() ==> n <= rounds[r].executed.len(),
        r == rounds.len() ==> n == 0,
    ensures
        tries_before(rounds, r, n).finite(),
        failures_before(rounds, r, n, enforce_shrink).finite(),
        tries_before(rounds, r, n).len() == crate::engine::total_processed(rounds.take(r)) + n,
        failures_before(rounds, r, n, enforce_shrink).len() == crate::engine::total_failed(
            rounds.take(r),
            enforce_shrink,
        ) + crate::engine::fail_count(rounds[r].executed, n, enforce_shrink),
    decreases r, n,
{
    if n > 0 {
        let last = (r, n - 1);
        lemma_count_tries(rounds, r, n - 1, enforce_shrink);
        lemma_attempt_verdict(rounds[r].executed[n - 1], enforce_shrink);
        let tries = tries_before(rounds, r, n - 1);
        let failures = failures_before(rounds, r, n - 1, enforce_shrink);
        assert(tries_before(rounds, r, n) =~= tries.insert(last));
        if attempt_fails(rounds[r].executed[n - 1], enforce_shrink) {
            assert(failures_before(rounds, r, n, enforce_shrink) =~= failures.insert(last));
        } else {
            assert(failures_before(rounds, r, n, enforce_shrink) =~= failures);
        }
    } else if r > 0 {
        let m = rounds[r - 1].executed.len() as int;
        lemma_count_tries(rounds, r - 1, m, enforce_shrink);
        assert(tries_before(rounds, r, 0) =~= tries_before(rounds, r - 1, m));
        assert(failures_before(rounds, r, 0, enforce_shrink) =~= failures_before(
            rounds,
            r - 1,
            m,
            enforce_shrink,
        ));
        assert(rounds.take(r).drop_last() =~= rounds.take(r - 1));
        assert(rounds.take(r).last() == rounds[r - 1]);
    } else {
        assert(tries_before(rounds, 0, 0) =~= Set::empty());
        assert(failures_before(rounds, 0, 0, enforce_shrink) =~= Set::empty());
        assert(rounds.take(0).len() == 0);
    }
}

/// Counting rounds one by one.
proof fn lemma_count_busy<C>(rounds: Seq<RoundTrace<C>>, r: int)
    requires
        0 <= r <= rounds.len(),
    ensures
        busy_before(rounds, r).finite(),
        busy_before(rounds, r).len() == crate::engine::working_rounds(rounds.take(r)),
    decreases r,
{
    if r > 0 {
        lemma_count_busy(rounds, r - 1);
        assert(rounds.take(r).drop_last() =~= rounds.take(r - 1));
        assert(rounds.take(r).last() == rounds[r - 1]);
        if rounds[r - 1].executed.len() > 0 {
            assert(busy_before(rounds, r) =~= busy_before(rounds, r - 1).insert(r - 1));
        } else {
            assert(busy_before(rounds, r) =~= busy_before(rounds, r - 1));
        }
    } else {
        assert(busy_before(rounds, 0) =~= Set::empty());
        assert(rounds.take(0).len() == 0);
    }
}

/// The counts of a report are counts: of the attempts made, of those that failed
/// their node, and of the rounds that made any. What no machine count can hold
/// is reported as the largest.
pub proof fn law_report_counts_attempts<C: Clone + PartialEq>(
    engine: &Engine<C>,
    source: &str,
    start: TreeModel<C>,
    rounds: Seq<RoundTrace<C>>,
    end: TreeModel<C>,
    report: RunReport,
)
    requires
        engine.run_ok(source, start, rounds, end, report),
    ensures
        ({
            let n = rounds.len() as int;
            let shrink = engine.settings().enforce_shrink;
            let made = tries_before(rounds, n, 0);
            let failed = failures_before(rounds, n, 0, shrink);
            &&& made.finite() && failed.finite() && busy_before(rounds, n).finite()
            &&& report.rounds_run == busy_before(rounds, n).len()
            &&& made.len() <= usize::MAX ==> report.nodes_processed == made.len()
            &&& made.len() > usize::MAX ==> report.nodes_processed == usize::MAX
            &&& failed.len() <= usize::MAX ==> report.nodes_failed == failed.len()
            &&& failed.len() > usize::MAX ==> report.nodes_failed == usize::MAX
        }),
{
    let n = rounds.len() as int;
    assert(rounds.take(n) =~= rounds);
    lemma_count_tries(rounds, n, 0, engine.settings().enforce_shrink);
    lemma_count_busy(rounds, n);
}

/// Round and number of one attempt come before those of another.
pub open spec fn earlier(a: (int, int), b: (int, int)) -> bool {
    a.0 < b.0 || (a.0 == b.0 && a.1 < b.1)
}

/// The refusal of an attempt's region: the first that must not be, for the first
/// reason that holds.
pub open spec fn refusal_of<C>(
    tried: (Job<C>, Outcome<C>),
    enforce_shrink: bool,
    span: Span,
    kind: ViolationKind,
) -> bool {
    let parent = tried.0.span;
    let produced = tried.1@->Expand_0;
    &&& tried.1@ is Expand
    &&& exists|k: int|
        0 <= k < produced.len() && (#[trigger] produced[k]).0 == span && forall|j: int|
            0 <= j < k ==> !refused_region(parent, (#[trigger] produced[j]).0, enforce_shrink)
    &&& refused_region(parent, span, enforce_shrink)
    &&& kind is WrongRevision <==> span.rev != parent.rev
    &&& kind is OutsideParent <==> span.rev == parent.rev && (span.start < parent.start || span.end
        > parent.end || span.start > span.end)
    &&& kind is NotSmaller <==> span.rev == parent.rev && parent.start <= span.start <= span.end
        <= parent.end
}

/// The refusal that the engine finds is the refusal there is.
proof fn lemma_refusal<C>(tried: (Job<C>, Outcome<C>), enforce_shrink: bool)
    ensures
        crate::engine::job_verdict(tried, enforce_shrink) matches crate::violation::Verdict::Rejected {
            span,
            kind,
        } ==> refusal_of(tried, enforce_shrink, span, kind),
{
    if let crate::violation::Verdict::Rejected { span, kind } = crate::engine::job_verdict(
        tried,
        enforce_shrink,
    ) {
        let parent = tried.0.span;
        let produced = tried.1@->Expand_0;
        crate::violation::law_first_bad_child_is_reported(parent, produced, enforce_shrink);
        let k = choose|k: int|
            {
                &&& 0 <= k < produced.len()
                &&& (#[trigger] produced[k]).0 == span
                &&& crate::violation::fault(parent, produced[k].0, enforce_shrink) == Some(kind)
                &&& forall|j: int|
                    0 <= j < k ==> crate::violation::in_bounds(parent, (#[trigger] produced[j]).0)
                        && (enforce_shrink ==> produced[j].0.end - produced[j].0.start < parent.end
                        - parent.start)
            };
        crate::violation::law_why_children_are_refused(parent, span, enforce_shrink);
        assert(0 <= k < produced.len() && produced[k].0 == span && forall|j: int|
            0 <= j < k ==> !refused_region(parent, (#[trigger] produced[j]).0, enforce_shrink));
    }
}

/// The refusals before attempt `n` of round `r`, one by one.
proof fn lemma_refusals<C>(rounds: Seq<RoundTrace<C>>, r: int, n: int, enforce_shrink: bool) -> (at:
    Seq<(int, int)>)
    requires
        0 <= r <= rounds.len(),
        0 <= n,
        r < rounds.len() ==> n <= rounds[r].executed.len(),
        r == rounds.len() ==> n == 0,
    ensures
        ({
            let refused = crate::engine::all_rejections(rounds.take(r), enforce_shrink)
                + crate::engine::refused_in(rounds[r].executed, n, r as nat, enforce_shrink);
            &&& at.len() == refused.len()
            &&& forall|i: int, j: int|
                0 <= i < j < at.len() ==> earlier(#[trigger] at[i], #[trigger] at[j])
            &&& forall|i: int|
                0 <= i < at.len() ==> tries_before(rounds, r, n).contains(#[trigger] at[i])
            &&& forall|pair: (int, int)| #[trigger]
                at.contains(pair) == (tries_before(rounds, r, n).contains(pair)
                    && attempt_is_refused(rounds[pair.0].executed[pair.1], enforce_shrink))
            &&& forall|i: int|
                #![trigger at[i]]
                #![trigger refused[i]]
                0 <= i < at.len() ==> {
                    let tried = rounds[at[i].0].executed[at[i].1];
                    &&& refused[i].round == at[i].0
                    &&& refused[i].node == tried.0.node
                    &&& refusal_of(tried, enforce_shrink, refused[i].span, refused[i].kind)
                }
        }),
    decreases r, n,
{
    if n > 0 {
        let tried = rounds[r].executed[n - 1];
        let front = lemma_refusals(rounds, r, n - 1, enforce_shrink);
        lemma_attempt_verdict(tried, enforce_shrink);
        lemma_refusal(tried, enforce_shrink);
        let head = crate::engine::all_rejections(rounds.take(r), enforce_shrink);
        let before = head + crate::engine::refused_in(
            rounds[r].executed,
            n - 1,
            r as nat,
            enforce_shrink,
        );
        let refused = head + crate::engine::refused_in(
            rounds[r].executed,
            n,
            r as nat,
            enforce_shrink,
        );
        let at = if attempt_is_refused(tried, enforce_shrink) {
            front.push((r, n - 1))
        } else {
            front
        };
        if attempt_is_refused(tried, enforce_shrink) {
            assert(refused.drop_last() =~= before);
        } else {
            assert(refused =~= before);
        }
        assert forall|pair: (int, int)| #[trigger] at.contains(pair) == (tries_before(
            rounds,
            r,
            n,
        ).contains(pair) && attempt_is_refused(
            rounds[pair.0].executed[pair.1],
            enforce_shrink,
        )) by {
            if at.contains(pair) {
                let i = choose|i: int| 0 <= i < at.len() && at[i] == pair;
                if i < front.len() {
                    assert(front[i] == pair);
                    assert(front.contains(pair));
                }
            }
            if front.contains(pair) {
                let i = choose|i: int| 0 <= i < front.len() && front[i] == pair;
                assert(at[i] == pair);
            }
            if pair == (r, n - 1) && attempt_is_refused(tried, enforce_shrink) {
                assert(at[at.len() - 1] == pair);
            }
        }
        assert forall|i: int| 0 <= i < front.len() implies at[i] == front[i] && refused[i]
            == before[i] && tries_before(rounds, r, n - 1).contains(front[i]) by {
            assert(tries_before(rounds, r, n - 1).contains(front[i]));
        }
        at
    } else if r > 0 {
        let m = rounds[r - 1].executed.len() as int;
        let at = lemma_refusals(rounds, r - 1, m, enforce_shrink);
        assert(tries_before(rounds, r, 0) =~= tries_before(rounds, r - 1, m));
        assert(rounds.take(r).drop_last() =~= rounds.take(r - 1));
        assert(rounds.take(r).last() == rounds[r - 1]);
        assert(crate::engine::all_rejections(rounds.take(r), enforce_shrink)
            + crate::engine::refused_in(rounds[r].executed, 0, r as nat, enforce_shrink)
            =~= crate::engine::all_rejections(rounds.take(r - 1), enforce_shrink)
            + crate::engine::refused_in(
            rounds[r - 1].executed,
            m,
            (r - 1) as nat,
            enforce_shrink,
        ));
        at
    } else {
        assert(rounds.take(0).len() == 0);
        assert(tries_before(rounds, 0, 0) =~= Set::empty());
        let at = Seq::<(int, int)>::empty();
        assert forall|pair: (int, int)| #[trigger] at.contains(pair) == (tries_before(
            rounds,
            0,
            0,
        ).contains(pair) && attempt_is_refused(
            rounds[pair.0].executed[pair.1],
            enforce_shrink,
        )) by {
            assert(!Set::<(int, int)>::empty().contains(pair));
        }
        at
    }
}

/// A run reports one violation for each attempt with a region that must not be,
/// and for no other, in the order of the attempts: with the node, the round, the
/// first such region, and the first reason that holds of it.
pub proof fn law_violations_are_the_refusals<C: Clone + PartialEq>(
    engine: &Engine<C>,
    source: &str,
    start: TreeModel<C>,
    rounds: Seq<RoundTrace<C>>,
    end: TreeModel<C>,
    report: RunReport,
) -> (at: Seq<(int, int)>)
    requires
        engine.run_ok(source, start, rounds, end, report),
    ensures
        ({
            let n = rounds.len() as int;
            let shrink = engine.settings().enforce_shrink;
            &&& at.len() == report.violations@.len()
            &&& forall|i: int, j: int|
                0 <= i < j < at.len() ==> earlier(#[trigger] at[i], #[trigger] at[j])
            &&& forall|pair: (int, int)| #[trigger]
                at.contains(pair) == (tries_before(rounds, n, 0).contains(pair)
                    && attempt_is_refused(rounds[pair.0].executed[pair.1], shrink))
            &&& forall|i: int|
                #![trigger at[i]]
                #![trigger report.violations@[i]]
                0 <= i < at.len() ==> {
                    let tried = rounds[at[i].0].executed[at[i].1];
                    let found = report.violations@[i];
                    &&& found.round == at[i].0
                    &&& found.node == tried.0.node
                    &&& refusal_of(tried, shrink, found.span, found.kind)
                    &&& found.pass matches Some(name) ==> at[i].0 < engine.passes().len()
                        && engine.passes()[at[i].0].may_be_named(name)
                    &&& found.pass is None ==> at[i].0 >= engine.passes().len()
                }
        }),
{
    let n = rounds.len() as int;
    let shrink = engine.settings().enforce_shrink;
    let at = lemma_refusals(rounds, n, 0, shrink);
    assert(rounds.take(n) =~= rounds);
    let refused = crate::engine::all_rejections(rounds, shrink);
    assert(refused + crate::engine::refused_in(rounds[n].executed, 0, n as nat, shrink)
        =~= refused);
    assert forall|i: int|
        #![trigger at[i]]
        #![trigger report.violations@[i]]
        0 <= i < at.len() implies {
        let tried = rounds[at[i].0].executed[at[i].1];
        let found = report.violations@[i];
        &&& found.round == at[i].0
        &&& found.node == tried.0.node
        &&& refusal_of(tried, shrink, found.span, found.kind)
        &&& found.pass matches Some(name) ==> at[i].0 < engine.passes().len()
            && engine.passes()[at[i].0].may_be_named(name)
        &&& found.pass is None ==> at[i].0 >= engine.passes().len()
    } by {
        assert(refused[i].round == at[i].0);
    }
    at
}

/// The cap on rounds is the configured one, or else the number of passes; no run
/// makes more rounds than either of the two allows.
pub proof fn law_round_cap<C>(engine: &Engine<C>)
    ensures
        engine.settings().max_rounds matches Some(cap) ==> engine.round_cap() == cap,
        engine.settings().max_rounds is None ==> engine.round_cap() == engine.passes().len(),
        engine.round_limit() <= engine.passes().len(),
        engine.round_limit() <= engine.round_cap(),
        engine.round_limit() == engine.passes().len() || engine.round_limit() == engine.round_cap(),
{
}

/// A run is its attempts merged one after the other: each round starts from the
/// tree that the one before it left, each attempt turns the tree into one that
/// merging its outcome may lead to, and the run ends in the tree after the last.
/// Every round but the last makes an attempt on each node that was due.
pub proof fn law_attempts_are_merged_in_turn<C: Clone + PartialEq>(
    engine: &Engine<C>,
    source: &str,
    start: TreeModel<C>,
    rounds: Seq<RoundTrace<C>>,
    end: TreeModel<C>,
    report: RunReport,
    r: int,
)
    requires
        engine.round_limit() <= usize::MAX,
        engine.run_ok(source, start, rounds, end, report),
        0 <= r < rounds.len(),
    ensures
        ({
            let trees = rounds[r].trees;
            let executed = rounds[r].executed;
            &&& trees.len() == executed.len() + 1
            &&& r == 0 ==> trees[0] == start
            &&& r > 0 ==> trees[0] == rounds[r - 1].trees.last()
            &&& r == rounds.len() - 1 ==> end == trees.last()
            &&& r < rounds.len() - 1 ==> executed.len() == rounds[r].jobs.len()
            &&& trees[0].batch_ok(r as usize, rounds[r].jobs)
            &&& forall|k: int|
                #![trigger executed[k]]
                0 <= k < executed.len() ==> executed[k].0 == rounds[r].jobs[k]
                    && trees[k].may_apply(
                    executed[k].0.node,
                    executed[k].1@,
                    r as nat,
                    engine.settings().enforce_shrink,
                    trees[k + 1],
                )
        }),
        rounds.len() == 0 ==> end == start,
{
    assert(engine.step_ok(source, start, rounds, r));
    reveal(Engine::round_ok);
}

/// A run that asks before every round starts none without having been let, is
/// cancelled between rounds only where it was told to stop, and ends early in
/// any other way only where it was let go on.
pub proof fn law_runs_ask_before_every_round<C: Clone + PartialEq, S: Fn(usize) -> bool>(
    engine: &Engine<C>,
    stop: &S,
    rounds: Seq<RoundTrace<C>>,
    report: RunReport,
    r: usize,
)
    requires
        engine.asked(stop, rounds, report),
    ensures
        r < rounds.len() ==> call_ensures(*stop, (r,), false),
        r == rounds.len() && report.cancelled && (r == 0 || rounds[r - 1].executed.len()
            == rounds[r - 1].jobs.len()) ==> call_ensures(*stop, (r,), true),
        r == rounds.len() && !report.cancelled && r < engine.round_limit() ==> call_ensures(
            *stop,
            (r,),
            false,
        ),
{
}

/// The provided executors heed the token: they execute a job only upon a read
/// that does not cancel, and leave one out only upon a read that does.
pub proof fn law_provided_executors_heed_the_token(
    serial: &crate::executor::SerialExecutor,
    rayon: &crate::executor_rayon::RayonExecutor,
    given: nat,
    done: nat,
    cancel: &crate::cancel::CancelToken,
)
    ensures
        crate::executor::Executor::may_do(serial, given, done, cancel) == (done <= given && (done
            > 0 ==> cancel.may_read(false)) && (done < given ==> cancel.may_read(true))),
        crate::executor::Executor::may_do(rayon, given, done, cancel) == (done <= given && (done > 0
            ==> cancel.may_read(false)) && (done < given ==> cancel.may_read(true))),
{
}

/// An engine made of passes runs them in their order: as many rounds as there
/// are passes, each with what its pass may report and be called.
pub proof fn law_engines_run_their_passes_in_order<C, P: crate::passes::Passes<C>>(
    engine: &Engine<C>,
    passes: P,
    round: int,
)
    requires
        engine.runs(passes),
        0 <= round < passes.count(),
    ensures
        engine.passes().len() == passes.count(),
        forall|source: &str, span: Span, ctx: &C, outcome: Outcome<C>| #[trigger]
            engine.passes()[round].may_return(source, span, ctx, outcome) == passes.pass_may_return(
                round,
                source,
                span,
                ctx,
                outcome,
            ),
        forall|name: &'static str| #[trigger]
            engine.passes()[round].may_be_named(name) == passes.pass_may_be_named(round, name),
{
}

} // verus!
