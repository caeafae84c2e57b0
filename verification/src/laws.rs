//! What holds of runs and edits as a whole.

use crate::cancel::CancelToken;
use crate::engine::{Engine, RoundTrace, RunReport};
use crate::executor::Executor;
use crate::job::Job;
use crate::model::{NodeModel, TreeModel};
use crate::node::NodeId;
use crate::outcome::{Outcome, OutcomeModel};
use crate::session::Edit;
use crate::span::Span;
use crate::violation::Violation;
use vstd::prelude::*;

verus! {

/// Cloning a context twice gives the same result.
pub open spec fn clones_consistently<C: Clone>() -> bool {
    forall|a: C, x: C, y: C|
        #[trigger] crate::model::may_clone(a, x) && #[trigger] crate::model::may_clone(a, y)
            ==> x == y
}

/// Comparing two contexts twice gives the same answer.
pub open spec fn compares_consistently<C: PartialEq>() -> bool {
    forall|a: C, b: C|
        !(#[trigger] crate::model::may_equal(a, b, true) && crate::model::may_equal(a, b, false))
}

/// Every pass is pure: it reports one outcome for one input.
pub open spec fn pure<C>(engine: &Engine<C>, source: &str) -> bool {
    forall|r: int, span: Span, ctx: &C, a: Outcome<C>, b: Outcome<C>|
        0 <= r < engine.passes().len() && #[trigger] engine.passes()[r].may_return(
            source,
            span,
            ctx,
            a,
        ) && #[trigger] engine.passes()[r].may_return(source, span, ctx, b) ==> a@ == b@
}

/// No node is due before `round`.
pub open spec fn idle_before<C>(t: TreeModel<C>, round: nat) -> bool {
    forall|d: int, due: nat|
        due < round && 0 <= d < t.nodes.len() ==> !(#[trigger] t.nodes[d].ready(due))
}

/// One attempt: the first node due in the earliest round with work turns `a`
/// into `b`.
pub open spec fn attempt<C: Clone + PartialEq>(
    engine: &Engine<C>,
    source: &str,
    a: TreeModel<C>,
    b: TreeModel<C>,
) -> bool {
    exists|round: usize, job: Job<C>, outcome: Outcome<C>| #[trigger]
        attempt_by(engine, source, a, b, round, job, outcome)
}

/// The attempt made in `round` on `job` with `outcome`.
pub open spec fn attempt_by<C: Clone + PartialEq>(
    engine: &Engine<C>,
    source: &str,
    a: TreeModel<C>,
    b: TreeModel<C>,
    round: usize,
    job: Job<C>,
    outcome: Outcome<C>,
) -> bool {
    &&& round < engine.round_limit()
    &&& idle_before(a, round as nat)
    &&& a.ready_ids(round as nat).len() > 0
    &&& job.node == a.ready_ids(round as nat)[0]
    &&& a.job_ok(round, job)
    &&& engine.job_may_return(source, &job, outcome)
    &&& a.may_apply(
        job.node,
        outcome@,
        round as nat,
        engine.settings().enforce_shrink,
        b,
    )
}

/// Step `k` of `path` is an attempt.
pub open spec fn step_of<C: Clone + PartialEq>(
    engine: &Engine<C>,
    source: &str,
    path: Seq<TreeModel<C>>,
    k: int,
) -> bool {
    attempt(engine, source, path[k], path[k + 1])
}

/// `path` is a chain of attempts.
pub open spec fn path_ok<C: Clone + PartialEq>(
    engine: &Engine<C>,
    source: &str,
    path: Seq<TreeModel<C>>,
) -> bool {
    &&& path.len() > 0
    &&& forall|k: int| 0 <= k < path.len() - 1 ==> #[trigger] step_of(engine, source, path, k)
}

/// No attempt is left to make.
pub open spec fn exhausted<C>(engine: &Engine<C>, t: TreeModel<C>) -> bool {
    idle_before(t, engine.round_limit())
}

/// Two chains of attempts, the second from where the first ends, in one.
pub open spec fn joined<C>(p: Seq<TreeModel<C>>, q: Seq<TreeModel<C>>) -> Seq<TreeModel<C>> {
    p + q.skip(1)
}

/// Chains of attempts can be strung together.
proof fn lemma_path_join<C: Clone + PartialEq>(
    engine: &Engine<C>,
    source: &str,
    p: Seq<TreeModel<C>>,
    q: Seq<TreeModel<C>>,
)
    requires
        path_ok(engine, source, p),
        path_ok(engine, source, q),
        p.last() == q[0],
    ensures
        path_ok(engine, source, joined(p, q)),
        joined(p, q)[0] == p[0],
        joined(p, q).last() == q.last(),
        joined(p, q).len() == p.len() + q.len() - 1,
{
    let path = joined(p, q);
    assert forall|k: int| 0 <= k < path.len() - 1 implies #[trigger] step_of(engine, source, path, k) by {
        if k < p.len() - 1 {
            assert(step_of(engine, source, p, k));
        } else {
            assert(step_of(engine, source, q, k - (p.len() - 1)));
            assert(path[k] == q[k - (p.len() - 1)]);
            assert(path[k + 1] == q[k + 1 - (p.len() - 1)]);
        }
    }
}

/// The ids of the nodes that satisfy `keep` depend on which nodes do.
proof fn lemma_same_ids<C>(
    s: TreeModel<C>,
    n: int,
    p: spec_fn(NodeModel<C>) -> bool,
    t: TreeModel<C>,
    m: int,
    q: spec_fn(NodeModel<C>) -> bool,
)
    requires
        0 <= n <= m,
        n <= s.nodes.len(),
        m <= t.nodes.len(),
        forall|i: int| 0 <= i < n ==> p(#[trigger] s.nodes[i]) == q(t.nodes[i]),
        forall|i: int| n <= i < m ==> !q(#[trigger] t.nodes[i]),
    ensures
        s.ids_where(n, p) == t.ids_where(m, q),
    decreases m,
{
    if m > n {
        lemma_same_ids(s, n, p, t, m - 1, q);
        assert(!q(t.nodes[m - 1]));
    } else if n > 0 {
        assert(p(s.nodes[n - 1]) == q(t.nodes[n - 1]));
        lemma_same_ids(s, n - 1, p, t, m - 1, q);
    }
}

/// Taking the first id out of a filtered list.
proof fn lemma_ids_without_first<C>(
    s: TreeModel<C>,
    n: int,
    p: spec_fn(NodeModel<C>) -> bool,
    t: TreeModel<C>,
    q: spec_fn(NodeModel<C>) -> bool,
    first: int,
)
    requires
        0 <= first < n <= s.nodes.len(),
        n <= t.nodes.len(),
        p(s.nodes[first]),
        !q(t.nodes[first]),
        forall|i: int| 0 <= i < first ==> !p(#[trigger] s.nodes[i]),
        forall|i: int| 0 <= i < n && i != first ==> p(#[trigger] s.nodes[i]) == q(t.nodes[i]),
    ensures
        s.ids_where(n, p).len() > 0,
        t.ids_where(n, q) == s.ids_where(n, p).skip(1),
        s.ids_where(n, p)[0] == NodeId(first as usize),
    decreases n,
{
    if n - 1 == first {
        lemma_none_before(s, first, p);
        assert forall|i: int| 0 <= i < first implies !q(#[trigger] t.nodes[i]) by {
            assert(!p(s.nodes[i]));
        }
        lemma_none_before(t, first, q);
        assert(t.ids_where(n, q) =~= s.ids_where(n, p).skip(1));
    } else {
        lemma_ids_without_first(s, n - 1, p, t, q, first);
        assert(p(s.nodes[n - 1]) == q(t.nodes[n - 1]));
        assert(t.ids_where(n, q) =~= s.ids_where(n, p).skip(1));
    }
}

/// Where no node qualifies, the filtered list is empty.
proof fn lemma_none_before<C>(t: TreeModel<C>, n: int, p: spec_fn(NodeModel<C>) -> bool)
    requires
        0 <= n <= t.nodes.len(),
        forall|i: int| 0 <= i < n ==> !p(#[trigger] t.nodes[i]),
    ensures
        t.ids_where(n, p) == Seq::<NodeId>::empty(),
    decreases n,
{
    if n > 0 {
        lemma_none_before(t, n - 1, p);
    }
}

/// After an attempt on the first node due, the others are still due, in the
/// same order, and nothing became due earlier.
proof fn lemma_due_after<C: PartialEq>(
    pre: TreeModel<C>,
    outcome: OutcomeModel<C>,
    round: nat,
    enforce_shrink: bool,
    post: TreeModel<C>,
)
    requires
        pre.wf(),
        post.nodes.len() <= usize::MAX,
        pre.ready_ids(round).len() > 0,
        pre.may_apply(pre.ready_ids(round)[0], outcome, round, enforce_shrink, post),
    ensures
        post.ready_ids(round) == pre.ready_ids(round).skip(1),
        idle_before(pre, round) ==> idle_before(post, round),
        pre.nodes.len() <= post.nodes.len(),
        forall|d: int|
            d != pre.ready_ids(round)[0].0 && 0 <= d < pre.nodes.len() && (
            #[trigger] pre.nodes[d]).ready(round) ==> post.nodes[d] == pre.nodes[d],
{
    let keep = |node: NodeModel<C>| node.ready(round);
    let len = pre.nodes.len() as int;
    let ids = pre.ready_ids(round);
    let id = ids[0];
    let first = id.0 as int;
    crate::model::lemma_ids_where(pre, len, keep);
    assert(pre.at(id).ready(round));
    crate::model::lemma_apply_frame(pre, id, outcome, round, enforce_shrink, post);
    assert forall|i: int| 0 <= i < first implies !keep(#[trigger] pre.nodes[i]) by {
        if keep(pre.nodes[i]) {
            assert(ids.contains(NodeId(i as usize)));
            let k = choose|k: int| 0 <= k < ids.len() && ids[k] == NodeId(i as usize);
            assert(k == 0 || ids[0].0 < ids[k].0);
        }
    }
    assert forall|i: int| 0 <= i < len && i != first implies keep(#[trigger] pre.nodes[i]) == keep(
        post.nodes[i],
    ) by {
        if keep(pre.nodes[i]) {
            assert(pre.live(i));
        }
        if keep(post.nodes[i]) {
            assert(post.nodes[i].ready(round));
        }
    }
    assert(!keep(post.nodes[first])) by {
        if post.nodes[first].ready(round) {
            assert(false);
        }
    }
    lemma_ids_without_first(pre, len, keep, post, keep, first);
    assert forall|i: int| len <= i < post.nodes.len() implies !keep(#[trigger] post.nodes[i]) by {
        if post.nodes[i].ready(round) {
            assert(false);
        }
    }
    lemma_same_ids(post, len, keep, post, post.nodes.len() as int, keep);
    if idle_before(pre, round) {
        assert forall|d: int, due: nat|
            due < round && 0 <= d < post.nodes.len() implies !(#[trigger] post.nodes[d].ready(due)) by {
            if post.nodes[d].ready(due) {
                assert(post.nodes[d] == pre.nodes[d]);
                assert(!pre.nodes[d].ready(due));
            }
        }
    }
    assert forall|d: int|
        d != first && 0 <= d < len && (#[trigger] pre.nodes[d]).ready(round) implies post.nodes[d]
        == pre.nodes[d] by {
        assert(pre.live(d));
    }
}

/// A round is a chain of attempts, and leaves nothing due up to it when it is
/// merged in full.
proof fn lemma_round_path<C: Clone + PartialEq>(
    engine: &Engine<C>,
    source: &str,
    round: usize,
    trace: RoundTrace<C>,
    n: int,
)
    requires
        engine.round_ok(source, round, trace),
        round < engine.round_limit(),
        idle_before(trace.trees[0], round as nat),
        0 <= n <= trace.executed.len(),
    ensures
        path_ok(engine, source, trace.trees.take(n + 1)),
        trace.trees[n].ready_ids(round as nat) == trace.trees[0].ready_ids(
            round as nat,
        ).skip(n),
        idle_before(trace.trees[n], round as nat),
        forall|k: int|
            n <= k < trace.jobs.len() ==> trace.trees[n].knows((#[trigger] trace.jobs[k]).node)
                && trace.trees[n].at(trace.jobs[k].node) == trace.trees[0].at(
                trace.jobs[k].node,
            ),
    decreases n,
{
    reveal(Engine::round_ok);
    let start = trace.trees[0];
    assert(start.wf());
    let due = start.ready_ids(round as nat);
    crate::model::lemma_ids_where(
        start,
        start.nodes.len() as int,
        |node: NodeModel<C>| node.ready(round as nat),
    );
    if n == 0 {
        assert(due.skip(0) =~= due);
    } else {
        let k = n - 1;
        lemma_round_path(engine, source, round, trace, k);
        let pre = trace.trees[k];
        let post = trace.trees[n];
        let (job, outcome) = trace.executed[k];
        assert(trace.jobs[k].node == due[k] && start.job_ok(round, trace.jobs[k]));
        assert(pre.ready_ids(round as nat)[0] == due[k]);
        assert(pre.at(job.node) == start.at(job.node));
        assert(pre.wf() && post.wf());
        lemma_due_after(pre, outcome@, round as nat, engine.settings().enforce_shrink, post);
        assert(attempt_by(engine, source, pre, post, round, job, outcome));
        let path = trace.trees.take(n + 1);
        assert forall|j: int| 0 <= j < path.len() - 1 implies #[trigger] step_of(
            engine,
            source,
            path,
            j,
        ) by {
            if j < k {
                assert(step_of(engine, source, trace.trees.take(n), j));
            } else {
                assert(attempt(engine, source, path[k], path[k + 1]));
            }
        }
        assert(due.skip(k).skip(1) =~= due.skip(n));
        assert forall|j: int| n <= j < trace.jobs.len() implies post.knows(
            (#[trigger] trace.jobs[j]).node,
        ) && post.at(trace.jobs[j].node) == start.at(trace.jobs[j].node) by {
            assert(trace.jobs[j].node == due[j]);
            assert(due[k].0 < due[j].0);
            assert(pre.at(due[j]) == start.at(due[j]));
            assert(start.at(due[j]).ready(round as nat));
            assert(pre.nodes[due[j].0 as int].ready(round as nat));
        }
    }
}

/// The first `m` rounds of a run are a chain of attempts, one per job
/// executed. Where they were merged in full, nothing is due before round `m`.
proof fn lemma_rounds_path<C: Clone + PartialEq>(
    engine: &Engine<C>,
    source: &str,
    start: TreeModel<C>,
    rounds: Seq<RoundTrace<C>>,
    m: int,
) -> (path: Seq<TreeModel<C>>)
    requires
        start.wf(),
        engine.rounds_ok(source, start, rounds),
        engine.round_limit() <= usize::MAX,
        0 <= m <= rounds.len(),
    ensures
        path_ok(engine, source, path),
        path[0] == start,
        path.last() == crate::engine::tree_before(start, rounds, m),
        path.len() == crate::engine::total_processed(rounds.take(m)) + 1,
        forall|k: int| 0 <= k < path.len() ==> (#[trigger] path[k]).wf(),
        m < rounds.len() || (m > 0 ==> rounds[m - 1].complete()) ==> idle_before(
            crate::engine::tree_before(start, rounds, m),
            m as nat,
        ),
    decreases m,
{
    if m == 0 {
        seq![start]
    } else {
        let r = m - 1;
        let front = lemma_rounds_path(engine, source, start, rounds, r);
        assert(engine.step_ok(source, start, rounds, r));
        let trace = rounds[r];
        let n = trace.executed.len() as int;
        lemma_round_path(engine, source, r as usize, trace, n);
        reveal(Engine::round_ok);
        assert(trace.trees.take(n + 1) =~= trace.trees);
        let path = joined(front, trace.trees);
        lemma_path_join(engine, source, front, trace.trees);
        assert(rounds.take(m).drop_last() =~= rounds.take(r));
        assert(rounds.take(m).last() == trace);
        assert forall|k: int| 0 <= k < path.len() implies (#[trigger] path[k]).wf() by {
            if k < front.len() {
                assert(front[k].wf());
            } else {
                assert(path[k] == trace.trees[k - front.len() + 1]);
            }
        }
        if trace.complete() {
            let end = trace.trees[n];
            assert(end.ready_ids(r as nat).len() == 0);
            lemma_idle_next(end, r as nat);
        }
        if m < rounds.len() {
            assert(engine.step_ok(source, start, rounds, r));
        }
        path
    }
}

/// Where nothing is due before a round nor in it, nothing is due before the
/// next.
proof fn lemma_idle_next<C>(t: TreeModel<C>, round: nat)
    requires
        t.nodes.len() <= usize::MAX,
        idle_before(t, round),
        t.ready_ids(round).len() == 0,
    ensures
        idle_before(t, round + 1),
{
    let keep = |node: NodeModel<C>| node.ready(round);
    crate::model::lemma_ids_where(t, t.nodes.len() as int, keep);
    assert forall|d: int, due: nat|
        due < round + 1 && 0 <= d < t.nodes.len() implies !(#[trigger] t.nodes[d].ready(due)) by {
        if due == round && t.nodes[d].ready(round) {
            assert(keep(t.nodes[d]));
            assert(t.ready_ids(round).contains(NodeId(d as usize)));
        }
    }
}

/// Where nothing is pending, nothing is due.
proof fn lemma_nothing_pending<C>(t: TreeModel<C>, cap: nat)
    requires
        t.nodes.len() <= usize::MAX,
        t.pending_ids(cap).len() == 0,
    ensures
        idle_before(t, cap),
{
    let keep = |node: NodeModel<C>| node.pending(cap);
    crate::model::lemma_ids_where(t, t.nodes.len() as int, keep);
    assert forall|d: int, due: nat|
        due < cap && 0 <= d < t.nodes.len() implies !(#[trigger] t.nodes[d].ready(due)) by {
        if t.nodes[d].ready(due) {
            assert(keep(t.nodes[d]));
            assert(t.pending_ids(cap).contains(NodeId(d as usize)));
        }
    }
}

/// From a tree with nothing due no attempt is made.
proof fn lemma_exhausted_stays<C: Clone + PartialEq>(
    engine: &Engine<C>,
    source: &str,
    a: TreeModel<C>,
    b: TreeModel<C>,
)
    requires
        a.wf(),
        exhausted(engine, a),
    ensures
        !attempt(engine, source, a, b),
{
    if attempt(engine, source, a, b) {
        let (round, job, outcome) = choose|round: usize, job: Job<C>, outcome: Outcome<C>|
            #[trigger] attempt_by(engine, source, a, b, round, job, outcome);
        lemma_first_due(a, round as nat);
        assert(!a.nodes[a.ready_ids(round as nat)[0].0 as int].ready(round as nat));
    }
}

/// The first node due in a round is known and due.
proof fn lemma_first_due<C>(t: TreeModel<C>, round: nat)
    requires
        t.wf(),
        t.ready_ids(round).len() > 0,
    ensures
        t.knows(t.ready_ids(round)[0]),
        t.nodes[t.ready_ids(round)[0].0 as int].ready(round),
{
    crate::model::lemma_ids_where(
        t,
        t.nodes.len() as int,
        |node: NodeModel<C>| node.ready(round),
    );
}

/// With consistent comparison, regions are matched against children in one
/// way only.
proof fn lemma_one_matching<C: PartialEq>(
    t: TreeModel<C>,
    id: NodeId,
    produced: Seq<(Span, C)>,
    a: Seq<Option<NodeId>>,
    b: Seq<Option<NodeId>>,
    n: int,
)
    requires
        compares_consistently::<C>(),
        t.reuse_ok(id, produced, a),
        t.reuse_ok(id, produced, b),
        0 <= n <= produced.len(),
    ensures
        a.take(n) == b.take(n),
    decreases n,
{
    if n > 0 {
        let s = n - 1;
        lemma_one_matching(t, id, produced, a, b, s);
        let old_ids = t.at(id).children;
        let child = produced[s];
        assert(t.slot_ok(old_ids, child, a, s));
        assert(t.slot_ok(old_ids, child, b, s));
        assert forall|c: NodeId| crate::model::kept_within(a, s, c) == crate::model::kept_within(b, s, c) by {
            if crate::model::kept_within(a, s, c) {
                let j = choose|j: int| 0 <= j < s && #[trigger] a[j] == Some(c);
                assert(a.take(s)[j] == b.take(s)[j]);
                assert(b[j] == Some(c));
            }
            if crate::model::kept_within(b, s, c) {
                let j = choose|j: int| 0 <= j < s && #[trigger] b[j] == Some(c);
                assert(a.take(s)[j] == b.take(s)[j]);
                assert(a[j] == Some(c));
            }
        }
        lemma_one_slot(t, old_ids, child, a, b, s);
        lemma_one_slot(t, old_ids, child, b, a, s);
        assert(a[s] == b[s]);
        assert(a.take(n) =~= a.take(s).push(a[s]));
        assert(b.take(n) =~= b.take(s).push(b[s]));
    }
}

/// One slot, one way to fill it.
proof fn lemma_one_slot<C: PartialEq>(
    t: TreeModel<C>,
    old_ids: Seq<NodeId>,
    child: (Span, C),
    a: Seq<Option<NodeId>>,
    b: Seq<Option<NodeId>>,
    s: int,
)
    requires
        compares_consistently::<C>(),
        t.slot_ok(old_ids, child, a, s),
        t.slot_ok(old_ids, child, b, s),
        forall|c: NodeId| crate::model::kept_within(a, s, c) == crate::model::kept_within(b, s, c),
    ensures
        a[s] is Some ==> a[s] == b[s],
{
    if a[s] is Some {
        let c = a[s]->0;
        let k = choose|k: int|
            {
                &&& 0 <= k < old_ids.len()
                &&& #[trigger] old_ids[k] == c
                &&& !crate::model::kept_within(a, s, c)
                &&& t.may_match(c, child)
                &&& forall|j: int|
                    0 <= j < k ==> crate::model::kept_within(a, s, #[trigger] old_ids[j])
                        || t.may_differ(old_ids[j], child)
            };
        assert(crate::model::may_equal(t.at(c).ctx, child.1, true));
        assert(!t.may_differ(old_ids[k], child));
        match b[s] {
            None => {
                assert(crate::model::kept_within(b, s, old_ids[k]) || t.may_differ(
                    old_ids[k],
                    child,
                ));
            },
            Some(e) => {
                let l = choose|l: int|
                    {
                        &&& 0 <= l < old_ids.len()
                        &&& #[trigger] old_ids[l] == e
                        &&& !crate::model::kept_within(b, s, e)
                        &&& t.may_match(e, child)
                        &&& forall|j: int|
                            0 <= j < l ==> crate::model::kept_within(b, s, #[trigger] old_ids[j])
                                || t.may_differ(old_ids[j], child)
                    };
                assert(crate::model::may_equal(t.at(e).ctx, child.1, true));
                assert(!t.may_differ(old_ids[l], child));
                if k < l {
                    assert(crate::model::kept_within(b, s, old_ids[k]) || t.may_differ(
                        old_ids[k],
                        child,
                    ));
                }
                if l < k {
                    assert(crate::model::kept_within(a, s, old_ids[l]) || t.may_differ(
                        old_ids[l],
                        child,
                    ));
                }
            },
        }
    }
}

/// With consistent comparison, merging an outcome has one result.
proof fn lemma_one_merge<C: PartialEq>(
    t: TreeModel<C>,
    id: NodeId,
    outcome: OutcomeModel<C>,
    round: nat,
    enforce_shrink: bool,
    a: TreeModel<C>,
    b: TreeModel<C>,
)
    requires
        compares_consistently::<C>(),
        t.may_apply(id, outcome, round, enforce_shrink, a),
        t.may_apply(id, outcome, round, enforce_shrink, b),
    ensures
        a == b,
{
    if crate::violation::verdict(t.at(id).span, outcome, enforce_shrink) is Expanded {
        let produced = outcome->Expand_0;
        let ka = choose|kept: Seq<Option<NodeId>>| #[trigger]
            t.reuse_ok(id, produced, kept) && a == t.expanded(id, produced, kept, round);
        let kb = choose|kept: Seq<Option<NodeId>>| #[trigger]
            t.reuse_ok(id, produced, kept) && b == t.expanded(id, produced, kept, round);
        lemma_one_matching(t, id, produced, ka, kb, produced.len() as int);
        assert(ka.take(produced.len() as int) =~= ka);
        assert(kb.take(produced.len() as int) =~= kb);
    }
}

/// With pure passes and well-behaved contexts an attempt has one result.
proof fn lemma_one_attempt<C: Clone + PartialEq>(
    engine: &Engine<C>,
    source: &str,
    t: TreeModel<C>,
    a: TreeModel<C>,
    b: TreeModel<C>,
)
    requires
        t.wf(),
        pure(engine, source),
        clones_consistently::<C>(),
        compares_consistently::<C>(),
        attempt(engine, source, t, a),
        attempt(engine, source, t, b),
    ensures
        a == b,
{
    let (ra, ja, oa) = choose|round: usize, job: Job<C>, outcome: Outcome<C>| #[trigger]
        attempt_by(engine, source, t, a, round, job, outcome);
    let (rb, jb, ob) = choose|round: usize, job: Job<C>, outcome: Outcome<C>| #[trigger]
        attempt_by(engine, source, t, b, round, job, outcome);
    lemma_first_due(t, ra as nat);
    lemma_first_due(t, rb as nat);
    if ra < rb {
        assert(!t.nodes[t.ready_ids(ra as nat)[0].0 as int].ready(ra as nat));
    }
    if rb < ra {
        assert(!t.nodes[t.ready_ids(rb as nat)[0].0 as int].ready(rb as nat));
    }
    assert(crate::model::may_clone(t.at(ja.node).ctx, ja.ctx));
    assert(crate::model::may_clone(t.at(jb.node).ctx, jb.ctx));
    assert(ja.ctx == jb.ctx);
    if ra < engine.passes().len() {
        assert(engine.passes()[ra as int].may_return(source, ja.span, &ja.ctx, oa));
        assert(engine.passes()[ra as int].may_return(source, ja.span, &ja.ctx, ob));
    }
    assert(oa@ == ob@);
    let shrink = engine.settings().enforce_shrink;
    lemma_one_merge(t, ja.node, oa@, ra as nat, shrink, a, b);
}

/// With pure passes and well-behaved contexts, two chains of attempts from
/// one tree agree as far as both go.
proof fn lemma_paths_agree<C: Clone + PartialEq>(
    engine: &Engine<C>,
    source: &str,
    p: Seq<TreeModel<C>>,
    q: Seq<TreeModel<C>>,
    k: int,
)
    requires
        pure(engine, source),
        clones_consistently::<C>(),
        compares_consistently::<C>(),
        path_ok(engine, source, p),
        path_ok(engine, source, q),
        forall|j: int| 0 <= j < p.len() ==> (#[trigger] p[j]).wf(),
        p[0] == q[0],
        0 <= k < p.len(),
        k < q.len(),
    ensures
        p[k] == q[k],
    decreases k,
{
    if k > 0 {
        lemma_paths_agree(engine, source, p, q, k - 1);
        assert(step_of(engine, source, p, k - 1));
        assert(step_of(engine, source, q, k - 1));
        lemma_one_attempt(engine, source, p[k - 1], p[k], q[k]);
    }
}

/// Two chains of attempts from one tree, both with nothing left to do at
/// their end, are the same chain.
proof fn lemma_paths_meet<C: Clone + PartialEq>(
    engine: &Engine<C>,
    source: &str,
    p: Seq<TreeModel<C>>,
    q: Seq<TreeModel<C>>,
)
    requires
        pure(engine, source),
        clones_consistently::<C>(),
        compares_consistently::<C>(),
        path_ok(engine, source, p),
        path_ok(engine, source, q),
        forall|j: int| 0 <= j < p.len() ==> (#[trigger] p[j]).wf(),
        forall|j: int| 0 <= j < q.len() ==> (#[trigger] q[j]).wf(),
        p[0] == q[0],
        exhausted(engine, p.last()),
        exhausted(engine, q.last()),
    ensures
        p.len() == q.len(),
        p.last() == q.last(),
{
    if p.len() <= q.len() {
        let k = p.len() - 1;
        lemma_paths_agree(engine, source, p, q, k);
        if p.len() < q.len() {
            assert(step_of(engine, source, q, k));
            lemma_exhausted_stays(engine, source, p[k], q[k + 1]);
        }
    } else {
        let k = q.len() - 1;
        lemma_paths_agree(engine, source, p, q, k);
        assert(step_of(engine, source, p, k));
        lemma_exhausted_stays(engine, source, q[k], p[k + 1]);
    }
}

/// A run that was not cancelled leaves nothing due.
proof fn lemma_run_exhausts<C: Clone + PartialEq>(
    engine: &Engine<C>,
    source: &str,
    start: TreeModel<C>,
    rounds: Seq<RoundTrace<C>>,
    end: TreeModel<C>,
    report: RunReport,
)
    requires
        start.wf(),
        end.wf(),
        engine.round_limit() <= usize::MAX,
        engine.run_ok(source, start, rounds, end, report),
        !report.cancelled,
    ensures
        exhausted(engine, end),
{
    if end.pending_ids(engine.round_limit()).len() == 0 {
        lemma_nothing_pending(end, engine.round_limit());
    } else {
        let path = lemma_rounds_path(engine, source, start, rounds, rounds.len() as int);
    }
}

/// With pure passes and well-behaved contexts, two rounds from one tree that
/// are both merged in full agree.
proof fn lemma_one_round<C: Clone + PartialEq>(
    engine: &Engine<C>,
    source: &str,
    round: usize,
    a: RoundTrace<C>,
    b: RoundTrace<C>,
    n: int,
)
    requires
        pure(engine, source),
        clones_consistently::<C>(),
        compares_consistently::<C>(),
        engine.round_ok(source, round, a),
        engine.round_ok(source, round, b),
        a.trees[0] == b.trees[0],
        a.complete(),
        b.complete(),
        0 <= n <= a.executed.len(),
    ensures
        a.executed.len() == b.executed.len(),
        a.trees[n] == b.trees[n],
        crate::engine::fail_count(a.executed, n, engine.settings().enforce_shrink)
            == crate::engine::fail_count(b.executed, n, engine.settings().enforce_shrink),
        crate::engine::refused_in(a.executed, n, round as nat, engine.settings().enforce_shrink)
            == crate::engine::refused_in(
            b.executed,
            n,
            round as nat,
            engine.settings().enforce_shrink,
        ),
    decreases n,
{
    reveal(Engine::round_ok);
    let due = a.trees[0].ready_ids(round as nat);
    if n > 0 {
        let k = n - 1;
        lemma_one_round(engine, source, round, a, b, k);
        let (job_a, out_a) = a.executed[k];
        let (job_b, out_b) = b.executed[k];
        assert(a.jobs[k].node == due[k] && a.trees[0].job_ok(round, a.jobs[k]));
        assert(b.jobs[k].node == due[k] && b.trees[0].job_ok(round, b.jobs[k]));
        assert(crate::model::may_clone(a.trees[0].at(job_a.node).ctx, job_a.ctx));
        assert(crate::model::may_clone(b.trees[0].at(job_b.node).ctx, job_b.ctx));
        assert(job_a == job_b);
        if round < engine.passes().len() {
            assert(engine.passes()[round as int].may_return(
                source,
                job_a.span,
                &job_a.ctx,
                out_a,
            ));
            assert(engine.passes()[round as int].may_return(
                source,
                job_a.span,
                &job_a.ctx,
                out_b,
            ));
        }
        assert(out_a@ == out_b@);
        lemma_one_merge(
            a.trees[k],
            job_a.node,
            out_a@,
            round as nat,
            engine.settings().enforce_shrink,
            a.trees[n],
            b.trees[n],
        );
    }
}

/// With pure passes and well-behaved contexts, two runs from one tree that
/// merge their rounds in full agree as far as both go.
proof fn lemma_rounds_agree<C: Clone + PartialEq>(
    engine: &Engine<C>,
    source: &str,
    start: TreeModel<C>,
    a: Seq<RoundTrace<C>>,
    b: Seq<RoundTrace<C>>,
    m: int,
)
    requires
        pure(engine, source),
        clones_consistently::<C>(),
        compares_consistently::<C>(),
        engine.round_limit() <= usize::MAX,
        engine.rounds_ok(source, start, a),
        engine.rounds_ok(source, start, b),
        a.len() > 0 ==> a.last().complete(),
        b.len() > 0 ==> b.last().complete(),
        0 <= m <= a.len(),
        m <= b.len(),
    ensures
        crate::engine::tree_before(start, a, m) == crate::engine::tree_before(start, b, m),
        same_work(engine, a.take(m), b.take(m)),
    decreases m,
{
    if m == 0 {
        assert(a.take(0) =~= b.take(0));
    } else {
        let r = m - 1;
        lemma_rounds_agree(engine, source, start, a, b, r);
        assert(engine.step_ok(source, start, a, r));
        assert(engine.step_ok(source, start, b, r));
        let n = a[r].executed.len() as int;
        lemma_one_round(engine, source, r as usize, a[r], b[r], n);
        reveal(Engine::round_ok);
        assert(a.take(m).drop_last() =~= a.take(r));
        assert(b.take(m).drop_last() =~= b.take(r));
    }
}

/// The rounds made the same attempts, with the same failures.
pub open spec fn same_work<C>(
    engine: &Engine<C>,
    a: Seq<RoundTrace<C>>,
    b: Seq<RoundTrace<C>>,
) -> bool {
    let shrink = engine.settings().enforce_shrink;
    &&& crate::engine::working_rounds(a) == crate::engine::working_rounds(b)
    &&& crate::engine::total_processed(a) == crate::engine::total_processed(b)
    &&& crate::engine::total_failed(a, shrink) == crate::engine::total_failed(b, shrink)
    &&& crate::engine::all_rejections(a, shrink) == crate::engine::all_rejections(b, shrink)
}

/// Rounds that start with nothing pending add nothing.
proof fn lemma_idle_rounds<C: Clone + PartialEq>(
    engine: &Engine<C>,
    source: &str,
    start: TreeModel<C>,
    rounds: Seq<RoundTrace<C>>,
    n: int,
    m: int,
)
    requires
        engine.rounds_ok(source, start, rounds),
        engine.round_limit() <= usize::MAX,
        0 <= n <= m <= rounds.len(),
        crate::engine::tree_before(start, rounds, n).nodes.len() <= usize::MAX,
        crate::engine::tree_before(start, rounds, n).pending_ids(engine.round_limit()).len() == 0,
    ensures
        crate::engine::tree_before(start, rounds, m) == crate::engine::tree_before(
            start,
            rounds,
            n,
        ),
        same_work(engine, rounds.take(m), rounds.take(n)),
    decreases m,
{
    if m > n {
        let r = m - 1;
        lemma_idle_rounds(engine, source, start, rounds, n, r);
        assert(engine.step_ok(source, start, rounds, r));
        reveal(Engine::round_ok);
        let t = crate::engine::tree_before(start, rounds, n);
        lemma_nothing_pending(t, engine.round_limit());
        lemma_none_before(
            t,
            t.nodes.len() as int,
            |node: NodeModel<C>| node.ready(r as usize as nat),
        );
        assert(rounds[r].jobs.len() == 0);
        assert(rounds.take(m).drop_last() =~= rounds.take(r));
        let shrink = engine.settings().enforce_shrink;
        assert(crate::engine::all_rejections(rounds.take(m), shrink)
            =~= crate::engine::all_rejections(rounds.take(r), shrink));
    }
}

/// The violations say the same, but for the name of the pass.
pub open spec fn same_violations(a: Seq<Violation>, b: Seq<Violation>) -> bool {
    &&& a.len() == b.len()
    &&& forall|k: int|
        #![trigger a[k]]
        #![trigger b[k]]
        0 <= k < a.len() ==> a[k].node == b[k].node && a[k].round == b[k].round && a[k].span
            == b[k].span && a[k].kind == b[k].kind
}

/// Runs are deterministic: with pure passes, and contexts that clone and
/// compare the same way every time, two runs over the same tree that are not
/// cancelled end in the same tree and report the same, whatever executors they
/// used.
pub proof fn law_runs_agree<C: Clone + PartialEq>(
    engine: &Engine<C>,
    source: &str,
    start: TreeModel<C>,
    rounds_a: Seq<RoundTrace<C>>,
    end_a: TreeModel<C>,
    report_a: RunReport,
    rounds_b: Seq<RoundTrace<C>>,
    end_b: TreeModel<C>,
    report_b: RunReport,
)
    requires
        pure(engine, source),
        clones_consistently::<C>(),
        compares_consistently::<C>(),
        engine.round_limit() <= usize::MAX,
        end_a.wf(),
        end_b.wf(),
        engine.run_ok(source, start, rounds_a, end_a, report_a),
        engine.run_ok(source, start, rounds_b, end_b, report_b),
        !report_a.cancelled,
        !report_b.cancelled,
    ensures
        end_a == end_b,
        report_a.rounds_run == report_b.rounds_run,
        report_a.nodes_processed == report_b.nodes_processed,
        report_a.nodes_failed == report_b.nodes_failed,
        report_a.reached_fixpoint == report_b.reached_fixpoint,
        same_violations(report_a.violations@, report_b.violations@),
{
    let (n, m) = (rounds_a.len() as int, rounds_b.len() as int);
    let k = if n <= m {
        n
    } else {
        m
    };
    lemma_rounds_agree(engine, source, start, rounds_a, rounds_b, k);
    if n < m {
        lemma_idle_rounds(engine, source, start, rounds_b, n, m);
    }
    if m < n {
        lemma_idle_rounds(engine, source, start, rounds_a, m, n);
    }
    assert(rounds_a.take(n) =~= rounds_a);
    assert(rounds_b.take(m) =~= rounds_b);
    let shrink = engine.settings().enforce_shrink;
    let refused = crate::engine::all_rejections(rounds_a, shrink);
    assert forall|j: int|
        #![trigger report_a.violations@[j]]
        #![trigger report_b.violations@[j]]
        0 <= j < report_a.violations@.len() implies report_a.violations@[j].node
        == report_b.violations@[j].node && report_a.violations@[j].round
        == report_b.violations@[j].round && report_a.violations@[j].span
        == report_b.violations@[j].span && report_a.violations@[j].kind
        == report_b.violations@[j].kind by {
        let r = refused[j];
    }
}

/// A later run resumes where a cancelled one stopped: with pure passes, and
/// contexts that clone and compare the same way every time, a run from the tree
/// that a cancelled run left ends in the tree that an uninterrupted run would
/// have given, and no attempt is made twice.
pub proof fn law_run_resumes<C: Clone + PartialEq>(
    engine: &Engine<C>,
    source: &str,
    start: TreeModel<C>,
    rounds_first: Seq<RoundTrace<C>>,
    mid: TreeModel<C>,
    report_first: RunReport,
    rounds_second: Seq<RoundTrace<C>>,
    end_second: TreeModel<C>,
    report_second: RunReport,
    rounds_whole: Seq<RoundTrace<C>>,
    end_whole: TreeModel<C>,
    report_whole: RunReport,
)
    requires
        pure(engine, source),
        clones_consistently::<C>(),
        compares_consistently::<C>(),
        engine.round_limit() <= usize::MAX,
        start.wf(),
        mid.wf(),
        end_second.wf(),
        end_whole.wf(),
        engine.run_ok(source, start, rounds_first, mid, report_first),
        engine.run_ok(source, mid, rounds_second, end_second, report_second),
        !report_second.cancelled,
        engine.run_ok(source, start, rounds_whole, end_whole, report_whole),
        !report_whole.cancelled,
    ensures
        end_second == end_whole,
        crate::engine::total_processed(rounds_first) + crate::engine::total_processed(rounds_second)
            == crate::engine::total_processed(rounds_whole),
{
    let p = lemma_rounds_path(engine, source, start, rounds_first, rounds_first.len() as int);
    let q = lemma_rounds_path(engine, source, mid, rounds_second, rounds_second.len() as int);
    let w = lemma_rounds_path(engine, source, start, rounds_whole, rounds_whole.len() as int);
    lemma_run_exhausts(engine, source, mid, rounds_second, end_second, report_second);
    lemma_run_exhausts(engine, source, start, rounds_whole, end_whole, report_whole);
    lemma_path_join(engine, source, p, q);
    let both = joined(p, q);
    assert forall|j: int| 0 <= j < both.len() implies (#[trigger] both[j]).wf() by {
        if j < p.len() {
            assert(p[j].wf());
        } else {
            assert(both[j] == q[j - p.len() + 1]);
        }
    }
    lemma_paths_meet(engine, source, both, w);
    assert(rounds_first.take(rounds_first.len() as int) =~= rounds_first);
    assert(rounds_second.take(rounds_second.len() as int) =~= rounds_second);
    assert(rounds_whole.take(rounds_whole.len() as int) =~= rounds_whole);
}

/// Rounds that processed nothing add nothing to a report.
proof fn lemma_no_work<C>(rounds: Seq<RoundTrace<C>>, enforce_shrink: bool)
    requires
        crate::engine::total_processed(rounds) == 0,
    ensures
        crate::engine::working_rounds(rounds) == 0,
        crate::engine::total_failed(rounds, enforce_shrink) == 0,
        crate::engine::all_rejections(rounds, enforce_shrink).len() == 0,
    decreases rounds.len(),
{
    if rounds.len() > 0 {
        lemma_no_work(rounds.drop_last(), enforce_shrink);
    }
}

/// A run over an already-settled tree does no work, and reaches its fixpoint
/// unless it is cancelled.
pub proof fn law_settled_run_does_nothing<C: Clone + PartialEq>(
    engine: &Engine<C>,
    source: &str,
    start: TreeModel<C>,
    rounds: Seq<RoundTrace<C>>,
    end: TreeModel<C>,
    report: RunReport,
)
    requires
        start.wf(),
        engine.round_limit() <= usize::MAX,
        engine.run_ok(source, start, rounds, end, report),
        start.settled(0, engine.round_limit()),
    ensures
        end == start,
        report.rounds_run == 0,
        report.nodes_processed == 0,
        report.nodes_failed == 0,
        report.violations@.len() == 0,
        report.reached_fixpoint == !report.cancelled,
{
    law_fixpoint_is_settled(start, engine.round_limit());
    lemma_nothing_pending(start, engine.round_limit());
    let path = lemma_rounds_path(engine, source, start, rounds, rounds.len() as int);
    if path.len() > 1 {
        assert(step_of(engine, source, path, 0));
        lemma_exhausted_stays(engine, source, start, path[1]);
    }
    assert(rounds.take(rounds.len() as int) =~= rounds);
    lemma_no_work(rounds, engine.settings().enforce_shrink);
}

/// No node is pending exactly where the root is settled.
pub proof fn law_fixpoint_is_settled<C>(t: TreeModel<C>, cap: nat)
    requires
        t.wf(),
    ensures
        (t.pending_ids(cap).len() == 0) == t.settled(0, cap),
{
    let keep = |node: NodeModel<C>| node.pending(cap);
    crate::model::lemma_ids_where(t, t.nodes.len() as int, keep);
    if t.pending_ids(cap).len() == 0 {
        assert forall|d: int| #[trigger] t.live(d) && t.under(0, d) implies !t.nodes[d].pending(
            cap,
        ) by {
            if keep(t.nodes[d]) {
                assert(t.pending_ids(cap).contains(NodeId(d as usize)));
            }
        }
    } else {
        let d = t.pending_ids(cap)[0].0 as int;
        assert(keep(t.at(t.pending_ids(cap)[0])));
        assert(t.live(d));
        crate::model::law_nodes_within_root(t, d);
    }
}

/// A run whose token reads as cancelled from the start does nothing.
pub proof fn law_cancelled_run_does_nothing<C: Clone + PartialEq, E: Executor>(
    engine: &Engine<C>,
    source: &str,
    start: TreeModel<C>,
    rounds: Seq<RoundTrace<C>>,
    end: TreeModel<C>,
    report: RunReport,
    exec: &E,
    cancel: &CancelToken,
)
    requires
        engine.run_ok(source, start, rounds, end, report),
        engine.stop_ok(exec, cancel, rounds, report),
        !cancel.may_read(false),
        engine.round_limit() > 0,
    ensures
        end == start,
        report.cancelled,
        !report.reached_fixpoint,
        report.nodes_processed == 0,
        report.nodes_failed == 0,
        report.violations@.len() == 0,
{
}

/// A run is cancelled only by its token, unless its executor stops on its own.
pub proof fn law_only_the_token_cancels<C: Clone + PartialEq, E: Executor>(
    engine: &Engine<C>,
    source: &str,
    start: TreeModel<C>,
    rounds: Seq<RoundTrace<C>>,
    end: TreeModel<C>,
    report: RunReport,
    exec: &E,
    cancel: &CancelToken,
)
    requires
        engine.run_ok(source, start, rounds, end, report),
        engine.stop_ok(exec, cancel, rounds, report),
        forall|given: nat, done: nat|
            #[trigger] exec.may_do(given, done, cancel) && done < given ==> cancel.may_read(true),
        !cancel.may_read(true),
    ensures
        !report.cancelled,
        report.reached_fixpoint == (end.pending_ids(engine.round_limit()).len() == 0),
{
    if rounds.len() > 0 && !rounds.last().complete() {
        let r = rounds.len() - 1;
        assert(engine.step_ok(source, start, rounds, r));
        reveal(Engine::round_ok);
        assert(rounds[r].jobs.len() > 0);
    }
}

/// A run goes as far as its executor does: one that executes nothing leaves the
/// tree alone, and the run is cancelled wherever there was something to do.
pub proof fn law_idle_executor_cancels<C: Clone + PartialEq, E: Executor>(
    engine: &Engine<C>,
    source: &str,
    start: TreeModel<C>,
    rounds: Seq<RoundTrace<C>>,
    end: TreeModel<C>,
    report: RunReport,
    exec: &E,
    cancel: &CancelToken,
)
    requires
        start.wf(),
        engine.round_limit() <= usize::MAX,
        engine.run_ok(source, start, rounds, end, report),
        engine.stop_ok(exec, cancel, rounds, report),
        forall|given: nat, done: nat|
            #[trigger] exec.may_do(given, done, cancel) ==> done == 0,
    ensures
        end == start,
        report.rounds_run == 0,
        report.nodes_processed == 0,
        report.nodes_failed == 0,
        report.violations@.len() == 0,
        (exists|r: nat| r < engine.round_limit() && (#[trigger] start.ready_ids(r)).len() > 0)
            ==> report.cancelled && !report.reached_fixpoint,
{
    lemma_idle_rounds_alone(engine, source, start, rounds, exec, cancel, rounds.len() as int);
    assert(rounds.take(rounds.len() as int) =~= rounds);
    if exists|r: nat| r < engine.round_limit() && (#[trigger] start.ready_ids(r)).len() > 0 {
        let r = choose|r: nat|
            r < engine.round_limit() && (#[trigger] start.ready_ids(r)).len() > 0;
        if !report.cancelled {
            lemma_first_due(start, r);
            if start.pending_ids(engine.round_limit()).len() == 0 {
                lemma_nothing_pending(start, engine.round_limit());
                assert(!start.nodes[start.ready_ids(r)[0].0 as int].ready(r));
            }
            assert(engine.step_ok(source, start, rounds, r as int));
            reveal(Engine::round_ok);
            lemma_idle_rounds_alone(engine, source, start, rounds, exec, cancel, r as int);
            assert(rounds[r as int].jobs.len() > 0);
            assert(rounds[r as int].complete());
        }
    }
}

/// With an executor that executes nothing, rounds change nothing.
proof fn lemma_idle_rounds_alone<C: Clone + PartialEq, E: Executor>(
    engine: &Engine<C>,
    source: &str,
    start: TreeModel<C>,
    rounds: Seq<RoundTrace<C>>,
    exec: &E,
    cancel: &CancelToken,
    n: int,
)
    requires
        engine.rounds_ok(source, start, rounds),
        crate::engine::executed_by(exec, cancel, rounds),
        forall|given: nat, done: nat|
            #[trigger] exec.may_do(given, done, cancel) ==> done == 0,
        0 <= n <= rounds.len(),
    ensures
        crate::engine::tree_before(start, rounds, n) == start,
        crate::engine::working_rounds(rounds.take(n)) == 0,
        crate::engine::total_processed(rounds.take(n)) == 0,
        crate::engine::total_failed(rounds.take(n), engine.settings().enforce_shrink) == 0,
        crate::engine::all_rejections(rounds.take(n), engine.settings().enforce_shrink).len() == 0,
        forall|r: int| 0 <= r < n ==> (#[trigger] rounds[r]).executed.len() == 0,
    decreases n,
{
    if n > 0 {
        lemma_idle_rounds_alone(engine, source, start, rounds, exec, cancel, n - 1);
        assert(engine.step_ok(source, start, rounds, n - 1));
        reveal(Engine::round_ok);
        assert(rounds[n - 1].executed.len() == 0);
        assert(rounds.take(n).drop_last() =~= rounds.take(n - 1));
    }
}

/// A run with an empty schedule does no work, whatever its cap: the tree is
/// left alone, and unless it was settled the run reports neither fixpoint nor
/// cancellation.
pub proof fn law_empty_schedule_does_nothing<C: Clone + PartialEq>(
    engine: &Engine<C>,
    source: &str,
    start: TreeModel<C>,
    rounds: Seq<RoundTrace<C>>,
    end: TreeModel<C>,
    report: RunReport,
)
    requires
        engine.passes().len() == 0,
        engine.run_ok(source, start, rounds, end, report),
    ensures
        end == start,
        report.rounds_run == 0,
        report.nodes_processed == 0,
        report.nodes_failed == 0,
        report.violations@.len() == 0,
        !report.cancelled,
        report.reached_fixpoint == (start.pending_ids(0).len() == 0),
{
}

/// An outcome with a child that escapes its parent, is on another revision or,
/// where that is asked for, is not smaller than its parent fails the node and
/// leaves it childless; any other outcome with children is taken.
pub proof fn law_bad_children_fail_the_node<C: PartialEq>(
    t: TreeModel<C>,
    id: NodeId,
    produced: Seq<(Span, C)>,
    round: nat,
    enforce_shrink: bool,
    post: TreeModel<C>,
)
    requires
        t.wf(),
        t.live(id.0 as int),
        produced.len() > 0,
        t.may_apply(id, OutcomeModel::Expand(produced), round, enforce_shrink, post),
    ensures
        (post.at(id).status is Failed) == exists|k: int|
            0 <= k < produced.len() && crate::violation::fault(
                t.at(id).span,
                (#[trigger] produced[k]).0,
                enforce_shrink,
            ) is Some,
        post.at(id).status is Failed ==> post.at(id).children.len() == 0,
        !(post.at(id).status is Failed) ==> post.at(id).status is Expanded
            && post.at(id).children.len() == produced.len(),
{
    lemma_first_fault(t.at(id).span, produced, enforce_shrink);
    if crate::violation::first_fault(t.at(id).span, produced, enforce_shrink) is None {
        let kept = choose|kept: Seq<Option<NodeId>>| #[trigger]
            t.reuse_ok(id, produced, kept) && post == t.expanded(id, produced, kept, round);
        lemma_child_count(t.nodes.len(), kept);
    }
}

/// There is a first fault exactly where there is one.
proof fn lemma_first_fault<C>(parent: Span, produced: Seq<(Span, C)>, enforce_shrink: bool)
    ensures
        crate::violation::first_fault(parent, produced, enforce_shrink) is Some == exists|k: int|
            0 <= k < produced.len() && crate::violation::fault(
                parent,
                (#[trigger] produced[k]).0,
                enforce_shrink,
            ) is Some,
    decreases produced.len(),
{
    if produced.len() > 0 && crate::violation::fault(parent, produced[0].0, enforce_shrink) is None {
        let rest = produced.drop_first();
        lemma_first_fault(parent, rest, enforce_shrink);
        if exists|k: int|
            0 <= k < produced.len() && crate::violation::fault(
                parent,
                (#[trigger] produced[k]).0,
                enforce_shrink,
            ) is Some {
            let k = choose|k: int|
                0 <= k < produced.len() && crate::violation::fault(
                    parent,
                    (#[trigger] produced[k]).0,
                    enforce_shrink,
                ) is Some;
            assert(rest[k - 1] == produced[k]);
        }
        if exists|k: int|
            0 <= k < rest.len() && crate::violation::fault(
                parent,
                (#[trigger] rest[k]).0,
                enforce_shrink,
            ) is Some {
            let k = choose|k: int|
                0 <= k < rest.len() && crate::violation::fault(
                    parent,
                    (#[trigger] rest[k]).0,
                    enforce_shrink,
                ) is Some;
            assert(produced[k + 1] == rest[k]);
        }
    } else if produced.len() > 0 {
        let first = produced[0];
    }
}

/// A child list has one entry per slot.
proof fn lemma_child_count(base: nat, kept: Seq<Option<NodeId>>)
    ensures
        crate::model::child_ids(base, kept).len() == kept.len(),
    decreases kept.len(),
{
    if kept.len() > 0 {
        lemma_child_count(base, kept.drop_last());
    }
}

/// Round `r` processes only nodes that are due in it, every one of them at most
/// once, and a run has at most as many rounds as its cap allows: no schedule
/// can loop forever.
pub proof fn law_each_node_once_per_round<C: Clone + PartialEq>(
    engine: &Engine<C>,
    source: &str,
    start: TreeModel<C>,
    rounds: Seq<RoundTrace<C>>,
    end: TreeModel<C>,
    report: RunReport,
)
    requires
        start.wf(),
        engine.run_ok(source, start, rounds, end, report),
    ensures
        rounds.len() <= engine.round_limit(),
        forall|r: int, j: int, k: int|
            0 <= r < rounds.len() && 0 <= j < k < rounds[r].executed.len() ==> (
            #[trigger] rounds[r].executed[j]).0.node != (#[trigger] rounds[r].executed[k]).0.node,
        forall|r: int, j: int|
            0 <= r < rounds.len() && 0 <= j < rounds[r].executed.len()
                ==> crate::engine::tree_before(start, rounds, r).at(
                (#[trigger] rounds[r].executed[j]).0.node,
            ).ready(r as usize as nat),
{
    assert forall|r: int, j: int|
        0 <= r < rounds.len() && 0 <= j < rounds[r].executed.len() implies crate::engine::tree_before(
        start,
        rounds,
        r,
    ).at((#[trigger] rounds[r].executed[j]).0.node).ready(r as usize as nat) by {
        assert(engine.step_ok(source, start, rounds, r));
        reveal(Engine::round_ok);
        let t = rounds[r].trees[0];
        assert(t.wf());
        let keep = |node: NodeModel<C>| node.ready(r as usize as nat);
        crate::model::lemma_ids_where(t, t.nodes.len() as int, keep);
        assert(rounds[r].jobs[j].node == t.ready_ids(r as usize as nat)[j]);
        assert(keep(t.at(t.ready_ids(r as usize as nat)[j])));
    }
    assert forall|r: int, j: int, k: int|
        0 <= r < rounds.len() && 0 <= j < k < rounds[r].executed.len() implies (
    #[trigger] rounds[r].executed[j]).0.node != (#[trigger] rounds[r].executed[k]).0.node by {
        assert(engine.step_ok(source, start, rounds, r));
        reveal(Engine::round_ok);
        let t = rounds[r].trees[0];
        assert(t.wf());
        crate::model::lemma_ids_where(
            t,
            t.nodes.len() as int,
            |node: NodeModel<C>| node.ready(r as usize as nat),
        );
        let due = t.ready_ids(r as usize as nat);
        assert(rounds[r].jobs[j].node == due[j] && rounds[r].jobs[k].node == due[k]);
        assert(due[j].0 < due[k].0);
    }
}

/// The rounds that processed a node are some of all rounds.
proof fn lemma_working_rounds<C>(rounds: Seq<RoundTrace<C>>)
    ensures
        crate::engine::working_rounds(rounds) <= rounds.len(),
    decreases rounds.len(),
{
    if rounds.len() > 0 {
        lemma_working_rounds(rounds.drop_last());
    }
}

/// A run makes at most one round per scheduled pass, and no more than its cap:
/// no schedule can loop forever.
pub proof fn law_rounds_are_bounded<C: Clone + PartialEq>(
    engine: &Engine<C>,
    source: &str,
    start: TreeModel<C>,
    rounds: Seq<RoundTrace<C>>,
    end: TreeModel<C>,
    report: RunReport,
)
    requires
        engine.run_ok(source, start, rounds, end, report),
    ensures
        rounds.len() <= engine.passes().len(),
        rounds.len() <= engine.round_cap(),
        report.rounds_run <= engine.passes().len(),
        report.rounds_run <= engine.round_cap(),
{
    lemma_working_rounds(rounds);
}

/// Every live node is to be processed in round `bound` at the latest.
pub open spec fn within_depth<C>(t: TreeModel<C>, bound: nat) -> bool {
    forall|d: int| #[trigger] t.live(d) ==> t.nodes[d].depth <= bound
}

/// New nodes are all for the round they were made for.
proof fn lemma_new_depth<C>(
    id: NodeId,
    produced: Seq<(Span, C)>,
    kept: Seq<Option<NodeId>>,
    depth: nat,
)
    ensures
        forall|k: int|
            0 <= k < crate::model::new_nodes(id, produced, kept, depth).len() ==> (
            #[trigger] crate::model::new_nodes(id, produced, kept, depth)[k]).depth == depth,
    decreases kept.len(),
{
    if kept.len() > 0 {
        lemma_new_depth(id, produced, kept.drop_last(), depth);
    }
}

/// Merging an outcome of `round` gives no node work past the next round.
proof fn lemma_apply_depth<C: PartialEq>(
    t: TreeModel<C>,
    id: NodeId,
    outcome: crate::outcome::OutcomeModel<C>,
    round: nat,
    enforce_shrink: bool,
    post: TreeModel<C>,
    bound: nat,
)
    requires
        t.knows(id),
        t.may_apply(id, outcome, round, enforce_shrink, post),
        within_depth(t, bound),
        round < bound,
    ensures
        within_depth(post, bound),
        t.nodes.len() <= post.nodes.len(),
{
    if crate::violation::verdict(t.at(id).span, outcome, enforce_shrink) is Expanded {
        let produced = outcome->Expand_0;
        let kept = choose|kept: Seq<Option<NodeId>>| #[trigger]
            t.reuse_ok(id, produced, kept) && post == t.expanded(id, produced, kept, round);
        lemma_new_depth(id, produced, kept, round + 1);
        let fresh = crate::model::new_nodes(id, produced, kept, round + 1);
        assert forall|d: int| #[trigger] post.live(d) implies post.nodes[d].depth <= bound by {
            if d < t.nodes.len() {
                assert(t.live(d));
            } else {
                assert(post.nodes[d] == fresh[d - t.nodes.len()]);
            }
        }
    } else {
        assert forall|d: int| #[trigger] post.live(d) implies post.nodes[d].depth <= bound by {
            assert(t.live(d));
        }
    }
}

/// Every node is processed at most once per scheduled pass: where no node has
/// work past the last pass to begin with — a fresh tree has none — no node
/// ends with more attempts than there are passes.
pub proof fn law_attempts_are_bounded<C: Clone + PartialEq>(
    engine: &Engine<C>,
    source: &str,
    start: TreeModel<C>,
    rounds: Seq<RoundTrace<C>>,
    end: TreeModel<C>,
    report: RunReport,
)
    requires
        start.wf(),
        within_depth(start, engine.passes().len()),
        engine.run_ok(source, start, rounds, end, report),
    ensures
        end.wf(),
        within_depth(end, engine.passes().len()),
        forall|d: int| #[trigger] end.live(d) ==> end.nodes[d].attempts <= engine.passes().len(),
{
    lemma_depth_bounded(engine, source, start, rounds, rounds.len() as int);
    assert forall|d: int| #[trigger] end.live(d) implies end.nodes[d].attempts
        <= engine.passes().len() by {
        assert(end.node_ok(d));
    }
}

/// The first `n` rounds give no node work past the last pass.
proof fn lemma_depth_bounded<C: Clone + PartialEq>(
    engine: &Engine<C>,
    source: &str,
    start: TreeModel<C>,
    rounds: Seq<RoundTrace<C>>,
    n: int,
)
    requires
        start.wf(),
        within_depth(start, engine.passes().len()),
        engine.rounds_ok(source, start, rounds),
        0 <= n <= rounds.len(),
    ensures
        crate::engine::tree_before(start, rounds, n).wf(),
        within_depth(crate::engine::tree_before(start, rounds, n), engine.passes().len()),
    decreases n,
{
    if n > 0 {
        let r = n - 1;
        lemma_depth_bounded(engine, source, start, rounds, r);
        assert(engine.step_ok(source, start, rounds, r));
        reveal(Engine::round_ok);
        let trace = rounds[r];
        lemma_merge_depth(engine, source, trace, r as usize, trace.executed.len() as int);
    }
}

/// The first `n` merges of a round give no node work past the last pass.
proof fn lemma_merge_depth<C: Clone + PartialEq>(
    engine: &Engine<C>,
    source: &str,
    trace: RoundTrace<C>,
    round: usize,
    n: int,
)
    requires
        engine.round_ok(source, round, trace),
        round < engine.passes().len(),
        within_depth(trace.trees[0], engine.passes().len()),
        0 <= n <= trace.executed.len(),
    ensures
        within_depth(trace.trees[n], engine.passes().len()),
        trace.trees[0].nodes.len() <= trace.trees[n].nodes.len(),
    decreases n,
{
    reveal(Engine::round_ok);
    if n > 0 {
        lemma_merge_depth(engine, source, trace, round, n - 1);
        let (job, outcome) = trace.executed[n - 1];
        let shrink = engine.settings().enforce_shrink;
        assert(trace.executed[n - 1].0 == trace.jobs[n - 1]);
        crate::engine::lemma_due_order(trace.trees[0], round as nat);
        assert(trace.trees[0].knows(trace.trees[0].ready_ids(round as nat)[n - 1]));
        lemma_apply_depth(
            trace.trees[n - 1],
            job.node,
            outcome@,
            round as nat,
            shrink,
            trace.trees[n],
            engine.passes().len(),
        );
    }
}

/// What one attempt leaves alone in every node it knew of.
proof fn lemma_attempt_keeps<C: Clone + PartialEq>(
    engine: &Engine<C>,
    source: &str,
    a: TreeModel<C>,
    b: TreeModel<C>,
)
    requires
        a.wf(),
        attempt(engine, source, a, b),
    ensures
        b.rev == a.rev,
        a.nodes.len() <= b.nodes.len(),
        forall|d: int|
            #![trigger b.nodes[d]]
            0 <= d < a.nodes.len() ==> keeps_identity(a.nodes[d], b.nodes[d]),
{
    let (round, job, outcome) = choose|round: usize, job: Job<C>, outcome: Outcome<C>| #[trigger]
        attempt_by(engine, source, a, b, round, job, outcome);
    lemma_first_due(a, round as nat);
    let shrink = engine.settings().enforce_shrink;
    crate::model::lemma_apply_frame(a, job.node, outcome@, round as nat, shrink, b);
    assert forall|d: int| #![trigger b.nodes[d]] 0 <= d < a.nodes.len() implies keeps_identity(
        a.nodes[d],
        b.nodes[d],
    ) by {
        if !a.nodes[d].alive {
            assert(a.nodes[d].killed() =~= a.nodes[d]);
        }
    }
}

/// The node `b` is what became of the node `a`: it covers the same region
/// with the same context under the same parent, and a dropped node stays as
/// it was.
pub open spec fn keeps_identity<C>(a: NodeModel<C>, b: NodeModel<C>) -> bool {
    &&& b.span == a.span
    &&& b.ctx == a.ctx
    &&& b.parent == a.parent
    &&& !a.alive ==> b == a
}

/// Node ids are stable: a run never changes which region, context and parent
/// an id stands for, and never brings a dropped node back.
pub proof fn law_ids_are_stable<C: Clone + PartialEq>(
    engine: &Engine<C>,
    source: &str,
    start: TreeModel<C>,
    rounds: Seq<RoundTrace<C>>,
    end: TreeModel<C>,
    report: RunReport,
)
    requires
        start.wf(),
        engine.round_limit() <= usize::MAX,
        engine.run_ok(source, start, rounds, end, report),
    ensures
        end.rev == start.rev,
        start.nodes.len() <= end.nodes.len(),
        forall|d: int|
            #![trigger end.nodes[d]]
            0 <= d < start.nodes.len() ==> keeps_identity(start.nodes[d], end.nodes[d]),
{
    let path = lemma_rounds_path(engine, source, start, rounds, rounds.len() as int);
    lemma_path_keeps(engine, source, path, path.len() - 1);
}

/// What a chain of attempts leaves alone.
proof fn lemma_path_keeps<C: Clone + PartialEq>(
    engine: &Engine<C>,
    source: &str,
    path: Seq<TreeModel<C>>,
    k: int,
)
    requires
        path_ok(engine, source, path),
        forall|j: int| 0 <= j < path.len() ==> (#[trigger] path[j]).wf(),
        0 <= k < path.len(),
    ensures
        path[k].rev == path[0].rev,
        path[0].nodes.len() <= path[k].nodes.len(),
        forall|d: int|
            #![trigger path[k].nodes[d]]
            0 <= d < path[0].nodes.len() ==> keeps_identity(path[0].nodes[d], path[k].nodes[d]),
    decreases k,
{
    if k > 0 {
        lemma_path_keeps(engine, source, path, k - 1);
        assert(step_of(engine, source, path, k - 1));
        lemma_attempt_keeps(engine, source, path[k - 1], path[k]);
        assert forall|d: int| #![trigger path[k].nodes[d]] 0 <= d < path[0].nodes.len() implies keeps_identity(
            path[0].nodes[d],
            path[k].nodes[d],
        ) by {
            assert(keeps_identity(path[0].nodes[d], path[k - 1].nodes[d]));
        }
    }
}

/// A reused child keeps its identity, its status and its whole subtree: it
/// stands under its old id in the new child list, and it and every node below
/// it are as they were.
pub proof fn law_reused_child_keeps_subtree<C: PartialEq>(
    t: TreeModel<C>,
    id: NodeId,
    produced: Seq<(Span, C)>,
    kept: Seq<Option<NodeId>>,
    round: nat,
    s: int,
)
    requires
        t.wf(),
        t.live(id.0 as int),
        t.reuse_ok(id, produced, kept),
        t.expanded(id, produced, kept, round).nodes.len() <= usize::MAX,
        0 <= s < kept.len(),
        kept[s] is Some,
    ensures
        t.expanded(id, produced, kept, round).at(id).children[s] == kept[s]->0,
        forall|d: int|
            t.under((kept[s]->0).0 as int, d) ==> #[trigger] t.expanded(
                id,
                produced,
                kept,
                round,
            ).nodes[d] == t.nodes[d],
{
    let post = t.expanded(id, produced, kept, round);
    let i0 = id.0 as int;
    let c = kept[s]->0;
    let old_ids = t.at(id).children;
    assert(t.node_ok(i0));
    crate::model::lemma_child_ids(id, produced, kept, round + 1, t.nodes.len());
    crate::model::lemma_kept_child(t, id, produced, kept, s);
    let k = choose|k: int| 0 <= k < old_ids.len() && old_ids[k] == c;
    assert(t.child_ok(i0, old_ids[k]));
    assert forall|d: int| t.under(c.0 as int, d) implies #[trigger] post.nodes[d] == t.nodes[d] by {
        crate::model::lemma_under_orders(t, c.0 as int, d);
        if t.orphaned(id, kept, d) {
            let j = choose|j: int|
                0 <= j < old_ids.len() && !crate::model::kept_within(
                    kept,
                    kept.len() as int,
                    #[trigger] old_ids[j],
                ) && t.under(old_ids[j].0 as int, d);
            assert(t.child_ok(i0, old_ids[j]));
            assert(crate::model::kept_within(kept, kept.len() as int, c));
            crate::model::lemma_siblings_apart(t, i0, c.0 as int, old_ids[j].0 as int, d);
        }
    }
}

/// `==` on contexts answers whether they are equal.
pub open spec fn compares_faithfully<C: PartialEq>() -> bool {
    forall|a: C, b: C, answer: bool| #[trigger]
        crate::model::may_equal(a, b, answer) ==> answer == (a == b)
}

/// An unchanged child is reused: a child that is the only one with its span
/// and context, produced again exactly once, keeps its place in the tree.
pub proof fn law_unchanged_child_is_reused<C: PartialEq>(
    t: TreeModel<C>,
    id: NodeId,
    produced: Seq<(Span, C)>,
    kept: Seq<Option<NodeId>>,
    k: int,
    s: int,
)
    requires
        compares_faithfully::<C>(),
        t.reuse_ok(id, produced, kept),
        0 <= k < t.at(id).children.len(),
        0 <= s < produced.len(),
        produced[s] == (t.at(t.at(id).children[k]).span, t.at(t.at(id).children[k]).ctx),
        forall|j: int|
            0 <= j < t.at(id).children.len() && j != k ==> produced[s] != (
                t.at(#[trigger] t.at(id).children[j]).span,
                t.at(t.at(id).children[j]).ctx,
            ),
        forall|r: int| 0 <= r < produced.len() && r != s ==> #[trigger] produced[r] != produced[s],
    ensures
        kept[s] == Some(t.at(id).children[k]),
{
    let old_ids = t.at(id).children;
    let c = old_ids[k];
    assert(t.slot_ok(old_ids, produced[s], kept, s));
    if crate::model::kept_within(kept, s, c) {
        let r = choose|r: int| 0 <= r < s && #[trigger] kept[r] == Some(c);
        assert(t.slot_ok(old_ids, produced[r], kept, r));
        assert(t.may_match(c, produced[r]));
        assert(produced[r] == produced[s]);
    }
    if kept[s] is Some {
        let e = kept[s]->0;
        assert(t.may_match(e, produced[s]));
        assert(crate::model::may_equal(t.at(e).ctx, produced[s].1, true));
        let j = choose|j: int| 0 <= j < old_ids.len() && #[trigger] old_ids[j] == e;
        if j != k {
            assert(produced[s] != (t.at(old_ids[j]).span, t.at(old_ids[j]).ctx));
        }
    } else {
        assert(t.may_differ(old_ids[k], produced[s]));
        assert(crate::model::may_equal(t.at(c).ctx, produced[s].1, false));
    }
}

/// The children of the node `id` that have the span and context of `region`,
/// by their places in its child list.
pub open spec fn alike_children<C>(t: TreeModel<C>, id: NodeId, region: (Span, C)) -> Set<int> {
    Set::new(
        |k: int|
            0 <= k < t.at(id).children.len() && (
                t.at(t.at(id).children[k]).span,
                t.at(t.at(id).children[k]).ctx,
            ) == region,
    )
}

/// Which of the first `n` regions of `produced` are `region`.
pub open spec fn alike_regions<C>(produced: Seq<(Span, C)>, n: int, region: (Span, C)) -> Set<int> {
    Set::new(|s: int| 0 <= s < n && produced[s] == region)
}

/// Which of the first `n` regions of `produced` are `region` and reuse a child.
pub open spec fn reused_regions<C>(
    produced: Seq<(Span, C)>,
    kept: Seq<Option<NodeId>>,
    n: int,
    region: (Span, C),
) -> Set<int> {
    Set::new(|s: int| 0 <= s < n && produced[s] == region && kept[s] is Some)
}

/// The children like `region` that the first `n` slots of `kept` reuse are as
/// many as the slots that reuse them, and these are as many as they can be.
proof fn lemma_alike_reused<C: PartialEq>(
    t: TreeModel<C>,
    id: NodeId,
    produced: Seq<(Span, C)>,
    kept: Seq<Option<NodeId>>,
    n: int,
    region: (Span, C),
) -> (taken: Set<int>)
    requires
        compares_faithfully::<C>(),
        t.reuse_ok(id, produced, kept),
        t.at(id).children.no_duplicates(),
        0 <= n <= produced.len(),
    ensures
        forall|k: int| #[trigger]
            taken.contains(k) <==> alike_children(t, id, region).contains(k)
                && crate::model::kept_within(kept, n, t.at(id).children[k]),
        alike_children(t, id, region).finite(),
        taken.finite(),
        alike_regions(produced, n, region).finite(),
        reused_regions(produced, kept, n, region).finite(),
        taken.len() == reused_regions(produced, kept, n, region).len(),
        reused_regions(produced, kept, n, region).len() == vstd::math::min(
            alike_children(t, id, region).len() as int,
            alike_regions(produced, n, region).len() as int,
        ),
    decreases n,
{
    let old_ids = t.at(id).children;
    let alike = alike_children(t, id, region);
    vstd::set_lib::lemma_int_range(0, old_ids.len() as int);
    vstd::set_lib::lemma_len_subset(
        alike,
        vstd::set_lib::set_int_range(0, old_ids.len() as int),
    );
    if n == 0 {
        assert(alike_regions(produced, 0, region) =~= Set::empty());
        assert(reused_regions(produced, kept, 0, region) =~= Set::empty());
        Set::empty()
    } else {
        let s = n - 1;
        let taken = lemma_alike_reused(t, id, produced, kept, s, region);
        let regions = alike_regions(produced, s, region);
        let reused = reused_regions(produced, kept, s, region);
        assert(t.slot_ok(old_ids, produced[s], kept, s)) by {
            assert(kept[s] == kept[s]);
        }
        assert forall|c: NodeId|
            crate::model::kept_within(kept, n, c) <==> crate::model::kept_within(kept, s, c)
                || kept[s] == Some(c) by {
            if crate::model::kept_within(kept, s, c) {
                let j = choose|j: int| 0 <= j < s && #[trigger] kept[j] == Some(c);
                assert(0 <= j < n && kept[j] == Some(c));
            }
        }
        if produced[s] != region {
            assert(alike_regions(produced, n, region) =~= regions);
            assert(reused_regions(produced, kept, n, region) =~= reused);
            if kept[s] is Some {
                assert(t.may_match(kept[s]->0, produced[s]));
                assert(crate::model::may_equal(t.at(kept[s]->0).ctx, produced[s].1, true));
            }
            taken
        } else {
            assert(alike_regions(produced, n, region) =~= regions.insert(s));
            match kept[s] {
                Some(c) => {
                    let k = choose|k: int|
                        0 <= k < old_ids.len() && #[trigger] old_ids[k] == c
                            && !crate::model::kept_within(kept, s, c);
                    assert(t.may_match(c, produced[s]));
                    assert(crate::model::may_equal(t.at(c).ctx, produced[s].1, true));
                    assert(alike.contains(k));
                    assert(!taken.contains(k));
                    assert(reused_regions(produced, kept, n, region) =~= reused.insert(s));
                    vstd::set_lib::lemma_len_subset(taken.insert(k), alike);
                    taken.insert(k)
                },
                None => {
                    assert forall|k: int| alike.contains(k) implies taken.contains(k) by {
                        if !crate::model::kept_within(kept, s, old_ids[k]) {
                            assert(t.may_differ(old_ids[k], produced[s]));
                            assert(crate::model::may_equal(
                                t.at(old_ids[k]).ctx,
                                produced[s].1,
                                false,
                            ));
                        }
                    }
                    assert(taken =~= alike);
                    assert(reused_regions(produced, kept, n, region) =~= reused);
                    taken
                },
            }
        }
    }
}

/// Equal children are reused as far as they go: of the children with one span
/// and context, as many are reused as there are of them both among the children
/// and among the produced regions.
pub proof fn law_equal_children_are_reused<C: PartialEq>(
    t: TreeModel<C>,
    id: NodeId,
    produced: Seq<(Span, C)>,
    kept: Seq<Option<NodeId>>,
    region: (Span, C),
)
    requires
        compares_faithfully::<C>(),
        t.wf(),
        t.live(id.0 as int),
        t.reuse_ok(id, produced, kept),
    ensures
        reused_regions(produced, kept, produced.len() as int, region).len() == vstd::math::min(
            alike_children(t, id, region).len() as int,
            alike_regions(produced, produced.len() as int, region).len() as int,
        ),
{
    assert(t.node_ok(id.0 as int));
    lemma_alike_reused(t, id, produced, kept, produced.len() as int, region);
}

/// An edit resets what it reaches and nothing else: a live node the edit
/// reaches is unparsed again at its home round with no failures, any other
/// keeps its status, round and failures, and every node keeps its context,
/// parent and children.
pub proof fn law_edit_resets_what_it_reaches<C>(t: TreeModel<C>, edit: Edit, d: int)
    requires
        t.wf(),
        t.live(d),
        t.rev < u64::MAX,
    ensures
        t.edited(edit).rev == t.rev + 1,
        t.edited(edit).live(d),
        t.edited(edit).nodes[d].span == edit.span_after(t.nodes[d].span, (t.rev + 1) as u64),
        t.edited(edit).nodes[d].ctx == t.nodes[d].ctx,
        t.edited(edit).nodes[d].parent == t.nodes[d].parent,
        t.edited(edit).nodes[d].children == t.nodes[d].children,
        edit.reaches(t.nodes[d].span) ==> {
            &&& t.edited(edit).nodes[d].status is Unparsed
            &&& t.edited(edit).nodes[d].attempts == 0
            &&& t.edited(edit).nodes[d].depth == t.nodes[d].home()
        },
        !edit.reaches(t.nodes[d].span) ==> {
            &&& t.edited(edit).nodes[d].status == t.nodes[d].status
            &&& t.edited(edit).nodes[d].attempts == t.nodes[d].attempts
            &&& t.edited(edit).nodes[d].depth == t.nodes[d].depth
        },
{
    assert(t.node_ok(d));
}

/// A reset node's parent is reset too, so the next run re-expands it before
/// it gets to the node.
pub proof fn law_reset_reaches_ancestors<C>(t: TreeModel<C>, edit: Edit, a: int, d: int)
    requires
        t.wf(),
        t.live(d),
        t.under(a, d),
        edit.reaches(t.nodes[d].span),
    ensures
        edit.reaches(t.nodes[a].span),
        t.edited(edit).nodes[a].status is Unparsed,
{
    crate::model::law_nodes_within_ancestors(t, a, d);
    crate::model::lemma_above_live(t, a, d);
    crate::session::law_touch_spreads_outwards(edit, t.nodes[a].span, t.nodes[d].span);
}

/// The bytes after `edit` put `inserted` in place of what it removes.
pub open spec fn spliced(old_bytes: Seq<u8>, edit: Edit, inserted: Seq<u8>) -> Seq<u8> {
    old_bytes.take(edit.start as int) + inserted + old_bytes.skip(edit.old_end as int)
}

/// A region the edit does not reach covers the same text after it.
pub proof fn law_unreached_text_is_kept(
    old_bytes: Seq<u8>,
    inserted: Seq<u8>,
    edit: Edit,
    span: Span,
    rev: u64,
)
    requires
        edit.valid(),
        edit.old_end <= old_bytes.len(),
        edit.new_end == edit.start + inserted.len(),
        spliced(old_bytes, edit, inserted).len() <= usize::MAX,
        span.ordered(),
        span.end <= old_bytes.len(),
        !edit.reaches(span),
    ensures
        spliced(old_bytes, edit, inserted).subrange(
            edit.span_after(span, rev).start as int,
            edit.span_after(span, rev).end as int,
        ) == old_bytes.subrange(span.start as int, span.end as int),
{
    let after = edit.span_after(span, rev);
    let new_bytes = spliced(old_bytes, edit, inserted);
    assert(new_bytes.subrange(after.start as int, after.end as int) =~= old_bytes.subrange(
        span.start as int,
        span.end as int,
    ));
}

/// A node the edit does not reach covers the same text in the new source as it
/// did in the old one, from and to offsets that split no character of it.
pub proof fn law_unreached_node_keeps_text<C>(
    t: TreeModel<C>,
    d: int,
    old_text: Seq<char>,
    new_text: Seq<char>,
    inserted: Seq<u8>,
    edit: Edit,
)
    requires
        t.wf(),
        t.live(d),
        edit.valid(),
        edit.old_end <= crate::text::bytes_of(old_text).len(),
        edit.new_end == edit.start + inserted.len(),
        crate::text::bytes_of(new_text) == spliced(
            crate::text::bytes_of(old_text),
            edit,
            inserted,
        ),
        crate::text::bytes_of(new_text).len() <= usize::MAX,
        crate::text::on_boundary(old_text, t.nodes[d].span.start as int),
        crate::text::on_boundary(old_text, t.nodes[d].span.end as int),
        !edit.reaches(t.nodes[d].span),
    ensures
        ({
            let span = t.nodes[d].span;
            let after = t.edited(edit).nodes[d].span;
            &&& after.ordered()
            &&& crate::text::on_boundary(new_text, after.start as int)
            &&& crate::text::on_boundary(new_text, after.end as int)
            &&& crate::text::part(new_text, after.start as int, after.end as int)
                == crate::text::part(old_text, span.start as int, span.end as int)
        }),
{
    let span = t.nodes[d].span;
    let rev = (t.rev + 1) as u64;
    let after = edit.span_after(span, rev);
    assert(t.node_ok(d));
    assert(t.edited(edit).nodes[d].span == after);
    let old_bytes = crate::text::bytes_of(old_text);
    law_unreached_text_is_kept(old_bytes, inserted, edit, span, rev);
    if span.end <= edit.start {
        lemma_boundary_before(old_text, new_text, inserted, edit, span.start as int);
        lemma_boundary_before(old_text, new_text, inserted, edit, span.end as int);
    } else {
        lemma_boundary_after(old_text, new_text, inserted, edit, span.start as int);
        lemma_boundary_after(old_text, new_text, inserted, edit, span.end as int);
    }
}

/// A boundary before the edit is one of the new text.
proof fn lemma_boundary_before(
    old_text: Seq<char>,
    new_text: Seq<char>,
    inserted: Seq<u8>,
    edit: Edit,
    offset: int,
)
    requires
        edit.valid(),
        edit.old_end <= crate::text::bytes_of(old_text).len(),
        crate::text::bytes_of(new_text) == spliced(
            crate::text::bytes_of(old_text),
            edit,
            inserted,
        ),
        crate::text::on_boundary(old_text, offset),
        offset <= edit.start,
    ensures
        crate::text::on_boundary(new_text, offset),
{
    let old_bytes = crate::text::bytes_of(old_text);
    let new_bytes = crate::text::bytes_of(new_text);
    vstd::utf8::encode_utf8_valid_utf8(old_text);
    vstd::utf8::encode_utf8_valid_utf8(new_text);
    vstd::utf8::valid_utf8_split(old_bytes, offset);
    assert(new_bytes.subrange(0, offset) =~= old_bytes.subrange(0, offset));
    crate::text::lemma_valid_prefix(new_bytes, offset);
}

/// A boundary after the edit is one of the new text, as far on as the text is.
proof fn lemma_boundary_after(
    old_text: Seq<char>,
    new_text: Seq<char>,
    inserted: Seq<u8>,
    edit: Edit,
    offset: int,
)
    requires
        edit.valid(),
        edit.old_end <= crate::text::bytes_of(old_text).len(),
        edit.new_end == edit.start + inserted.len(),
        crate::text::bytes_of(new_text) == spliced(
            crate::text::bytes_of(old_text),
            edit,
            inserted,
        ),
        crate::text::on_boundary(old_text, offset),
        edit.old_end <= offset,
    ensures
        crate::text::on_boundary(new_text, offset - edit.old_end + edit.new_end),
{
    let old_bytes = crate::text::bytes_of(old_text);
    let new_bytes = crate::text::bytes_of(new_text);
    let moved = offset - edit.old_end + edit.new_end;
    vstd::utf8::encode_utf8_valid_utf8(old_text);
    vstd::utf8::encode_utf8_valid_utf8(new_text);
    if offset == old_bytes.len() {
        assert(moved == new_bytes.len());
        vstd::utf8::is_char_boundary_start_end_of_seq(new_bytes);
    } else {
        assert(new_bytes[moved] == old_bytes[offset]);
        vstd::utf8::is_char_boundary_iff_not_is_continuation_byte(old_bytes, offset);
        vstd::utf8::is_char_boundary_iff_not_is_continuation_byte(new_bytes, moved);
    }
}

/// A fresh tree over a region of its revision is on its revision.
pub proof fn law_fresh_tree_is_on_revision<C>(rev: u64, span: Span, ctx: C)
    requires
        span.rev == rev,
    ensures
        TreeModel::root_only(rev, span, ctx).on_revision(),
{
}

/// An edit puts every live node on the tree's new revision, and leaves dropped
/// nodes dropped.
pub proof fn law_edit_moves_to_new_revision<C>(t: TreeModel<C>, edit: Edit)
    requires
        t.rev < u64::MAX,
    ensures
        t.edited(edit).rev == t.rev + 1,
        t.edited(edit).on_revision(),
        forall|d: int|
            #![trigger t.edited(edit).nodes[d]]
            0 <= d < t.nodes.len() ==> t.edited(edit).nodes[d].alive == t.nodes[d].alive,
{
}

/// A run keeps every live node on the tree's revision.
pub proof fn law_run_keeps_revision<C: Clone + PartialEq>(
    engine: &Engine<C>,
    source: &str,
    start: TreeModel<C>,
    rounds: Seq<RoundTrace<C>>,
    end: TreeModel<C>,
    report: RunReport,
)
    requires
        start.wf(),
        start.on_revision(),
        engine.round_limit() <= usize::MAX,
        engine.run_ok(source, start, rounds, end, report),
    ensures
        end.rev == start.rev,
        end.on_revision(),
{
    let path = lemma_rounds_path(engine, source, start, rounds, rounds.len() as int);
    assert(path.last().wf());
    law_ids_are_stable(engine, source, start, rounds, end, report);
    assert(start.live(0));
    assert(keeps_identity(start.nodes[0], end.nodes[0]));
    crate::model::law_nodes_on_revision(end);
}

/// A region that covers the whole text covers all of it after any edit.
pub proof fn law_whole_text_stays_covered(
    old_bytes: Seq<u8>,
    inserted: Seq<u8>,
    edit: Edit,
    span: Span,
    rev: u64,
)
    requires
        edit.valid(),
        edit.old_end <= old_bytes.len(),
        edit.new_end == edit.start + inserted.len(),
        spliced(old_bytes, edit, inserted).len() <= usize::MAX,
        span.start == 0,
        span.end == old_bytes.len(),
    ensures
        edit.span_after(span, rev).start == 0,
        edit.span_after(span, rev).end == spliced(old_bytes, edit, inserted).len(),
{
}

/// Failed and accepted regions stay in the tree as leaves.
pub proof fn law_failed_and_done_are_leaves<C>(t: TreeModel<C>, d: int)
    requires
        t.wf(),
        t.live(d),
        t.nodes[d].status is Failed || t.nodes[d].status is Done,
    ensures
        t.nodes[d].children.len() == 0,
{
    assert(t.node_ok(d));
}

/// An expanded region has children.
pub proof fn law_expanded_has_children<C>(t: TreeModel<C>, d: int)
    requires
        t.wf(),
        t.live(d),
        t.nodes[d].status is Expanded,
    ensures
        t.nodes[d].children.len() > 0,
{
    assert(t.node_ok(d));
}

/// Equal children are reused in order: of two regions with one span and context
/// that both reuse a child, the earlier one reuses the earlier child.
pub proof fn law_equal_children_are_reused_in_order<C: PartialEq>(
    t: TreeModel<C>,
    id: NodeId,
    produced: Seq<(Span, C)>,
    kept: Seq<Option<NodeId>>,
    s: int,
    r: int,
    j: int,
    k: int,
)
    requires
        compares_faithfully::<C>(),
        t.wf(),
        t.live(id.0 as int),
        t.reuse_ok(id, produced, kept),
        0 <= s < r < produced.len(),
        produced[s] == produced[r],
        0 <= j < t.at(id).children.len(),
        0 <= k < t.at(id).children.len(),
        kept[s] == Some(t.at(id).children[j]),
        kept[r] == Some(t.at(id).children[k]),
    ensures
        j < k,
{
    let old_ids = t.at(id).children;
    assert(t.node_ok(id.0 as int));
    assert(t.slot_ok(old_ids, produced[s], kept, s));
    assert(t.slot_ok(old_ids, produced[r], kept, r));
    let first = choose|n: int|
        {
            &&& 0 <= n < old_ids.len()
            &&& #[trigger] old_ids[n] == kept[s]->0
            &&& forall|i: int|
                0 <= i < n ==> crate::model::kept_within(kept, s, #[trigger] old_ids[i])
                    || t.may_differ(old_ids[i], produced[s])
        };
    assert(first == j);
    assert(t.may_match(old_ids[k], produced[r]));
    assert(crate::model::may_equal(t.at(old_ids[k]).ctx, produced[r].1, true));
    if k < j {
        if crate::model::kept_within(kept, s, old_ids[k]) {
            let q = choose|q: int| 0 <= q < s && #[trigger] kept[q] == Some(old_ids[k]);
            assert(crate::model::kept_within(kept, r, old_ids[k]));
        } else {
            assert(t.may_differ(old_ids[k], produced[s]));
            assert(crate::model::may_equal(t.at(old_ids[k]).ctx, produced[s].1, false));
        }
    }
    if k == j {
        assert(crate::model::kept_within(kept, r, old_ids[k]));
    }
}

} // verus!
