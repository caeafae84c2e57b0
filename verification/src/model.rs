//! The mathematical model of a parse tree: what its nodes hold, which shapes
//! are well formed, and what applying an outcome or an edit makes of it.

use crate::job::Job;
use crate::node::NodeId;
use crate::outcome::{Outcome, OutcomeModel};
use crate::session::Edit;
use crate::span::Span;
use crate::status::Status;
use crate::violation::Verdict;
use vstd::prelude::*;

verus! {

/// What a tree knows of one node.
#[verifier::ext_equal]
pub struct NodeModel<C> {
    /// The region of the source the node covers.
    pub span: Span,
    /// The context the node carries.
    pub ctx: C,
    /// The lifecycle state.
    pub status: Status,
    /// The round that will process, or last processed, the node.
    pub depth: nat,
    /// The parent, or `None` for the root.
    pub parent: Option<NodeId>,
    /// The children, in the order the pass produced them.
    pub children: Seq<NodeId>,
    /// How many passes have tried and failed to parse the node.
    pub attempts: nat,
    /// Whether the node is still part of the tree.
    pub alive: bool,
}

impl<C> NodeModel<C> {
    /// A node no pass has seen yet.
    pub open spec fn fresh(span: Span, ctx: C, depth: nat, parent: Option<NodeId>) -> Self {
        NodeModel {
            span,
            ctx,
            status: Status::Unparsed,
            depth,
            parent,
            children: Seq::empty(),
            attempts: 0,
            alive: true,
        }
    }

    /// The node once dropped from the tree.
    pub open spec fn killed(self) -> Self {
        NodeModel { children: Seq::empty(), alive: false, ..self }
    }

    /// The round whose pass first processes the node.
    pub open spec fn home(self) -> int {
        self.depth - self.attempts
    }

    /// The node after `edit`, in the coordinates of revision `rev`.
    pub open spec fn edited(self, edit: Edit, rev: u64) -> Self {
        if !self.alive {
            self
        } else if edit.reaches(self.span) {
            NodeModel {
                span: edit.span_after(self.span, rev),
                status: Status::Unparsed,
                depth: self.home() as nat,
                attempts: 0,
                ..self
            }
        } else {
            NodeModel { span: edit.span_after(self.span, rev), ..self }
        }
    }

    /// The pass of `round` is due on the node.
    pub open spec fn ready(self, round: nat) -> bool {
        self.alive && self.depth == round && (self.status is Unparsed || self.status is Failed)
    }

    /// Work is left on the node within `max_rounds` rounds.
    pub open spec fn pending(self, max_rounds: nat) -> bool {
        self.alive && (self.status is Unparsed || (self.status is Failed && self.depth
            < max_rounds))
    }
}

/// What a tree holds: a source revision and an arena of nodes, indexed by
/// [`NodeId`], with the root at index 0.
#[verifier::ext_equal]
pub struct TreeModel<C> {
    /// The source revision the tree was built against.
    pub rev: u64,
    /// Every node ever created, dropped ones included.
    pub nodes: Seq<NodeModel<C>>,
}

impl<C> TreeModel<C> {
    /// A tree of nothing but an unparsed root.
    pub open spec fn root_only(rev: u64, span: Span, ctx: C) -> Self {
        TreeModel { rev, nodes: seq![NodeModel::fresh(span, ctx, 0, None)] }
    }

    /// `id` was handed out by this tree.
    pub open spec fn knows(self, id: NodeId) -> bool {
        id.0 < self.nodes.len()
    }

    /// The node behind `id`.
    pub open spec fn at(self, id: NodeId) -> NodeModel<C> {
        self.nodes[id.0 as int]
    }

    /// Index `i` belongs to a node that is still part of the tree.
    pub open spec fn live(self, i: int) -> bool {
        0 <= i < self.nodes.len() && self.nodes[i].alive
    }

    /// The index of the parent of the node at `d`.
    pub open spec fn up(self, d: int) -> int {
        match self.nodes[d].parent {
            Some(p) => p.0 as int,
            None => -1,
        }
    }

    /// The node at `d` is the node at `a` or one of its descendants.
    pub open spec fn under(self, a: int, d: int) -> bool
        decreases d,
    {
        d == a || (0 < d < self.nodes.len() && match self.nodes[d].parent {
            Some(p) => p.0 < d && self.under(a, p.0 as int),
            None => false,
        })
    }

    /// The node at `d` is a descendant of the node at `a`, and not `a` itself.
    pub open spec fn below(self, a: int, d: int) -> bool {
        d != a && self.under(a, d)
    }

    /// The child list of the node at `p` names the node at `i`.
    pub open spec fn lists(self, p: int, i: int) -> bool {
        exists|k: int|
            0 <= k < self.nodes[p].children.len() && (#[trigger] self.nodes[p].children[k]).0 == i
    }

    /// `path` leads down from the root, each node listed as a child by the one
    /// before it.
    pub open spec fn leads_down(self, path: Seq<int>) -> bool {
        &&& path.len() > 0
        &&& path[0] == 0
        &&& forall|i: int|
            0 <= i < path.len() - 1 ==> 0 <= #[trigger] path[i] < self.nodes.len() && self.lists(
                path[i],
                path[i + 1],
            )
    }

    /// The node at `d` can be reached from the root through child lists.
    pub open spec fn reachable(self, d: int) -> bool {
        exists|path: Seq<int>| #[trigger] self.leads_down(path) && path.last() == d
    }

    /// Every live node is on the tree's source revision.
    pub open spec fn on_revision(self) -> bool {
        forall|d: int| #[trigger] self.live(d) ==> self.nodes[d].span.rev == self.rev
    }

    /// `c` is a proper entry of the child list of the node at `i`.
    pub open spec fn child_ok(self, i: int, c: NodeId) -> bool {
        &&& i < c.0 < self.nodes.len()
        &&& self.nodes[c.0 as int].alive
        &&& self.nodes[c.0 as int].parent matches Some(p) && p.0 == i
    }

    /// The child list of the node at `i` holds proper entries, each once.
    pub open spec fn list_ok(self, i: int) -> bool {
        &&& self.nodes[i].children.no_duplicates()
        &&& forall|k: int|
            0 <= k < self.nodes[i].children.len() ==> self.child_ok(
                i,
                #[trigger] self.nodes[i].children[k],
            )
    }

    /// The node at `i` hangs off a live parent that lists it, lies within the
    /// parent's span, and is first processed after the parent.
    pub open spec fn placed(self, i: int) -> bool {
        match self.nodes[i].parent {
            Some(p) => {
                &&& p.0 < i
                &&& self.live(p.0 as int)
                &&& self.lists(p.0 as int, i)
                &&& self.nodes[p.0 as int].span.nests(self.nodes[i].span)
                &&& self.nodes[p.0 as int].depth < self.nodes[i].home()
            },
            None => false,
        }
    }

    /// What holds of a live node apart from its place in the tree.
    pub open spec fn node_ok(self, i: int) -> bool {
        &&& self.nodes[i].span.ordered()
        &&& self.nodes[i].attempts <= self.nodes[i].depth
        &&& self.nodes[i].children.len() > 0 ==> self.nodes[i].status is Expanded
            || self.nodes[i].status is Unparsed
        &&& self.nodes[i].status is Expanded ==> self.nodes[i].children.len() > 0
        &&& self.list_ok(i)
    }

    /// The invariant of every tree: the live nodes form one tree under the
    /// root, every child lies within its parent on the root's revision, and a
    /// dropped node has no children.
    pub open spec fn wf(self) -> bool {
        &&& self.live(0)
        &&& self.nodes[0].parent is None
        &&& self.nodes.len() <= usize::MAX
        &&& forall|i: int| #[trigger] self.live(i) ==> self.node_ok(i) && (i > 0 ==> self.placed(i))
        &&& forall|i: int|
            0 <= i < self.nodes.len() && !(#[trigger] self.nodes[i]).alive
                ==> self.nodes[i].children.len() == 0
    }

    /// The ids of those of the first `n` nodes that satisfy `keep`, in creation
    /// order.
    pub open spec fn ids_where(self, n: int, keep: spec_fn(NodeModel<C>) -> bool) -> Seq<NodeId>
        decreases n,
    {
        if n <= 0 {
            Seq::empty()
        } else {
            let rest = self.ids_where(n - 1, keep);
            if keep(self.nodes[n - 1]) {
                rest.push(NodeId((n - 1) as usize))
            } else {
                rest
            }
        }
    }

    /// Every live node.
    pub open spec fn live_ids(self) -> Seq<NodeId> {
        self.ids_where(self.nodes.len() as int, |node: NodeModel<C>| node.alive)
    }

    /// Every live node with the given status.
    pub open spec fn ids_with(self, status: Status) -> Seq<NodeId> {
        self.ids_where(
            self.nodes.len() as int,
            |node: NodeModel<C>| node.alive && node.status == status,
        )
    }

    /// Every node the pass of `round` is due on.
    pub open spec fn ready_ids(self, round: nat) -> Seq<NodeId> {
        self.ids_where(self.nodes.len() as int, |node: NodeModel<C>| node.ready(round))
    }

    /// Every node with work left within `max_rounds` rounds.
    pub open spec fn pending_ids(self, max_rounds: nat) -> Seq<NodeId> {
        self.ids_where(self.nodes.len() as int, |node: NodeModel<C>| node.pending(max_rounds))
    }

    /// Neither the node at `a` nor any live node below it has work left within
    /// `max_rounds` rounds.
    pub open spec fn settled(self, a: int, max_rounds: nat) -> bool {
        forall|d: int| #[trigger]
            self.live(d) && self.under(a, d) ==> !self.nodes[d].pending(max_rounds)
    }

    /// How many steps the node at `d` is away from the root.
    pub open spec fn level(self, d: int) -> nat
        decreases d,
    {
        if 0 < d < self.nodes.len() && 0 <= self.up(d) < d {
            self.level(self.up(d)) + 1
        } else {
            0
        }
    }

    /// `d` is a live node that covers `offset`, none that covers it is further
    /// from the root, and of those as far from the root none is older.
    pub open spec fn deepest_at(self, offset: int, d: int) -> bool {
        &&& self.live(d)
        &&& self.nodes[d].span.has_offset(offset)
        &&& forall|e: int| #[trigger]
            self.live(e) && self.nodes[e].span.has_offset(offset) ==> self.level(e) < self.level(d)
                || (self.level(e) == self.level(d) && d <= e)
    }

    /// The tree after `edit`: every live span is moved into the new
    /// coordinates and revision, and every live node the edit reaches starts
    /// over at its home round.
    pub open spec fn edited(self, edit: Edit) -> Self {
        TreeModel {
            rev: (self.rev + 1) as u64,
            nodes: self.nodes.map_values(
                |node: NodeModel<C>| node.edited(edit, (self.rev + 1) as u64),
            ),
        }
    }

    /// The tree after the descendants of the node at `id` were dropped.
    pub open spec fn cleared(self, id: int) -> Self {
        TreeModel {
            nodes: Seq::new(
                self.nodes.len(),
                |d: int|
                    if d == id {
                        NodeModel { children: Seq::empty(), ..self.nodes[d] }
                    } else if self.under(id, d) {
                        self.nodes[d].killed()
                    } else {
                        self.nodes[d]
                    },
            ),
            ..self
        }
    }

    /// The tree after the node `id` was accepted.
    pub open spec fn accepted(self, id: NodeId) -> Self {
        let i = id.0 as int;
        let base = self.cleared(i);
        TreeModel {
            nodes: base.nodes.update(i, NodeModel { status: Status::Done, ..base.nodes[i] }),
            ..base
        }
    }

    /// The tree after the node `id` failed in `round`.
    pub open spec fn failed(self, id: NodeId, round: nat) -> Self {
        let i = id.0 as int;
        let base = self.cleared(i);
        TreeModel {
            nodes: base.nodes.update(
                i,
                NodeModel {
                    status: Status::Failed,
                    depth: round + 1,
                    attempts: base.nodes[i].attempts + 1,
                    ..base.nodes[i]
                },
            ),
            ..base
        }
    }
}

impl<C: Clone> TreeModel<C> {
    /// `job` is a snapshot of the node it names, for `round`.
    pub open spec fn job_ok(self, round: usize, job: Job<C>) -> bool {
        &&& job.span == self.at(job.node).span
        &&& may_clone(self.at(job.node).ctx, job.ctx)
        &&& job.pass_index == round
    }

    /// `jobs` holds one job for every node the pass of `round` is due on, in
    /// creation order.
    pub open spec fn batch_ok(self, round: usize, jobs: Seq<Job<C>>) -> bool {
        &&& jobs.len() == self.ready_ids(round as nat).len()
        &&& forall|k: int|
            0 <= k < jobs.len() ==> (#[trigger] jobs[k]).node == self.ready_ids(round as nat)[k]
                && self.job_ok(round, jobs[k])
    }
}

impl<C: Clone> TreeModel<C> {
    /// `executed` pairs jobs for the first of the nodes due in `round`, in
    /// creation order, with outcomes.
    pub open spec fn prefix_ok(self, round: usize, executed: Seq<(Job<C>, Outcome<C>)>) -> bool {
        &&& executed.len() <= self.ready_ids(round as nat).len()
        &&& forall|k: int|
            0 <= k < executed.len() ==> (#[trigger] executed[k]).0.node == self.ready_ids(
                round as nat,
            )[k] && self.job_ok(round, executed[k].0)
    }
}

/// What `x.clone()` may return.
pub open spec fn may_clone<C: Clone>(x: C, copy: C) -> bool {
    call_ensures(C::clone, (&x,), copy)
}

/// What `x == y` may answer.
pub open spec fn may_equal<C: PartialEq>(x: C, y: C, answer: bool) -> bool {
    call_ensures(C::eq, (&x, &y), answer)
}

/// One of the first `n` slots of `kept` reuses `c`.
pub open spec fn kept_within(kept: Seq<Option<NodeId>>, n: int, c: NodeId) -> bool {
    exists|j: int| 0 <= j < n && #[trigger] kept[j] == Some(c)
}

/// How many slots of `kept` call for a new node.
pub open spec fn new_count(kept: Seq<Option<NodeId>>) -> nat
    decreases kept.len(),
{
    if kept.len() == 0 {
        0
    } else {
        new_count(kept.drop_last()) + (if kept.last() is None {
            1nat
        } else {
            0nat
        })
    }
}

/// The child list that `kept` stands for: reused nodes keep their ids, new
/// nodes are numbered from `base` in order.
pub open spec fn child_ids(base: nat, kept: Seq<Option<NodeId>>) -> Seq<NodeId>
    decreases kept.len(),
{
    if kept.len() == 0 {
        Seq::empty()
    } else {
        child_ids(base, kept.drop_last()).push(
            match kept.last() {
                Some(c) => c,
                None => NodeId((base + new_count(kept.drop_last())) as usize),
            },
        )
    }
}

/// The nodes created for the slots of `kept` that reuse nothing.
pub open spec fn new_nodes<C>(
    id: NodeId,
    produced: Seq<(Span, C)>,
    kept: Seq<Option<NodeId>>,
    depth: nat,
) -> Seq<NodeModel<C>>
    decreases kept.len(),
{
    if kept.len() == 0 {
        Seq::empty()
    } else {
        let rest = new_nodes(id, produced, kept.drop_last(), depth);
        if kept.last() is None {
            let (span, ctx) = produced[kept.len() - 1];
            rest.push(NodeModel::fresh(span, ctx, depth, Some(id)))
        } else {
            rest
        }
    }
}

impl<C> TreeModel<C> {
    /// The node at `d` is at or below a child of `id` that `kept` reuses
    /// nowhere.
    pub open spec fn orphaned(self, id: NodeId, kept: Seq<Option<NodeId>>, d: int) -> bool {
        exists|k: int|
            0 <= k < self.at(id).children.len() && !kept_within(
                kept,
                kept.len() as int,
                #[trigger] self.at(id).children[k],
            ) && self.under(self.at(id).children[k].0 as int, d)
    }

    /// The tree after the node `id` was expanded in `round` into the regions
    /// `produced`, reusing the children that `kept` names: those keep their
    /// ids, statuses and subtrees, other old children are dropped with all
    /// below them, and the remaining regions become new nodes.
    pub open spec fn expanded(
        self,
        id: NodeId,
        produced: Seq<(Span, C)>,
        kept: Seq<Option<NodeId>>,
        round: nat,
    ) -> Self {
        TreeModel {
            nodes: Seq::new(
                self.nodes.len(),
                |d: int|
                    if d == id.0 {
                        NodeModel {
                            status: Status::Expanded,
                            children: child_ids(self.nodes.len(), kept),
                            ..self.nodes[d]
                        }
                    } else if self.orphaned(id, kept, d) {
                        self.nodes[d].killed()
                    } else {
                        self.nodes[d]
                    },
            ) + new_nodes(id, produced, kept, round + 1),
            ..self
        }
    }
}

impl<C: PartialEq> TreeModel<C> {
    /// The child `c` has the span of `child` and may be found to have its
    /// context.
    pub open spec fn may_match(self, c: NodeId, child: (Span, C)) -> bool {
        self.at(c).span == child.0 && may_equal(self.at(c).ctx, child.1, true)
    }

    /// The child `c` has another span than `child` or may be found to have
    /// another context.
    pub open spec fn may_differ(self, c: NodeId, child: (Span, C)) -> bool {
        self.at(c).span == child.0 ==> may_equal(self.at(c).ctx, child.1, false)
    }

    /// Slot `s` of `kept` reuses the first of the children `old` that no
    /// earlier slot has taken and that matches `child` by span and context,
    /// and nothing where none does.
    pub open spec fn slot_ok(
        self,
        old: Seq<NodeId>,
        child: (Span, C),
        kept: Seq<Option<NodeId>>,
        s: int,
    ) -> bool {
        match kept[s] {
            Some(c) => exists|k: int|
                {
                    &&& 0 <= k < old.len()
                    &&& #[trigger] old[k] == c
                    &&& !kept_within(kept, s, c)
                    &&& self.may_match(c, child)
                    &&& forall|j: int|
                        0 <= j < k ==> kept_within(kept, s, #[trigger] old[j]) || self.may_differ(
                            old[j],
                            child,
                        )
                },
            None => forall|j: int|
                0 <= j < old.len() ==> kept_within(kept, s, #[trigger] old[j]) || self.may_differ(
                    old[j],
                    child,
                ),
        }
    }

    /// `kept` matches the regions `produced` for the node `id` against its
    /// children, in order.
    pub open spec fn reuse_ok(
        self,
        id: NodeId,
        produced: Seq<(Span, C)>,
        kept: Seq<Option<NodeId>>,
    ) -> bool {
        &&& kept.len() == produced.len()
        &&& forall|s: int|
            #![trigger kept[s]]
            0 <= s < kept.len() ==> self.slot_ok(self.at(id).children, produced[s], kept, s)
    }
}

impl<C: PartialEq> TreeModel<C> {
    /// Merging `outcome` for the node `id` in `round` may turn `self` into
    /// `post`.
    pub open spec fn may_apply(
        self,
        id: NodeId,
        outcome: OutcomeModel<C>,
        round: nat,
        enforce_shrink: bool,
        post: Self,
    ) -> bool {
        match crate::violation::verdict(self.at(id).span, outcome, enforce_shrink) {
            Verdict::Done => post == self.accepted(id),
            Verdict::Failed => post == self.failed(id, round),
            Verdict::Rejected { span, kind } => post == self.failed(id, round),
            Verdict::Expanded => exists|kept: Seq<Option<NodeId>>| #[trigger]
                self.reuse_ok(id, outcome->Expand_0, kept) && post == self.expanded(
                    id,
                    outcome->Expand_0,
                    kept,
                    round,
                ),
        }
    }
}

/// Following parents only ever leads to smaller indices.
pub proof fn lemma_under_orders<C>(t: TreeModel<C>, a: int, d: int)
    requires
        t.under(a, d),
        0 <= a,
    ensures
        a <= d,
        a != d ==> 0 < d < t.nodes.len(),
    decreases d,
{
    if d != a {
        lemma_under_orders(t, a, t.up(d));
    }
}

/// A child is below its parent.
pub proof fn lemma_child_below<C>(t: TreeModel<C>, id: int, c: int)
    requires
        0 <= id < c < t.nodes.len(),
        t.up(c) == id,
    ensures
        t.below(id, c),
{
    assert(t.under(id, id));
}

/// Descent composes.
pub proof fn lemma_under_composes<C>(t: TreeModel<C>, a: int, b: int, d: int)
    requires
        t.under(a, b),
        t.under(b, d),
        0 <= a,
        0 <= b,
    ensures
        t.under(a, d),
    decreases d,
{
    if d != b {
        lemma_under_composes(t, a, b, t.up(d));
    }
}

/// Descent is a matter of the parent links alone.
pub proof fn lemma_under_by_parents<C>(t: TreeModel<C>, s: TreeModel<C>, a: int, d: int)
    requires
        t.nodes.len() <= s.nodes.len(),
        forall|i: int| 0 <= i < t.nodes.len() ==> (#[trigger] s.nodes[i]).parent == t.nodes[i].parent,
        d < t.nodes.len(),
    ensures
        t.under(a, d) == s.under(a, d),
    decreases d,
{
    if d != a && 0 < d && t.nodes[d].parent is Some {
        assert(s.nodes[d].parent == t.nodes[d].parent);
        if t.up(d) < d {
            lemma_under_by_parents(t, s, a, t.up(d));
        }
    }
}

/// Two children of one node have no descendant in common.
pub proof fn lemma_siblings_apart<C>(t: TreeModel<C>, p: int, a: int, b: int, d: int)
    requires
        0 <= p < a < t.nodes.len(),
        p < b < t.nodes.len(),
        a != b,
        t.nodes[a].parent matches Some(q) && q.0 == p,
        t.nodes[b].parent matches Some(q) && q.0 == p,
        t.under(a, d),
    ensures
        !t.under(b, d),
    decreases d,
{
    lemma_under_orders(t, a, d);
    if t.under(b, d) {
        lemma_under_orders(t, b, d);
        if d == a {
            lemma_under_orders(t, b, p);
        } else if d == b {
            lemma_under_orders(t, a, p);
        } else {
            lemma_siblings_apart(t, p, a, b, t.up(d));
        }
    }
}

/// What a slot that reuses a child says of it.
pub proof fn lemma_kept_child<C: PartialEq>(
    t: TreeModel<C>,
    id: NodeId,
    produced: Seq<(Span, C)>,
    kept: Seq<Option<NodeId>>,
    s: int,
)
    requires
        t.reuse_ok(id, produced, kept),
        0 <= s < kept.len(),
        kept[s] is Some,
    ensures
        t.at(id).children.contains(kept[s]->0),
        t.at(kept[s]->0).span == produced[s].0,
        !kept_within(kept, s, kept[s]->0),
{
    assert(t.slot_ok(t.at(id).children, produced[s], kept, s));
}

/// The child list has one entry per slot, and new entries are numbered one
/// by one from `base`.
pub proof fn lemma_child_ids<C>(
    id: NodeId,
    produced: Seq<(Span, C)>,
    kept: Seq<Option<NodeId>>,
    depth: nat,
    base: nat,
)
    requires
        kept.len() <= produced.len(),
        base + new_nodes(id, produced, kept, depth).len() <= usize::MAX,
    ensures
        new_count(kept) == new_nodes(id, produced, kept, depth).len(),
        child_ids(base, kept).len() == kept.len(),
        forall|s: int|
            #![trigger child_ids(base, kept)[s]]
            #![trigger kept[s]]
            0 <= s < kept.len() ==> match kept[s] {
                Some(c) => child_ids(base, kept)[s] == c,
                None => {
                    let n = child_ids(base, kept)[s].0 - base;
                    &&& 0 <= n < new_nodes(id, produced, kept, depth).len()
                    &&& new_nodes(id, produced, kept, depth)[n] == NodeModel::fresh(
                        produced[s].0,
                        produced[s].1,
                        depth,
                        Some(id),
                    )
                },
            },
        forall|s: int, r: int|
            0 <= s < r < kept.len() && kept[s] is None && kept[r] is None ==> (#[trigger] child_ids(
                base,
                kept,
            )[s]).0 < (#[trigger] child_ids(base, kept)[r]).0,
        forall|n: int|
            0 <= n < new_nodes(id, produced, kept, depth).len() ==> {
                let node = #[trigger] new_nodes(id, produced, kept, depth)[n];
                exists|s: int|
                    #![trigger kept[s]]
                    0 <= s < kept.len() && kept[s] is None && child_ids(base, kept)[s].0 == base + n
                        && node == NodeModel::fresh(
                        produced[s].0,
                        produced[s].1,
                        depth,
                        Some(id),
                    )
            },
    decreases kept.len(),
{
    if kept.len() > 0 {
        let front = kept.drop_last();
        let last = kept.len() - 1;
        lemma_child_ids(id, produced, front, depth, base);
        assert forall|s: int| 0 <= s < last implies child_ids(base, kept)[s] == child_ids(
            base,
            front,
        )[s] && kept[s] == front[s] by {}
        assert forall|n: int| 0 <= n < new_nodes(id, produced, kept, depth).len() implies {
            let node = #[trigger] new_nodes(id, produced, kept, depth)[n];
            exists|s: int|
                #![trigger kept[s]]
                0 <= s < kept.len() && kept[s] is None && child_ids(base, kept)[s].0 == base + n
                    && node == NodeModel::fresh(produced[s].0, produced[s].1, depth, Some(id))
        } by {
            if n < new_nodes(id, produced, front, depth).len() {
                let node = new_nodes(id, produced, front, depth)[n];
                let s = choose|s: int|
                    #![trigger front[s]]
                    0 <= s < front.len() && front[s] is None && child_ids(base, front)[s].0 == base + n
                        && node == NodeModel::fresh(produced[s].0, produced[s].1, depth, Some(id));
                assert(kept[s] is None);
            } else {
                assert(kept[last] is None);
            }
        }
    }
}

/// A live node's live ancestors: whatever is below a node has its parent at
/// or below it.
proof fn lemma_below_parent<C>(t: TreeModel<C>, a: int, d: int)
    requires
        t.below(a, d),
    ensures
        t.under(a, t.up(d)),
        0 < d < t.nodes.len(),
{
}

/// Accepting or failing a node keeps the tree well formed.
pub proof fn lemma_cleared_wf<C>(t: TreeModel<C>, id: NodeId, n: NodeModel<C>)
    requires
        t.wf(),
        t.live(id.0 as int),
        n.span == t.at(id).span,
        n.parent == t.at(id).parent,
        n.children.len() == 0,
        !(n.status is Expanded),
        n.alive,
        n.attempts <= n.depth,
        n.home() == t.at(id).home(),
    ensures
        (TreeModel { nodes: t.cleared(id.0 as int).nodes.update(id.0 as int, n), ..t }).wf(),
{
    let i0 = id.0 as int;
    let post = TreeModel { nodes: t.cleared(i0).nodes.update(i0, n), ..t };
    if t.under(i0, 0) {
        lemma_under_orders(t, i0, 0);
    }
    assert forall|i: int| #[trigger] post.live(i) implies post.node_ok(i) && (i > 0 ==> post.placed(
        i,
    )) by {
        assert(t.live(i));
        assert(t.node_ok(i) && (i > 0 ==> t.placed(i)));
        assert(!t.below(i0, i));
        if i > 0 {
            let p = t.up(i);
            assert(t.live(p) && t.lists(p, i));
            if t.under(i0, p) {
                assert(t.under(i0, i));
                assert(i == i0);
                lemma_under_orders(t, i0, p);
            }
            let k = choose|k: int|
                0 <= k < t.nodes[p].children.len() && (#[trigger] t.nodes[p].children[k]).0 == i;
            assert(post.nodes[p].children[k].0 == i);
        }
        if i != i0 {
            assert forall|k: int| 0 <= k < post.nodes[i].children.len() implies post.child_ok(
                i,
                #[trigger] post.nodes[i].children[k],
            ) by {
                let c = t.nodes[i].children[k].0 as int;
                assert(t.child_ok(i, t.nodes[i].children[k]));
                if t.below(i0, c) {
                    lemma_below_parent(t, i0, c);
                }
                assert(c != i0 || post.nodes[c].parent == t.nodes[c].parent);
            }
        }
    }
}

/// Expanding a node into regions within it keeps the tree well formed.
pub proof fn lemma_expanded_wf<C: PartialEq>(
    t: TreeModel<C>,
    id: NodeId,
    produced: Seq<(Span, C)>,
    kept: Seq<Option<NodeId>>,
    round: nat,
)
    requires
        t.wf(),
        t.live(id.0 as int),
        t.at(id).depth == round,
        produced.len() > 0,
        t.reuse_ok(id, produced, kept),
        forall|s: int| 0 <= s < produced.len() ==> t.at(id).span.nests((#[trigger] produced[s]).0),
        t.nodes.len() + new_nodes(id, produced, kept, round + 1).len() <= usize::MAX,
    ensures
        t.expanded(id, produced, kept, round).wf(),
{
    let post = t.expanded(id, produced, kept, round);
    let i0 = id.0 as int;
    let len = t.nodes.len();
    let old = t.at(id).children;
    let ids = child_ids(len, kept);
    let fresh = new_nodes(id, produced, kept, round + 1);
    lemma_child_ids(id, produced, kept, round + 1, len);
    assert(t.node_ok(i0));
    assert forall|d: int| #[trigger] t.orphaned(id, kept, d) implies i0 < d < len by {
        let k = choose|k: int|
            0 <= k < old.len() && !kept_within(kept, kept.len() as int, #[trigger] old[k]) && t.under(
                old[k].0 as int,
                d,
            );
        assert(t.child_ok(i0, old[k]));
        lemma_under_orders(t, old[k].0 as int, d);
    }
    assert(post.live(0) && post.nodes[0].parent is None);
    assert forall|i: int| #[trigger] post.live(i) implies post.node_ok(i) && (i > 0 ==> post.placed(
        i,
    )) by {
        if i < len {
            assert(t.live(i) && !t.orphaned(id, kept, i));
            assert(t.node_ok(i) && (i > 0 ==> t.placed(i)));
            if i > 0 {
                let p = t.up(i);
                let k = choose|k: int|
                    0 <= k < t.nodes[p].children.len() && (#[trigger] t.nodes[p].children[k]).0 == i;
                if t.orphaned(id, kept, p) {
                    let j = choose|j: int|
                        0 <= j < old.len() && !kept_within(
                            kept,
                            kept.len() as int,
                            #[trigger] old[j],
                        ) && t.under(old[j].0 as int, p);
                    assert(t.under(old[j].0 as int, i));
                }
                if p == i0 {
                    assert(t.under(old[k].0 as int, i));
                    assert(kept_within(kept, kept.len() as int, old[k]));
                    let s = choose|s: int| 0 <= s < kept.len() && #[trigger] kept[s] == Some(old[k]);
                    assert(ids[s].0 == i);
                    assert(post.nodes[p].children[s].0 == i);
                } else {
                    assert(post.nodes[p].children[k].0 == i);
                }
            }
            if i == i0 {
                assert forall|s: int| 0 <= s < ids.len() implies post.child_ok(i, #[trigger] ids[s]) by {
                    assert(kept[s] is None || kept[s] is Some);
                    if kept[s] is Some {
                        let c = kept[s]->0;
                        lemma_kept_child(t, id, produced, kept, s);
                        let k = choose|k: int| 0 <= k < old.len() && old[k] == c;
                        assert(t.child_ok(i0, old[k]));
                        if t.orphaned(id, kept, c.0 as int) {
                            let j = choose|j: int|
                                0 <= j < old.len() && !kept_within(
                                    kept,
                                    kept.len() as int,
                                    #[trigger] old[j],
                                ) && t.under(old[j].0 as int, c.0 as int);
                            assert(t.child_ok(i0, old[j]));
                            assert(kept_within(kept, kept.len() as int, c));
                            assert(t.under(c.0 as int, c.0 as int));
                            lemma_siblings_apart(t, i0, c.0 as int, old[j].0 as int, c.0 as int);
                        }
                    }
                }
                assert forall|s: int, r: int| 0 <= s < ids.len() && 0 <= r < ids.len() && s != r implies ids[s]
                    != ids[r] by {
                    lemma_distinct_ids(t, id, produced, kept, round + 1, s, r);
                }
            } else {
                assert forall|k: int| 0 <= k < post.nodes[i].children.len() implies post.child_ok(
                    i,
                    #[trigger] post.nodes[i].children[k],
                ) by {
                    let c = t.nodes[i].children[k].0 as int;
                    assert(t.child_ok(i, t.nodes[i].children[k]));
                    if t.orphaned(id, kept, c) {
                        let j = choose|j: int|
                            0 <= j < old.len() && !kept_within(
                                kept,
                                kept.len() as int,
                                #[trigger] old[j],
                            ) && t.under(old[j].0 as int, c);
                        assert(t.child_ok(i0, old[j]));
                        assert(t.under(old[j].0 as int, i));
                        assert(t.orphaned(id, kept, i));
                    }
                }
            }
        } else {
            let n = i - len;
            assert(post.nodes[i] == fresh[n]);
            let s = choose|s: int|
                #![trigger kept[s]]
                0 <= s < kept.len() && kept[s] is None && ids[s].0 == len + n && fresh[n]
                    == NodeModel::fresh(produced[s].0, produced[s].1, round + 1, Some(id));
            assert(post.nodes[i0].children[s].0 == i);
            assert(t.at(id).span.nests(produced[s].0));
        }
    }
}

/// Different slots of an expansion hold different children.
proof fn lemma_distinct_ids<C: PartialEq>(
    t: TreeModel<C>,
    id: NodeId,
    produced: Seq<(Span, C)>,
    kept: Seq<Option<NodeId>>,
    depth: nat,
    s: int,
    r: int,
)
    requires
        t.wf(),
        t.live(id.0 as int),
        t.reuse_ok(id, produced, kept),
        t.nodes.len() + new_nodes(id, produced, kept, depth).len() <= usize::MAX,
        0 <= s < kept.len(),
        0 <= r < kept.len(),
        s != r,
    ensures
        child_ids(t.nodes.len(), kept)[s] != child_ids(t.nodes.len(), kept)[r],
{
    lemma_child_ids(id, produced, kept, depth, t.nodes.len());
    let (lo, hi) = if s < r {
        (s, r)
    } else {
        (r, s)
    };
    assert(t.node_ok(id.0 as int));
    if kept[lo] is Some {
        lemma_kept_child(t, id, produced, kept, lo);
        let k = choose|k: int| 0 <= k < t.at(id).children.len() && t.at(id).children[k] == kept[lo]->0;
        assert(t.child_ok(id.0 as int, t.at(id).children[k]));
    }
    if kept[hi] is Some {
        lemma_kept_child(t, id, produced, kept, hi);
        let k = choose|k: int| 0 <= k < t.at(id).children.len() && t.at(id).children[k] == kept[hi]->0;
        assert(t.child_ok(id.0 as int, t.at(id).children[k]));
    }
    if kept[lo] is Some && kept[hi] is Some && kept[lo] == kept[hi] {
        assert(kept_within(kept, hi, kept[hi]->0));
    }
}

/// What filtering the arena by `keep` gives: the ids of exactly the nodes that
/// satisfy it, in creation order.
pub proof fn lemma_ids_where<C>(t: TreeModel<C>, n: int, keep: spec_fn(NodeModel<C>) -> bool)
    requires
        0 <= n <= t.nodes.len(),
        n <= usize::MAX,
    ensures
        t.ids_where(n, keep).len() <= n,
        forall|k: int|
            0 <= k < t.ids_where(n, keep).len() ==> (#[trigger] t.ids_where(n, keep)[k]).0 < n
                && keep(t.at(t.ids_where(n, keep)[k])),
        forall|j: int, k: int|
            0 <= j < k < t.ids_where(n, keep).len() ==> (#[trigger] t.ids_where(n, keep)[j]).0 < (
            #[trigger] t.ids_where(n, keep)[k]).0,
        forall|i: int|
            0 <= i < n && keep(#[trigger] t.nodes[i]) ==> t.ids_where(n, keep).contains(
                NodeId(i as usize),
            ),
    decreases n,
{
    if n > 0 {
        lemma_ids_where(t, n - 1, keep);
        let rest = t.ids_where(n - 1, keep);
        let all = t.ids_where(n, keep);
        assert forall|i: int| 0 <= i < n && keep(#[trigger] t.nodes[i]) implies all.contains(
            NodeId(i as usize),
        ) by {
            if i == n - 1 {
                assert(all[all.len() - 1] == NodeId(i as usize));
            } else {
                assert(rest.contains(NodeId(i as usize)));
                let k = choose|k: int| 0 <= k < rest.len() && rest[k] == NodeId(i as usize);
                assert(all[k] == NodeId(i as usize));
            }
        }
    }
}

/// A node above a live one is live.
pub proof fn lemma_above_live<C>(t: TreeModel<C>, a: int, d: int)
    requires
        t.wf(),
        t.live(d),
        t.under(a, d),
    ensures
        t.live(a),
    decreases d,
{
    if a != d {
        assert(t.placed(d));
        lemma_above_live(t, a, t.up(d));
    }
}

/// Every live node descends from the root and lies within its span, on its
/// revision.
pub proof fn law_nodes_within_root<C>(t: TreeModel<C>, d: int)
    requires
        t.wf(),
        t.live(d),
    ensures
        t.under(0, d),
        t.nodes[0].span.nests(t.nodes[d].span),
    decreases d,
{
    assert(t.node_ok(d));
    if d > 0 {
        assert(t.placed(d));
        law_nodes_within_root(t, t.up(d));
    }
}

/// A live node can be reached from the root.
proof fn lemma_live_reachable<C>(t: TreeModel<C>, d: int)
    requires
        t.wf(),
        t.live(d),
    ensures
        t.reachable(d),
    decreases d,
{
    if d == 0 {
        assert(t.leads_down(seq![0int]));
    } else {
        assert(t.placed(d));
        let p = t.up(d);
        lemma_live_reachable(t, p);
        let path = choose|path: Seq<int>| #[trigger] t.leads_down(path) && path.last() == p;
        let more = path.push(d);
        assert forall|i: int| 0 <= i < more.len() - 1 implies (0 <= #[trigger] more[i]
            < t.nodes.len()) && t.lists(more[i], more[i + 1]) by {
            if i < path.len() - 1 {
                assert(more[i] == path[i] && more[i + 1] == path[i + 1]);
            }
        }
        assert(t.leads_down(more));
    }
}

/// What the first `n` steps of a path from the root come to is live.
proof fn lemma_reachable_live<C>(t: TreeModel<C>, path: Seq<int>, n: int)
    requires
        t.wf(),
        t.leads_down(path),
        0 <= n < path.len(),
    ensures
        t.live(path[n]),
    decreases n,
{
    if n > 0 {
        lemma_reachable_live(t, path, n - 1);
        let p = path[n - 1];
        assert(t.lists(path[n - 1], path[n - 1 + 1]));
        assert(t.node_ok(p));
        let k = choose|k: int|
            0 <= k < t.nodes[p].children.len() && (#[trigger] t.nodes[p].children[k]).0 == path[n];
        assert(t.child_ok(p, t.nodes[p].children[k]));
    }
}

/// The live nodes are exactly those that can be reached from the root through
/// child lists; each is listed once, in creation order.
pub proof fn law_nodes_are_the_reachable<C>(t: TreeModel<C>)
    requires
        t.wf(),
    ensures
        forall|d: int| t.live(d) == #[trigger] t.reachable(d),
        forall|id: NodeId| #[trigger]
            t.live_ids().contains(id) == t.reachable(id.0 as int),
        forall|j: int, k: int|
            0 <= j < k < t.live_ids().len() ==> (#[trigger] t.live_ids()[j]).0 < (
            #[trigger] t.live_ids()[k]).0,
{
    assert forall|d: int| t.live(d) == #[trigger] t.reachable(d) by {
        if t.live(d) {
            lemma_live_reachable(t, d);
        }
        if t.reachable(d) {
            let path = choose|path: Seq<int>| #[trigger] t.leads_down(path) && path.last() == d;
            lemma_reachable_live(t, path, path.len() - 1);
        }
    }
    let keep = |node: NodeModel<C>| node.alive;
    lemma_ids_where(t, t.nodes.len() as int, keep);
    assert forall|id: NodeId| #[trigger]
        t.live_ids().contains(id) == t.reachable(id.0 as int) by {
        assert(t.live(id.0 as int) == t.reachable(id.0 as int));
        if t.live_ids().contains(id) {
            let k = t.live_ids().index_of(id);
            assert(keep(t.at(t.live_ids()[k])));
        }
        if t.live(id.0 as int) {
            assert(keep(t.nodes[id.0 as int]));
            assert(NodeId(id.0 as int as usize) == id);
        }
    }
}

/// The root alone has no parent. The parent of any other live node is live,
/// lists it exactly once, and covers it on the same source revision.
pub proof fn law_parents_hold_their_children<C>(t: TreeModel<C>, d: int)
    requires
        t.wf(),
        t.live(d),
    ensures
        t.nodes[d].parent is None <==> d == 0,
        t.nodes[d].parent matches Some(p) ==> {
            &&& t.live(p.0 as int)
            &&& t.nodes[p.0 as int].span.covers(t.nodes[d].span)
            &&& t.nodes[p.0 as int].span.rev == t.nodes[d].span.rev
            &&& t.lists(p.0 as int, d)
            &&& forall|j: int, k: int|
                #![trigger t.nodes[p.0 as int].children[j], t.nodes[p.0 as int].children[k]]
                0 <= j < t.nodes[p.0 as int].children.len() && 0 <= k
                    < t.nodes[p.0 as int].children.len() && t.nodes[p.0 as int].children[j].0 == d
                    && t.nodes[p.0 as int].children[k].0 == d ==> j == k
        },
{
    if d > 0 {
        assert(t.placed(d));
        assert(t.node_ok(t.up(d)));
    }
}

/// Where the root is on the tree's source revision, every live node is.
pub proof fn law_nodes_on_revision<C>(t: TreeModel<C>)
    requires
        t.wf(),
        t.nodes[0].span.rev == t.rev,
    ensures
        t.on_revision(),
{
    assert forall|d: int| #[trigger] t.live(d) implies t.nodes[d].span.rev == t.rev by {
        law_nodes_within_root(t, d);
    }
}

/// Of two nodes above a third, one is above the other.
pub proof fn lemma_ancestors_in_line<C>(t: TreeModel<C>, a: int, b: int, d: int)
    requires
        t.under(a, d),
        t.under(b, d),
    ensures
        t.under(a, b) || t.under(b, a),
    decreases d,
{
    if d != a && d != b {
        lemma_ancestors_in_line(t, a, b, t.up(d));
    }
}

/// Every live node below another is at or below one of its children.
pub proof fn lemma_child_towards<C>(t: TreeModel<C>, id: int, d: int) -> (k: int)
    requires
        t.wf(),
        t.live(d),
        t.below(id, d),
    ensures
        0 <= k < t.nodes[id].children.len(),
        t.under(t.nodes[id].children[k].0 as int, d),
    decreases d,
{
    assert(t.placed(d));
    let p = t.up(d);
    if p == id {
        choose|k: int|
            0 <= k < t.nodes[id].children.len() && (#[trigger] t.nodes[id].children[k]).0 == d
    } else {
        lemma_child_towards(t, id, p)
    }
}

/// Every live node lies within the span of each of its ancestors.
pub proof fn law_nodes_within_ancestors<C>(t: TreeModel<C>, a: int, d: int)
    requires
        t.wf(),
        t.live(d),
        t.under(a, d),
    ensures
        t.nodes[a].span.nests(t.nodes[d].span),
    decreases d,
{
    assert(t.node_ok(d));
    if a != d {
        assert(t.placed(d));
        law_nodes_within_ancestors(t, a, t.up(d));
    }
}

/// An edit keeps the tree well formed.
pub proof fn lemma_edited_wf<C>(t: TreeModel<C>, edit: Edit)
    requires
        t.wf(),
        edit.valid(),
        edit.end_after(t.nodes[0].span.end as int) <= usize::MAX,
    ensures
        t.edited(edit).wf(),
{
    let post = t.edited(edit);
    let rev = (t.rev + 1) as u64;
    assert forall|i: int| #[trigger] post.live(i) implies post.node_ok(i) && (i > 0 ==> post.placed(
        i,
    )) by {
        assert(t.live(i));
        assert(t.node_ok(i) && (i > 0 ==> t.placed(i)));
        law_nodes_within_root(t, i);
        crate::session::law_edit_keeps_nesting(edit, t.nodes[0].span, t.nodes[i].span, rev);
        assert forall|k: int| 0 <= k < post.nodes[i].children.len() implies post.child_ok(
            i,
            #[trigger] post.nodes[i].children[k],
        ) by {
            assert(t.child_ok(i, t.nodes[i].children[k]));
        }
        if i > 0 {
            let p = t.up(i);
            assert(t.live(p) && t.node_ok(p));
            law_nodes_within_root(t, p);
            crate::session::law_edit_keeps_nesting(edit, t.nodes[0].span, t.nodes[p].span, rev);
            crate::session::law_edit_keeps_nesting(edit, t.nodes[p].span, t.nodes[i].span, rev);
            let k = choose|k: int|
                0 <= k < t.nodes[p].children.len() && (#[trigger] t.nodes[p].children[k]).0 == i;
            assert(post.nodes[p].children[k].0 == i);
        }
    }
}

/// A node is first processed after every node above it.
pub proof fn lemma_below_later<C>(t: TreeModel<C>, a: int, d: int)
    requires
        t.wf(),
        t.live(d),
        t.below(a, d),
    ensures
        t.nodes[a].depth < t.nodes[d].home(),
        t.nodes[a].depth < t.nodes[d].depth,
    decreases d,
{
    assert(t.placed(d));
    assert(t.node_ok(d));
    let p = t.up(d);
    assert(t.node_ok(p));
    if p != a {
        lemma_below_later(t, a, p);
    }
}

/// What merging an outcome leaves alone: the revision, every node's span,
/// context and parent, and every other live node that is not processed later.
/// Nothing new is due in `round` or before.
pub proof fn lemma_apply_frame<C: PartialEq>(
    pre: TreeModel<C>,
    id: NodeId,
    outcome: OutcomeModel<C>,
    round: nat,
    enforce_shrink: bool,
    post: TreeModel<C>,
)
    requires
        pre.wf(),
        pre.knows(id),
        pre.at(id).ready(round),
        pre.may_apply(id, outcome, round, enforce_shrink, post),
    ensures
        post.rev == pre.rev,
        pre.nodes.len() <= post.nodes.len(),
        forall|d: int|
            0 <= d < pre.nodes.len() ==> {
                &&& (#[trigger] post.nodes[d]).span == pre.nodes[d].span
                &&& post.nodes[d].ctx == pre.nodes[d].ctx
                &&& post.nodes[d].parent == pre.nodes[d].parent
            },
        forall|d: int|
            d != id.0 && #[trigger] pre.live(d) && pre.nodes[d].depth <= round ==> post.nodes[d]
                == pre.nodes[d],
        forall|d: int, due: nat|
            due <= round && 0 <= d < post.nodes.len() && #[trigger] post.nodes[d].ready(due) ==> d
                != id.0 && d < pre.nodes.len() && post.nodes[d] == pre.nodes[d],
{
    let i0 = id.0 as int;
    assert(pre.live(i0));
    assert(pre.node_ok(i0));
    assert forall|d: int|
        pre.live(d) && d != i0 && #[trigger] pre.under(i0, d) implies pre.nodes[d].depth > round by {
        lemma_below_later(pre, i0, d);
    }
    match crate::violation::verdict(pre.at(id).span, outcome, enforce_shrink) {
        Verdict::Expanded => {
            let produced = outcome->Expand_0;
            let kept = choose|kept: Seq<Option<NodeId>>| #[trigger]
                pre.reuse_ok(id, produced, kept) && post == pre.expanded(id, produced, kept, round);
            assert forall|d: int| #[trigger] pre.orphaned(id, kept, d) implies pre.below(i0, d) by {
                let old_ids = pre.at(id).children;
                let k = choose|k: int|
                    0 <= k < old_ids.len() && !kept_within(
                        kept,
                        kept.len() as int,
                        #[trigger] old_ids[k],
                    ) && pre.under(old_ids[k].0 as int, d);
                assert(pre.child_ok(i0, old_ids[k]));
                lemma_child_below(pre, i0, old_ids[k].0 as int);
                lemma_under_composes(pre, i0, old_ids[k].0 as int, d);
                lemma_under_orders(pre, old_ids[k].0 as int, d);
            }
            lemma_new_nodes_fresh(id, produced, kept, round + 1);
        },
        _ => {},
    }
}

/// Every node created for an expansion starts unparsed at the given depth.
proof fn lemma_new_nodes_fresh<C>(
    id: NodeId,
    produced: Seq<(Span, C)>,
    kept: Seq<Option<NodeId>>,
    depth: nat,
)
    ensures
        forall|n: int|
            0 <= n < new_nodes(id, produced, kept, depth).len() ==> (#[trigger] new_nodes(
                id,
                produced,
                kept,
                depth,
            )[n]).depth == depth && new_nodes(id, produced, kept, depth)[n].alive,
    decreases kept.len(),
{
    if kept.len() > 0 {
        lemma_new_nodes_fresh(id, produced, kept.drop_last(), depth);
    }
}

/// The root is no step away from itself, and every other node one step further
/// from it than its parent.
pub proof fn law_levels_count_steps<C>(t: TreeModel<C>, d: int)
    requires
        t.wf(),
        t.live(d),
    ensures
        t.level(0) == 0,
        d > 0 ==> (t.nodes[d].parent matches Some(p) && t.level(d) == t.level(p.0 as int) + 1),
{
    if d > 0 {
        assert(t.placed(d));
    }
}

/// A node further down is further from the root.
pub proof fn law_levels_grow_downwards<C>(t: TreeModel<C>, a: int, d: int)
    requires
        t.wf(),
        t.live(d),
        t.below(a, d),
    ensures
        t.level(a) < t.level(d),
    decreases d,
{
    assert(t.placed(d));
    let p = t.up(d);
    assert(t.under(a, p));
    if p != a {
        law_levels_grow_downwards(t, a, p);
    }
}

/// There is one deepest node at an offset, if any node covers it: it covers the
/// offset, and no node below it does.
pub proof fn law_deepest_node<C>(t: TreeModel<C>, offset: int, d: int)
    requires
        t.wf(),
        t.deepest_at(offset, d),
    ensures
        t.live(d),
        t.nodes[d].span.start <= offset < t.nodes[d].span.end,
        forall|e: int| #[trigger]
            t.live(e) && t.below(d, e) ==> !(t.nodes[e].span.start <= offset
                < t.nodes[e].span.end),
        forall|e: int| #[trigger] t.deepest_at(offset, e) ==> e == d,
        forall|e: int| #[trigger]
            t.live(e) && t.nodes[e].span.start <= offset < t.nodes[e].span.end && t.level(e)
                == t.level(d) ==> d <= e,
{
    assert forall|e: int| #[trigger] t.live(e) && t.below(d, e) implies !(t.nodes[e].span.start
        <= offset < t.nodes[e].span.end) by {
        law_levels_grow_downwards(t, d, e);
    }
    assert forall|e: int| #[trigger] t.deepest_at(offset, e) implies e == d by {
        assert(t.live(e));
        assert(t.live(d));
    }
}

/// A region is settled where no live node at or below it is unparsed, nor failed
/// with one of the rounds still ahead of it.
pub proof fn law_settled_by_status<C>(t: TreeModel<C>, a: int, rounds: nat)
    ensures
        t.settled(a, rounds) == forall|d: int| #[trigger]
            t.live(d) && t.under(a, d) ==> !(t.nodes[d].status is Unparsed) && !(
            t.nodes[d].status is Failed && t.nodes[d].depth < rounds),
{
    if forall|d: int| #[trigger]
        t.live(d) && t.under(a, d) ==> !(t.nodes[d].status is Unparsed) && !(
        t.nodes[d].status is Failed && t.nodes[d].depth < rounds) {
        assert(t.settled(a, rounds));
    }
    if t.settled(a, rounds) {
        assert forall|d: int| #[trigger] t.live(d) && t.under(a, d) implies !(
        t.nodes[d].status is Unparsed) && !(t.nodes[d].status is Failed && t.nodes[d].depth
            < rounds) by {
            assert(!t.nodes[d].pending(rounds));
        }
    }
}

/// A new node is unparsed, childless and untried, and its home is the round it
/// starts with; failing in a round it is due in moves it to the next round and
/// not its home, so that an edit sends it back to where it began.
pub proof fn law_home_is_where_a_node_began<C>(
    span: Span,
    ctx: C,
    depth: nat,
    parent: Option<NodeId>,
    t: TreeModel<C>,
    id: NodeId,
    round: nat,
)
    requires
        t.live(id.0 as int),
        t.at(id).depth == round,
    ensures
        ({
            let fresh = NodeModel::fresh(span, ctx, depth, parent);
            &&& fresh.home() == depth
            &&& fresh.span == span && fresh.ctx == ctx && fresh.parent == parent
            &&& fresh.depth == depth && fresh.attempts == 0 && fresh.alive
            &&& fresh.status is Unparsed
            &&& fresh.children.len() == 0
        }),
        t.failed(id, round).nodes[id.0 as int].home() == t.nodes[id.0 as int].home(),
        t.failed(id, round).nodes[id.0 as int].depth == round + 1,
        t.accepted(id).nodes[id.0 as int].home() == t.nodes[id.0 as int].home(),
{
}

/// A tree begins with one node, its root: unparsed, without parent or children,
/// due in the first round.
pub proof fn law_trees_begin_with_the_root<C>(rev: u64, span: Span, ctx: C)
    ensures
        ({
            let t = TreeModel::root_only(rev, span, ctx);
            &&& t.rev == rev
            &&& t.nodes.len() == 1
            &&& t.nodes[0].span == span
            &&& t.nodes[0].ctx == ctx
            &&& t.nodes[0].status is Unparsed
            &&& t.nodes[0].depth == 0
            &&& t.nodes[0].attempts == 0
            &&& t.nodes[0].parent is None
            &&& t.nodes[0].children.len() == 0
            &&& t.nodes[0].alive
        }),
{
}

} // verus!
