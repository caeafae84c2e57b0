//! The arena-backed parse tree produced by engine runs.

use crate::job::Job;
use crate::model::{NodeModel, TreeModel};
use crate::node::{Node, NodeId};
use crate::outcome::Outcome;
use crate::session::{map_span, Edit};
use crate::span::Span;
use crate::status::{Status, StatusCounts};
use crate::text::{byte_len, slice};
use crate::violation::{find_first_fault, Verdict};
use vstd::prelude::*;

verus! {

/// A tree of source regions grown by the [`Engine`](crate::Engine).
///
/// The root covers the whole program; each node holds a [`Span`], a context
/// value `C`, and a [`Status`]. The engine grows the tree round by round:
/// every [`Unparsed`](Status::Unparsed) node (and every
/// [`Failed`](Status::Failed) node with passes left) is offered to the pass
/// scheduled for its round, which either expands it into children, accepts
/// it, or fails it for a later pass to retry.
///
/// Nodes are stored in an arena and referenced by stable [`NodeId`]s.
#[derive(Debug)]
pub struct ParseTree<C> {
    rev: u64,
    nodes: Vec<Node<C>>,
}

impl<C> View for ParseTree<C> {
    type V = TreeModel<C>;

    closed spec fn view(&self) -> TreeModel<C> {
        TreeModel { rev: self.rev, nodes: self.nodes@.map_values(|node: Node<C>| node@) }
    }
}

impl<C> TreeModel<C> {
    /// What dropping the descendants of the node at `id` relies on: below it,
    /// live nodes are listed by their parents, lists hold proper entries, and
    /// dropped nodes have no children.
    spec fn branch_ok(self, id: int) -> bool {
        &&& 0 <= id < self.nodes.len()
        &&& self.list_ok(id)
        &&& forall|d: int| #[trigger]
            self.live(d) && self.below(id, d) ==> {
                &&& self.nodes[d].parent matches Some(p) && p.0 < d && self.lists(p.0 as int, d)
                    && (p.0 == id || self.live(p.0 as int))
                &&& self.list_ok(d)
            }
        &&& forall|d: int|
            0 <= d < self.nodes.len() && self.below(id, d) && !(#[trigger] self.nodes[d]).alive
                ==> self.nodes[d].children.len() == 0
    }

    /// The tree part way through dropping children of the node at `id`: of
    /// the first `n`, those that `kept` reuses nowhere are gone with all below
    /// them.
    spec fn partly_cleared(self, id: int, kept: Seq<Option<NodeId>>, n: int) -> Self {
        TreeModel {
            nodes: Seq::new(
                self.nodes.len(),
                |d: int|
                    if d == id {
                        NodeModel { children: Seq::empty(), ..self.nodes[d] }
                    } else if self.gone(id, kept, n, d) {
                        self.nodes[d].killed()
                    } else {
                        self.nodes[d]
                    },
            ),
            ..self
        }
    }

    /// The node at `d` is at or below one of the first `n` children of the
    /// node at `id`, and `kept` does not reuse that child.
    spec fn gone(self, id: int, kept: Seq<Option<NodeId>>, n: int, d: int) -> bool {
        exists|k: int|
            0 <= k < n && !crate::model::kept_within(
                kept,
                kept.len() as int,
                #[trigger] self.nodes[id].children[k],
            ) && self.under(self.nodes[id].children[k].0 as int, d)
    }
}

/// What the nodes below one child look like once children before it are gone:
/// all as they were.
proof fn lemma_branch_untouched<C>(
    t: TreeModel<C>,
    id: int,
    kept: Seq<Option<NodeId>>,
    k: int,
    d: int,
)
    requires
        t.branch_ok(id),
        0 <= k < t.nodes[id].children.len(),
        t.under(t.nodes[id].children[k].0 as int, d),
    ensures
        id < d < t.nodes.len(),
        t.below(id, d),
        !t.gone(id, kept, k, d),
        t.partly_cleared(id, kept, k).nodes[d] == t.nodes[d],
{
    let children = t.nodes[id].children;
    let c = children[k].0 as int;
    assert(t.child_ok(id, children[k]));
    crate::model::lemma_under_orders(t, c, d);
    crate::model::lemma_child_below(t, id, c);
    crate::model::lemma_under_composes(t, id, c, d);
    assert forall|j: int| 0 <= j < k implies !t.under(#[trigger] children[j].0 as int, d) by {
        assert(t.child_ok(id, children[j]));
        assert(children[j] != children[k]);
        crate::model::lemma_siblings_apart(t, id, c, children[j].0 as int, d);
    }
}

/// Passing over a child that is reused.
proof fn lemma_keep_step<C>(t: TreeModel<C>, id: int, kept: Seq<Option<NodeId>>, k: int)
    requires
        0 <= k < t.nodes[id].children.len(),
        crate::model::kept_within(kept, kept.len() as int, t.nodes[id].children[k]),
    ensures
        t.partly_cleared(id, kept, k) == t.partly_cleared(id, kept, k + 1),
{
    assert forall|d: int| t.gone(id, kept, k, d) == t.gone(id, kept, k + 1, d) by {
        if t.gone(id, kept, k, d) {
            let j = choose|j: int|
                0 <= j < k && !crate::model::kept_within(
                    kept,
                    kept.len() as int,
                    #[trigger] t.nodes[id].children[j],
                ) && t.under(t.nodes[id].children[j].0 as int, d);
            assert(0 <= j < k + 1);
        }
    }
    assert(t.partly_cleared(id, kept, k) =~= t.partly_cleared(id, kept, k + 1));
}

/// Dropping one more child and all below it.
proof fn lemma_clear_step<C>(
    t: TreeModel<C>,
    s: TreeModel<C>,
    id: int,
    kept: Seq<Option<NodeId>>,
    k: int,
)
    requires
        t.branch_ok(id),
        0 <= k < t.nodes[id].children.len(),
        !crate::model::kept_within(kept, kept.len() as int, t.nodes[id].children[k]),
        s.rev == t.rev,
        s.nodes == t.partly_cleared(id, kept, k).nodes.update(
            t.nodes[id].children[k].0 as int,
            NodeModel { alive: false, ..t.nodes[t.nodes[id].children[k].0 as int] },
        ),
    ensures
        s.branch_ok(t.nodes[id].children[k].0 as int),
        s.cleared(t.nodes[id].children[k].0 as int) == t.partly_cleared(id, kept, k + 1),
{
    let children = t.nodes[id].children;
    let c = children[k].0 as int;
    let part = t.partly_cleared(id, kept, k);
    assert(t.child_ok(id, children[k]));
    assert(forall|i: int|
        0 <= i < t.nodes.len() ==> (#[trigger] s.nodes[i]).parent == t.nodes[i].parent);
    assert forall|a: int, d: int| 0 <= d < t.nodes.len() implies #[trigger] s.under(a, d)
        == t.under(a, d) by {
        crate::model::lemma_under_by_parents(t, s, a, d);
    }
    assert forall|d: int| #[trigger] t.under(c, d) implies id < d < t.nodes.len() && t.below(id, d)
        && part.nodes[d] == t.nodes[d] by {
        lemma_branch_untouched(t, id, kept, k, d);
    }
    assert(t.under(c, c));
    assert forall|d: int| d == c || (t.live(d) && t.below(c, d)) implies #[trigger] s.list_ok(d) by {
        assert(t.under(c, d));
        assert(t.live(c) && t.live(d));
        assert(t.list_ok(d));
        assert(s.nodes[d].children == t.nodes[d].children);
        assert forall|j: int| 0 <= j < s.nodes[d].children.len() implies s.child_ok(
            d,
            #[trigger] s.nodes[d].children[j],
        ) by {
            let e = t.nodes[d].children[j];
            assert(t.child_ok(d, e));
            assert(t.under(c, e.0 as int));
            crate::model::lemma_under_orders(t, c, d);
        }
    }
    assert forall|d: int| #[trigger] s.live(d) && s.below(c, d) implies {
        &&& s.nodes[d].parent matches Some(p) && p.0 < d && s.lists(p.0 as int, d) && (p.0 == c
            || s.live(p.0 as int))
        &&& s.list_ok(d)
    } by {
        assert(s.under(c, d) == t.under(c, d));
        assert(t.under(c, d));
        assert(t.live(d) && t.below(id, d));
        let p = t.up(d);
        assert(t.lists(p, d));
        assert(t.under(c, p));
        crate::model::lemma_under_orders(t, c, p);
        assert(s.nodes[p].children == t.nodes[p].children);
        let j = choose|j: int|
            0 <= j < t.nodes[p].children.len() && (#[trigger] t.nodes[p].children[j]).0 == d;
        assert(s.nodes[p].children[j].0 == d);
    }
    assert forall|d: int|
        0 <= d < s.nodes.len() && s.below(c, d) && !(#[trigger] s.nodes[d]).alive implies s.nodes[d].children.len()
        == 0 by {
        assert(s.under(c, d) == t.under(c, d));
        assert(t.under(c, d));
    }
    let next = t.partly_cleared(id, kept, k + 1);
    assert forall|d: int| 0 <= d < t.nodes.len() implies #[trigger] s.cleared(c).nodes[d]
        == next.nodes[d] by {
        assert(s.under(c, d) == t.under(c, d));
        if d != id {
            if t.under(c, d) {
                assert(t.under(children[k].0 as int, d));
                assert(t.gone(id, kept, k + 1, d));
                assert(part.nodes[d] == t.nodes[d]);
            } else if t.gone(id, kept, k, d) {
                let j = choose|j: int|
                    0 <= j < k && !crate::model::kept_within(
                        kept,
                        kept.len() as int,
                        #[trigger] children[j],
                    ) && t.under(children[j].0 as int, d);
                assert(0 <= j < k + 1 && t.under(children[j].0 as int, d));
                assert(t.gone(id, kept, k + 1, d));
            } else {
                assert(!t.gone(id, kept, k + 1, d));
            }
        }
    }
    assert(s.cleared(c) =~= next);
}

/// Every live node below another is at or below one of its children.
proof fn lemma_below_some_child<C>(t: TreeModel<C>, id: int, d: int) -> (k: int)
    requires
        t.branch_ok(id),
        t.live(d),
        t.below(id, d),
    ensures
        0 <= k < t.nodes[id].children.len(),
        t.under(t.nodes[id].children[k].0 as int, d),
    decreases d,
{
    let p = t.up(d);
    assert(t.lists(p, d));
    if p == id {
        choose|k: int|
            0 <= k < t.nodes[id].children.len() && (#[trigger] t.nodes[id].children[k]).0 == d
    } else {
        lemma_below_some_child(t, id, p)
    }
}

/// Once every child is gone, so is everything below.
proof fn lemma_clear_end<C>(t: TreeModel<C>, id: int)
    requires
        t.branch_ok(id),
    ensures
        t.partly_cleared(id, Seq::empty(), t.nodes[id].children.len() as int) == t.cleared(id),
{
    let children = t.nodes[id].children;
    let none = Seq::<Option<NodeId>>::empty();
    let n = children.len() as int;
    let end = t.partly_cleared(id, none, n);
    assert forall|d: int| 0 <= d < t.nodes.len() implies #[trigger] end.nodes[d] == t.cleared(
        id,
    ).nodes[d] by {
        if d != id {
            if t.under(id, d) {
                if t.live(d) {
                    let k = lemma_below_some_child(t, id, d);
                    assert(!crate::model::kept_within(none, 0, children[k]));
                    assert(t.gone(id, none, n, d));
                } else {
                    assert(t.nodes[d].killed() =~= t.nodes[d]);
                }
            } else if t.gone(id, none, n, d) {
                let k = choose|k: int|
                    0 <= k < n && !crate::model::kept_within(none, 0, #[trigger] children[k])
                        && t.under(children[k].0 as int, d);
                assert(t.child_ok(id, children[k]));
                crate::model::lemma_child_below(t, id, children[k].0 as int);
                crate::model::lemma_under_composes(t, id, children[k].0 as int, d);
            }
        }
    }
    assert(end =~= t.cleared(id));
}

/// In a well-formed tree every live node can lose its descendants.
proof fn lemma_wf_branch<C>(t: TreeModel<C>, id: int)
    requires
        t.wf(),
        t.live(id),
    ensures
        t.branch_ok(id),
{
    assert(t.node_ok(id));
    assert forall|d: int| #[trigger] t.live(d) && t.below(id, d) implies {
        &&& t.nodes[d].parent matches Some(p) && p.0 < d && t.lists(p.0 as int, d) && (p.0 == id
            || t.live(p.0 as int))
        &&& t.list_ok(d)
    } by {
        crate::model::lemma_under_orders(t, id, d);
        assert(t.node_ok(d) && t.placed(d));
    }
}

/// A node with an unsettled child is not settled.
proof fn lemma_settled_child<C>(t: TreeModel<C>, id: int, k: int, max_rounds: nat)
    requires
        t.wf(),
        t.live(id),
        0 <= k < t.nodes[id].children.len(),
    ensures
        t.child_ok(id, t.nodes[id].children[k]),
        t.settled(id, max_rounds) ==> t.settled(t.nodes[id].children[k].0 as int, max_rounds),
{
    assert(t.node_ok(id));
    let c = t.nodes[id].children[k].0 as int;
    assert(t.child_ok(id, t.nodes[id].children[k]));
    crate::model::lemma_child_below(t, id, c);
    if t.settled(id, max_rounds) {
        assert forall|d: int| #[trigger] t.live(d) && t.under(c, d) implies !t.nodes[d].pending(
            max_rounds,
        ) by {
            crate::model::lemma_under_composes(t, id, c, d);
        }
    }
}

/// A node without work of its own whose children are settled is settled.
proof fn lemma_settled_parent<C>(t: TreeModel<C>, id: int, max_rounds: nat)
    requires
        t.wf(),
        t.live(id),
        !t.nodes[id].pending(max_rounds),
        forall|k: int|
            0 <= k < t.nodes[id].children.len() ==> t.settled(
                (#[trigger] t.nodes[id].children[k]).0 as int,
                max_rounds,
            ),
    ensures
        t.settled(id, max_rounds),
{
    lemma_wf_branch(t, id);
    assert forall|d: int| #[trigger] t.live(d) && t.under(id, d) implies !t.nodes[d].pending(
        max_rounds,
    ) by {
        if d != id {
            let k = lemma_below_some_child(t, id, d);
            assert(t.settled(t.nodes[id].children[k].0 as int, max_rounds));
        }
    }
}

impl<C> ParseTree<C> {
    /// Creates a tree whose root covers `root_span` of source revision
    /// `source_rev`, carrying `root_ctx`.
    pub fn new(source_rev: u64, root_span: Span, root_ctx: C) -> (tree: Self)
        requires
            root_span.ordered(),
        ensures
            tree@ == TreeModel::root_only(source_rev, root_span, root_ctx),
            tree@.wf(),
    {
        let mut nodes: Vec<Node<C>> = Vec::new();
        nodes.push(Node::new_root(root_span, root_ctx));
        let tree = Self { rev: source_rev, nodes };
        assert(tree@.nodes =~= TreeModel::root_only(source_rev, root_span, root_ctx).nodes);
        tree
    }

    /// Creates a tree whose root covers all of `source`, at revision
    /// `source_rev`, carrying `root_ctx`.
    pub fn from_source(source: &str, source_rev: u64, root_ctx: C) -> (tree: Self)
        ensures
            tree@ == TreeModel::root_only(
                source_rev,
                Span {
                    start: 0,
                    end: crate::text::bytes_of(source@).len() as usize,
                    rev: source_rev,
                },
                root_ctx,
            ),
            tree@.wf(),
            tree@.nodes[0].span.end == crate::text::bytes_of(source@).len(),
    {
        Self::new(source_rev, Span::new(0, byte_len(source), source_rev), root_ctx)
    }

    /// The source revision this tree was built against.
    pub fn source_rev(&self) -> (rev: u64)
        ensures
            rev == self@.rev,
    {
        self.rev
    }

    /// The root node.
    pub fn root(&self) -> (id: NodeId)
        ensures
            id == NodeId(0),
    {
        NodeId(0)
    }

    /// Total number of live nodes in the tree.
    pub fn len(&self) -> (len: usize)
        ensures
            len == self@.live_ids().len(),
    {
        self.nodes().len()
    }

    /// Returns `true` if the tree has no nodes at all.
    ///
    /// Every tree contains its root, so this is never the case; it exists to
    /// pair with [`len`](Self::len).
    pub fn is_empty(&self) -> (empty: bool)
        ensures
            empty == (self@.nodes.len() == 0),
    {
        self.nodes.len() == 0
    }

    /// Returns `true` if the tree contains only the root.
    pub fn is_root_only(&self) -> (only: bool)
        ensures
            only == (self@.live_ids().len() == 1),
    {
        self.len() == 1
    }

    /// Whether `id` stands for a node, be it one that was dropped.
    pub(crate) fn holds(&self, id: NodeId) -> (known: bool)
        ensures
            known == self@.knows(id),
    {
        id.0 < self.nodes.len()
    }

    /// The region of the source covered by `id`.
    pub fn span(&self, id: NodeId) -> (span: Span)
        requires
            self@.knows(id),
        ensures
            span == self@.at(id).span,
    {
        self.nodes[id.0].span
    }

    /// The context carried by `id`.
    pub fn ctx(&self, id: NodeId) -> (ctx: &C)
        requires
            self@.knows(id),
        ensures
            *ctx == self@.at(id).ctx,
    {
        &self.nodes[id.0].ctx
    }

    /// The lifecycle status of `id`.
    pub fn status(&self, id: NodeId) -> (status: Status)
        requires
            self@.knows(id),
        ensures
            status == self@.at(id).status,
    {
        self.nodes[id.0].status
    }

    /// The round index `id` will be (or was last) processed at.
    pub fn depth(&self, id: NodeId) -> (depth: usize)
        requires
            self@.knows(id),
        ensures
            depth == self@.at(id).depth,
    {
        self.nodes[id.0].depth
    }

    /// How many passes have tried and failed to parse `id`.
    pub fn attempts(&self, id: NodeId) -> (attempts: usize)
        requires
            self@.knows(id),
        ensures
            attempts == self@.at(id).attempts,
    {
        self.nodes[id.0].attempts
    }

    /// The parent of `id`, or `None` for the root.
    pub fn parent(&self, id: NodeId) -> (parent: Option<NodeId>)
        requires
            self@.knows(id),
        ensures
            parent == self@.at(id).parent,
    {
        self.nodes[id.0].parent
    }

    /// The children of `id`, in the order the pass produced them.
    pub fn children(&self, id: NodeId) -> (children: &[NodeId])
        requires
            self@.knows(id),
        ensures
            children@ == self@.at(id).children,
    {
        self.nodes[id.0].children.as_slice()
    }

    /// Every live node id in the tree, in creation order.
    ///
    /// Nodes dropped by an incremental re-parse (see [`edit`](Self::edit))
    /// are not listed; their ids remain reserved and must not be reused.
    pub fn nodes(&self) -> (ids: Vec<NodeId>)
        ensures
            ids@ == self@.live_ids(),
    {
        let ghost keep = |node: NodeModel<C>| node.alive;
        let mut ids: Vec<NodeId> = Vec::new();
        let mut i: usize = 0;
        while i < self.nodes.len()
            invariant
                i <= self.nodes@.len(),
                keep == (|node: NodeModel<C>| node.alive),
                ids@ == self@.ids_where(i as int, keep),
            decreases self.nodes.len() - i,
        {
            assert(self@.nodes[i as int] == self.nodes@[i as int]@);
            if self.nodes[i].alive {
                ids.push(NodeId(i));
            }
            i = i + 1;
        }
        ids
    }

    /// The slice of `source` covered by `id`.
    pub fn text<'a>(&self, source: &'a str, id: NodeId) -> (text: &'a str)
        requires
            self@.knows(id),
            self@.at(id).span.ordered(),
            crate::text::on_boundary(source@, self@.at(id).span.start as int),
            crate::text::on_boundary(source@, self@.at(id).span.end as int),
        ensures
            crate::text::bytes_of(text@) == crate::text::bytes_of(source@).subrange(
                self@.at(id).span.start as int,
                self@.at(id).span.end as int,
            ),
            text@ == crate::text::part(
                source@,
                self@.at(id).span.start as int,
                self@.at(id).span.end as int,
            ),
    {
        let span = self.span(id);
        slice(source, span.start, span.end)
    }

    /// The deepest live node whose region contains the byte `offset`, or
    /// `None` if no region does. Where several nodes are equally deep, the
    /// oldest wins.
    pub fn node_at(&self, offset: usize) -> (found: Option<NodeId>)
        requires
            self@.wf(),
        ensures
            match found {
                Some(id) => self@.deepest_at(offset as int, id.0 as int),
                None => forall|d: int| #[trigger]
                    self@.live(d) ==> !self@.nodes[d].span.has_offset(offset as int),
            },
    {
        let mut levels: Vec<usize> = Vec::new();
        let mut found: Option<NodeId> = None;
        let mut i: usize = 0;
        while i < self.nodes.len()
            invariant
                self@.wf(),
                i <= self.nodes@.len(),
                levels@.len() == i,
                forall|d: int|
                    0 <= d < i ==> levels@[d] <= d && (self@.live(d) ==> #[trigger] levels@[d]
                        == self@.level(d)),
                match found {
                    Some(id) => {
                        &&& id.0 < i
                        &&& self@.live(id.0 as int)
                        &&& self@.nodes[id.0 as int].span.has_offset(offset as int)
                        &&& forall|e: int| #[trigger]
                            self@.live(e) && e < i && self@.nodes[e].span.has_offset(offset as int)
                                ==> self@.level(e) < self@.level(id.0 as int) || (self@.level(e)
                                == self@.level(id.0 as int) && id.0 <= e)
                    },
                    None => forall|d: int| #[trigger]
                        self@.live(d) && d < i ==> !self@.nodes[d].span.has_offset(offset as int),
                },
            decreases self.nodes.len() - i,
        {
            let node = &self.nodes[i];
            assert(self@.nodes[i as int] == node@);
            assert(self@.live(i as int) ==> self@.node_ok(i as int) && (i > 0 ==> self@.placed(
                i as int,
            )));
            let level: usize = match node.parent {
                Some(p) => if p.0 < i {
                    levels[p.0] + 1
                } else {
                    0
                },
                None => 0,
            };
            assert(self@.live(i as int) ==> level == self@.level(i as int));
            if node.alive && node.span.contains_offset(offset) {
                let deeper = match found {
                    Some(best) => levels[best.0] < level,
                    None => true,
                };
                if deeper {
                    found = Some(NodeId(i));
                }
            }
            levels.push(level);
            i = i + 1;
        }
        found
    }

    /// Applies a text edit in place: every live span is remapped into the
    /// new coordinates and tagged with a fresh source revision, and every
    /// node the edit could have changed is reset to
    /// [`Unparsed`](Status::Unparsed) for re-parsing on the next run.
    ///
    /// A touched node restarts at its home round (the round whose pass first
    /// processed it), with its failure history cleared — edited text gets a
    /// genuinely fresh chance at every pass, including ones it had
    /// previously exhausted.
    ///
    /// Touched nodes keep their children attached: the next run re-expands
    /// their parents and matches the new children against the old ones, so
    /// unchanged regions are reused instead of re-parsed (see the
    /// [`Session`](crate::Session) docs).
    pub fn edit(&mut self, edit: Edit)
        requires
            old(self)@.wf(),
            edit.valid(),
            old(self)@.rev < u64::MAX,
            edit.end_after(old(self)@.nodes[0].span.end as int) <= usize::MAX,
        ensures
            final(self)@ == old(self)@.edited(edit),
            final(self)@.wf(),
    {
        let ghost before = self@;
        let new_rev: u64 = self.rev + 1;
        self.rev = new_rev;
        let mut i: usize = 0;
        while i < self.nodes.len()
            invariant
                before == old(self)@,
                before.wf(),
                edit.valid(),
                before.rev < u64::MAX,
                new_rev == before.rev + 1,
                self.rev == new_rev,
                edit.end_after(before.nodes[0].span.end as int) <= usize::MAX,
                self.nodes@.len() == before.nodes.len(),
                i <= before.nodes.len(),
                forall|d: int|
                    0 <= d < i ==> (#[trigger] self.nodes@[d])@ == before.nodes[d].edited(
                        edit,
                        new_rev,
                    ),
                forall|d: int|
                    i <= d < before.nodes.len() ==> (#[trigger] self.nodes@[d])@ == before.nodes[d],
            decreases before.nodes.len() - i,
        {
            assert(self.nodes@[i as int]@ == before.nodes[i as int]);
            if self.nodes[i].alive {
                proof {
                    assert(before.live(i as int));
                    assert(before.node_ok(i as int));
                    crate::model::law_nodes_within_root(before, i as int);
                }
                let span = self.nodes[i].span;
                self.nodes[i].span = map_span(span, &edit, new_rev);
                if edit.touches(&span) {
                    self.nodes[i].status = Status::Unparsed;
                    self.nodes[i].depth = self.nodes[i].depth - self.nodes[i].attempts;
                    self.nodes[i].attempts = 0;
                }
                assert(self.nodes@[i as int]@ =~= before.nodes[i as int].edited(edit, new_rev));
            }
            i = i + 1;
        }
        assert(self@.nodes =~= before.edited(edit).nodes);
        proof {
            crate::model::lemma_edited_wf(before, edit);
        }
    }

    /// Per-status node counts for the whole tree (live nodes only).
    pub fn status_counts(&self) -> (counts: StatusCounts)
        ensures
            forall|status: Status| #[trigger]
                counts.count_of(status) == self@.ids_with(status).len(),
            counts.sum() == self@.live_ids().len(),
            counts.sum() <= usize::MAX,
    {
        let ghost alive = |node: NodeModel<C>| node.alive;
        let mut counts = StatusCounts::default();
        let mut i: usize = 0;
        while i < self.nodes.len()
            invariant
                i <= self.nodes@.len(),
                alive == (|node: NodeModel<C>| node.alive),
                forall|status: Status| #[trigger]
                    counts.count_of(status) == self@.ids_where(
                        i as int,
                        |node: NodeModel<C>| node.alive && node.status == status,
                    ).len(),
                counts.sum() == self@.ids_where(i as int, alive).len(),
                counts.sum() <= i,
            decreases self.nodes.len() - i,
        {
            let ghost before = counts;
            let node = &self.nodes[i];
            assert(self@.nodes[i as int] == node@);
            if node.alive {
                match node.status {
                    Status::Unparsed => counts.unparsed = counts.unparsed + 1,
                    Status::Expanded => counts.expanded = counts.expanded + 1,
                    Status::Done => counts.done = counts.done + 1,
                    Status::Failed => counts.failed = counts.failed + 1,
                }
            }
            assert forall|status: Status| #[trigger]
                counts.count_of(status) == self@.ids_where(
                    i + 1,
                    |node: NodeModel<C>| node.alive && node.status == status,
                ).len() by {
                assert(before.count_of(status) == self@.ids_where(
                    i as int,
                    |node: NodeModel<C>| node.alive && node.status == status,
                ).len());
            }
            i = i + 1;
        }
        counts
    }

    /// Returns `true` if `id` still has work a pass could do within
    /// `max_rounds` rounds: it is [`Unparsed`](Status::Unparsed), or
    /// [`Failed`](Status::Failed) with a retry left in the schedule.
    pub fn is_pending(&self, id: NodeId, max_rounds: usize) -> (pending: bool)
        requires
            self@.knows(id),
        ensures
            pending == self@.at(id).pending(max_rounds as nat),
    {
        let node = &self.nodes[id.0];
        node.alive && (node.status.is_unparsed() || (node.status.is_failed() && node.depth
            < max_rounds))
    }

    /// Returns `true` if `id` and all of its descendants have no work left
    /// within `max_rounds` rounds.
    pub fn is_settled(&self, id: NodeId, max_rounds: usize) -> (settled: bool)
        requires
            self@.wf(),
            self@.knows(id),
        ensures
            settled == self@.settled(id.0 as int, max_rounds as nat),
        decreases self@.nodes.len() - id.0,
    {
        if self.is_pending(id, max_rounds) {
            assert(self@.live(id.0 as int) && self@.under(id.0 as int, id.0 as int));
            return false;
        }
        if !self.nodes[id.0].alive {
            assert forall|d: int| #[trigger] self@.live(d) && self@.under(
                id.0 as int,
                d,
            ) implies !self@.nodes[d].pending(max_rounds as nat) by {
                crate::model::lemma_above_live(self@, id.0 as int, d);
            }
            return true;
        }
        let children = &self.nodes[id.0].children;
        assert(children@ == self@.at(id).children);
        assert(self@.live(id.0 as int));
        let mut k: usize = 0;
        while k < children.len()
            invariant
                self@.wf(),
                self@.live(id.0 as int),
                children@ == self@.at(id).children,
                k <= children@.len(),
                forall|j: int|
                    0 <= j < k ==> self@.settled(
                        (#[trigger] children@[j]).0 as int,
                        max_rounds as nat,
                    ),
            decreases children.len() - k,
        {
            let child = children[k];
            proof {
                lemma_settled_child(self@, id.0 as int, k as int, max_rounds as nat);
            }
            if !self.is_settled(child, max_rounds) {
                return false;
            }
            k = k + 1;
        }
        proof {
            lemma_settled_parent(self@, id.0 as int, max_rounds as nat);
        }
        true
    }

    /// Every node id with work remaining within `max_rounds` rounds.
    pub fn pending(&self, max_rounds: usize) -> (ids: Vec<NodeId>)
        ensures
            ids@ == self@.pending_ids(max_rounds as nat),
    {
        let ghost keep = |node: NodeModel<C>| node.pending(max_rounds as nat);
        let mut ids: Vec<NodeId> = Vec::new();
        let mut i: usize = 0;
        while i < self.nodes.len()
            invariant
                i <= self.nodes@.len(),
                keep == (|node: NodeModel<C>| node.pending(max_rounds as nat)),
                ids@ == self@.ids_where(i as int, keep),
            decreases self.nodes.len() - i,
        {
            assert(self@.nodes[i as int] == self.nodes@[i as int]@);
            if self.is_pending(NodeId(i), max_rounds) {
                ids.push(NodeId(i));
            }
            i = i + 1;
        }
        ids
    }

    /// Collects the jobs for all live nodes ready to be processed in `round`.
    pub fn ready_jobs(&self, round: usize) -> (jobs: Vec<Job<C>>) where C: Clone
        ensures
            self@.batch_ok(round, jobs@),
    {
        let ghost keep = |node: NodeModel<C>| node.ready(round as nat);
        let mut jobs: Vec<Job<C>> = Vec::new();
        let mut i: usize = 0;
        while i < self.nodes.len()
            invariant
                i <= self.nodes@.len(),
                keep == (|node: NodeModel<C>| node.ready(round as nat)),
                jobs@.len() == self@.ids_where(i as int, keep).len(),
                forall|k: int|
                    0 <= k < jobs@.len() ==> (#[trigger] jobs@[k]).node == self@.ids_where(
                        i as int,
                        keep,
                    )[k] && self@.job_ok(round, jobs@[k]),
            decreases self.nodes.len() - i,
        {
            let node = &self.nodes[i];
            assert(self@.nodes[i as int] == node@);
            if node.alive && node.depth == round && matches!(
                node.status,
                Status::Unparsed | Status::Failed
            ) {
                let ctx = node.ctx.clone();
                assert(cloned(node.ctx, ctx));
                jobs.push(Job { node: NodeId(i), span: node.span, ctx, pass_index: round });
            }
            i = i + 1;
        }
        jobs
    }

    fn detach_children(&mut self, id: usize)
        requires
            old(self)@.branch_ok(id as int),
        ensures
            final(self)@ == old(self)@.cleared(id as int),
        decreases old(self)@.nodes.len() - id,
    {
        let none: Vec<Option<NodeId>> = Vec::new();
        self.detach_unkept(id, &none);
        proof {
            lemma_clear_end(old(self)@, id as int);
        }
    }

    /// Empties the child list of the node at `id` and drops those of the
    /// children that `kept` does not name, with all below them.
    fn detach_unkept(&mut self, id: usize, kept: &Vec<Option<NodeId>>)
        requires
            old(self)@.branch_ok(id as int),
        ensures
            final(self)@ == old(self)@.partly_cleared(
                id as int,
                kept@,
                old(self)@.nodes[id as int].children.len() as int,
            ),
        decreases old(self)@.nodes.len() - id, kept@.len() + 1,
    {
        let mut children: Vec<NodeId> = Vec::new();
        std::mem::swap(&mut children, &mut self.nodes[id].children);
        let ghost before = old(self)@;
        assert(self@ =~= before.partly_cleared(id as int, kept@, 0));
        let mut k: usize = 0;
        while k < children.len()
            invariant
                k <= children.len(),
                id < before.nodes.len(),
                before == old(self)@,
                before.branch_ok(id as int),
                children@ == before.nodes[id as int].children,
                self@ == before.partly_cleared(id as int, kept@, k as int),
            decreases children.len() - k,
        {
            if is_kept(kept, children[k]) {
                proof {
                    lemma_keep_step(before, id as int, kept@, k as int);
                }
            } else {
                let c: usize = children[k].0;
                proof {
                    assert(before.child_ok(id as int, children@[k as int]));
                    assert(before.under(c as int, c as int));
                    lemma_branch_untouched(before, id as int, kept@, k as int, c as int);
                }
                assert(self@.nodes.len() == self.nodes@.len());
                self.nodes[c].alive = false;
                proof {
                    assert(self@.nodes =~= before.partly_cleared(id as int, kept@, k as int).nodes.update(
                        c as int,
                        NodeModel { alive: false, ..before.nodes[c as int] },
                    ));
                    lemma_clear_step(before, self@, id as int, kept@, k as int);
                }
                self.detach_children(c);
            }
            k = k + 1;
        }
    }
}

/// What the slots of a matching say stays true as more slots follow.
proof fn lemma_slots_persist<C: PartialEq>(
    t: TreeModel<C>,
    old_ids: Seq<NodeId>,
    child: (Span, C),
    kept: Seq<Option<NodeId>>,
    slot: Option<NodeId>,
    s: int,
)
    requires
        0 <= s < kept.len(),
        t.slot_ok(old_ids, child, kept, s),
    ensures
        t.slot_ok(old_ids, child, kept.push(slot), s),
{
    let more = kept.push(slot);
    assert forall|c: NodeId| #[trigger] crate::model::kept_within(kept, s, c) implies crate::model::kept_within(
        more,
        s,
        c,
    ) by {
        let j = choose|j: int| 0 <= j < s && #[trigger] kept[j] == Some(c);
        assert(more[j] == Some(c));
    }
    assert forall|c: NodeId| #[trigger] crate::model::kept_within(more, s, c) implies crate::model::kept_within(
        kept,
        s,
        c,
    ) by {
        let j = choose|j: int| 0 <= j < s && #[trigger] more[j] == Some(c);
        assert(kept[j] == Some(c));
    }
    match kept[s] {
        Some(c) => {
            let k = choose|k: int|
                {
                    &&& 0 <= k < old_ids.len()
                    &&& #[trigger] old_ids[k] == c
                    &&& !crate::model::kept_within(kept, s, c)
                    &&& t.may_match(c, child)
                    &&& forall|j: int|
                        0 <= j < k ==> crate::model::kept_within(kept, s, #[trigger] old_ids[j])
                            || t.may_differ(old_ids[j], child)
                };
            assert(old_ids[k] == c);
            assert(more[s] == Some(c));
            assert forall|j: int| 0 <= j < k implies crate::model::kept_within(
                more,
                s,
                #[trigger] old_ids[j],
            ) || t.may_differ(old_ids[j], child) by {}
        },
        None => {
            assert forall|j: int| 0 <= j < old_ids.len() implies crate::model::kept_within(
                more,
                s,
                #[trigger] old_ids[j],
            ) || t.may_differ(old_ids[j], child) by {}
        },
    }
}

impl<C: PartialEq> ParseTree<C> {
    /// The first of the children `old_ids` that is not in `used` and has the
    /// span and context of `child`.
    fn find_match(&self, old_ids: &Vec<NodeId>, used: &Vec<bool>, child: &(Span, C)) -> (found:
        Option<usize>)
        requires
            used@.len() == old_ids@.len(),
            forall|k: int| 0 <= k < old_ids@.len() ==> self@.knows(#[trigger] old_ids@[k]),
        ensures
            match found {
                Some(k) => {
                    &&& k < old_ids@.len()
                    &&& !used@[k as int]
                    &&& self@.may_match(old_ids@[k as int], *child)
                    &&& forall|j: int|
                        0 <= j < k ==> #[trigger] used@[j] || self@.may_differ(old_ids@[j], *child)
                },
                None => forall|j: int|
                    0 <= j < old_ids@.len() ==> #[trigger] used@[j] || self@.may_differ(
                        old_ids@[j],
                        *child,
                    ),
            },
    {
        let mut k: usize = 0;
        while k < old_ids.len()
            invariant
                k <= old_ids@.len(),
                used@.len() == old_ids@.len(),
                forall|k: int| 0 <= k < old_ids@.len() ==> self@.knows(#[trigger] old_ids@[k]),
                forall|j: int|
                    0 <= j < k ==> #[trigger] used@[j] || self@.may_differ(old_ids@[j], *child),
            decreases old_ids.len() - k,
        {
            assert(self@.knows(old_ids@[k as int]));
            if !used[k] {
                let node = &self.nodes[old_ids[k].0];
                assert(self@.at(old_ids@[k as int]) == node@);
                if node.span == child.0 && node.ctx == child.1 {
                    return Some(k);
                }
            }
            k = k + 1;
        }
        None
    }

    /// Matches the regions `produced` for `id` against its children.
    fn match_children(&self, id: NodeId, produced: &Vec<(Span, C)>) -> (kept: Vec<Option<NodeId>>)
        requires
            self@.wf(),
            self@.live(id.0 as int),
        ensures
            self@.reuse_ok(id, produced@, kept@),
    {
        let old_ids = &self.nodes[id.0].children;
        assert(self@.nodes[id.0 as int] == self.nodes@[id.0 as int]@);
        assert(self@.node_ok(id.0 as int));
        assert forall|k: int| 0 <= k < old_ids@.len() implies self@.knows(#[trigger] old_ids@[k]) by {
            assert(self@.child_ok(id.0 as int, self@.at(id).children[k]));
        }
        let mut used: Vec<bool> = Vec::new();
        let mut k: usize = 0;
        while k < old_ids.len()
            invariant
                k <= old_ids@.len(),
                used@.len() == k,
                forall|j: int| 0 <= j < k ==> !#[trigger] used@[j],
            decreases old_ids.len() - k,
        {
            used.push(false);
            k = k + 1;
        }
        let mut kept: Vec<Option<NodeId>> = Vec::new();
        let mut s: usize = 0;
        while s < produced.len()
            invariant
                s <= produced@.len(),
                kept@.len() == s,
                used@.len() == old_ids@.len(),
                old_ids@ == self@.at(id).children,
                old_ids@.no_duplicates(),
                forall|k: int| 0 <= k < old_ids@.len() ==> self@.knows(#[trigger] old_ids@[k]),
                forall|k: int|
                    0 <= k < old_ids@.len() ==> #[trigger] used@[k] == crate::model::kept_within(
                        kept@,
                        s as int,
                        old_ids@[k],
                    ),
                forall|r: int|
                    #![trigger kept@[r]]
                    0 <= r < s ==> self@.slot_ok(old_ids@, produced@[r], kept@, r),
            decreases produced.len() - s,
        {
            let found = self.find_match(old_ids, &used, &produced[s]);
            let slot = match found {
                Some(k) => Some(old_ids[k]),
                None => None,
            };
            let ghost before = kept@;
            let ghost flags = used@;
            kept.push(slot);
            if let Some(k) = found {
                used.set(k, true);
            }
            proof {
                assert forall|c: NodeId| #[trigger]
                    crate::model::kept_within(kept@, s as int, c) == crate::model::kept_within(
                        before,
                        s as int,
                        c,
                    ) by {
                    if crate::model::kept_within(before, s as int, c) {
                        let j = choose|j: int| 0 <= j < s && #[trigger] before[j] == Some(c);
                        assert(kept@[j] == Some(c));
                    }
                    if crate::model::kept_within(kept@, s as int, c) {
                        let j = choose|j: int| 0 <= j < s && #[trigger] kept@[j] == Some(c);
                        assert(before[j] == Some(c));
                    }
                }
                assert forall|k: int| 0 <= k < old_ids@.len() implies #[trigger] used@[k]
                    == crate::model::kept_within(kept@, s + 1, old_ids@[k]) by {
                    assert(flags[k] == crate::model::kept_within(before, s as int, old_ids@[k]));
                    if crate::model::kept_within(kept@, s as int, old_ids@[k]) {
                        let j = choose|j: int| 0 <= j < s && #[trigger] kept@[j] == Some(old_ids@[k]);
                        assert(0 <= j < s + 1);
                    }
                    if found is Some && found->0 == k {
                        assert(kept@[s as int] == Some(old_ids@[k]));
                    }
                    if crate::model::kept_within(kept@, s + 1, old_ids@[k]) {
                        let j = choose|j: int|
                            0 <= j < s + 1 && #[trigger] kept@[j] == Some(old_ids@[k]);
                        if j == s {
                            assert(found is Some);
                            assert(old_ids@[found->0 as int] == old_ids@[k]);
                        }
                    }
                }
                assert forall|r: int| 0 <= r < s + 1 implies self@.slot_ok(
                    old_ids@,
                    produced@[r],
                    kept@,
                    r,
                ) by {
                    if r < s {
                        assert(before[r] == kept@[r]);
                        lemma_slots_persist(self@, old_ids@, produced@[r], before, slot, r);
                    } else {
                        match found {
                            Some(k) => {
                                assert(old_ids@[k as int] == slot->0);
                                assert forall|j: int| 0 <= j < k implies crate::model::kept_within(
                                    kept@,
                                    s as int,
                                    #[trigger] old_ids@[j],
                                ) || self@.may_differ(old_ids@[j], produced@[r]) by {
                                    assert(flags[j] || self@.may_differ(old_ids@[j], produced@[r]));
                                }
                            },
                            None => {
                                assert forall|j: int| 0 <= j < old_ids@.len() implies crate::model::kept_within(
                                    kept@,
                                    s as int,
                                    #[trigger] old_ids@[j],
                                ) || self@.may_differ(old_ids@[j], produced@[r]) by {
                                    assert(flags[j] || self@.may_differ(old_ids@[j], produced@[r]));
                                }
                            },
                        }
                    }
                }
            }
            s = s + 1;
        }
        kept
    }

    /// Expands `id` into the regions `produced`, all of them within it.
    fn expand(&mut self, id: NodeId, produced: Vec<(Span, C)>, round: usize)
        requires
            old(self)@.wf(),
            old(self)@.live(id.0 as int),
            old(self)@.at(id).depth == round,
            round < usize::MAX,
            produced@.len() > 0,
            forall|s: int|
                0 <= s < produced@.len() ==> old(self)@.at(id).span.nests(
                    (#[trigger] produced@[s]).0,
                ),
        ensures
            final(self)@.wf(),
            exists|kept: Seq<Option<NodeId>>| #[trigger]
                old(self)@.reuse_ok(id, produced@, kept) && final(self)@ == old(self)@.expanded(
                    id,
                    produced@,
                    kept,
                    round as nat,
                ),
    {
        let kept = self.match_children(id, &produced);
        let ghost before = old(self)@;
        proof {
            lemma_wf_branch(before, id.0 as int);
        }
        self.detach_unkept(id.0, &kept);
        let ghost bare = self@.nodes;
        let ghost depth = (round + 1) as nat;
        let mut ids: Vec<NodeId> = Vec::new();
        assert(kept@.take(0) =~= Seq::<Option<NodeId>>::empty());
        assert(self@.nodes =~= bare + crate::model::new_nodes(id, produced@, kept@.take(0), depth));
        for child in it: produced.into_iter()
            invariant
                it.seq() == produced@,
                kept@.len() == produced@.len(),
                ids@.len() == it.index(),
                round < usize::MAX,
                depth == round + 1,
                bare.len() == before.nodes.len(),
                self@.rev == before.rev,
                self@.nodes == bare + crate::model::new_nodes(
                    id,
                    produced@,
                    kept@.take(it.index() as int),
                    depth,
                ),
                ids@ == crate::model::child_ids(
                    before.nodes.len(),
                    kept@.take(it.index() as int),
                ),
        {
            let ghost s = it.index();
            let ghost grown = self@.nodes;
            assert(kept@.take(s + 1).drop_last() =~= kept@.take(s as int));
            assert(kept@.take(s + 1).last() == kept@[s as int]);
            assert(self@.nodes.len() == self.nodes.len());
            proof {
                crate::model::lemma_child_ids(
                    id,
                    produced@,
                    kept@.take(s as int),
                    depth,
                    before.nodes.len(),
                );
            }
            match kept[ids.len()] {
                Some(c) => {
                    ids.push(c);
                },
                None => {
                    let (span, ctx) = child;
                    ids.push(NodeId(self.nodes.len()));
                    self.nodes.push(Node::fresh(span, ctx, round + 1, Some(id)));
                    assert(self@.nodes =~= grown.push(
                        NodeModel::fresh(span, ctx, depth, Some(id)),
                    ));
                },
            }
            assert(self@.nodes =~= bare + crate::model::new_nodes(
                id,
                produced@,
                kept@.take(s + 1),
                depth,
            ));
        }
        assert(kept@.take(kept@.len() as int) =~= kept@);
        let ghost grown = self@.nodes;
        assert(self@.nodes.len() == self.nodes.len());
        self.nodes[id.0].status = Status::Expanded;
        self.nodes[id.0].children = ids;
        proof {
            let post = before.expanded(id, produced@, kept@, round as nat);
            assert forall|d: int| 0 <= d < before.nodes.len() && d != id.0 implies #[trigger] bare[d]
                == post.nodes[d] by {
                assert(before.gone(id.0 as int, kept@, before.at(id).children.len() as int, d)
                    == before.orphaned(id, kept@, d));
            }
            assert(self@.nodes =~= grown.update(
                id.0 as int,
                NodeModel {
                    status: Status::Expanded,
                    children: ids@,
                    ..grown[id.0 as int]
                },
            ));
            assert(self@.nodes =~= post.nodes);
            assert(self@ == post);
            crate::model::lemma_expanded_wf(before, id, produced@, kept@, round as nat);
        }
    }

    /// Merges the outcome of processing `id` in `round` back into the tree.
    ///
    /// Child spans must live on the same source revision as their parent and
    /// be contained in it; when `enforce_shrink` is set they must also be
    /// strictly smaller. Violating outcomes mark the node failed.
    ///
    /// When the node already has children (it was invalidated by an edit and
    /// is being re-expanded), each produced child is matched against the
    /// existing children by span and context: a match is *reused* — same
    /// node id, status, and subtree — and unmatched old children are dropped
    /// along with their subtrees.
    pub fn apply(&mut self, id: NodeId, outcome: Outcome<C>, round: usize, enforce_shrink: bool) -> (applied:
        Verdict)
        requires
            old(self)@.wf(),
            old(self)@.knows(id),
            old(self)@.at(id).ready(round as nat),
            round < usize::MAX,
        ensures
            final(self)@.wf(),
            applied == crate::violation::verdict(old(self)@.at(id).span, outcome@, enforce_shrink),
            old(self)@.may_apply(id, outcome@, round as nat, enforce_shrink, final(self)@),
    {
        assert(self@.live(id.0 as int));
        assert(self@.node_ok(id.0 as int));
        assert(self@.at(id) == self.nodes@[id.0 as int]@);
        let parent = self.nodes[id.0].span;
        match outcome {
            Outcome::Done => {
                self.accept(id);
                Verdict::Done
            },
            Outcome::Failed => {
                self.mark_failed(id, round);
                Verdict::Failed
            },
            Outcome::Expand(produced) => {
                if produced.len() == 0 {
                    self.accept(id);
                    return Verdict::Done;
                }
                match find_first_fault(parent, &produced, enforce_shrink) {
                    Some((span, kind)) => {
                        self.mark_failed(id, round);
                        Verdict::Rejected { span, kind }
                    },
                    None => {
                        self.expand(id, produced, round);
                        Verdict::Expanded
                    },
                }
            },
        }
    }

    fn accept(&mut self, id: NodeId)
        requires
            old(self)@.wf(),
            old(self)@.live(id.0 as int),
        ensures
            final(self)@.wf(),
            final(self)@ == old(self)@.accepted(id),
    {
        let ghost before = self@;
        proof {
            lemma_wf_branch(before, id.0 as int);
            assert(before.node_ok(id.0 as int));
        }
        self.detach_children(id.0);
        assert(self.nodes@.len() == self@.nodes.len());
        assert(self@.nodes[id.0 as int] == self.nodes@[id.0 as int]@);
        self.nodes[id.0].status = Status::Done;
        assert(self@ =~= before.accepted(id));
        proof {
            crate::model::lemma_cleared_wf(before, id, self@.at(id));
        }
    }

    fn mark_failed(&mut self, id: NodeId, round: usize)
        requires
            old(self)@.wf(),
            old(self)@.live(id.0 as int),
            old(self)@.at(id).depth == round,
            round < usize::MAX,
        ensures
            final(self)@.wf(),
            final(self)@ == old(self)@.failed(id, round as nat),
    {
        let ghost before = self@;
        proof {
            lemma_wf_branch(before, id.0 as int);
            assert(before.node_ok(id.0 as int));
        }
        self.detach_children(id.0);
        assert(self.nodes@.len() == self@.nodes.len());
        assert(self@.nodes[id.0 as int] == self.nodes@[id.0 as int]@);
        self.nodes[id.0].status = Status::Failed;
        self.nodes[id.0].depth = round + 1;
        self.nodes[id.0].attempts = self.nodes[id.0].attempts + 1;
        assert(self@ =~= before.failed(id, round as nat));
        proof {
            crate::model::lemma_cleared_wf(before, id, self@.at(id));
        }
    }
}

/// Some slot of `kept` reuses `child`.
fn is_kept(kept: &Vec<Option<NodeId>>, child: NodeId) -> (found: bool)
    ensures
        found == crate::model::kept_within(kept@, kept@.len() as int, child),
{
    let mut j: usize = 0;
    while j < kept.len()
        invariant
            j <= kept@.len(),
            forall|i: int| 0 <= i < j ==> #[trigger] kept@[i] != Some(child),
        decreases kept.len() - j,
    {
        if let Some(other) = kept[j] {
            if other == child {
                assert(kept@[j as int] == Some(child));
                return true;
            }
        }
        j = j + 1;
    }
    false
}

} // verus!
