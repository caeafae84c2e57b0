//! Turning failed parse regions into publishable LSP diagnostics.

use crate::document::Document;
use crate::encoding::PositionEncoding;
use crate::lsp::{Diagnostic, Range};
use crate::model::TreeModel;
use crate::node::NodeId;
use crate::span::Span;
use crate::status::Status;
use vstd::prelude::*;

verus! {

/// One parse-tree node offered to the user's diagnostic hook.
#[derive(Debug, Clone)]
pub struct FailedNode<'a, C> {
    /// The node's id (usable for further tree queries).
    pub id: NodeId,
    /// The node's parse context.
    pub ctx: &'a C,
    /// Why the node is a candidate: [`Status::Failed`], or
    /// [`Status::Unparsed`] when the schedule ran out with work left.
    pub status: Status,
    /// The node's region.
    pub span: Span,
}

impl<'a, C> FailedNode<'a, C> {
    /// The node is a snapshot of node `id` of `t`.
    pub open spec fn shows(&self, t: TreeModel<C>, id: NodeId) -> bool {
        &&& self.id == id
        &&& *self.ctx == t.at(id).ctx
        &&& self.status == t.at(id).status
        &&& self.span == t.at(id).span
    }
}

/// Options for [`diagnostics`].
#[derive(Debug, Clone, Copy, PartialEq, Eq, Structural)]
pub struct DiagnosticsOptions {
    /// When `false` (the default), a node whose *ancestor* is already a
    /// failure is skipped — one broken function yields one diagnostic, not
    /// one per unparsed statement inside it. When `true`, every failing
    /// node is reported.
    pub cascades: bool,
}

impl Default for DiagnosticsOptions {
    fn default() -> (options: Self)
        ensures
            options == (DiagnosticsOptions { cascades: false }),
    {
        DiagnosticsOptions { cascades: false }
    }
}

/// The node at `d` counts as failing.
pub open spec fn failing<C>(t: TreeModel<C>, d: int) -> bool {
    t.nodes[d].status is Failed || t.nodes[d].status is Unparsed
}

/// The nodes offered to the hook at and below the node at `id`, parents
/// first, children in order. `muted` says that a node above has failed and
/// failures below it are not reported.
pub open spec fn offered<C>(t: TreeModel<C>, id: int, muted: bool, cascades: bool) -> Seq<NodeId>
    decreases t.nodes.len() - id, t.nodes[id].children.len() + 1,
{
    if 0 <= id < t.nodes.len() {
        (if failing(t, id) && !muted {
            seq![NodeId(id as usize)]
        } else {
            Seq::empty()
        }) + offered_below(
            t,
            id,
            t.nodes[id].children.len() as int,
            muted || (failing(t, id) && !cascades),
            cascades,
        )
    } else {
        Seq::empty()
    }
}

/// The nodes offered at and below the first `n` children of the node at `id`.
pub open spec fn offered_below<C>(
    t: TreeModel<C>,
    id: int,
    n: int,
    muted: bool,
    cascades: bool,
) -> Seq<NodeId>
    decreases t.nodes.len() - id, n,
{
    if n <= 0 || n > t.nodes[id].children.len() || id < 0 || id >= t.nodes.len() {
        Seq::empty()
    } else {
        let child = t.nodes[id].children[n - 1].0 as int;
        offered_below(t, id, n - 1, muted, cascades) + (if id < child < t.nodes.len() {
            offered(t, child, muted, cascades)
        } else {
            Seq::empty()
        })
    }
}

/// A diagnostic without a range gets the range of the node's span.
pub open spec fn with_range(
    diagnostic: Diagnostic,
    span: Span,
    text: Seq<char>,
    encoding: PositionEncoding,
) -> Diagnostic {
    if diagnostic.range == Range::zero() {
        Diagnostic { range: crate::document::range_of(text, span, encoding), ..diagnostic }
    } else {
        diagnostic
    }
}

/// The diagnostics that `answers` to the nodes `ids` come to.
pub open spec fn rendered<C>(
    t: TreeModel<C>,
    ids: Seq<NodeId>,
    answers: Seq<Option<Diagnostic>>,
    text: Seq<char>,
    encoding: PositionEncoding,
) -> Seq<Diagnostic>
    decreases ids.len(),
{
    if ids.len() == 0 {
        Seq::empty()
    } else {
        let rest = rendered(t, ids.drop_last(), answers.drop_last(), text, encoding);
        match answers.last() {
            Some(diagnostic) => rest.push(
                with_range(diagnostic, t.at(ids.last()).span, text, encoding),
            ),
            None => rest,
        }
    }
}

/// `hook` may give `answers` to the nodes `ids`.
pub open spec fn answered<C, F: Fn(FailedNode<'_, C>) -> Option<Diagnostic>>(
    hook: &F,
    t: TreeModel<C>,
    ids: Seq<NodeId>,
    answers: Seq<Option<Diagnostic>>,
) -> bool {
    &&& answers.len() == ids.len()
    &&& forall|k: int| 0 <= k < ids.len() ==> #[trigger] may_answer(hook, t, ids[k], answers[k])
}

/// `hook` may give `answer` to the node `id`.
pub open spec fn may_answer<C, F: Fn(FailedNode<'_, C>) -> Option<Diagnostic>>(
    hook: &F,
    t: TreeModel<C>,
    id: NodeId,
    answer: Option<Diagnostic>,
) -> bool {
    exists|node: FailedNode<'_, C>| #[trigger]
        node.shows(t, id) && call_ensures(*hook, (node,), answer)
}

/// Builds diagnostics from a settled (or cancelled, or round-capped) parse.
///
/// The tree is walked from the root; every failing node is offered to `hook`
/// (unless its ancestor already failed and `options.cascades` is `false`).
/// The hook turns a [`FailedNode`] into a `Diagnostic` — or `None` to stay
/// silent, e.g. for regions whose context type makes the failure expected.
///
/// Diagnostics returned with the default (zero) range get their range filled
/// in from the node's span, converted with the document's position encoding;
/// hooks that compute their own ranges keep them.
pub fn diagnostics<C, F>(doc: &Document<C>, options: DiagnosticsOptions, hook: F) -> (out: Vec<
    Diagnostic,
>) where C: Clone + PartialEq + Send + 'static, F: Fn(FailedNode<'_, C>) -> Option<Diagnostic>
    requires
        doc.wf(),
        crate::document::fits(doc.content()),
        forall|node: FailedNode<'_, C>| call_requires(hook, (node,)),
    ensures
        exists|answers: Seq<Option<Diagnostic>>| #[trigger]
            answered(
                &hook,
                doc.parsed(),
                offered(doc.parsed(), 0, false, options.cascades),
                answers,
            ) && out@ == rendered(
                doc.parsed(),
                offered(doc.parsed(), 0, false, options.cascades),
                answers,
                doc.content(),
                doc.units(),
            ),
{
    let mut out: Vec<Diagnostic> = Vec::new();
    walk(doc, doc.session().tree().root(), false, options, &hook, &mut out);
    proof {
        let ids = offered(doc.parsed(), 0, false, options.cascades);
        let answers = choose|answers: Seq<Option<Diagnostic>>| #[trigger]
            answered(&hook, doc.parsed(), ids, answers) && out@ == Seq::<Diagnostic>::empty()
                + rendered(doc.parsed(), ids, answers, doc.content(), doc.units());
        assert(out@ =~= rendered(doc.parsed(), ids, answers, doc.content(), doc.units()));
    }
    out
}

/// Reports the failures at and below the node `id`.
fn walk<C, F>(
    doc: &Document<C>,
    id: NodeId,
    muted: bool,
    options: DiagnosticsOptions,
    hook: &F,
    out: &mut Vec<Diagnostic>,
) where C: Clone + PartialEq + Send + 'static, F: Fn(FailedNode<'_, C>) -> Option<Diagnostic>
    requires
        doc.wf(),
        doc.parsed().live(id.0 as int),
        crate::document::fits(doc.content()),
        forall|node: FailedNode<'_, C>| call_requires(*hook, (node,)),
    ensures
        exists|answers: Seq<Option<Diagnostic>>| #[trigger]
            answered(
                hook,
                doc.parsed(),
                offered(doc.parsed(), id.0 as int, muted, options.cascades),
                answers,
            ) && final(out)@ == old(out)@ + rendered(
                doc.parsed(),
                offered(doc.parsed(), id.0 as int, muted, options.cascades),
                answers,
                doc.content(),
                doc.units(),
            ),
    decreases doc.parsed().nodes.len() - id.0,
{
    let ghost t = doc.parsed();
    let ghost text = doc.content();
    let ghost encoding = doc.units();
    let ghost before = out@;
    assert(t.node_ok(id.0 as int));
    let tree = doc.session().tree();
    let status = tree.status(id);
    let fails = matches!(status, Status::Failed | Status::Unparsed);
    let ghost mut ids: Seq<NodeId> = Seq::empty();
    let ghost mut answers: Seq<Option<Diagnostic>> = Seq::empty();
    if fails && !muted {
        let span = tree.span(id);
        let node = FailedNode { id, ctx: tree.ctx(id), status, span };
        assert(node.shows(t, id));
        let answer = hook(node);
        proof {
            ids = seq![id];
            answers = seq![answer];
            assert(may_answer(hook, t, id, answer));
            assert(ids.drop_last() =~= Seq::<NodeId>::empty());
            assert(rendered(t, ids.drop_last(), answers.drop_last(), text, encoding) =~= Seq::<
                Diagnostic,
            >::empty());
        }
        if let Some(found) = answer {
            let mut diagnostic = found;
            if diagnostic.range == Range::default() {
                diagnostic.range = doc.range(span);
            }
            out.push(diagnostic);
        }
        assert(out@ =~= before + rendered(t, ids, answers, text, encoding));
    }
    assert(out@ =~= before + rendered(t, ids, answers, text, encoding));
    let below: bool = muted || (fails && !options.cascades);
    let ghost own = ids;
    let children = tree.children(id);
    let mut k: usize = 0;
    assert(ids =~= own + offered_below(t, id.0 as int, 0, below, options.cascades));
    while k < children.len()
        invariant
            doc.wf(),
            t == doc.parsed(),
            text == doc.content(),
            encoding == doc.units(),
            t.live(id.0 as int),
            t.node_ok(id.0 as int),
            crate::document::fits(doc.content()),
            forall|node: FailedNode<'_, C>| call_requires(*hook, (node,)),
            children@ == t.at(id).children,
            k <= children@.len(),
            ids == own + offered_below(t, id.0 as int, k as int, below, options.cascades),
            answered(hook, t, ids, answers),
            out@ == before + rendered(t, ids, answers, text, encoding),
        decreases children.len() - k,
    {
        let child = children[k];
        assert(t.child_ok(id.0 as int, children@[k as int]));
        let ghost sofar = out@;
        walk(doc, child, below, options, hook, out);
        proof {
            let more_ids = offered(t, child.0 as int, below, options.cascades);
            let more = choose|more: Seq<Option<Diagnostic>>| #[trigger]
                answered(hook, t, more_ids, more) && out@ == sofar + rendered(
                    t,
                    more_ids,
                    more,
                    text,
                    encoding,
                );
            lemma_rendered_join(t, ids, answers, more_ids, more, text, encoding);
            let all_ids = ids + more_ids;
            let all = answers + more;
            assert forall|j: int| 0 <= j < all_ids.len() implies #[trigger] may_answer(
                hook,
                t,
                all_ids[j],
                all[j],
            ) by {
                if j < ids.len() {
                    assert(may_answer(hook, t, ids[j], answers[j]));
                } else {
                    assert(may_answer(
                        hook,
                        t,
                        more_ids[j - ids.len()],
                        more[j - ids.len()],
                    ));
                }
            }
            assert(all_ids =~= own + offered_below(
                t,
                id.0 as int,
                k + 1,
                below,
                options.cascades,
            ));
            assert(out@ =~= before + rendered(t, all_ids, all, text, encoding));
            ids = all_ids;
            answers = all;
        }
        k = k + 1;
    }
    assert(ids =~= offered(t, id.0 as int, muted, options.cascades));
}

/// Diagnostics for two lists of nodes in a row.
proof fn lemma_rendered_join<C>(
    t: TreeModel<C>,
    ids: Seq<NodeId>,
    answers: Seq<Option<Diagnostic>>,
    more_ids: Seq<NodeId>,
    more: Seq<Option<Diagnostic>>,
    text: Seq<char>,
    encoding: PositionEncoding,
)
    requires
        ids.len() == answers.len(),
        more_ids.len() == more.len(),
    ensures
        rendered(t, ids + more_ids, answers + more, text, encoding) == rendered(
            t,
            ids,
            answers,
            text,
            encoding,
        ) + rendered(t, more_ids, more, text, encoding),
    decreases more_ids.len(),
{
    if more_ids.len() == 0 {
        assert(ids + more_ids =~= ids);
        assert(answers + more =~= answers);
    } else {
        lemma_rendered_join(
            t,
            ids,
            answers,
            more_ids.drop_last(),
            more.drop_last(),
            text,
            encoding,
        );
        assert((ids + more_ids).drop_last() =~= ids + more_ids.drop_last());
        assert((answers + more).drop_last() =~= answers + more.drop_last());
        assert(rendered(t, ids + more_ids, answers + more, text, encoding) =~= rendered(
            t,
            ids,
            answers,
            text,
            encoding,
        ) + rendered(t, more_ids, more, text, encoding));
    }
}

/// The node at `d` is to be offered when the walk comes to the node at `id`.
pub open spec fn reportable<C>(
    t: TreeModel<C>,
    id: int,
    muted: bool,
    cascades: bool,
    d: int,
) -> bool {
    &&& t.live(d)
    &&& t.under(id, d)
    &&& failing(t, d)
    &&& !muted
    &&& cascades || forall|a: int| t.under(id, a) && #[trigger] t.below(a, d) ==> !failing(t, a)
}

/// What is offered below the first `n` children is offered at or below one
/// of them.
proof fn lemma_offered_below<C>(
    t: TreeModel<C>,
    id: int,
    n: int,
    muted: bool,
    cascades: bool,
    d: NodeId,
)
    requires
        t.wf(),
        t.live(id),
        0 <= n <= t.nodes[id].children.len(),
    ensures
        offered_below(t, id, n, muted, cascades).contains(d) == exists|k: int|
            0 <= k < n && #[trigger] offered(
                t,
                t.nodes[id].children[k].0 as int,
                muted,
                cascades,
            ).contains(d),
    decreases n,
{
    if n > 0 {
        lemma_offered_below(t, id, n - 1, muted, cascades, d);
        assert(t.node_ok(id));
        assert(t.child_ok(id, t.nodes[id].children[n - 1]));
        let rest = offered_below(t, id, n - 1, muted, cascades);
        let last = offered(t, t.nodes[id].children[n - 1].0 as int, muted, cascades);
        let all = offered_below(t, id, n, muted, cascades);
        assert(all == rest + last);
        if all.contains(d) {
            let j = choose|j: int| 0 <= j < all.len() && all[j] == d;
            if j < rest.len() {
                assert(rest[j] == d);
                assert(rest.contains(d));
            } else {
                assert(last[j - rest.len()] == d);
                assert(last.contains(d));
            }
        }
        if rest.contains(d) {
            let j = choose|j: int| 0 <= j < rest.len() && rest[j] == d;
            assert(all[j] == d);
        }
        if last.contains(d) {
            let j = choose|j: int| 0 <= j < last.len() && last[j] == d;
            assert(all[rest.len() + j] == d);
        }
    }
}

/// The walk offers exactly the reportable nodes.
proof fn lemma_offered<C>(t: TreeModel<C>, id: int, muted: bool, cascades: bool, d: NodeId)
    requires
        t.wf(),
        t.live(id),
    ensures
        offered(t, id, muted, cascades).contains(d) == reportable(
            t,
            id,
            muted,
            cascades,
            d.0 as int,
        ),
    decreases t.nodes.len() - id,
{
    let children = t.nodes[id].children;
    let n = children.len() as int;
    let i = d.0 as int;
    let below = muted || (failing(t, id) && !cascades);
    let own = if failing(t, id) && !muted {
        seq![NodeId(id as usize)]
    } else {
        Seq::empty()
    };
    let rest = offered_below(t, id, n, below, cascades);
    let all = offered(t, id, muted, cascades);
    assert(all == own + rest);
    assert(t.node_ok(id));
    lemma_offered_below(t, id, n, below, cascades, d);
    assert forall|k: int| 0 <= k < n implies #[trigger] offered(
        t,
        children[k].0 as int,
        below,
        cascades,
    ).contains(d) == reportable(t, children[k].0 as int, below, cascades, i) by {
        assert(t.child_ok(id, children[k]));
        lemma_offered(t, children[k].0 as int, below, cascades, d);
    }
    if all.contains(d) {
        let j = choose|j: int| 0 <= j < all.len() && all[j] == d;
        if j < own.len() {
            assert(i == id);
        } else {
            assert(rest[j - own.len()] == d);
            assert(rest.contains(d));
        }
    }
    if rest.contains(d) {
        let j = choose|j: int| 0 <= j < rest.len() && rest[j] == d;
        assert(all[own.len() + j] == d);
        let k = choose|k: int|
            0 <= k < n && #[trigger] offered(
                t,
                children[k].0 as int,
                below,
                cascades,
            ).contains(d);
        let c = children[k].0 as int;
        assert(t.child_ok(id, children[k]));
        assert(reportable(t, c, below, cascades, i));
        lemma_child_case(t, id, c, muted, cascades, i);
        assert(reportable(t, id, muted, cascades, i));
    }
    if reportable(t, id, muted, cascades, i) {
        if i == id {
            assert(own[0] == d);
            assert(all[0] == d);
        } else {
            let k = crate::model::lemma_child_towards(t, id, i);
            let c = children[k].0 as int;
            assert(t.child_ok(id, children[k]));
            lemma_child_case(t, id, c, muted, cascades, i);
            assert(offered(t, children[k].0 as int, below, cascades).contains(d));
            assert(rest.contains(d));
            let j = choose|j: int| 0 <= j < rest.len() && rest[j] == d;
            assert(all[own.len() + j] == d);
        }
    }
    if i == id && failing(t, id) && !muted {
        assert(all[0] == d);
        assert forall|a: int| t.under(id, a) && #[trigger] t.below(a, i) implies !failing(t, a) by {
            crate::model::lemma_under_orders(t, id, a);
            crate::model::lemma_under_orders(t, a, i);
        }
    }
}

/// Coming from a node to its child changes what is reportable only by what
/// the node itself says.
proof fn lemma_child_case<C>(
    t: TreeModel<C>,
    id: int,
    c: int,
    muted: bool,
    cascades: bool,
    d: int,
)
    requires
        t.wf(),
        t.live(id),
        id < c < t.nodes.len(),
        t.up(c) == id,
        t.under(c, d),
    ensures
        reportable(t, c, muted || (failing(t, id) && !cascades), cascades, d) == reportable(
            t,
            id,
            muted,
            cascades,
            d,
        ),
{
    let below = muted || (failing(t, id) && !cascades);
    crate::model::lemma_child_below(t, id, c);
    crate::model::lemma_under_composes(t, id, c, d);
    crate::model::lemma_under_orders(t, c, d);
    assert(t.below(id, d));
    assert(t.under(id, id));
    if reportable(t, c, below, cascades, d) && !cascades {
        assert forall|a: int| t.under(id, a) && #[trigger] t.below(a, d) implies !failing(t, a) by {
            if a != id {
                crate::model::lemma_under_orders(t, id, a);
                crate::model::lemma_ancestors_in_line(t, a, c, d);
                if !t.under(c, a) {
                    assert(t.under(a, id));
                    crate::model::lemma_under_orders(t, a, id);
                }
                assert(t.under(c, a));
            }
        }
    }
    if reportable(t, id, muted, cascades, d) && !cascades {
        assert(!failing(t, id));
        assert forall|a: int| t.under(c, a) && #[trigger] t.below(a, d) implies !failing(t, a) by {
            crate::model::lemma_under_composes(t, id, c, a);
        }
    }
}

/// Which nodes are reported: with cascades every failing node of the tree,
/// and by default those that no failing node stands above — one broken
/// function yields one diagnostic.
pub proof fn law_reported_nodes<C>(t: TreeModel<C>, cascades: bool, d: NodeId)
    requires
        t.wf(),
    ensures
        offered(t, 0, false, cascades).contains(d) == (t.live(d.0 as int) && failing(t, d.0 as int)
            && (cascades || forall|a: int| #[trigger]
            t.below(a, d.0 as int) && t.live(a) ==> !failing(t, a))),
{
    lemma_offered(t, 0, false, cascades, d);
    let i = d.0 as int;
    if t.live(i) {
        crate::model::law_nodes_within_root(t, i);
        assert forall|a: int| #[trigger] t.below(a, i) implies t.live(a) && t.under(0, a) by {
            crate::model::lemma_above_live(t, a, i);
            crate::model::law_nodes_within_root(t, a);
        }
    }
}

/// No node is reported twice.
pub proof fn law_reported_once<C>(t: TreeModel<C>, id: int, muted: bool, cascades: bool)
    requires
        t.wf(),
        t.live(id),
    ensures
        offered(t, id, muted, cascades).no_duplicates(),
    decreases t.nodes.len() - id, t.nodes[id].children.len() + 1,
{
    let n = t.nodes[id].children.len() as int;
    let below = muted || (failing(t, id) && !cascades);
    lemma_below_once(t, id, n, below, cascades);
    let rest = offered_below(t, id, n, below, cascades);
    let all = offered(t, id, muted, cascades);
    assert forall|j: int| 0 <= j < rest.len() implies (#[trigger] rest[j]).0 != id by {
        assert(rest.contains(rest[j]));
        lemma_offered_below(t, id, n, below, cascades, rest[j]);
        let k = choose|k: int|
            0 <= k < n && #[trigger] offered(
                t,
                t.nodes[id].children[k].0 as int,
                below,
                cascades,
            ).contains(rest[j]);
        assert(t.node_ok(id));
        assert(t.child_ok(id, t.nodes[id].children[k]));
        let c = t.nodes[id].children[k].0 as int;
        lemma_offered(t, c, below, cascades, rest[j]);
        crate::model::lemma_under_orders(t, c, rest[j].0 as int);
    }
}

/// No node is reported twice below a node's children.
proof fn lemma_below_once<C>(t: TreeModel<C>, id: int, n: int, muted: bool, cascades: bool)
    requires
        t.wf(),
        t.live(id),
        0 <= n <= t.nodes[id].children.len(),
    ensures
        offered_below(t, id, n, muted, cascades).no_duplicates(),
    decreases t.nodes.len() - id, n,
{
    if n > 0 {
        lemma_below_once(t, id, n - 1, muted, cascades);
        assert(t.node_ok(id));
        let children = t.nodes[id].children;
        assert(t.child_ok(id, children[n - 1]));
        let c = children[n - 1].0 as int;
        law_reported_once(t, c, muted, cascades);
        let rest = offered_below(t, id, n - 1, muted, cascades);
        let last = offered(t, c, muted, cascades);
        assert forall|i: int, j: int| 0 <= i < rest.len() && 0 <= j < last.len() implies rest[i]
            != last[j] by {
            let d = rest[i];
            assert(rest.contains(d));
            lemma_offered_below(t, id, n - 1, muted, cascades, d);
            let k = choose|k: int|
                0 <= k < n - 1 && #[trigger] offered(
                    t,
                    children[k].0 as int,
                    muted,
                    cascades,
                ).contains(d);
            assert(t.child_ok(id, children[k]));
            assert(children[k] != children[n - 1]);
            lemma_offered(t, children[k].0 as int, muted, cascades, d);
            if d == last[j] {
                assert(last.contains(d));
                lemma_offered(t, c, muted, cascades, d);
                crate::model::lemma_siblings_apart(
                    t,
                    id,
                    children[k].0 as int,
                    c,
                    d.0 as int,
                );
            }
        }
    }
}

/// The hook is asked about the node as it stands in the tree.
pub proof fn law_hook_sees_the_node<C, F: Fn(FailedNode<'_, C>) -> Option<Diagnostic>>(
    hook: &F,
    t: TreeModel<C>,
    id: NodeId,
    answer: Option<Diagnostic>,
)
    requires
        may_answer(hook, t, id, answer),
    ensures
        exists|node: FailedNode<'_, C>| #[trigger]
            call_ensures(*hook, (node,), answer) && node.id == id && *node.ctx == t.nodes[id.0 as int].ctx
                && node.status == t.nodes[id.0 as int].status && node.span
                == t.nodes[id.0 as int].span,
{
    let node = choose|node: FailedNode<'_, C>| #[trigger]
        node.shows(t, id) && call_ensures(*hook, (node,), answer);
    assert(call_ensures(*hook, (node,), answer));
}

/// What is published is what the hook answered: one diagnostic for each answer
/// it gave, in the order of the nodes, with everything the hook set. Only a
/// range that was left at its default is filled in, with the positions between
/// which the node's region lies.
pub proof fn law_answers_are_published<C>(
    t: TreeModel<C>,
    ids: Seq<NodeId>,
    answers: Seq<Option<Diagnostic>>,
    text: Seq<char>,
    encoding: PositionEncoding,
) -> (from: Seq<int>)
    requires
        ids.len() == answers.len(),
    ensures
        from.len() == rendered(t, ids, answers, text, encoding).len(),
        forall|i: int, j: int| 0 <= i < j < from.len() ==> from[i] < from[j],
        forall|k: int|
            0 <= k < answers.len() ==> (#[trigger] answers[k] is Some) == from.contains(k),
        forall|i: int|
            0 <= i < from.len() ==> 0 <= #[trigger] from[i] < answers.len() && answers[from[i]] is Some,
        forall|i: int|
            #![trigger from[i]]
            #![trigger rendered(t, ids, answers, text, encoding)[i]]
            0 <= i < from.len() ==> {
                let out = rendered(t, ids, answers, text, encoding)[i];
                let given = answers[from[i]]->0;
                let span = t.nodes[ids[from[i]].0 as int].span;
                &&& out.severity == given.severity
                &&& out.code == given.code
                &&& out.code_description == given.code_description
                &&& out.source == given.source
                &&& out.message == given.message
                &&& out.related_information == given.related_information
                &&& out.tags == given.tags
                &&& out.data == given.data
                &&& if given.range.start.line == 0 && given.range.start.character == 0
                    && given.range.end.line == 0 && given.range.end.character == 0 {
                    &&& out.range.start == crate::line_index::position_at(
                        text,
                        span.start as int,
                        encoding,
                    )
                    &&& out.range.end == crate::line_index::position_at(
                        text,
                        span.end as int,
                        encoding,
                    )
                } else {
                    out.range == given.range
                }
            },
    decreases ids.len(),
{
    if ids.len() == 0 {
        Seq::empty()
    } else {
        let front = law_answers_are_published(
            t,
            ids.drop_last(),
            answers.drop_last(),
            text,
            encoding,
        );
        let last = ids.len() - 1;
        let rest = rendered(t, ids.drop_last(), answers.drop_last(), text, encoding);
        let from = if answers.last() is Some {
            front.push(last)
        } else {
            front
        };
        assert forall|k: int| 0 <= k < answers.len() implies (#[trigger] answers[k] is Some)
            == from.contains(k) by {
            if k < last {
                assert(answers.drop_last()[k] == answers[k]);
                if front.contains(k) {
                    let i = choose|i: int| 0 <= i < front.len() && front[i] == k;
                    assert(from[i] == k);
                }
            } else {
                if answers[k] is Some {
                    assert(from[from.len() - 1] == k);
                }
            }
            if from.contains(k) {
                let i = choose|i: int| 0 <= i < from.len() && from[i] == k;
                if i < front.len() {
                    assert(front[i] == k);
                    assert(front.contains(k));
                }
            }
        }
        assert forall|i: int| 0 <= i < front.len() implies from[i] == front[i] && answers[front[i]]
            == answers.drop_last()[front[i]] && ids[front[i]] == ids.drop_last()[front[i]] by {
            assert(0 <= front[i] < last);
        }
        from
    }
}

/// Where the nodes at and below the first `n` children stand in the walk: in the
/// order of the children.
proof fn lemma_below_in_order<C>(
    t: TreeModel<C>,
    id: int,
    n: int,
    muted: bool,
    cascades: bool,
    i: int,
    j: int,
    x: int,
    y: int,
)
    requires
        t.wf(),
        t.live(id),
        0 <= n <= t.nodes[id].children.len(),
        0 <= i < n,
        0 <= j < n,
        i != j,
        0 <= x < offered_below(t, id, n, muted, cascades).len(),
        0 <= y < offered_below(t, id, n, muted, cascades).len(),
        t.under(
            t.nodes[id].children[i].0 as int,
            offered_below(t, id, n, muted, cascades)[x].0 as int,
        ),
        t.under(
            t.nodes[id].children[j].0 as int,
            offered_below(t, id, n, muted, cascades)[y].0 as int,
        ),
    ensures
        i < j ==> x < y,
    decreases n,
{
    let children = t.nodes[id].children;
    assert(t.node_ok(id));
    let rest = offered_below(t, id, n - 1, muted, cascades);
    let all = offered_below(t, id, n, muted, cascades);
    assert(t.child_ok(id, children[n - 1]));
    let c = children[n - 1].0 as int;
    let last = offered(t, c, muted, cascades);
    assert(all == rest + last);
    if i < j {
        if y < rest.len() {
            lemma_place_below(t, id, n - 1, muted, cascades, y, j);
            if x < rest.len() {
                lemma_place_below(t, id, n - 1, muted, cascades, x, i);
                lemma_below_in_order(t, id, n - 1, muted, cascades, i, j, x, y);
            } else {
                assert(last[x - rest.len()] == all[x]);
                assert(last.contains(all[x]));
                lemma_offered(t, c, muted, cascades, all[x]);
                assert(t.child_ok(id, children[i]));
                assert(children[i] != children[n - 1]);
                crate::model::lemma_siblings_apart(t, id, children[i].0 as int, c, all[x].0 as int);
            }
        } else if x >= rest.len() {
            assert(last[x - rest.len()] == all[x]);
            assert(last.contains(all[x]));
            lemma_offered(t, c, muted, cascades, all[x]);
            assert(t.child_ok(id, children[i]));
            assert(children[i] != children[n - 1]);
            crate::model::lemma_siblings_apart(t, id, children[i].0 as int, c, all[x].0 as int);
        }
    }
}

/// What is offered below the first `n` children is below none of the others.
proof fn lemma_place_below<C>(
    t: TreeModel<C>,
    id: int,
    n: int,
    muted: bool,
    cascades: bool,
    x: int,
    i: int,
)
    requires
        t.wf(),
        t.live(id),
        0 <= n < t.nodes[id].children.len(),
        0 <= i <= n,
        0 <= x < offered_below(t, id, n, muted, cascades).len(),
        t.under(
            t.nodes[id].children[i].0 as int,
            offered_below(t, id, n, muted, cascades)[x].0 as int,
        ),
    ensures
        i < n,
{
    let children = t.nodes[id].children;
    let rest = offered_below(t, id, n, muted, cascades);
    let d = rest[x];
    assert(rest.contains(d));
    lemma_offered_below(t, id, n, muted, cascades, d);
    let k = choose|k: int|
        0 <= k < n && #[trigger] offered(t, children[k].0 as int, muted, cascades).contains(d);
    assert(t.node_ok(id));
    assert(t.child_ok(id, children[k]));
    assert(t.child_ok(id, children[i]));
    lemma_offered(t, children[k].0 as int, muted, cascades, d);
    if i == n {
        assert(children[k] != children[i]);
        crate::model::lemma_siblings_apart(
            t,
            id,
            children[k].0 as int,
            children[i].0 as int,
            d.0 as int,
        );
    }
}

/// Reports come in the order of the walk: a node before every node below it, and
/// what is below one child of a node before what is below a later one.
pub proof fn law_reported_in_order<C>(
    t: TreeModel<C>,
    id: int,
    muted: bool,
    cascades: bool,
    x: int,
    y: int,
)
    requires
        t.wf(),
        t.live(id),
        0 <= x < offered(t, id, muted, cascades).len(),
        0 <= y < offered(t, id, muted, cascades).len(),
    ensures
        offered(t, id, muted, cascades)[x].0 == id && x != y ==> x < y,
        forall|i: int, j: int|
            #![trigger t.nodes[id].children[i], t.nodes[id].children[j]]
            0 <= i < j < t.nodes[id].children.len() && t.under(
                t.nodes[id].children[i].0 as int,
                offered(t, id, muted, cascades)[x].0 as int,
            ) && t.under(
                t.nodes[id].children[j].0 as int,
                offered(t, id, muted, cascades)[y].0 as int,
            ) ==> x < y,
{
    let children = t.nodes[id].children;
    let n = children.len() as int;
    let below = muted || (failing(t, id) && !cascades);
    let all = offered(t, id, muted, cascades);
    let own: int = if failing(t, id) && !muted {
        1
    } else {
        0
    };
    let rest = offered_below(t, id, n, below, cascades);
    assert(t.node_ok(id));
    law_reported_once(t, id, muted, cascades);
    assert(all.contains(all[x]));
    lemma_offered(t, id, muted, cascades, all[x]);
    if all[x].0 == id && x != y {
        assert(failing(t, id) && !muted);
        assert(all[0].0 == id);
        assert(x == 0);
    }
    assert forall|i: int, j: int|
        #![trigger t.nodes[id].children[i], t.nodes[id].children[j]]
        0 <= i < j < n && t.under(children[i].0 as int, all[x].0 as int) && t.under(
            children[j].0 as int,
            all[y].0 as int,
        ) implies x < y by {
        assert(t.child_ok(id, children[i]));
        assert(t.child_ok(id, children[j]));
        crate::model::lemma_under_orders(t, children[i].0 as int, all[x].0 as int);
        crate::model::lemma_under_orders(t, children[j].0 as int, all[y].0 as int);
        assert(x >= own && y >= own);
        assert(rest[x - own] == all[x]);
        assert(rest[y - own] == all[y]);
        lemma_below_in_order(t, id, n, below, cascades, i, j, x - own, y - own);
    }
}

/// With cascades every live node that failed or was never parsed is reported;
/// without, those of them that no other stands above; and no node else.
pub proof fn law_reported_by_status<C>(t: TreeModel<C>, cascades: bool, d: NodeId)
    requires
        t.wf(),
    ensures
        offered(t, 0, false, cascades).contains(d) == (t.live(d.0 as int) && (
        t.nodes[d.0 as int].status is Failed || t.nodes[d.0 as int].status is Unparsed) && (cascades
            || forall|a: int| #[trigger]
            t.below(a, d.0 as int) && t.live(a) ==> t.nodes[a].status is Expanded
                || t.nodes[a].status is Done)),
{
    law_reported_nodes(t, cascades, d);
    assert forall|a: int| #[trigger] t.below(a, d.0 as int) && t.live(a) implies !failing(t, a) == (
    t.nodes[a].status is Expanded || t.nodes[a].status is Done) by {}
}

} // verus!
