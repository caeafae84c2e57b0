//! The result a pass reports for a node.

use crate::span::Span;
use vstd::prelude::*;

verus! {

/// What a [`Pass`](crate::Pass) instructs the engine to do with a node.
#[derive(Debug, Clone, PartialEq, Eq)]
pub enum Outcome<C> {
    /// Replaces the node's unparsed region with smaller child regions, each
    /// carrying its own context for later rounds.
    ///
    /// An empty vector is treated as [`Outcome::Done`].
    Expand(Vec<(Span, C)>),
    /// Accepts the region as parsed; no children are created.
    Done,
    /// The pass cannot parse this region. Later passes in the schedule may
    /// retry it.
    Failed,
}

/// The mathematical content of an [`Outcome`].
pub enum OutcomeModel<C> {
    /// Children, in order.
    Expand(Seq<(Span, C)>),
    /// Accepted.
    Done,
    /// Not parsed.
    Failed,
}

impl<C> View for Outcome<C> {
    type V = OutcomeModel<C>;

    open spec fn view(&self) -> OutcomeModel<C> {
        match *self {
            Outcome::Expand(children) => OutcomeModel::Expand(children@),
            Outcome::Done => OutcomeModel::Done,
            Outcome::Failed => OutcomeModel::Failed,
        }
    }
}

impl<C> Outcome<C> {
    /// Expands the region into a single child, the common case.
    ///
    /// Equivalent to `Outcome::Expand(vec![(span, ctx)])`.
    pub fn one(span: Span, ctx: C) -> (outcome: Self)
        ensures
            outcome@ == OutcomeModel::Expand(seq![(span, ctx)]),
    {
        let mut children: Vec<(Span, C)> = Vec::new();
        children.push((span, ctx));
        assert(children@ =~= seq![(span, ctx)]);
        Outcome::Expand(children)
    }
}

} // verus!
