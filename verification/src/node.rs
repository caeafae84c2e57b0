//! Node identifiers and node storage.

use crate::model::NodeModel;
use crate::span::Span;
use crate::status::Status;
use vstd::prelude::*;

verus! {

/// A stable identifier for a node within a [`ParseTree`](crate::ParseTree).
///
/// Identifiers remain valid for the lifetime of the tree they came from; they
/// are meaningless across trees.
#[derive(Debug, Clone, Copy, PartialEq, Eq, Hash, PartialOrd, Ord, Structural)]
pub struct NodeId(pub usize);

/// What a [`ParseTree`](crate::ParseTree) stores per node.
#[derive(Debug, Clone)]
pub struct Node<C> {
    /// The region of the source the node covers.
    pub span: Span,
    /// The context the node carries.
    pub ctx: C,
    /// The lifecycle state.
    pub status: Status,
    /// Index of the round that will process (or last processed) this node.
    ///
    /// * The root starts at `0` and is processed by round `0`.
    /// * Children created in round `r` start at `r + 1`, so round `r + 1`
    ///   picks them up.
    /// * A node that fails in round `r` is retried in round `r + 1`.
    pub depth: usize,
    /// The parent, or `None` for the root.
    pub parent: Option<NodeId>,
    /// The children, in the order the pass produced them.
    pub children: Vec<NodeId>,
    /// How many passes have tried and failed to parse this node.
    pub attempts: usize,
    /// `false` once a re-parse has dropped the node.
    pub alive: bool,
}

impl<C> View for Node<C> {
    type V = NodeModel<C>;

    open spec fn view(&self) -> NodeModel<C> {
        NodeModel {
            span: self.span,
            ctx: self.ctx,
            status: self.status,
            depth: self.depth as nat,
            parent: self.parent,
            children: self.children@,
            attempts: self.attempts as nat,
            alive: self.alive,
        }
    }
}

impl<C> Node<C> {
    /// A node no pass has seen yet.
    pub fn fresh(span: Span, ctx: C, depth: usize, parent: Option<NodeId>) -> (node: Self)
        ensures
            node@ == NodeModel::fresh(span, ctx, depth as nat, parent),
    {
        Self {
            span,
            ctx,
            status: Status::Unparsed,
            depth,
            parent,
            children: Vec::new(),
            attempts: 0,
            alive: true,
        }
    }

    /// A fresh root node.
    pub fn new_root(span: Span, ctx: C) -> (node: Self)
        ensures
            node@ == NodeModel::fresh(span, ctx, 0, None),
    {
        Self::fresh(span, ctx, 0, None)
    }
}

} // verus!
