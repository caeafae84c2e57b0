//! Lifecycle states of nodes in a parse tree.

use vstd::prelude::*;

verus! {

/// Lifecycle state of a node in a [`ParseTree`](crate::ParseTree).
#[derive(Debug, Clone, Copy, PartialEq, Eq, Hash, PartialOrd, Ord, Structural)]
pub enum Status {
    /// The node is waiting to be processed by the pass scheduled for its round.
    Unparsed,
    /// The pass expanded the node; its children carry the remaining work.
    Expanded,
    /// The pass accepted the node as fully parsed; it has no children.
    Done,
    /// The pass that processed the node could not parse it.
    ///
    /// A failed node is retried once per remaining pass in the schedule; once
    /// every pass has had a turn the failure is permanent. Kept in the tree so
    /// consumers still see the coarse structure around errors.
    Failed,
}

impl Status {
    /// Returns `true` if the status is [`Status::Unparsed`].
    pub fn is_unparsed(self) -> (unparsed: bool)
        ensures
            unparsed == (self is Unparsed),
    {
        matches!(self, Status::Unparsed)
    }

    /// Returns `true` if the status is [`Status::Failed`].
    pub fn is_failed(self) -> (failed: bool)
        ensures
            failed == (self is Failed),
    {
        matches!(self, Status::Failed)
    }

    /// The lower-case name of the status.
    pub open spec fn label(self) -> Seq<char> {
        match self {
            Status::Unparsed => "unparsed"@,
            Status::Expanded => "expanded"@,
            Status::Done => "done"@,
            Status::Failed => "failed"@,
        }
    }

    /// Renders the status as its lower-case name.
    pub fn to_string(&self) -> (text: String)
        ensures
            text@ == self.label(),
    {
        status_name(*self).to_owned()
    }
}

/// The lower-case name of `status`.
pub fn status_name(status: Status) -> (name: &'static str)
    ensures
        name@ == status.label(),
{
    match status {
        Status::Unparsed => "unparsed",
        Status::Expanded => "expanded",
        Status::Done => "done",
        Status::Failed => "failed",
    }
}

/// Per-status node counts for a whole tree.
#[derive(Debug, Clone, Copy, PartialEq, Eq, Structural)]
pub struct StatusCounts {
    /// Number of nodes with status [`Status::Unparsed`].
    pub unparsed: usize,
    /// Number of nodes with status [`Status::Expanded`].
    pub expanded: usize,
    /// Number of nodes with status [`Status::Done`].
    pub done: usize,
    /// Number of nodes with status [`Status::Failed`].
    pub failed: usize,
}

impl Default for StatusCounts {
    fn default() -> (counts: Self)
        ensures
            counts == (StatusCounts { unparsed: 0, expanded: 0, done: 0, failed: 0 }),
    {
        StatusCounts { unparsed: 0, expanded: 0, done: 0, failed: 0 }
    }
}

impl StatusCounts {
    /// The count recorded for `status`.
    pub open spec fn count_of(self, status: Status) -> usize {
        match status {
            Status::Unparsed => self.unparsed,
            Status::Expanded => self.expanded,
            Status::Done => self.done,
            Status::Failed => self.failed,
        }
    }

    /// The sum over all statuses.
    pub open spec fn sum(self) -> int {
        self.unparsed + self.expanded + self.done + self.failed
    }

    /// Returns the count recorded for `status`.
    pub fn get(&self, status: Status) -> (count: usize)
        ensures
            count == self.count_of(status),
    {
        match status {
            Status::Unparsed => self.unparsed,
            Status::Expanded => self.expanded,
            Status::Done => self.done,
            Status::Failed => self.failed,
        }
    }

    /// Total number of nodes counted (the sum over all statuses).
    pub fn total(&self) -> (total: usize)
        requires
            self.sum() <= usize::MAX,
        ensures
            total == self.sum(),
    {
        self.unparsed + self.expanded + self.done + self.failed
    }
}

/// Every status has its own name, in lower case, and its own count.
pub proof fn law_statuses_are_told_apart(counts: StatusCounts)
    ensures
        Status::Unparsed.label() == "unparsed"@,
        Status::Expanded.label() == "expanded"@,
        Status::Done.label() == "done"@,
        Status::Failed.label() == "failed"@,
        forall|a: Status, b: Status| #[trigger] a.label() == #[trigger] b.label() ==> a == b,
        counts.count_of(Status::Unparsed) == counts.unparsed,
        counts.count_of(Status::Expanded) == counts.expanded,
        counts.count_of(Status::Done) == counts.done,
        counts.count_of(Status::Failed) == counts.failed,
        counts.sum() == counts.count_of(Status::Unparsed) + counts.count_of(Status::Expanded)
            + counts.count_of(Status::Done) + counts.count_of(Status::Failed),
{
    reveal_strlit("unparsed");
    reveal_strlit("expanded");
    reveal_strlit("done");
    reveal_strlit("failed");
    assert("unparsed"@[0] == 'u');
    assert("expanded"@[0] == 'e');
    assert("done"@[0] == 'd');
    assert("failed"@[0] == 'f');
}

} // verus!
