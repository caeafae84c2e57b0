//! What the engine reports when a pass breaks its contract.

use crate::decimal::push_decimal;
use crate::node::NodeId;
use crate::outcome::OutcomeModel;
use crate::span::Span;
use vstd::prelude::*;

verus! {

/// How a child region breaks the contract of the pass that produced it.
#[derive(Debug, Clone, Copy, PartialEq, Eq, Structural)]
pub enum ViolationKind {
    /// The child is not contained in the region it was parsed from.
    OutsideParent,
    /// The child refers to another source revision than its parent.
    WrongRevision,
    /// The child is not strictly smaller than its parent, although the engine
    /// is configured to require that.
    NotSmaller,
}

/// What is wrong with the region `child` of `parent`, if anything.
pub open spec fn fault(parent: Span, child: Span, enforce_shrink: bool) -> Option<ViolationKind> {
    if child.rev != parent.rev {
        Some(ViolationKind::WrongRevision)
    } else if !parent.nests(child) {
        Some(ViolationKind::OutsideParent)
    } else if enforce_shrink && child.length() >= parent.length() {
        Some(ViolationKind::NotSmaller)
    } else {
        None
    }
}

/// The first of the regions `produced` with something wrong with it.
pub open spec fn first_fault<C>(
    parent: Span,
    produced: Seq<(Span, C)>,
    enforce_shrink: bool,
) -> Option<(Span, ViolationKind)>
    decreases produced.len(),
{
    if produced.len() == 0 {
        None
    } else {
        match fault(parent, produced[0].0, enforce_shrink) {
            Some(kind) => Some((produced[0].0, kind)),
            None => first_fault(parent, produced.drop_first(), enforce_shrink),
        }
    }
}

/// What the engine makes of an outcome.
#[derive(Debug, Clone, Copy, PartialEq, Eq, Structural)]
pub enum Verdict {
    /// The node gets children.
    Expanded,
    /// The node is accepted.
    Done,
    /// The pass could not parse the node.
    Failed,
    /// The outcome breaks the contract; the node fails.
    Rejected {
        /// The first offending child region.
        span: Span,
        /// What is wrong with it.
        kind: ViolationKind,
    },
}

impl Verdict {
    /// The node counts as failed.
    pub open spec fn fails(self) -> bool {
        self is Failed || self is Rejected
    }

    /// Returns `true` if the node counts as failed.
    pub fn is_failure(&self) -> (fails: bool)
        ensures
            fails == self.fails(),
    {
        matches!(self, Verdict::Failed | Verdict::Rejected { .. })
    }
}

/// What the engine makes of `outcome` for a node that covers `parent`.
pub open spec fn verdict<C>(
    parent: Span,
    outcome: OutcomeModel<C>,
    enforce_shrink: bool,
) -> Verdict {
    match outcome {
        OutcomeModel::Done => Verdict::Done,
        OutcomeModel::Failed => Verdict::Failed,
        OutcomeModel::Expand(produced) => if produced.len() == 0 {
            Verdict::Done
        } else {
            match first_fault(parent, produced, enforce_shrink) {
                Some((span, kind)) => Verdict::Rejected { span, kind },
                None => Verdict::Expanded,
            }
        },
    }
}

/// Tests one child region against its parent.
pub fn find_fault(parent: Span, child: Span, enforce_shrink: bool) -> (found: Option<ViolationKind>)
    requires
        parent.ordered(),
    ensures
        found == fault(parent, child, enforce_shrink),
{
    if child.rev != parent.rev {
        Some(ViolationKind::WrongRevision)
    } else if child.start > child.end || !parent.contains(&child) {
        Some(ViolationKind::OutsideParent)
    } else if enforce_shrink && child.len() >= parent.len() {
        Some(ViolationKind::NotSmaller)
    } else {
        None
    }
}

/// Tests child regions against their parent and reports the first offender.
pub fn find_first_fault<C>(parent: Span, produced: &Vec<(Span, C)>, enforce_shrink: bool) -> (found:
    Option<(Span, ViolationKind)>)
    requires
        parent.ordered(),
    ensures
        found == first_fault(parent, produced@, enforce_shrink),
        found is None ==> forall|s: int|
            0 <= s < produced@.len() ==> parent.nests((#[trigger] produced@[s]).0),
{
    let mut s: usize = 0;
    assert(produced@.skip(0) =~= produced@);
    while s < produced.len()
        invariant
            s <= produced@.len(),
            parent.ordered(),
            first_fault(parent, produced@, enforce_shrink) == first_fault(
                parent,
                produced@.skip(s as int),
                enforce_shrink,
            ),
            forall|r: int| 0 <= r < s ==> parent.nests((#[trigger] produced@[r]).0),
        decreases produced.len() - s,
    {
        let span = produced[s].0;
        assert(produced@.skip(s as int)[0] == produced@[s as int]);
        if let Some(kind) = find_fault(parent, span, enforce_shrink) {
            return Some((span, kind));
        }
        assert(produced@.skip(s as int).drop_first() =~= produced@.skip(s + 1));
        s = s + 1;
    }
    None
}

/// A contract violation: a pass produced a child region it must not.
#[derive(Debug, Clone, PartialEq, Eq)]
pub struct Violation {
    /// The node whose outcome was rejected.
    pub node: NodeId,
    /// The round in which it happened.
    pub round: usize,
    /// The name of the pass that ran, if the schedule has one for the round.
    pub pass: Option<&'static str>,
    /// The offending child region.
    pub span: Span,
    /// What is wrong with it.
    pub kind: ViolationKind,
}

impl Violation {
    /// The clause of the message that explains the kind.
    pub open spec fn reason(kind: ViolationKind) -> Seq<char> {
        match kind {
            ViolationKind::OutsideParent =>
                ", which escapes its parent region — children must be contained in the region they were parsed from"@,
            ViolationKind::WrongRevision =>
                ", which refers to another source revision — children must be on the revision of the region they were parsed from"@,
            ViolationKind::NotSmaller =>
                ", which is not smaller than its parent region — children must be strictly smaller than the region they were parsed from"@,
        }
    }

    /// The message for a human reader.
    pub open spec fn message(self) -> Seq<char> {
        (match self.pass {
            Some(name) => name@,
            None => "pass"@,
        }) + " (round "@ + crate::decimal::decimal(self.round as nat)
            + ") produced child region "@ + crate::decimal::decimal(self.span.start as nat) + ".."@
            + crate::decimal::decimal(self.span.end as nat) + Violation::reason(self.kind)
    }

    /// Renders the violation for a human reader.
    pub fn to_string(&self) -> (text: String)
        ensures
            text@ == self.message(),
    {
        let mut out = String::new();
        match self.pass {
            Some(name) => out.append(name),
            None => out.append("pass"),
        }
        out.append(" (round ");
        push_decimal(&mut out, self.round as u64);
        out.append(") produced child region ");
        push_decimal(&mut out, self.span.start as u64);
        out.append("..");
        push_decimal(&mut out, self.span.end as u64);
        match self.kind {
            ViolationKind::OutsideParent => out.append(
                ", which escapes its parent region — children must be contained in the region they were parsed from",
            ),
            ViolationKind::WrongRevision => out.append(
                ", which refers to another source revision — children must be on the revision of the region they were parsed from",
            ),
            ViolationKind::NotSmaller => out.append(
                ", which is not smaller than its parent region — children must be strictly smaller than the region they were parsed from",
            ),
        }
        assert(out@ =~= self.message());
        out
    }
}

/// `child` starts and ends within `parent`, no earlier than it starts, and is on
/// the revision of `parent`.
pub open spec fn in_bounds(parent: Span, child: Span) -> bool {
    parent.rev == child.rev && parent.start <= child.start && child.start <= child.end
        && child.end <= parent.end
}

/// A child is refused for exactly three reasons: it is on another revision than
/// its parent; it is on the same but does not lie between its start and its
/// end; or it does, is as long as its parent, and children must be shorter.
pub proof fn law_why_children_are_refused(parent: Span, child: Span, enforce_shrink: bool)
    ensures
        (fault(parent, child, enforce_shrink) == Some(ViolationKind::WrongRevision)) == (child.rev
            != parent.rev),
        (fault(parent, child, enforce_shrink) == Some(ViolationKind::OutsideParent)) == (child.rev
            == parent.rev && (child.start > child.end || child.start < parent.start || child.end
            > parent.end)),
        (fault(parent, child, enforce_shrink) == Some(ViolationKind::NotSmaller)) == (enforce_shrink
            && child.rev == parent.rev && child.start == parent.start && child.end == parent.end
            && child.start <= child.end),
        fault(parent, child, enforce_shrink) is None == (child.rev == parent.rev && parent.start
            <= child.start <= child.end <= parent.end && (enforce_shrink ==> child.start
            > parent.start || child.end < parent.end)),
{
}

/// Of several children the first bad one is the one reported; none is where
/// every child is in order.
pub proof fn law_first_bad_child_is_reported<C>(
    parent: Span,
    produced: Seq<(Span, C)>,
    enforce_shrink: bool,
)
    ensures
        match first_fault(parent, produced, enforce_shrink) {
            Some((span, kind)) => exists|k: int|
                {
                    &&& 0 <= k < produced.len()
                    &&& (#[trigger] produced[k]).0 == span
                    &&& fault(parent, produced[k].0, enforce_shrink) == Some(kind)
                    &&& forall|j: int|
                        0 <= j < k ==> in_bounds(parent, (#[trigger] produced[j]).0) && (
                        enforce_shrink ==> produced[j].0.end - produced[j].0.start < parent.end
                            - parent.start)
                },
            None => forall|j: int|
                0 <= j < produced.len() ==> in_bounds(parent, (#[trigger] produced[j]).0) && (
                enforce_shrink ==> produced[j].0.end - produced[j].0.start < parent.end
                    - parent.start),
        },
    decreases produced.len(),
{
    if produced.len() > 0 {
        law_why_children_are_refused(parent, produced[0].0, enforce_shrink);
        if fault(parent, produced[0].0, enforce_shrink) is None {
            let rest = produced.drop_first();
            law_first_bad_child_is_reported(parent, rest, enforce_shrink);
            assert forall|j: int| 0 < j < produced.len() implies produced[j] == rest[j - 1] by {}
            if let Some((span, kind)) = first_fault(parent, rest, enforce_shrink) {
                let k = choose|k: int|
                    {
                        &&& 0 <= k < rest.len()
                        &&& (#[trigger] rest[k]).0 == span
                        &&& fault(parent, rest[k].0, enforce_shrink) == Some(kind)
                        &&& forall|j: int|
                            0 <= j < k ==> in_bounds(parent, (#[trigger] rest[j]).0) && (
                            enforce_shrink ==> rest[j].0.end - rest[j].0.start < parent.end
                                - parent.start)
                    };
                assert(produced[k + 1] == rest[k]);
            }
        }
    }
}

/// What an outcome comes to: acceptance and failure are taken at their word, an
/// expansion into nothing is an acceptance, and one into regions is refused
/// exactly where one of them is on another revision than the node, is not
/// within it or, where children must be shorter, is not.
pub proof fn law_verdicts<C>(parent: Span, outcome: OutcomeModel<C>, enforce_shrink: bool)
    ensures
        match outcome {
            OutcomeModel::Done => verdict(parent, outcome, enforce_shrink) is Done,
            OutcomeModel::Failed => verdict(parent, outcome, enforce_shrink) is Failed,
            OutcomeModel::Expand(produced) => {
                let refused = exists|k: int|
                    0 <= k < produced.len() && ((#[trigger] produced[k]).0.rev != parent.rev
                        || produced[k].0.start < parent.start || produced[k].0.end > parent.end
                        || produced[k].0.start > produced[k].0.end || (enforce_shrink
                        && produced[k].0.end - produced[k].0.start >= parent.end - parent.start));
                &&& verdict(parent, outcome, enforce_shrink) is Done == (produced.len() == 0)
                &&& verdict(parent, outcome, enforce_shrink) is Rejected == refused
                &&& verdict(parent, outcome, enforce_shrink) is Expanded == (produced.len() > 0
                    && !refused)
            },
        },
{
    if let OutcomeModel::Expand(produced) = outcome {
        law_first_bad_child_is_reported(parent, produced, enforce_shrink);
        if let Some((span, kind)) = first_fault(parent, produced, enforce_shrink) {
            let k = choose|k: int|
                0 <= k < produced.len() && (#[trigger] produced[k]).0 == span && fault(
                    parent,
                    produced[k].0,
                    enforce_shrink,
                ) == Some(kind);
            law_why_children_are_refused(parent, produced[k].0, enforce_shrink);
        }
    }
}

/// The message of a violation says which pass it was, in which round, and which
/// region it produced; and then what is wrong with it.
pub proof fn law_message_of_violation(violation: Violation)
    ensures
        violation.message() == (match violation.pass {
            Some(name) => name@,
            None => "pass"@,
        }) + " (round "@ + crate::decimal::decimal(violation.round as nat)
            + ") produced child region "@ + crate::decimal::decimal(violation.span.start as nat)
            + ".."@ + crate::decimal::decimal(violation.span.end as nat) + Violation::reason(
            violation.kind,
        ),
        forall|a: ViolationKind, b: ViolationKind| #[trigger]
            Violation::reason(a) == #[trigger] Violation::reason(b) ==> a == b,
{
    reveal_strlit(
        ", which escapes its parent region — children must be contained in the region they were parsed from",
    );
    reveal_strlit(
        ", which refers to another source revision — children must be on the revision of the region they were parsed from",
    );
    reveal_strlit(
        ", which is not smaller than its parent region — children must be strictly smaller than the region they were parsed from",
    );
    assert(Violation::reason(ViolationKind::OutsideParent)[8] == 'e');
    assert(Violation::reason(ViolationKind::WrongRevision)[8] == 'r');
    assert(Violation::reason(ViolationKind::NotSmaller)[8] == 'i');
}

} // verus!
