//! Carrying regions from slice-relative to absolute coordinates.
//!
//! Parser libraries report offsets relative to the input slice they were
//! handed; the tree needs *absolute* spans carrying a source revision, and
//! only reuses regions whose spans match exactly.

use crate::outcome::{Outcome, OutcomeModel};
use crate::span::Span;
use crate::text::{byte_len, slice};
use std::ops::Range;
use vstd::prelude::*;

verus! {

/// `base + offset`, or the largest offset where that is too large.
pub open spec fn shifted(base: usize, offset: usize) -> usize {
    if base + offset <= usize::MAX {
        (base + offset) as usize
    } else {
        usize::MAX
    }
}

/// The span of `range`, given relative to the start of `region`.
pub open spec fn absolute(region: Span, range: Range<usize>) -> Span {
    Span {
        start: shifted(region.start, range.start),
        end: shifted(region.start, range.end),
        rev: region.rev,
    }
}

/// The children of `region` in absolute coordinates.
pub open spec fn rebased<C>(region: Span, children: Seq<(Range<usize>, C)>) -> Seq<(Span, C)> {
    Seq::new(
        children.len(),
        |k: int| (absolute(region, children[k].0), children[k].1),
    )
}

/// The outcome that `children` of `region` amount to: none left means the
/// region is done.
pub open spec fn outcome_of<C>(region: Span, children: Seq<(Range<usize>, C)>) -> OutcomeModel<C> {
    if children.len() == 0 {
        OutcomeModel::Done
    } else {
        OutcomeModel::Expand(rebased(region, children))
    }
}

/// `span` is a region of `source`: within it, and splitting no character.
pub open spec fn is_region(source: Seq<char>, span: Span) -> bool {
    &&& span.ordered()
    &&& crate::text::on_boundary(source, span.start as int)
    &&& crate::text::on_boundary(source, span.end as int)
}

/// The text of the region `span` of `source`, if it is one.
pub fn region_text<'a>(source: &'a str, span: Span) -> (text: Option<&'a str>)
    ensures
        match text {
            Some(text) => is_region(source@, span) && text@ == crate::text::part(
                source@,
                span.start as int,
                span.end as int,
            ),
            None => !is_region(source@, span),
        },
{
    let len: usize = byte_len(source);
    if span.start <= span.end && span.end <= len && source.is_char_boundary(span.start)
        && source.is_char_boundary(span.end) {
        Some(slice(source, span.start, span.end))
    } else {
        None
    }
}

/// Turns slice-relative children into an outcome.
///
/// Ranges that lead outside the region are carried over as they are: the
/// engine refuses them.
pub fn rebase<C>(region: Span, children: Vec<(Range<usize>, C)>) -> (outcome: Outcome<C>)
    ensures
        outcome@ == outcome_of(region, children@),
{
    if children.len() == 0 {
        return Outcome::Done;
    }
    let mut spans: Vec<(Span, C)> = Vec::with_capacity(children.len());
    for child in it: children.into_iter()
        invariant
            it.seq() == children@,
            spans@ == rebased(region, children@).take(it.index() as int),
    {
        let (range, ctx) = child;
        let span = Span {
            start: region.start.saturating_add(range.start),
            end: region.start.saturating_add(range.end),
            rev: region.rev,
        };
        spans.push((span, ctx));
        assert(spans@ =~= rebased(region, children@).take(it.index() + 1));
    }
    assert(spans@ =~= rebased(region, children@));
    Outcome::Expand(spans)
}

/// A child within its region's slice covers, in absolute coordinates, the
/// same text within the region.
pub proof fn law_rebased_child_covers_same_text(
    source: Seq<u8>,
    region: Span,
    range: Range<usize>,
)
    requires
        region.ordered(),
        region.end <= source.len(),
        range.start <= range.end <= region.length(),
    ensures
        region.nests(absolute(region, range)),
        source.subrange(
            absolute(region, range).start as int,
            absolute(region, range).end as int,
        ) == source.subrange(region.start as int, region.end as int).subrange(
            range.start as int,
            range.end as int,
        ),
{
    assert(source.subrange(
        absolute(region, range).start as int,
        absolute(region, range).end as int,
    ) =~= source.subrange(region.start as int, region.end as int).subrange(
        range.start as int,
        range.end as int,
    ));
}

/// A child that leads outside its region's slice leads outside the region,
/// so the engine refuses it.
pub proof fn law_escaping_child_stays_outside(region: Span, range: Range<usize>)
    requires
        region.ordered(),
        range.start > range.end || range.end > region.length(),
        region.end < usize::MAX,
    ensures
        !region.nests(absolute(region, range)),
{
}

/// A parser's children become the children of the region: as many, in order, on
/// the region's revision, with their contexts, and as far from the region's
/// start as they are from the start of its text. No children mean that the
/// region is done.
pub proof fn law_children_are_rebased<C>(region: Span, children: Seq<(Range<usize>, C)>)
    ensures
        match outcome_of(region, children) {
            OutcomeModel::Done => children.len() == 0,
            OutcomeModel::Expand(produced) => children.len() > 0 && produced.len() == children.len()
                && forall|k: int|
                #![trigger produced[k]]
                0 <= k < produced.len() ==> {
                    &&& produced[k].1 == children[k].1
                    &&& produced[k].0.rev == region.rev
                    &&& region.start + children[k].0.start <= usize::MAX ==> produced[k].0.start
                        - region.start == children[k].0.start
                    &&& region.start + children[k].0.end <= usize::MAX ==> produced[k].0.end
                        - region.start == children[k].0.end
                    &&& region.start + children[k].0.start > usize::MAX ==> produced[k].0.start
                        == usize::MAX
                    &&& region.start + children[k].0.end > usize::MAX ==> produced[k].0.end
                        == usize::MAX
                },
            OutcomeModel::Failed => false,
        },
{
}

} // verus!
