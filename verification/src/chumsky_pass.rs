//! Wrap chumsky parsers in [`Pass`]es.
//!
//! A pass is a function from the region's slice to a chumsky
//! [`ParseResult`] whose output is the parsed children: each child is a
//! **slice-relative** [`SimpleSpan`] plus a context value for the next
//! round. The wrapper converts the result to an [`Outcome`]:
//!
//! * parse succeeded with children → `Outcome::Expand` with rebased
//!   absolute spans,
//! * succeeded with no children → `Outcome::Done`,
//! * parse failed → `Outcome::Failed` (errors dropped; the region stays in
//!   the tree as a leaf and later passes may retry it).
//!
//! chumsky's `Parser::parse` implicitly requires the *whole* input to be
//! consumed. To claim children and ignore the rest of the region, end your
//! parser with `.then_ignore(any().repeated())`.

use crate::outcome::{Outcome, OutcomeModel};
use crate::pass::Pass;
use crate::rebase::{rebase, region_text};
use crate::span::Span;
use chumsky::error::Rich;
use chumsky::span::SimpleSpan;
use chumsky::ParseResult;
use std::ops::Range;
use vstd::prelude::*;

verus! {

/// chumsky's `SimpleSpan`: a range of the input.
#[verifier::external_type_specification]
#[verifier::reject_recursive_types(T)]
#[verifier::reject_recursive_types(C)]
pub struct ExSimpleSpan<T, C>(chumsky::span::SimpleSpan<T, C>);

/// chumsky's `ParseResult`: an output, errors, or both.
#[verifier::external_type_specification]
#[verifier::external_body]
#[verifier::reject_recursive_types(T)]
#[verifier::reject_recursive_types(E)]
pub struct ExParseResult<T, E>(chumsky::ParseResult<T, E>);

/// chumsky's `Rich` error.
#[verifier::external_type_specification]
#[verifier::external_body]
#[verifier::reject_recursive_types(T)]
#[verifier::reject_recursive_types(S)]
pub struct ExRich<'a, T, S>(chumsky::error::Rich<'a, T, S>);

/// chumsky's `ParseResult::into_result`: the output if there is one and no
/// error, the errors otherwise. The argument is opaque here, so nothing is
/// claimed of the result; contracts speak of it as what this call returns.
pub assume_specification<T, E>[ ParseResult::<T, E>::into_result ](
    parsed: ParseResult<T, E>,
) -> (result: Result<T, Vec<E>>);

/// chumsky's `SimpleSpan::into_range`: the range from the span's start to its
/// end.
pub assume_specification<T, C>[ SimpleSpan::<T, C>::into_range ](
    span: SimpleSpan<T, C>,
) -> (range: std::ops::Range<T>)
    ensures
        range.start == span.start,
        range.end == span.end,
;

/// The children a chumsky parser produces: slice-relative spans plus the
/// context each child carries into the next round.
pub type ChumChildren<C> = Vec<(SimpleSpan<usize, ()>, C)>;

/// What a chumsky parser returns.
pub type ChumResult<'a, C> = ParseResult<
    ChumChildren<C>,
    Rich<'a, char, SimpleSpan<usize, ()>>,
>;

/// A [`Pass`] driven by a chumsky parser.
///
/// See the [module docs](self) for the conversion rules. Build one with
/// [`chumsky_pass`].
pub struct ChumskyPass<C, F> {
    f: F,
    ctx: std::marker::PhantomData<C>,
}

impl<C, F> ChumskyPass<C, F> {
    /// The parser behind the pass.
    pub closed spec fn parser(&self) -> F {
        self.f
    }
}

impl<C, F: Clone> Clone for ChumskyPass<C, F> {
    fn clone(&self) -> (pass: Self)
        ensures
            cloned(self.parser(), pass.parser()),
    {
        ChumskyPass { f: self.f.clone(), ctx: std::marker::PhantomData }
    }
}

impl<C, F: Copy> Copy for ChumskyPass<C, F> {
}

/// A child with its span as a range.
pub open spec fn ranged<C>(child: (SimpleSpan<usize, ()>, C)) -> (Range<usize>, C) {
    (Range { start: child.0.start, end: child.0.end }, child.1)
}

/// The outcome that a parser's result for `region` amounts to.
pub open spec fn chumsky_outcome<'a, C>(
    region: Span,
    result: Result<ChumChildren<C>, Vec<Rich<'a, char, SimpleSpan<usize, ()>>>>,
) -> OutcomeModel<C> {
    match result {
        Ok(children) => crate::rebase::outcome_of(
            region,
            children@.map_values(|child: (SimpleSpan<usize, ()>, C)| ranged(child)),
        ),
        Err(_) => OutcomeModel::Failed,
    }
}

/// Turns the spans of `children` into ranges.
fn to_ranges<C>(children: ChumChildren<C>) -> (ranges: Vec<(Range<usize>, C)>)
    ensures
        ranges@ == children@.map_values(|child: (SimpleSpan<usize, ()>, C)| ranged(child)),
{
    let ghost given = children@;
    let mut ranges: Vec<(Range<usize>, C)> = Vec::with_capacity(children.len());
    for child in it: children.into_iter()
        invariant
            it.seq() == given,
            ranges@.len() == it.index(),
            forall|k: int| 0 <= k < it.index() ==> #[trigger] ranges@[k] == ranged(given[k]),
    {
        let (span, ctx) = child;
        ranges.push((span.into_range(), ctx));
    }
    assert(ranges@ =~= given.map_values(|child: (SimpleSpan<usize, ()>, C)| ranged(child)));
    ranges
}

/// The parser takes the text of the region `span`.
pub open spec fn chumsky_takes<C, F: for <'a>Fn(&'a str) -> ChumResult<'a, C>>(
    parser: F,
    source: &str,
    span: Span,
) -> bool {
    forall|text: &str|
        crate::rebase::is_region(source@, span) && text@ == crate::text::part(
            source@,
            span.start as int,
            span.end as int,
        ) ==> #[trigger] call_requires(parser, (text,))
}

/// `outcome` is what a result of the parser for the text of the region amounts
/// to; a span that is no region of the source fails.
pub open spec fn chumsky_may_return<C, F: for <'a>Fn(&'a str) -> ChumResult<'a, C>>(
    parser: F,
    source: &str,
    span: Span,
    outcome: Outcome<C>,
) -> bool {
    if crate::rebase::is_region(source@, span) {
        exists|
            text: &str,
            parsed: ChumResult<'_, C>,
            result: Result<ChumChildren<C>, Vec<Rich<'_, char, SimpleSpan<usize, ()>>>>,
        |
            text@ == crate::text::part(source@, span.start as int, span.end as int)
                && #[trigger] call_ensures(parser, (text,), parsed) && #[trigger] call_ensures(
                ParseResult::<
                    ChumChildren<C>,
                    Rich<'_, char, SimpleSpan<usize, ()>>,
                >::into_result,
                (parsed,),
                result,
            ) && outcome@ == chumsky_outcome(span, result)
    } else {
        outcome@ == OutcomeModel::<C>::Failed
    }
}

/// Creates a pass from a closure that parses a slice into [`ChumChildren`].
///
/// chumsky's parsers are tied to the input lifetime, so they are built per
/// call (they are cheap) by a small factory function; the closure builds one
/// and runs it against the slice.
pub fn chumsky_pass<C, F>(f: F) -> (pass: ChumskyPass<C, F>) where
    F: for <'a>Fn(&'a str) -> ChumResult<'a, C>,

    ensures
        pass.parser() == f,
        forall|source: &str, span: Span, ctx: &C| #[trigger]
            pass.accepts(source, span, ctx) == chumsky_takes(f, source, span),
        forall|source: &str, span: Span, ctx: &C, outcome: Outcome<C>| #[trigger]
            pass.may_return(source, span, ctx, outcome) == chumsky_may_return(
                f,
                source,
                span,
                outcome,
            ),
{
    ChumskyPass { f, ctx: std::marker::PhantomData }
}

impl<C, F> Pass for ChumskyPass<C, F> where
    F: for <'a>Fn(&'a str) -> ChumResult<'a, C>,
 {
    type Ctx = C;

    open spec fn accepts(&self, source: &str, span: Span, ctx: &C) -> bool {
        chumsky_takes(self.parser(), source, span)
    }

    open spec fn may_return(&self, source: &str, span: Span, ctx: &C, outcome: Outcome<C>) -> bool {
        chumsky_may_return(self.parser(), source, span, outcome)
    }

    fn parse(&self, source: &str, span: Span, ctx: &C) -> (outcome: Outcome<C>) {
        let text = match region_text(source, span) {
            Some(text) => text,
            None => return Outcome::Failed,
        };
        assert(call_requires(self.parser(), (text,)));
        let parsed = (self.f)(text);
        assert(call_ensures(self.parser(), (text,), parsed));
        match parsed.into_result() {
            Ok(children) => rebase(span, to_ranges(children)),
            Err(_) => Outcome::Failed,
        }
    }

    fn name(&self) -> (name: &'static str)
        ensures
            name@ == "ChumskyPass"@,
    {
        "ChumskyPass"
    }
}

/// What a chumsky parser makes of a region: errors fail it, no children accept
/// it, and children expand it, each as far from the region's start as it is from
/// the start of the text the parser saw.
pub proof fn law_chumsky_results<'a, C>(
    region: Span,
    result: Result<ChumChildren<C>, Vec<Rich<'a, char, SimpleSpan<usize, ()>>>>,
)
    ensures
        match result {
            Err(_) => chumsky_outcome(region, result) is Failed,
            Ok(children) => match chumsky_outcome(region, result) {
                OutcomeModel::Done => children@.len() == 0,
                OutcomeModel::Failed => false,
                OutcomeModel::Expand(produced) => children@.len() > 0 && produced.len()
                    == children@.len() && forall|k: int|
                    #![trigger produced[k]]
                    0 <= k < produced.len() ==> produced[k].1 == children@[k].1
                        && produced[k].0.rev == region.rev && (region.start + children@[k].0.start
                        <= usize::MAX && region.start + children@[k].0.end <= usize::MAX
                        ==> produced[k].0.start == region.start + children@[k].0.start
                        && produced[k].0.end == region.start + children@[k].0.end),
            },
        },
{
    if let Ok(children) = result {
        let ranges = children@.map_values(|child: (SimpleSpan<usize, ()>, C)| ranged(child));
        crate::rebase::law_children_are_rebased(region, ranges);
    }
}

/// A chumsky parser is run on exactly the text of the region, and a span that is
/// no region of the source fails.
pub proof fn law_chumsky_parser_sees_its_region<C, F: for <'a>Fn(&'a str) -> ChumResult<'a, C>>(
    parser: F,
    source: &str,
    span: Span,
    outcome: Outcome<C>,
)
    requires
        chumsky_may_return(parser, source, span, outcome),
    ensures
        if span.start <= span.end && crate::text::on_boundary(source@, span.start as int)
            && crate::text::on_boundary(source@, span.end as int) {
            exists|text: &str, parsed: ChumResult<'_, C>| #[trigger]
                call_ensures(parser, (text,), parsed) && crate::text::bytes_of(text@)
                    == crate::text::bytes_of(source@).subrange(span.start as int, span.end as int)
        } else {
            outcome@ is Failed
        },
{
    if crate::rebase::is_region(source@, span) {
        crate::text::law_parts_have_their_bytes(source@, span.start as int, span.end as int);
    }
}

} // verus!
