//! Wrap nom parsers in [`Pass`]es.
//!
//! A pass is a function from a [`LocatedSpan`] of the region's text to an
//! `IResult` whose output is the parsed children: each child is a
//! **slice-relative** `Range<usize>` plus a context value for the next
//! round. The wrapper converts the result to an [`Outcome`]:
//!
//! * `Ok(children)` → `Outcome::Expand` with rebased absolute spans,
//! * `Ok(vec![])` → `Outcome::Done` (nothing left to parse in the region),
//! * `Err(_)` → `Outcome::Failed` (the error is dropped; the region stays
//!   in the tree as a leaf and later passes may retry it).

use crate::outcome::{Outcome, OutcomeModel};
use crate::pass::Pass;
use crate::rebase::{rebase, region_text};
use crate::span::Span;
use nom_locate::LocatedSpan;
use std::ops::Range;
use vstd::prelude::*;

verus! {

/// nom_locate's `LocatedSpan`: a parser's input, with its place.
#[verifier::external_type_specification]
#[verifier::external_body]
#[verifier::reject_recursive_types(T)]
#[verifier::reject_recursive_types(X)]
pub struct ExLocatedSpan<T, X>(nom_locate::LocatedSpan<T, X>);

/// nom's `Err`: why a parser gave up.
#[verifier::external_type_specification]
#[verifier::external_body]
#[verifier::reject_recursive_types(Failure)]
#[verifier::reject_recursive_types(Error)]
pub struct ExNomErr<Failure, Error>(nom::Err<Failure, Error>);

/// nom's `error::Error`: the place and the kind of an error.
#[verifier::external_type_specification]
#[verifier::external_body]
#[verifier::reject_recursive_types(I)]
pub struct ExNomError<I>(nom::error::Error<I>);

/// nom_locate's `LocatedSpan::new`: the whole of `program`, located at its
/// start. The value is opaque here, so nothing is claimed of it; contracts
/// speak of it as what this call returns.
pub assume_specification<T>[ LocatedSpan::<T, ()>::new ](program: T) -> (input: LocatedSpan<T, ()>);

/// The children a nom parser produces: slice-relative ranges plus the
/// context each child carries into the next round.
pub type NomChildren<C> = Vec<(Range<usize>, C)>;

/// The input and remaining-output type nom parsers see: a located view of
/// the region's slice of the source.
pub type Located<'a> = LocatedSpan<&'a str>;

/// What a nom parser returns: the rest of the input and the children, or an
/// error.
pub type NomResult<'a, C> = Result<
    (Located<'a>, NomChildren<C>),
    nom::Err<nom::error::Error<Located<'a>>>,
>;

/// A [`Pass`] driven by a nom parser.
///
/// See the [module docs](self) for the conversion rules. Build one with
/// [`nom_pass`].
pub struct NomPass<C, F> {
    f: F,
    ctx: std::marker::PhantomData<C>,
}

impl<C, F> NomPass<C, F> {
    /// The parser behind the pass.
    pub closed spec fn parser(&self) -> F {
        self.f
    }
}

impl<C, F: Clone> Clone for NomPass<C, F> {
    fn clone(&self) -> (pass: Self)
        ensures
            cloned(self.parser(), pass.parser()),
    {
        NomPass { f: self.f.clone(), ctx: std::marker::PhantomData }
    }
}

impl<C, F: Copy> Copy for NomPass<C, F> {
}

/// The parser takes the located text of the region `span`.
pub open spec fn nom_takes<C, F: for <'a>Fn(Located<'a>) -> NomResult<'a, C>>(
    parser: F,
    source: &str,
    span: Span,
) -> bool {
    forall|text: &str, input: Located<'_>|
        crate::rebase::is_region(source@, span) && text@ == crate::text::part(
            source@,
            span.start as int,
            span.end as int,
        ) && #[trigger] call_ensures(LocatedSpan::<&str, ()>::new, (text,), input)
            ==> call_requires(parser, (input,))
}

/// `outcome` is what a result of the parser for the located text of the region
/// amounts to; a span that is no region of the source fails.
pub open spec fn nom_may_return<C, F: for <'a>Fn(Located<'a>) -> NomResult<'a, C>>(
    parser: F,
    source: &str,
    span: Span,
    outcome: Outcome<C>,
) -> bool {
    if crate::rebase::is_region(source@, span) {
        exists|text: &str, input: Located<'_>, result: NomResult<'_, C>|
            text@ == crate::text::part(source@, span.start as int, span.end as int)
                && #[trigger] call_ensures(LocatedSpan::<&str, ()>::new, (text,), input)
                && #[trigger] call_ensures(parser, (input,), result) && outcome@ == nom_outcome(
                span,
                result,
            )
    } else {
        outcome@ == OutcomeModel::<C>::Failed
    }
}

/// Creates a pass from a nom parser producing [`NomChildren`].
pub fn nom_pass<C, F>(f: F) -> (pass: NomPass<C, F>) where
    F: for <'a>Fn(Located<'a>) -> NomResult<'a, C>,

    ensures
        pass.parser() == f,
        forall|source: &str, span: Span, ctx: &C| #[trigger]
            pass.accepts(source, span, ctx) == nom_takes(f, source, span),
        forall|source: &str, span: Span, ctx: &C, outcome: Outcome<C>| #[trigger]
            pass.may_return(source, span, ctx, outcome) == nom_may_return(
                f,
                source,
                span,
                outcome,
            ),
{
    NomPass { f, ctx: std::marker::PhantomData }
}

/// The outcome that a parser's result for `region` amounts to.
pub open spec fn nom_outcome<'a, C>(region: Span, result: NomResult<'a, C>) -> OutcomeModel<C> {
    match result {
        Ok(pair) => crate::rebase::outcome_of(region, pair.1@),
        Err(_) => OutcomeModel::Failed,
    }
}

impl<C, F> Pass for NomPass<C, F> where
    F: for <'a>Fn(Located<'a>) -> NomResult<'a, C>,
 {
    type Ctx = C;

    open spec fn accepts(&self, source: &str, span: Span, ctx: &C) -> bool {
        nom_takes(self.parser(), source, span)
    }

    open spec fn may_return(&self, source: &str, span: Span, ctx: &C, outcome: Outcome<C>) -> bool {
        nom_may_return(self.parser(), source, span, outcome)
    }

    fn parse(&self, source: &str, span: Span, ctx: &C) -> (outcome: Outcome<C>) {
        let text = match region_text(source, span) {
            Some(text) => text,
            None => return Outcome::Failed,
        };
        let input = LocatedSpan::new(text);
        match (self.f)(input) {
            Ok((_rest, children)) => rebase(span, children),
            Err(_) => Outcome::Failed,
        }
    }

    fn name(&self) -> (name: &'static str)
        ensures
            name@ == "NomPass"@,
    {
        "NomPass"
    }
}

/// What a nom parser makes of a region: an error fails it, no children accept
/// it, and children expand it, each as far from the region's start as it is from
/// the start of the text the parser saw.
pub proof fn law_nom_results<'a, C>(region: Span, result: NomResult<'a, C>)
    ensures
        match result {
            Err(_) => nom_outcome(region, result) is Failed,
            Ok(pair) => match nom_outcome(region, result) {
                OutcomeModel::Done => pair.1@.len() == 0,
                OutcomeModel::Failed => false,
                OutcomeModel::Expand(produced) => pair.1@.len() > 0 && produced.len()
                    == pair.1@.len() && forall|k: int|
                    #![trigger produced[k]]
                    0 <= k < produced.len() ==> produced[k].1 == pair.1@[k].1 && produced[k].0.rev
                        == region.rev && (region.start + pair.1@[k].0.end <= usize::MAX
                        && region.start + pair.1@[k].0.start <= usize::MAX
                        ==> produced[k].0.start == region.start + pair.1@[k].0.start
                        && produced[k].0.end == region.start + pair.1@[k].0.end),
            },
        },
{
    if let Ok(pair) = result {
        crate::rebase::law_children_are_rebased(region, pair.1@);
    }
}

/// A nom parser is run on exactly the text of the region, and a span that is no
/// region of the source fails.
pub proof fn law_nom_parser_sees_its_region<C, F: for <'a>Fn(Located<'a>) -> NomResult<'a, C>>(
    parser: F,
    source: &str,
    span: Span,
    outcome: Outcome<C>,
)
    requires
        nom_may_return(parser, source, span, outcome),
    ensures
        if span.start <= span.end && crate::text::on_boundary(source@, span.start as int)
            && crate::text::on_boundary(source@, span.end as int) {
            exists|text: &str, input: Located<'_>, result: NomResult<'_, C>|
                crate::text::bytes_of(text@) == crate::text::bytes_of(source@).subrange(
                    span.start as int,
                    span.end as int,
                ) && #[trigger] call_ensures(LocatedSpan::<&str, ()>::new, (text,), input)
                    && #[trigger] call_ensures(parser, (input,), result) && outcome@ == nom_outcome(
                    span,
                    result,
                )
        } else {
            outcome@ is Failed
        },
{
    if crate::rebase::is_region(source@, span) {
        crate::text::law_parts_have_their_bytes(source@, span.start as int, span.end as int);
        let (text, input, result) = choose|
            text: &str,
            input: Located<'_>,
            result: NomResult<'_, C>,
        |
            text@ == crate::text::part(source@, span.start as int, span.end as int)
                && #[trigger] call_ensures(LocatedSpan::<&str, ()>::new, (text,), input)
                && #[trigger] call_ensures(parser, (input,), result) && outcome@ == nom_outcome(
                span,
                result,
            );
        assert(call_ensures(LocatedSpan::<&str, ()>::new, (text,), input) && call_ensures(
            parser,
            (input,),
            result,
        ));
    }
}

} // verus!
