//! The [`Pass`] trait: a single stage in a parse schedule.

use crate::outcome::Outcome;
use crate::span::Span;
use vstd::prelude::*;

verus! {

/// One stage of a parse schedule.
///
/// A pass is a pure function from a source region plus its context to an
/// [`Outcome`]: the region either expands into smaller child regions, is
/// accepted as parsed, or fails (later passes may retry it).
///
/// # Contract
///
/// * Passes must be pure: they must not mutate shared state and must produce
///   the same output for the same `(source, span, ctx)` input.
/// * Every child span returned from [`Outcome::Expand`] must be contained in
///   the input span and on the same source revision. By default a child may
///   cover its parent exactly; with
///   [`EngineConfig::enforce_shrink`](crate::EngineConfig::enforce_shrink)
///   it must be strictly smaller. The engine rejects outcomes that violate
///   this, marking the node [`Failed`](crate::Status::Failed).
/// * Passes are `Send + Sync` so the engine can run batches on any
///   [`Executor`](crate::Executor).
///
/// Nothing in this crate relies on purity or on well-placed children: what a
/// pass returns is only known to be one of the outcomes that
/// [`may_return`](Pass::may_return) admits.
pub trait Pass {
    /// Context threaded into every node this pass processes.
    type Ctx;

    /// The inputs on which [`parse`](Pass::parse) may be called.
    open spec fn accepts(&self, source: &str, span: Span, ctx: &Self::Ctx) -> bool {
        true
    }

    /// The outcomes [`parse`](Pass::parse) may report for an input.
    open spec fn may_return(
        &self,
        source: &str,
        span: Span,
        ctx: &Self::Ctx,
        outcome: Outcome<Self::Ctx>,
    ) -> bool {
        true
    }

    /// Attempts to parse `source[span]` given the node's context.
    ///
    /// `source` is a snapshot of the full source text the tree was built
    /// against; `span` selects this node's region within it.
    fn parse(&self, source: &str, span: Span, ctx: &Self::Ctx) -> (outcome: Outcome<Self::Ctx>)
        requires
            self.accepts(source, span, ctx),
        ensures
            self.may_return(source, span, ctx, outcome),
    ;

    /// A human-readable name used in diagnostics. A pass that does not give
    /// itself one is called `pass`, whatever its type.
    fn name(&self) -> (name: &'static str)
        default_ensures
            name@ == "pass"@,
    {
        "pass"
    }
}

/// A [`Pass`] whose context type is a parameter: the form in which a
/// [`Schedule`](crate::Schedule) holds passes of different types.
///
/// Every [`Pass`] is a stage; implement [`Pass`] rather than this trait.
pub trait Stage<C>: Send + Sync {
    /// The inputs on which [`run_stage`](Stage::run_stage) may be called.
    spec fn stage_accepts(&self, source: &str, span: Span, ctx: &C) -> bool;

    /// The outcomes [`run_stage`](Stage::run_stage) may report for an input.
    spec fn stage_may_return(&self, source: &str, span: Span, ctx: &C, outcome: Outcome<C>) -> bool;

    /// Runs [`Pass::parse`].
    fn run_stage(&self, source: &str, span: Span, ctx: &C) -> (outcome: Outcome<C>)
        requires
            self.stage_accepts(source, span, ctx),
        ensures
            self.stage_may_return(source, span, ctx, outcome),
    ;

    /// The names [`stage_name`](Stage::stage_name) may report.
    spec fn stage_may_be_named(&self, name: &'static str) -> bool;

    /// Runs [`Pass::name`].
    fn stage_name(&self) -> (name: &'static str)
        ensures
            self.stage_may_be_named(name),
    ;
}

impl<P: Pass + Send + Sync> Stage<P::Ctx> for P {
    open spec fn stage_accepts(&self, source: &str, span: Span, ctx: &P::Ctx) -> bool {
        self.accepts(source, span, ctx)
    }

    open spec fn stage_may_return(
        &self,
        source: &str,
        span: Span,
        ctx: &P::Ctx,
        outcome: Outcome<P::Ctx>,
    ) -> bool {
        self.may_return(source, span, ctx, outcome)
    }

    fn run_stage(&self, source: &str, span: Span, ctx: &P::Ctx) -> (outcome: Outcome<P::Ctx>) {
        self.parse(source, span, ctx)
    }

    open spec fn stage_may_be_named(&self, name: &'static str) -> bool {
        call_ensures(P::name, (self,), name)
    }

    fn stage_name(&self) -> (name: &'static str) {
        self.name()
    }
}

/// A [`Pass`] made from a closure; build one with [`pass_fn`].
pub struct PassFn<C, F> {
    f: F,
    ctx: std::marker::PhantomData<C>,
}

impl<C, F> PassFn<C, F> {
    /// The closure behind the pass.
    pub closed spec fn closure(&self) -> F {
        self.f
    }
}

impl<C, F: Clone> Clone for PassFn<C, F> {
    fn clone(&self) -> (pass: Self)
        ensures
            cloned(self.closure(), pass.closure()),
    {
        PassFn { f: self.f.clone(), ctx: std::marker::PhantomData }
    }
}

impl<C, F: Copy> Copy for PassFn<C, F> {
}

/// Wraps a closure `(source, span, ctx) -> Outcome` into a [`Pass`].
pub fn pass_fn<C, F>(f: F) -> (pass: PassFn<C, F>) where F: Fn(&str, Span, &C) -> Outcome<C>
    ensures
        pass.closure() == f,
        forall|source: &str, span: Span, ctx: &C| #[trigger]
            pass.accepts(source, span, ctx) == call_requires(f, (source, span, ctx)),
        forall|source: &str, span: Span, ctx: &C, outcome: Outcome<C>| #[trigger]
            pass.may_return(source, span, ctx, outcome) == call_ensures(
                f,
                (source, span, ctx),
                outcome,
            ),
{
    PassFn { f, ctx: std::marker::PhantomData }
}

impl<C, F> Pass for PassFn<C, F> where F: Fn(&str, Span, &C) -> Outcome<C> {
    type Ctx = C;

    open spec fn accepts(&self, source: &str, span: Span, ctx: &C) -> bool {
        call_requires(self.closure(), (source, span, ctx))
    }

    open spec fn may_return(&self, source: &str, span: Span, ctx: &C, outcome: Outcome<C>) -> bool {
        call_ensures(self.closure(), (source, span, ctx), outcome)
    }

    fn parse(&self, source: &str, span: Span, ctx: &C) -> (outcome: Outcome<C>) {
        (self.f)(source, span, ctx)
    }

    fn name(&self) -> (name: &'static str)
        ensures
            name@ == "PassFn"@,
    {
        "PassFn"
    }
}

} // verus!
