//! Round-indexed schedules of passes.

use crate::outcome::Outcome;
use crate::pass::{Pass, Stage};
use crate::span::Span;
use vstd::prelude::*;

verus! {

/// A pass of any type, boxed: what a schedule holds, and what a vector of
/// passes of different types is made of.
#[verifier::reject_recursive_types(C)]
pub struct BoxedPass<C> {
    pass: Box<dyn Stage<C>>,
}

impl<C> BoxedPass<C> {
    /// The inputs on which the pass may be called.
    pub closed spec fn accepts(&self, source: &str, span: Span, ctx: &C) -> bool {
        self.pass.stage_accepts(source, span, ctx)
    }

    /// The outcomes the pass may report for an input.
    pub closed spec fn may_return(
        &self,
        source: &str,
        span: Span,
        ctx: &C,
        outcome: Outcome<C>,
    ) -> bool {
        self.pass.stage_may_return(source, span, ctx, outcome)
    }

    /// The names the pass may report.
    pub closed spec fn may_be_named(&self, name: &'static str) -> bool {
        self.pass.stage_may_be_named(name)
    }

    /// The boxed pass behaves exactly as `pass`.
    pub open spec fn holds<P: Pass<Ctx = C>>(&self, pass: &P) -> bool {
        &&& forall|source: &str, span: Span, ctx: &C| #[trigger]
            self.accepts(source, span, ctx) == pass.accepts(source, span, ctx)
        &&& forall|source: &str, span: Span, ctx: &C, outcome: Outcome<C>| #[trigger]
            self.may_return(source, span, ctx, outcome) == pass.may_return(
                source,
                span,
                ctx,
                outcome,
            )
        &&& forall|name: &'static str| #[trigger]
            self.may_be_named(name) == call_ensures(P::name, (pass,), name)
    }

    /// Boxes `pass`.
    pub fn new<P>(pass: P) -> (boxed: Self) where P: Pass<Ctx = C> + Send + Sync + 'static
        ensures
            boxed.holds(&pass),
    {
        let ghost given = pass;
        let boxed: BoxedPass<C> = BoxedPass { pass: Box::new(pass) };
        assert(boxed.holds(&given));
        boxed
    }

    /// Runs the pass.
    pub fn parse(&self, source: &str, span: Span, ctx: &C) -> (outcome: Outcome<C>)
        requires
            self.accepts(source, span, ctx),
        ensures
            self.may_return(source, span, ctx, outcome),
    {
        self.pass.run_stage(source, span, ctx)
    }

    /// The name of the pass.
    pub fn name(&self) -> (name: &'static str)
        ensures
            self.may_be_named(name),
    {
        self.pass.stage_name()
    }
}

/// An ordered sequence of passes, indexed by round.
///
/// Round `r` of an [`Engine`](crate::Engine) run applies the pass at index `r`
/// of the schedule to every node that is ready for it, so a schedule doubles
/// as the fixed pass order of a run. Nodes created (or failed) in round `r`
/// are processed by round `r + 1`, which uses the next pass in the schedule.
#[verifier::reject_recursive_types(C)]
pub struct Schedule<C> {
    passes: Vec<BoxedPass<C>>,
}

impl<C> View for Schedule<C> {
    type V = Seq<BoxedPass<C>>;

    closed spec fn view(&self) -> Seq<BoxedPass<C>> {
        self.passes@
    }
}

impl<C> Schedule<C> {
    /// Creates an empty schedule.
    pub fn new() -> (schedule: Self)
        ensures
            schedule@ == Seq::<BoxedPass<C>>::empty(),
    {
        Self { passes: Vec::new() }
    }

    /// Appends `pass` to the schedule; its round index is the previous length.
    pub fn push<P>(&mut self, pass: P) where P: Pass<Ctx = C> + Send + Sync + 'static
        ensures
            final(self)@.len() == old(self)@.len() + 1,
            final(self)@.drop_last() == old(self)@,
            final(self)@.last().holds(&pass),
    {
        self.push_boxed(BoxedPass::new(pass));
    }

    /// Appends an already-boxed pass.
    pub fn push_boxed(&mut self, pass: BoxedPass<C>)
        ensures
            final(self)@ == old(self)@.push(pass),
            final(self)@.drop_last() == old(self)@,
    {
        self.passes.push(pass);
        assert(self@.drop_last() =~= old(self)@);
    }

    /// Number of passes in the schedule; also the maximum number of rounds.
    pub fn len(&self) -> (len: usize)
        ensures
            len == self@.len(),
    {
        self.passes.len()
    }

    /// Returns `true` if the schedule has no passes.
    pub fn is_empty(&self) -> (empty: bool)
        ensures
            empty == (self@.len() == 0),
    {
        self.passes.len() == 0
    }

    /// Returns the name of the pass scheduled for `round`, if any.
    pub fn pass_name(&self, round: usize) -> (name: Option<&'static str>)
        ensures
            match name {
                Some(name) => round < self@.len() && self@[round as int].may_be_named(name),
                None => round >= self@.len(),
            },
    {
        match self.pass_at(round) {
            Some(pass) => Some(pass.name()),
            None => None,
        }
    }

    /// The pass scheduled for `round`, if any.
    pub fn pass_at(&self, round: usize) -> (pass: Option<&BoxedPass<C>>)
        ensures
            pass == (if round < self@.len() {
                Some(&self@[round as int])
            } else {
                None
            }),
    {
        if round < self.passes.len() {
            Some(&self.passes[round])
        } else {
            None
        }
    }
}

impl<C> Default for Schedule<C> {
    fn default() -> (schedule: Self)
        ensures
            schedule@ == Seq::<BoxedPass<C>>::empty(),
    {
        Self::new()
    }
}

} // verus!
