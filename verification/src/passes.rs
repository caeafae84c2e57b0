//! Ways to write a schedule down: tuples and vectors of passes.

use crate::outcome::Outcome;
use crate::pass::Pass;
use crate::schedule::{BoxedPass, Schedule};
use crate::span::Span;
use vstd::prelude::*;

verus! {

/// Types that can become a [`Schedule`]: tuples of passes (1–12, mixed
/// types welcome), vectors of boxed passes, and schedules themselves.
///
/// Not intended to be implemented outside this crate; use it as a bound for
/// APIs like [`Engine::with`](crate::Engine::with).
pub trait Passes<C>: Sized {
    /// How many passes there are.
    spec fn count(&self) -> nat;

    /// The inputs on which the pass for `round` may be called.
    spec fn pass_accepts(&self, round: int, source: &str, span: Span, ctx: &C) -> bool;

    /// The outcomes the pass for `round` may report for an input.
    spec fn pass_may_return(
        &self,
        round: int,
        source: &str,
        span: Span,
        ctx: &C,
        outcome: Outcome<C>,
    ) -> bool;

    /// The names the pass for `round` may report.
    spec fn pass_may_be_named(&self, round: int, name: &'static str) -> bool;

    /// Turns the passes into a schedule, in order.
    fn into_schedule(self) -> (schedule: Schedule<C>)
        ensures
            schedule@.len() == self.count(),
            forall|round: int, source: &str, span: Span, ctx: &C|
                0 <= round < self.count() ==> #[trigger] schedule@[round].accepts(source, span, ctx)
                    == self.pass_accepts(round, source, span, ctx),
            forall|round: int, source: &str, span: Span, ctx: &C, outcome: Outcome<C>|
                0 <= round < self.count() ==> #[trigger] schedule@[round].may_return(
                    source,
                    span,
                    ctx,
                    outcome,
                ) == self.pass_may_return(round, source, span, ctx, outcome),
            forall|round: int, name: &'static str|
                0 <= round < self.count() ==> #[trigger] schedule@[round].may_be_named(name)
                    == self.pass_may_be_named(round, name),
    ;
}

impl<C> Passes<C> for Schedule<C> {
    open spec fn count(&self) -> nat {
        self@.len()
    }

    open spec fn pass_accepts(&self, round: int, source: &str, span: Span, ctx: &C) -> bool {
        self@[round].accepts(source, span, ctx)
    }

    open spec fn pass_may_return(
        &self,
        round: int,
        source: &str,
        span: Span,
        ctx: &C,
        outcome: Outcome<C>,
    ) -> bool {
        self@[round].may_return(source, span, ctx, outcome)
    }

    open spec fn pass_may_be_named(&self, round: int, name: &'static str) -> bool {
        self@[round].may_be_named(name)
    }

    fn into_schedule(self) -> (schedule: Schedule<C>) {
        self
    }
}

impl<C> Passes<C> for Vec<BoxedPass<C>> {
    open spec fn count(&self) -> nat {
        self@.len()
    }

    open spec fn pass_accepts(&self, round: int, source: &str, span: Span, ctx: &C) -> bool {
        self@[round].accepts(source, span, ctx)
    }

    open spec fn pass_may_return(
        &self,
        round: int,
        source: &str,
        span: Span,
        ctx: &C,
        outcome: Outcome<C>,
    ) -> bool {
        self@[round].may_return(source, span, ctx, outcome)
    }

    open spec fn pass_may_be_named(&self, round: int, name: &'static str) -> bool {
        self@[round].may_be_named(name)
    }

    fn into_schedule(self) -> (schedule: Schedule<C>) {
        let mut schedule = Schedule::new();
        for pass in it: self.into_iter()
            invariant
                it.seq() == self@,
                schedule@.len() == it.index(),
                schedule@ == self@.take(it.index() as int),
        {
            assert(self@.take(it.index() + 1) =~= self@.take(it.index() as int).push(pass));
            schedule.push_boxed(pass);
        }
        assert(self@.take(self@.len() as int) =~= self@);
        schedule
    }
}

impl<C, P1> Passes<C> for (P1,) where
    P1: Pass<Ctx = C> + Send + Sync + 'static,
{
    open spec fn count(&self) -> nat {
        1
    }

    open spec fn pass_accepts(&self, round: int, source: &str, span: Span, ctx: &C) -> bool {
        if round == 0 {
            self.0.accepts(source, span, ctx)
        } else {
            false
        }
    }

    open spec fn pass_may_return(
        &self,
        round: int,
        source: &str,
        span: Span,
        ctx: &C,
        outcome: Outcome<C>,
    ) -> bool {
        if round == 0 {
            self.0.may_return(source, span, ctx, outcome)
        } else {
            false
        }
    }

    open spec fn pass_may_be_named(&self, round: int, name: &'static str) -> bool {
        if round == 0 {
            call_ensures(P1::name, (&self.0,), name)
        } else {
            false
        }
    }

    fn into_schedule(self) -> (schedule: Schedule<C>) {
        let mut schedule = Schedule::new();
        let (p1,) = self;
        schedule.push(p1);
        schedule
    }
}

impl<C, P1, P2> Passes<C> for (P1, P2) where
    P1: Pass<Ctx = C> + Send + Sync + 'static,
    P2: Pass<Ctx = C> + Send + Sync + 'static,
{
    open spec fn count(&self) -> nat {
        2
    }

    open spec fn pass_accepts(&self, round: int, source: &str, span: Span, ctx: &C) -> bool {
        if round == 0 {
            self.0.accepts(source, span, ctx)
        } else if round == 1 {
            self.1.accepts(source, span, ctx)
        } else {
            false
        }
    }

    open spec fn pass_may_return(
        &self,
        round: int,
        source: &str,
        span: Span,
        ctx: &C,
        outcome: Outcome<C>,
    ) -> bool {
        if round == 0 {
            self.0.may_return(source, span, ctx, outcome)
        } else if round == 1 {
            self.1.may_return(source, span, ctx, outcome)
        } else {
            false
        }
    }

    open spec fn pass_may_be_named(&self, round: int, name: &'static str) -> bool {
        if round == 0 {
            call_ensures(P1::name, (&self.0,), name)
        } else if round == 1 {
            call_ensures(P2::name, (&self.1,), name)
        } else {
            false
        }
    }

    fn into_schedule(self) -> (schedule: Schedule<C>) {
        let mut schedule = Schedule::new();
        let (p1, p2) = self;
        schedule.push(p1);
        schedule.push(p2);
        schedule
    }
}

impl<C, P1, P2, P3> Passes<C> for (P1, P2, P3) where
    P1: Pass<Ctx = C> + Send + Sync + 'static,
    P2: Pass<Ctx = C> + Send + Sync + 'static,
    P3: Pass<Ctx = C> + Send + Sync + 'static,
{
    open spec fn count(&self) -> nat {
        3
    }

    open spec fn pass_accepts(&self, round: int, source: &str, span: Span, ctx: &C) -> bool {
        if round == 0 {
            self.0.accepts(source, span, ctx)
        } else if round == 1 {
            self.1.accepts(source, span, ctx)
        } else if round == 2 {
            self.2.accepts(source, span, ctx)
        } else {
            false
        }
    }

    open spec fn pass_may_return(
        &self,
        round: int,
        source: &str,
        span: Span,
        ctx: &C,
        outcome: Outcome<C>,
    ) -> bool {
        if round == 0 {
            self.0.may_return(source, span, ctx, outcome)
        } else if round == 1 {
            self.1.may_return(source, span, ctx, outcome)
        } else if round == 2 {
            self.2.may_return(source, span, ctx, outcome)
        } else {
            false
        }
    }

    open spec fn pass_may_be_named(&self, round: int, name: &'static str) -> bool {
        if round == 0 {
            call_ensures(P1::name, (&self.0,), name)
        } else if round == 1 {
            call_ensures(P2::name, (&self.1,), name)
        } else if round == 2 {
            call_ensures(P3::name, (&self.2,), name)
        } else {
            false
        }
    }

    fn into_schedule(self) -> (schedule: Schedule<C>) {
        let mut schedule = Schedule::new();
        let (p1, p2, p3) = self;
        schedule.push(p1);
        schedule.push(p2);
        schedule.push(p3);
        schedule
    }
}

impl<C, P1, P2, P3, P4> Passes<C> for (P1, P2, P3, P4) where
    P1: Pass<Ctx = C> + Send + Sync + 'static,
    P2: Pass<Ctx = C> + Send + Sync + 'static,
    P3: Pass<Ctx = C> + Send + Sync + 'static,
    P4: Pass<Ctx = C> + Send + Sync + 'static,
{
    open spec fn count(&self) -> nat {
        4
    }

    open spec fn pass_accepts(&self, round: int, source: &str, span: Span, ctx: &C) -> bool {
        if round == 0 {
            self.0.accepts(source, span, ctx)
        } else if round == 1 {
            self.1.accepts(source, span, ctx)
        } else if round == 2 {
            self.2.accepts(source, span, ctx)
        } else if round == 3 {
            self.3.accepts(source, span, ctx)
        } else {
            false
        }
    }

    open spec fn pass_may_return(
        &self,
        round: int,
        source: &str,
        span: Span,
        ctx: &C,
        outcome: Outcome<C>,
    ) -> bool {
        if round == 0 {
            self.0.may_return(source, span, ctx, outcome)
        } else if round == 1 {
            self.1.may_return(source, span, ctx, outcome)
        } else if round == 2 {
            self.2.may_return(source, span, ctx, outcome)
        } else if round == 3 {
            self.3.may_return(source, span, ctx, outcome)
        } else {
            false
        }
    }

    open spec fn pass_may_be_named(&self, round: int, name: &'static str) -> bool {
        if round == 0 {
            call_ensures(P1::name, (&self.0,), name)
        } else if round == 1 {
            call_ensures(P2::name, (&self.1,), name)
        } else if round == 2 {
            call_ensures(P3::name, (&self.2,), name)
        } else if round == 3 {
            call_ensures(P4::name, (&self.3,), name)
        } else {
            false
        }
    }

    fn into_schedule(self) -> (schedule: Schedule<C>) {
        let mut schedule = Schedule::new();
        let (p1, p2, p3, p4) = self;
        schedule.push(p1);
        schedule.push(p2);
        schedule.push(p3);
        schedule.push(p4);
        schedule
    }
}

impl<C, P1, P2, P3, P4, P5> Passes<C> for (P1, P2, P3, P4, P5) where
    P1: Pass<Ctx = C> + Send + Sync + 'static,
    P2: Pass<Ctx = C> + Send + Sync + 'static,
    P3: Pass<Ctx = C> + Send + Sync + 'static,
    P4: Pass<Ctx = C> + Send + Sync + 'static,
    P5: Pass<Ctx = C> + Send + Sync + 'static,
{
    open spec fn count(&self) -> nat {
        5
    }

    open spec fn pass_accepts(&self, round: int, source: &str, span: Span, ctx: &C) -> bool {
        if round == 0 {
            self.0.accepts(source, span, ctx)
        } else if round == 1 {
            self.1.accepts(source, span, ctx)
        } else if round == 2 {
            self.2.accepts(source, span, ctx)
        } else if round == 3 {
            self.3.accepts(source, span, ctx)
        } else if round == 4 {
            self.4.accepts(source, span, ctx)
        } else {
            false
        }
    }

    open spec fn pass_may_return(
        &self,
        round: int,
        source: &str,
        span: Span,
        ctx: &C,
        outcome: Outcome<C>,
    ) -> bool {
        if round == 0 {
            self.0.may_return(source, span, ctx, outcome)
        } else if round == 1 {
            self.1.may_return(source, span, ctx, outcome)
        } else if round == 2 {
            self.2.may_return(source, span, ctx, outcome)
        } else if round == 3 {
            self.3.may_return(source, span, ctx, outcome)
        } else if round == 4 {
            self.4.may_return(source, span, ctx, outcome)
        } else {
            false
        }
    }

    open spec fn pass_may_be_named(&self, round: int, name: &'static str) -> bool {
        if round == 0 {
            call_ensures(P1::name, (&self.0,), name)
        } else if round == 1 {
            call_ensures(P2::name, (&self.1,), name)
        } else if round == 2 {
            call_ensures(P3::name, (&self.2,), name)
        } else if round == 3 {
            call_ensures(P4::name, (&self.3,), name)
        } else if round == 4 {
            call_ensures(P5::name, (&self.4,), name)
        } else {
            false
        }
    }

    fn into_schedule(self) -> (schedule: Schedule<C>) {
        let mut schedule = Schedule::new();
        let (p1, p2, p3, p4, p5) = self;
        schedule.push(p1);
        schedule.push(p2);
        schedule.push(p3);
        schedule.push(p4);
        schedule.push(p5);
        schedule
    }
}

impl<C, P1, P2, P3, P4, P5, P6> Passes<C> for (P1, P2, P3, P4, P5, P6) where
    P1: Pass<Ctx = C> + Send + Sync + 'static,
    P2: Pass<Ctx = C> + Send + Sync + 'static,
    P3: Pass<Ctx = C> + Send + Sync + 'static,
    P4: Pass<Ctx = C> + Send + Sync + 'static,
    P5: Pass<Ctx = C> + Send + Sync + 'static,
    P6: Pass<Ctx = C> + Send + Sync + 'static,
{
    open spec fn count(&self) -> nat {
        6
    }

    open spec fn pass_accepts(&self, round: int, source: &str, span: Span, ctx: &C) -> bool {
        if round == 0 {
            self.0.accepts(source, span, ctx)
        } else if round == 1 {
            self.1.accepts(source, span, ctx)
        } else if round == 2 {
            self.2.accepts(source, span, ctx)
        } else if round == 3 {
            self.3.accepts(source, span, ctx)
        } else if round == 4 {
            self.4.accepts(source, span, ctx)
        } else if round == 5 {
            self.5.accepts(source, span, ctx)
        } else {
            false
        }
    }

    open spec fn pass_may_return(
        &self,
        round: int,
        source: &str,
        span: Span,
        ctx: &C,
        outcome: Outcome<C>,
    ) -> bool {
        if round == 0 {
            self.0.may_return(source, span, ctx, outcome)
        } else if round == 1 {
            self.1.may_return(source, span, ctx, outcome)
        } else if round == 2 {
            self.2.may_return(source, span, ctx, outcome)
        } else if round == 3 {
            self.3.may_return(source, span, ctx, outcome)
        } else if round == 4 {
            self.4.may_return(source, span, ctx, outcome)
        } else if round == 5 {
            self.5.may_return(source, span, ctx, outcome)
        } else {
            false
        }
    }

    open spec fn pass_may_be_named(&self, round: int, name: &'static str) -> bool {
        if round == 0 {
            call_ensures(P1::name, (&self.0,), name)
        } else if round == 1 {
            call_ensures(P2::name, (&self.1,), name)
        } else if round == 2 {
            call_ensures(P3::name, (&self.2,), name)
        } else if round == 3 {
            call_ensures(P4::name, (&self.3,), name)
        } else if round == 4 {
            call_ensures(P5::name, (&self.4,), name)
        } else if round == 5 {
            call_ensures(P6::name, (&self.5,), name)
        } else {
            false
        }
    }

    fn into_schedule(self) -> (schedule: Schedule<C>) {
        let mut schedule = Schedule::new();
        let (p1, p2, p3, p4, p5, p6) = self;
        schedule.push(p1);
        schedule.push(p2);
        schedule.push(p3);
        schedule.push(p4);
        schedule.push(p5);
        schedule.push(p6);
        schedule
    }
}

impl<C, P1, P2, P3, P4, P5, P6, P7> Passes<C> for (P1, P2, P3, P4, P5, P6, P7) where
    P1: Pass<Ctx = C> + Send + Sync + 'static,
    P2: Pass<Ctx = C> + Send + Sync + 'static,
    P3: Pass<Ctx = C> + Send + Sync + 'static,
    P4: Pass<Ctx = C> + Send + Sync + 'static,
    P5: Pass<Ctx = C> + Send + Sync + 'static,
    P6: Pass<Ctx = C> + Send + Sync + 'static,
    P7: Pass<Ctx = C> + Send + Sync + 'static,
{
    open spec fn count(&self) -> nat {
        7
    }

    open spec fn pass_accepts(&self, round: int, source: &str, span: Span, ctx: &C) -> bool {
        if round == 0 {
            self.0.accepts(source, span, ctx)
        } else if round == 1 {
            self.1.accepts(source, span, ctx)
        } else if round == 2 {
            self.2.accepts(source, span, ctx)
        } else if round == 3 {
            self.3.accepts(source, span, ctx)
        } else if round == 4 {
            self.4.accepts(source, span, ctx)
        } else if round == 5 {
            self.5.accepts(source, span, ctx)
        } else if round == 6 {
            self.6.accepts(source, span, ctx)
        } else {
            false
        }
    }

    open spec fn pass_may_return(
        &self,
        round: int,
        source: &str,
        span: Span,
        ctx: &C,
        outcome: Outcome<C>,
    ) -> bool {
        if round == 0 {
            self.0.may_return(source, span, ctx, outcome)
        } else if round == 1 {
            self.1.may_return(source, span, ctx, outcome)
        } else if round == 2 {
            self.2.may_return(source, span, ctx, outcome)
        } else if round == 3 {
            self.3.may_return(source, span, ctx, outcome)
        } else if round == 4 {
            self.4.may_return(source, span, ctx, outcome)
        } else if round == 5 {
            self.5.may_return(source, span, ctx, outcome)
        } else if round == 6 {
            self.6.may_return(source, span, ctx, outcome)
        } else {
            false
        }
    }

    open spec fn pass_may_be_named(&self, round: int, name: &'static str) -> bool {
        if round == 0 {
            call_ensures(P1::name, (&self.0,), name)
        } else if round == 1 {
            call_ensures(P2::name, (&self.1,), name)
        } else if round == 2 {
            call_ensures(P3::name, (&self.2,), name)
        } else if round == 3 {
            call_ensures(P4::name, (&self.3,), name)
        } else if round == 4 {
            call_ensures(P5::name, (&self.4,), name)
        } else if round == 5 {
            call_ensures(P6::name, (&self.5,), name)
        } else if round == 6 {
            call_ensures(P7::name, (&self.6,), name)
        } else {
            false
        }
    }

    fn into_schedule(self) -> (schedule: Schedule<C>) {
        let mut schedule = Schedule::new();
        let (p1, p2, p3, p4, p5, p6, p7) = self;
        schedule.push(p1);
        schedule.push(p2);
        schedule.push(p3);
        schedule.push(p4);
        schedule.push(p5);
        schedule.push(p6);
        schedule.push(p7);
        schedule
    }
}

impl<C, P1, P2, P3, P4, P5, P6, P7, P8> Passes<C> for (P1, P2, P3, P4, P5, P6, P7, P8) where
    P1: Pass<Ctx = C> + Send + Sync + 'static,
    P2: Pass<Ctx = C> + Send + Sync + 'static,
    P3: Pass<Ctx = C> + Send + Sync + 'static,
    P4: Pass<Ctx = C> + Send + Sync + 'static,
    P5: Pass<Ctx = C> + Send + Sync + 'static,
    P6: Pass<Ctx = C> + Send + Sync + 'static,
    P7: Pass<Ctx = C> + Send + Sync + 'static,
    P8: Pass<Ctx = C> + Send + Sync + 'static,
{
    open spec fn count(&self) -> nat {
        8
    }

    open spec fn pass_accepts(&self, round: int, source: &str, span: Span, ctx: &C) -> bool {
        if round == 0 {
            self.0.accepts(source, span, ctx)
        } else if round == 1 {
            self.1.accepts(source, span, ctx)
        } else if round == 2 {
            self.2.accepts(source, span, ctx)
        } else if round == 3 {
            self.3.accepts(source, span, ctx)
        } else if round == 4 {
            self.4.accepts(source, span, ctx)
        } else if round == 5 {
            self.5.accepts(source, span, ctx)
        } else if round == 6 {
            self.6.accepts(source, span, ctx)
        } else if round == 7 {
            self.7.accepts(source, span, ctx)
        } else {
            false
        }
    }

    open spec fn pass_may_return(
        &self,
        round: int,
        source: &str,
        span: Span,
        ctx: &C,
        outcome: Outcome<C>,
    ) -> bool {
        if round == 0 {
            self.0.may_return(source, span, ctx, outcome)
        } else if round == 1 {
            self.1.may_return(source, span, ctx, outcome)
        } else if round == 2 {
            self.2.may_return(source, span, ctx, outcome)
        } else if round == 3 {
            self.3.may_return(source, span, ctx, outcome)
        } else if round == 4 {
            self.4.may_return(source, span, ctx, outcome)
        } else if round == 5 {
            self.5.may_return(source, span, ctx, outcome)
        } else if round == 6 {
            self.6.may_return(source, span, ctx, outcome)
        } else if round == 7 {
            self.7.may_return(source, span, ctx, outcome)
        } else {
            false
        }
    }

    open spec fn pass_may_be_named(&self, round: int, name: &'static str) -> bool {
        if round == 0 {
            call_ensures(P1::name, (&self.0,), name)
        } else if round == 1 {
            call_ensures(P2::name, (&self.1,), name)
        } else if round == 2 {
            call_ensures(P3::name, (&self.2,), name)
        } else if round == 3 {
            call_ensures(P4::name, (&self.3,), name)
        } else if round == 4 {
            call_ensures(P5::name, (&self.4,), name)
        } else if round == 5 {
            call_ensures(P6::name, (&self.5,), name)
        } else if round == 6 {
            call_ensures(P7::name, (&self.6,), name)
        } else if round == 7 {
            call_ensures(P8::name, (&self.7,), name)
        } else {
            false
        }
    }

    fn into_schedule(self) -> (schedule: Schedule<C>) {
        let mut schedule = Schedule::new();
        let (p1, p2, p3, p4, p5, p6, p7, p8) = self;
        schedule.push(p1);
        schedule.push(p2);
        schedule.push(p3);
        schedule.push(p4);
        schedule.push(p5);
        schedule.push(p6);
        schedule.push(p7);
        schedule.push(p8);
        schedule
    }
}

impl<C, P1, P2, P3, P4, P5, P6, P7, P8, P9> Passes<C> for (P1, P2, P3, P4, P5, P6, P7, P8, P9) where
    P1: Pass<Ctx = C> + Send + Sync + 'static,
    P2: Pass<Ctx = C> + Send + Sync + 'static,
    P3: Pass<Ctx = C> + Send + Sync + 'static,
    P4: Pass<Ctx = C> + Send + Sync + 'static,
    P5: Pass<Ctx = C> + Send + Sync + 'static,
    P6: Pass<Ctx = C> + Send + Sync + 'static,
    P7: Pass<Ctx = C> + Send + Sync + 'static,
    P8: Pass<Ctx = C> + Send + Sync + 'static,
    P9: Pass<Ctx = C> + Send + Sync + 'static,
{
    open spec fn count(&self) -> nat {
        9
    }

    open spec fn pass_accepts(&self, round: int, source: &str, span: Span, ctx: &C) -> bool {
        if round == 0 {
            self.0.accepts(source, span, ctx)
        } else if round == 1 {
            self.1.accepts(source, span, ctx)
        } else if round == 2 {
            self.2.accepts(source, span, ctx)
        } else if round == 3 {
            self.3.accepts(source, span, ctx)
        } else if round == 4 {
            self.4.accepts(source, span, ctx)
        } else if round == 5 {
            self.5.accepts(source, span, ctx)
        } else if round == 6 {
            self.6.accepts(source, span, ctx)
        } else if round == 7 {
            self.7.accepts(source, span, ctx)
        } else if round == 8 {
            self.8.accepts(source, span, ctx)
        } else {
            false
        }
    }

    open spec fn pass_may_return(
        &self,
        round: int,
        source: &str,
        span: Span,
        ctx: &C,
        outcome: Outcome<C>,
    ) -> bool {
        if round == 0 {
            self.0.may_return(source, span, ctx, outcome)
        } else if round == 1 {
            self.1.may_return(source, span, ctx, outcome)
        } else if round == 2 {
            self.2.may_return(source, span, ctx, outcome)
        } else if round == 3 {
            self.3.may_return(source, span, ctx, outcome)
        } else if round == 4 {
            self.4.may_return(source, span, ctx, outcome)
        } else if round == 5 {
            self.5.may_return(source, span, ctx, outcome)
        } else if round == 6 {
            self.6.may_return(source, span, ctx, outcome)
        } else if round == 7 {
            self.7.may_return(source, span, ctx, outcome)
        } else if round == 8 {
            self.8.may_return(source, span, ctx, outcome)
        } else {
            false
        }
    }

    open spec fn pass_may_be_named(&self, round: int, name: &'static str) -> bool {
        if round == 0 {
            call_ensures(P1::name, (&self.0,), name)
        } else if round == 1 {
            call_ensures(P2::name, (&self.1,), name)
        } else if round == 2 {
            call_ensures(P3::name, (&self.2,), name)
        } else if round == 3 {
            call_ensures(P4::name, (&self.3,), name)
        } else if round == 4 {
            call_ensures(P5::name, (&self.4,), name)
        } else if round == 5 {
            call_ensures(P6::name, (&self.5,), name)
        } else if round == 6 {
            call_ensures(P7::name, (&self.6,), name)
        } else if round == 7 {
            call_ensures(P8::name, (&self.7,), name)
        } else if round == 8 {
            call_ensures(P9::name, (&self.8,), name)
        } else {
            false
        }
    }

    fn into_schedule(self) -> (schedule: Schedule<C>) {
        let mut schedule = Schedule::new();
        let (p1, p2, p3, p4, p5, p6, p7, p8, p9) = self;
        schedule.push(p1);
        schedule.push(p2);
        schedule.push(p3);
        schedule.push(p4);
        schedule.push(p5);
        schedule.push(p6);
        schedule.push(p7);
        schedule.push(p8);
        schedule.push(p9);
        schedule
    }
}

impl<C, P1, P2, P3, P4, P5, P6, P7, P8, P9, P10> Passes<C> for (P1, P2, P3, P4, P5, P6, P7, P8, P9, P10) where
    P1: Pass<Ctx = C> + Send + Sync + 'static,
    P2: Pass<Ctx = C> + Send + Sync + 'static,
    P3: Pass<Ctx = C> + Send + Sync + 'static,
    P4: Pass<Ctx = C> + Send + Sync + 'static,
    P5: Pass<Ctx = C> + Send + Sync + 'static,
    P6: Pass<Ctx = C> + Send + Sync + 'static,
    P7: Pass<Ctx = C> + Send + Sync + 'static,
    P8: Pass<Ctx = C> + Send + Sync + 'static,
    P9: Pass<Ctx = C> + Send + Sync + 'static,
    P10: Pass<Ctx = C> + Send + Sync + 'static,
{
    open spec fn count(&self) -> nat {
        10
    }

    open spec fn pass_accepts(&self, round: int, source: &str, span: Span, ctx: &C) -> bool {
        if round == 0 {
            self.0.accepts(source, span, ctx)
        } else if round == 1 {
            self.1.accepts(source, span, ctx)
        } else if round == 2 {
            self.2.accepts(source, span, ctx)
        } else if round == 3 {
            self.3.accepts(source, span, ctx)
        } else if round == 4 {
            self.4.accepts(source, span, ctx)
        } else if round == 5 {
            self.5.accepts(source, span, ctx)
        } else if round == 6 {
            self.6.accepts(source, span, ctx)
        } else if round == 7 {
            self.7.accepts(source, span, ctx)
        } else if round == 8 {
            self.8.accepts(source, span, ctx)
        } else if round == 9 {
            self.9.accepts(source, span, ctx)
        } else {
            false
        }
    }

    open spec fn pass_may_return(
        &self,
        round: int,
        source: &str,
        span: Span,
        ctx: &C,
        outcome: Outcome<C>,
    ) -> bool {
        if round == 0 {
            self.0.may_return(source, span, ctx, outcome)
        } else if round == 1 {
            self.1.may_return(source, span, ctx, outcome)
        } else if round == 2 {
            self.2.may_return(source, span, ctx, outcome)
        } else if round == 3 {
            self.3.may_return(source, span, ctx, outcome)
        } else if round == 4 {
            self.4.may_return(source, span, ctx, outcome)
        } else if round == 5 {
            self.5.may_return(source, span, ctx, outcome)
        } else if round == 6 {
            self.6.may_return(source, span, ctx, outcome)
        } else if round == 7 {
            self.7.may_return(source, span, ctx, outcome)
        } else if round == 8 {
            self.8.may_return(source, span, ctx, outcome)
        } else if round == 9 {
            self.9.may_return(source, span, ctx, outcome)
        } else {
            false
        }
    }

    open spec fn pass_may_be_named(&self, round: int, name: &'static str) -> bool {
        if round == 0 {
            call_ensures(P1::name, (&self.0,), name)
        } else if round == 1 {
            call_ensures(P2::name, (&self.1,), name)
        } else if round == 2 {
            call_ensures(P3::name, (&self.2,), name)
        } else if round == 3 {
            call_ensures(P4::name, (&self.3,), name)
        } else if round == 4 {
            call_ensures(P5::name, (&self.4,), name)
        } else if round == 5 {
            call_ensures(P6::name, (&self.5,), name)
        } else if round == 6 {
            call_ensures(P7::name, (&self.6,), name)
        } else if round == 7 {
            call_ensures(P8::name, (&self.7,), name)
        } else if round == 8 {
            call_ensures(P9::name, (&self.8,), name)
        } else if round == 9 {
            call_ensures(P10::name, (&self.9,), name)
        } else {
            false
        }
    }

    fn into_schedule(self) -> (schedule: Schedule<C>) {
        let mut schedule = Schedule::new();
        let (p1, p2, p3, p4, p5, p6, p7, p8, p9, p10) = self;
        schedule.push(p1);
        schedule.push(p2);
        schedule.push(p3);
        schedule.push(p4);
        schedule.push(p5);
        schedule.push(p6);
        schedule.push(p7);
        schedule.push(p8);
        schedule.push(p9);
        schedule.push(p10);
        schedule
    }
}

impl<C, P1, P2, P3, P4, P5, P6, P7, P8, P9, P10, P11> Passes<C> for (P1, P2, P3, P4, P5, P6, P7, P8, P9, P10, P11) where
    P1: Pass<Ctx = C> + Send + Sync + 'static,
    P2: Pass<Ctx = C> + Send + Sync + 'static,
    P3: Pass<Ctx = C> + Send + Sync + 'static,
    P4: Pass<Ctx = C> + Send + Sync + 'static,
    P5: Pass<Ctx = C> + Send + Sync + 'static,
    P6: Pass<Ctx = C> + Send + Sync + 'static,
    P7: Pass<Ctx = C> + Send + Sync + 'static,
    P8: Pass<Ctx = C> + Send + Sync + 'static,
    P9: Pass<Ctx = C> + Send + Sync + 'static,
    P10: Pass<Ctx = C> + Send + Sync + 'static,
    P11: Pass<Ctx = C> + Send + Sync + 'static,
{
    open spec fn count(&self) -> nat {
        11
    }

    open spec fn pass_accepts(&self, round: int, source: &str, span: Span, ctx: &C) -> bool {
        if round == 0 {
            self.0.accepts(source, span, ctx)
        } else if round == 1 {
            self.1.accepts(source, span, ctx)
        } else if round == 2 {
            self.2.accepts(source, span, ctx)
        } else if round == 3 {
            self.3.accepts(source, span, ctx)
        } else if round == 4 {
            self.4.accepts(source, span, ctx)
        } else if round == 5 {
            self.5.accepts(source, span, ctx)
        } else if round == 6 {
            self.6.accepts(source, span, ctx)
        } else if round == 7 {
            self.7.accepts(source, span, ctx)
        } else if round == 8 {
            self.8.accepts(source, span, ctx)
        } else if round == 9 {
            self.9.accepts(source, span, ctx)
        } else if round == 10 {
            self.10.accepts(source, span, ctx)
        } else {
            false
        }
    }

    open spec fn pass_may_return(
        &self,
        round: int,
        source: &str,
        span: Span,
        ctx: &C,
        outcome: Outcome<C>,
    ) -> bool {
        if round == 0 {
            self.0.may_return(source, span, ctx, outcome)
        } else if round == 1 {
            self.1.may_return(source, span, ctx, outcome)
        } else if round == 2 {
            self.2.may_return(source, span, ctx, outcome)
        } else if round == 3 {
            self.3.may_return(source, span, ctx, outcome)
        } else if round == 4 {
            self.4.may_return(source, span, ctx, outcome)
        } else if round == 5 {
            self.5.may_return(source, span, ctx, outcome)
        } else if round == 6 {
            self.6.may_return(source, span, ctx, outcome)
        } else if round == 7 {
            self.7.may_return(source, span, ctx, outcome)
        } else if round == 8 {
            self.8.may_return(source, span, ctx, outcome)
        } else if round == 9 {
            self.9.may_return(source, span, ctx, outcome)
        } else if round == 10 {
            self.10.may_return(source, span, ctx, outcome)
        } else {
            false
        }
    }

    open spec fn pass_may_be_named(&self, round: int, name: &'static str) -> bool {
        if round == 0 {
            call_ensures(P1::name, (&self.0,), name)
        } else if round == 1 {
            call_ensures(P2::name, (&self.1,), name)
        } else if round == 2 {
            call_ensures(P3::name, (&self.2,), name)
        } else if round == 3 {
            call_ensures(P4::name, (&self.3,), name)
        } else if round == 4 {
            call_ensures(P5::name, (&self.4,), name)
        } else if round == 5 {
            call_ensures(P6::name, (&self.5,), name)
        } else if round == 6 {
            call_ensures(P7::name, (&self.6,), name)
        } else if round == 7 {
            call_ensures(P8::name, (&self.7,), name)
        } else if round == 8 {
            call_ensures(P9::name, (&self.8,), name)
        } else if round == 9 {
            call_ensures(P10::name, (&self.9,), name)
        } else if round == 10 {
            call_ensures(P11::name, (&self.10,), name)
        } else {
            false
        }
    }

    fn into_schedule(self) -> (schedule: Schedule<C>) {
        let mut schedule = Schedule::new();
        let (p1, p2, p3, p4, p5, p6, p7, p8, p9, p10, p11) = self;
        schedule.push(p1);
        schedule.push(p2);
        schedule.push(p3);
        schedule.push(p4);
        schedule.push(p5);
        schedule.push(p6);
        schedule.push(p7);
        schedule.push(p8);
        schedule.push(p9);
        schedule.push(p10);
        schedule.push(p11);
        schedule
    }
}

impl<C, P1, P2, P3, P4, P5, P6, P7, P8, P9, P10, P11, P12> Passes<C> for (P1, P2, P3, P4, P5, P6, P7, P8, P9, P10, P11, P12) where
    P1: Pass<Ctx = C> + Send + Sync + 'static,
    P2: Pass<Ctx = C> + Send + Sync + 'static,
    P3: Pass<Ctx = C> + Send + Sync + 'static,
    P4: Pass<Ctx = C> + Send + Sync + 'static,
    P5: Pass<Ctx = C> + Send + Sync + 'static,
    P6: Pass<Ctx = C> + Send + Sync + 'static,
    P7: Pass<Ctx = C> + Send + Sync + 'static,
    P8: Pass<Ctx = C> + Send + Sync + 'static,
    P9: Pass<Ctx = C> + Send + Sync + 'static,
    P10: Pass<Ctx = C> + Send + Sync + 'static,
    P11: Pass<Ctx = C> + Send + Sync + 'static,
    P12: Pass<Ctx = C> + Send + Sync + 'static,
{
    open spec fn count(&self) -> nat {
        12
    }

    open spec fn pass_accepts(&self, round: int, source: &str, span: Span, ctx: &C) -> bool {
        if round == 0 {
            self.0.accepts(source, span, ctx)
        } else if round == 1 {
            self.1.accepts(source, span, ctx)
        } else if round == 2 {
            self.2.accepts(source, span, ctx)
        } else if round == 3 {
            self.3.accepts(source, span, ctx)
        } else if round == 4 {
            self.4.accepts(source, span, ctx)
        } else if round == 5 {
            self.5.accepts(source, span, ctx)
        } else if round == 6 {
            self.6.accepts(source, span, ctx)
        } else if round == 7 {
            self.7.accepts(source, span, ctx)
        } else if round == 8 {
            self.8.accepts(source, span, ctx)
        } else if round == 9 {
            self.9.accepts(source, span, ctx)
        } else if round == 10 {
            self.10.accepts(source, span, ctx)
        } else if round == 11 {
            self.11.accepts(source, span, ctx)
        } else {
            false
        }
    }

    open spec fn pass_may_return(
        &self,
        round: int,
        source: &str,
        span: Span,
        ctx: &C,
        outcome: Outcome<C>,
    ) -> bool {
        if round == 0 {
            self.0.may_return(source, span, ctx, outcome)
        } else if round == 1 {
            self.1.may_return(source, span, ctx, outcome)
        } else if round == 2 {
            self.2.may_return(source, span, ctx, outcome)
        } else if round == 3 {
            self.3.may_return(source, span, ctx, outcome)
        } else if round == 4 {
            self.4.may_return(source, span, ctx, outcome)
        } else if round == 5 {
            self.5.may_return(source, span, ctx, outcome)
        } else if round == 6 {
            self.6.may_return(source, span, ctx, outcome)
        } else if round == 7 {
            self.7.may_return(source, span, ctx, outcome)
        } else if round == 8 {
            self.8.may_return(source, span, ctx, outcome)
        } else if round == 9 {
            self.9.may_return(source, span, ctx, outcome)
        } else if round == 10 {
            self.10.may_return(source, span, ctx, outcome)
        } else if round == 11 {
            self.11.may_return(source, span, ctx, outcome)
        } else {
            false
        }
    }

    open spec fn pass_may_be_named(&self, round: int, name: &'static str) -> bool {
        if round == 0 {
            call_ensures(P1::name, (&self.0,), name)
        } else if round == 1 {
            call_ensures(P2::name, (&self.1,), name)
        } else if round == 2 {
            call_ensures(P3::name, (&self.2,), name)
        } else if round == 3 {
            call_ensures(P4::name, (&self.3,), name)
        } else if round == 4 {
            call_ensures(P5::name, (&self.4,), name)
        } else if round == 5 {
            call_ensures(P6::name, (&self.5,), name)
        } else if round == 6 {
            call_ensures(P7::name, (&self.6,), name)
        } else if round == 7 {
            call_ensures(P8::name, (&self.7,), name)
        } else if round == 8 {
            call_ensures(P9::name, (&self.8,), name)
        } else if round == 9 {
            call_ensures(P10::name, (&self.9,), name)
        } else if round == 10 {
            call_ensures(P11::name, (&self.10,), name)
        } else if round == 11 {
            call_ensures(P12::name, (&self.11,), name)
        } else {
            false
        }
    }

    fn into_schedule(self) -> (schedule: Schedule<C>) {
        let mut schedule = Schedule::new();
        let (p1, p2, p3, p4, p5, p6, p7, p8, p9, p10, p11, p12) = self;
        schedule.push(p1);
        schedule.push(p2);
        schedule.push(p3);
        schedule.push(p4);
        schedule.push(p5);
        schedule.push(p6);
        schedule.push(p7);
        schedule.push(p8);
        schedule.push(p9);
        schedule.push(p10);
        schedule.push(p11);
        schedule.push(p12);
        schedule
    }
}

/// The pass for `round` is `pass`.
pub open spec fn plays<C, S: Passes<C>, P: Pass<Ctx = C>>(
    passes: &S,
    round: int,
    pass: &P,
) -> bool {
    &&& 0 <= round < passes.count()
    &&& forall|source: &str, span: Span, ctx: &C| #[trigger]
        passes.pass_accepts(round, source, span, ctx) == pass.accepts(source, span, ctx)
    &&& forall|source: &str, span: Span, ctx: &C, outcome: Outcome<C>| #[trigger]
        passes.pass_may_return(round, source, span, ctx, outcome) == pass.may_return(
            source,
            span,
            ctx,
            outcome,
        )
    &&& forall|name: &'static str| #[trigger]
        passes.pass_may_be_named(round, name) == call_ensures(P::name, (pass,), name)
}

/// In a tuple of one, round 0 runs it.
pub proof fn law_tuple_of_one<C, P1>(passes: (P1,)) where
    P1: Pass<Ctx = C> + Send + Sync + 'static,

    ensures
        passes.count() == 1,
        plays(&passes, 0, &passes.0),
{
}

/// In a tuple of two, round 0 runs the first and round 1 the second.
pub proof fn law_tuple_of_two<C, P1, P2>(passes: (P1, P2)) where
    P1: Pass<Ctx = C> + Send + Sync + 'static,
    P2: Pass<Ctx = C> + Send + Sync + 'static,

    ensures
        passes.count() == 2,
        plays(&passes, 0, &passes.0),
        plays(&passes, 1, &passes.1),
{
}

/// In a tuple of three, round 0 runs the first, round 1 the second, and so on.
pub proof fn law_tuple_of_three<C, P1, P2, P3>(passes: (P1, P2, P3)) where
    P1: Pass<Ctx = C> + Send + Sync + 'static,
    P2: Pass<Ctx = C> + Send + Sync + 'static,
    P3: Pass<Ctx = C> + Send + Sync + 'static,

    ensures
        passes.count() == 3,
        plays(&passes, 0, &passes.0),
        plays(&passes, 1, &passes.1),
        plays(&passes, 2, &passes.2),
{
}

/// In a tuple of four, round 0 runs the first, round 1 the second, and so on.
pub proof fn law_tuple_of_four<C, P1, P2, P3, P4>(passes: (P1, P2, P3, P4)) where
    P1: Pass<Ctx = C> + Send + Sync + 'static,
    P2: Pass<Ctx = C> + Send + Sync + 'static,
    P3: Pass<Ctx = C> + Send + Sync + 'static,
    P4: Pass<Ctx = C> + Send + Sync + 'static,

    ensures
        passes.count() == 4,
        plays(&passes, 0, &passes.0),
        plays(&passes, 1, &passes.1),
        plays(&passes, 2, &passes.2),
        plays(&passes, 3, &passes.3),
{
}

/// In a tuple of five, round 0 runs the first, round 1 the second, and so on.
pub proof fn law_tuple_of_five<C, P1, P2, P3, P4, P5>(passes: (P1, P2, P3, P4, P5)) where
    P1: Pass<Ctx = C> + Send + Sync + 'static,
    P2: Pass<Ctx = C> + Send + Sync + 'static,
    P3: Pass<Ctx = C> + Send + Sync + 'static,
    P4: Pass<Ctx = C> + Send + Sync + 'static,
    P5: Pass<Ctx = C> + Send + Sync + 'static,

    ensures
        passes.count() == 5,
        plays(&passes, 0, &passes.0),
        plays(&passes, 1, &passes.1),
        plays(&passes, 2, &passes.2),
        plays(&passes, 3, &passes.3),
        plays(&passes, 4, &passes.4),
{
}

/// In a tuple of six, round 0 runs the first, round 1 the second, and so on.
pub proof fn law_tuple_of_six<C, P1, P2, P3, P4, P5, P6>(passes: (P1, P2, P3, P4, P5, P6)) where
    P1: Pass<Ctx = C> + Send + Sync + 'static,
    P2: Pass<Ctx = C> + Send + Sync + 'static,
    P3: Pass<Ctx = C> + Send + Sync + 'static,
    P4: Pass<Ctx = C> + Send + Sync + 'static,
    P5: Pass<Ctx = C> + Send + Sync + 'static,
    P6: Pass<Ctx = C> + Send + Sync + 'static,

    ensures
        passes.count() == 6,
        plays(&passes, 0, &passes.0),
        plays(&passes, 1, &passes.1),
        plays(&passes, 2, &passes.2),
        plays(&passes, 3, &passes.3),
        plays(&passes, 4, &passes.4),
        plays(&passes, 5, &passes.5),
{
}

/// In a tuple of seven, round 0 runs the first, round 1 the second, and so on.
pub proof fn law_tuple_of_seven<C, P1, P2, P3, P4, P5, P6, P7>(passes: (P1, P2, P3, P4, P5, P6, P7)) where
    P1: Pass<Ctx = C> + Send + Sync + 'static,
    P2: Pass<Ctx = C> + Send + Sync + 'static,
    P3: Pass<Ctx = C> + Send + Sync + 'static,
    P4: Pass<Ctx = C> + Send + Sync + 'static,
    P5: Pass<Ctx = C> + Send + Sync + 'static,
    P6: Pass<Ctx = C> + Send + Sync + 'static,
    P7: Pass<Ctx = C> + Send + Sync + 'static,

    ensures
        passes.count() == 7,
        plays(&passes, 0, &passes.0),
        plays(&passes, 1, &passes.1),
        plays(&passes, 2, &passes.2),
        plays(&passes, 3, &passes.3),
        plays(&passes, 4, &passes.4),
        plays(&passes, 5, &passes.5),
        plays(&passes, 6, &passes.6),
{
}

/// In a tuple of eight, round 0 runs the first, round 1 the second, and so on.
pub proof fn law_tuple_of_eight<C, P1, P2, P3, P4, P5, P6, P7, P8>(passes: (P1, P2, P3, P4, P5, P6, P7, P8)) where
    P1: Pass<Ctx = C> + Send + Sync + 'static,
    P2: Pass<Ctx = C> + Send + Sync + 'static,
    P3: Pass<Ctx = C> + Send + Sync + 'static,
    P4: Pass<Ctx = C> + Send + Sync + 'static,
    P5: Pass<Ctx = C> + Send + Sync + 'static,
    P6: Pass<Ctx = C> + Send + Sync + 'static,
    P7: Pass<Ctx = C> + Send + Sync + 'static,
    P8: Pass<Ctx = C> + Send + Sync + 'static,

    ensures
        passes.count() == 8,
        plays(&passes, 0, &passes.0),
        plays(&passes, 1, &passes.1),
        plays(&passes, 2, &passes.2),
        plays(&passes, 3, &passes.3),
        plays(&passes, 4, &passes.4),
        plays(&passes, 5, &passes.5),
        plays(&passes, 6, &passes.6),
        plays(&passes, 7, &passes.7),
{
}

/// In a tuple of nine, round 0 runs the first, round 1 the second, and so on.
pub proof fn law_tuple_of_nine<C, P1, P2, P3, P4, P5, P6, P7, P8, P9>(passes: (P1, P2, P3, P4, P5, P6, P7, P8, P9)) where
    P1: Pass<Ctx = C> + Send + Sync + 'static,
    P2: Pass<Ctx = C> + Send + Sync + 'static,
    P3: Pass<Ctx = C> + Send + Sync + 'static,
    P4: Pass<Ctx = C> + Send + Sync + 'static,
    P5: Pass<Ctx = C> + Send + Sync + 'static,
    P6: Pass<Ctx = C> + Send + Sync + 'static,
    P7: Pass<Ctx = C> + Send + Sync + 'static,
    P8: Pass<Ctx = C> + Send + Sync + 'static,
    P9: Pass<Ctx = C> + Send + Sync + 'static,

    ensures
        passes.count() == 9,
        plays(&passes, 0, &passes.0),
        plays(&passes, 1, &passes.1),
        plays(&passes, 2, &passes.2),
        plays(&passes, 3, &passes.3),
        plays(&passes, 4, &passes.4),
        plays(&passes, 5, &passes.5),
        plays(&passes, 6, &passes.6),
        plays(&passes, 7, &passes.7),
        plays(&passes, 8, &passes.8),
{
}

/// In a tuple of ten, round 0 runs the first, round 1 the second, and so on.
pub proof fn law_tuple_of_ten<C, P1, P2, P3, P4, P5, P6, P7, P8, P9, P10>(passes: (P1, P2, P3, P4, P5, P6, P7, P8, P9, P10)) where
    P1: Pass<Ctx = C> + Send + Sync + 'static,
    P2: Pass<Ctx = C> + Send + Sync + 'static,
    P3: Pass<Ctx = C> + Send + Sync + 'static,
    P4: Pass<Ctx = C> + Send + Sync + 'static,
    P5: Pass<Ctx = C> + Send + Sync + 'static,
    P6: Pass<Ctx = C> + Send + Sync + 'static,
    P7: Pass<Ctx = C> + Send + Sync + 'static,
    P8: Pass<Ctx = C> + Send + Sync + 'static,
    P9: Pass<Ctx = C> + Send + Sync + 'static,
    P10: Pass<Ctx = C> + Send + Sync + 'static,

    ensures
        passes.count() == 10,
        plays(&passes, 0, &passes.0),
        plays(&passes, 1, &passes.1),
        plays(&passes, 2, &passes.2),
        plays(&passes, 3, &passes.3),
        plays(&passes, 4, &passes.4),
        plays(&passes, 5, &passes.5),
        plays(&passes, 6, &passes.6),
        plays(&passes, 7, &passes.7),
        plays(&passes, 8, &passes.8),
        plays(&passes, 9, &passes.9),
{
}

/// In a tuple of eleven, round 0 runs the first, round 1 the second, and so on.
pub proof fn law_tuple_of_eleven<C, P1, P2, P3, P4, P5, P6, P7, P8, P9, P10, P11>(passes: (P1, P2, P3, P4, P5, P6, P7, P8, P9, P10, P11)) where
    P1: Pass<Ctx = C> + Send + Sync + 'static,
    P2: Pass<Ctx = C> + Send + Sync + 'static,
    P3: Pass<Ctx = C> + Send + Sync + 'static,
    P4: Pass<Ctx = C> + Send + Sync + 'static,
    P5: Pass<Ctx = C> + Send + Sync + 'static,
    P6: Pass<Ctx = C> + Send + Sync + 'static,
    P7: Pass<Ctx = C> + Send + Sync + 'static,
    P8: Pass<Ctx = C> + Send + Sync + 'static,
    P9: Pass<Ctx = C> + Send + Sync + 'static,
    P10: Pass<Ctx = C> + Send + Sync + 'static,
    P11: Pass<Ctx = C> + Send + Sync + 'static,

    ensures
        passes.count() == 11,
        plays(&passes, 0, &passes.0),
        plays(&passes, 1, &passes.1),
        plays(&passes, 2, &passes.2),
        plays(&passes, 3, &passes.3),
        plays(&passes, 4, &passes.4),
        plays(&passes, 5, &passes.5),
        plays(&passes, 6, &passes.6),
        plays(&passes, 7, &passes.7),
        plays(&passes, 8, &passes.8),
        plays(&passes, 9, &passes.9),
        plays(&passes, 10, &passes.10),
{
}

/// In a tuple of twelve, round 0 runs the first, round 1 the second, and so on.
pub proof fn law_tuple_of_twelve<C, P1, P2, P3, P4, P5, P6, P7, P8, P9, P10, P11, P12>(passes: (P1, P2, P3, P4, P5, P6, P7, P8, P9, P10, P11, P12)) where
    P1: Pass<Ctx = C> + Send + Sync + 'static,
    P2: Pass<Ctx = C> + Send + Sync + 'static,
    P3: Pass<Ctx = C> + Send + Sync + 'static,
    P4: Pass<Ctx = C> + Send + Sync + 'static,
    P5: Pass<Ctx = C> + Send + Sync + 'static,
    P6: Pass<Ctx = C> + Send + Sync + 'static,
    P7: Pass<Ctx = C> + Send + Sync + 'static,
    P8: Pass<Ctx = C> + Send + Sync + 'static,
    P9: Pass<Ctx = C> + Send + Sync + 'static,
    P10: Pass<Ctx = C> + Send + Sync + 'static,
    P11: Pass<Ctx = C> + Send + Sync + 'static,
    P12: Pass<Ctx = C> + Send + Sync + 'static,

    ensures
        passes.count() == 12,
        plays(&passes, 0, &passes.0),
        plays(&passes, 1, &passes.1),
        plays(&passes, 2, &passes.2),
        plays(&passes, 3, &passes.3),
        plays(&passes, 4, &passes.4),
        plays(&passes, 5, &passes.5),
        plays(&passes, 6, &passes.6),
        plays(&passes, 7, &passes.7),
        plays(&passes, 8, &passes.8),
        plays(&passes, 9, &passes.9),
        plays(&passes, 10, &passes.10),
        plays(&passes, 11, &passes.11),
{
}

/// A vector of boxed passes runs them in its order.
pub proof fn law_vector_of_passes<C>(passes: Vec<BoxedPass<C>>)
    ensures
        passes.count() == passes@.len(),
        forall|round: int, source: &str, span: Span, ctx: &C|
            0 <= round < passes@.len() ==> #[trigger] passes.pass_accepts(round, source, span, ctx)
                == passes@[round].accepts(source, span, ctx),
        forall|round: int, source: &str, span: Span, ctx: &C, outcome: Outcome<C>|
            0 <= round < passes@.len() ==> #[trigger] passes.pass_may_return(
                round,
                source,
                span,
                ctx,
                outcome,
            ) == passes@[round].may_return(source, span, ctx, outcome),
        forall|round: int, name: &'static str|
            0 <= round < passes@.len() ==> #[trigger] passes.pass_may_be_named(round, name)
                == passes@[round].may_be_named(name),
{
}

/// A schedule runs its passes in its order.
pub proof fn law_schedule_of_passes<C>(schedule: Schedule<C>)
    ensures
        schedule.count() == schedule@.len(),
        forall|round: int, source: &str, span: Span, ctx: &C|
            0 <= round < schedule@.len() ==> #[trigger] schedule.pass_accepts(
                round,
                source,
                span,
                ctx,
            ) == schedule@[round].accepts(source, span, ctx),
        forall|round: int, source: &str, span: Span, ctx: &C, outcome: Outcome<C>|
            0 <= round < schedule@.len() ==> #[trigger] schedule.pass_may_return(
                round,
                source,
                span,
                ctx,
                outcome,
            ) == schedule@[round].may_return(source, span, ctx, outcome),
        forall|round: int, name: &'static str|
            0 <= round < schedule@.len() ==> #[trigger] schedule.pass_may_be_named(round, name)
                == schedule@[round].may_be_named(name),
{
}

} // verus!
