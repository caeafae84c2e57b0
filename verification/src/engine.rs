//! The fixpoint engine that drives rounds of passes over a parse tree.

use crate::cancel::CancelToken;
use crate::executor::{Executor, SteadyExecutor};
use crate::job::Job;
use crate::model::TreeModel;
use crate::node::NodeId;
use crate::outcome::Outcome;
use crate::passes::Passes;
use crate::schedule::{BoxedPass, Schedule};
use crate::span::Span;
use crate::tree::ParseTree;
use crate::violation::{Verdict, Violation, ViolationKind};
use vstd::prelude::*;

verus! {

/// Summary of a single [`Engine::run`].
///
/// Interpretation: `reached_fixpoint` means every node settled. If neither
/// `reached_fixpoint` nor `cancelled` is set, the run consumed all its rounds
/// with work left over — typically nodes still
/// [`Unparsed`](crate::Status::Unparsed) because the schedule has no pass for
/// their round. Query [`ParseTree::pending`] to find them.
#[derive(Debug, Clone, PartialEq, Eq)]
pub struct RunReport {
    /// Number of rounds that processed at least one node.
    pub rounds_run: usize,
    /// Number of node/pass attempts executed.
    pub nodes_processed: usize,
    /// Number of attempts whose outcome was a failure (including
    /// contract-violating expansions).
    pub nodes_failed: usize,
    /// The contract violations found, in the order they were merged.
    pub violations: Vec<Violation>,
    /// `true` if the run ended because no node had work left.
    pub reached_fixpoint: bool,
    /// `true` if the run ended because the [`CancelToken`] fired.
    pub cancelled: bool,
}

impl Default for RunReport {
    fn default() -> (report: Self)
        ensures
            report.rounds_run == 0,
            report.nodes_processed == 0,
            report.nodes_failed == 0,
            report.violations@ == Seq::<Violation>::empty(),
            !report.reached_fixpoint,
            !report.cancelled,
    {
        RunReport {
            rounds_run: 0,
            nodes_processed: 0,
            nodes_failed: 0,
            violations: Vec::new(),
            reached_fixpoint: false,
            cancelled: false,
        }
    }
}

/// Tunables for an [`Engine`].
#[derive(Debug, Clone, Copy, PartialEq, Eq)]
pub struct EngineConfig {
    /// When `true`, every child span must be *strictly* smaller than its
    /// parent — an extra invariant for "always divides" passes. When
    /// `false` (the default), a child may cover its parent exactly, which
    /// is legitimate: a file containing exactly one function parses as that
    /// one function. Either way children must stay **contained** in their
    /// parent and on the same source revision.
    ///
    /// Termination does not depend on this setting: every node is processed
    /// at most once per scheduled pass, and runs are bounded by
    /// [`max_rounds`](Self::max_rounds).
    pub enforce_shrink: bool,
    /// Hard cap on rounds per run. `None` (the default) means one round per
    /// scheduled pass; no run makes more rounds than that.
    pub max_rounds: Option<usize>,
}

impl Default for EngineConfig {
    fn default() -> (config: Self)
        ensures
            config == (EngineConfig { enforce_shrink: false, max_rounds: None }),
    {
        EngineConfig { enforce_shrink: false, max_rounds: None }
    }
}

/// What happened in one round of a run.
pub struct RoundTrace<C> {
    /// The batch: one job per node that was due.
    pub jobs: Seq<Job<C>>,
    /// The jobs that were executed, with their outcomes: a prefix of the
    /// batch.
    pub executed: Seq<(Job<C>, Outcome<C>)>,
    /// The tree before the round and after each merge.
    pub trees: Seq<TreeModel<C>>,
}

/// A child region the engine refused.
pub struct Rejection {
    /// The node whose outcome was rejected.
    pub node: NodeId,
    /// The round in which it happened.
    pub round: nat,
    /// The offending child region.
    pub span: Span,
    /// What is wrong with it.
    pub kind: ViolationKind,
}

/// `n`, or the largest machine count where `n` is larger.
pub open spec fn capped(n: nat) -> int {
    if n <= usize::MAX {
        n as int
    } else {
        usize::MAX as int
    }
}

/// What the engine makes of an executed job.
pub open spec fn job_verdict<C>(executed: (Job<C>, Outcome<C>), enforce_shrink: bool) -> Verdict {
    crate::violation::verdict(executed.0.span, executed.1@, enforce_shrink)
}

/// How many of the first `n` executed jobs fail their node.
pub open spec fn fail_count<C>(
    executed: Seq<(Job<C>, Outcome<C>)>,
    n: int,
    enforce_shrink: bool,
) -> nat
    decreases n,
{
    if n <= 0 {
        0
    } else {
        fail_count(executed, n - 1, enforce_shrink) + (if job_verdict(
            executed[n - 1],
            enforce_shrink,
        ).fails() {
            1nat
        } else {
            0nat
        })
    }
}

/// The regions refused among the first `n` executed jobs of a round.
pub open spec fn refused_in<C>(
    executed: Seq<(Job<C>, Outcome<C>)>,
    n: int,
    round: nat,
    enforce_shrink: bool,
) -> Seq<Rejection>
    decreases n,
{
    if n <= 0 {
        Seq::empty()
    } else {
        let rest = refused_in(executed, n - 1, round, enforce_shrink);
        match job_verdict(executed[n - 1], enforce_shrink) {
            Verdict::Rejected { span, kind } => rest.push(
                Rejection { node: executed[n - 1].0.node, round, span, kind },
            ),
            _ => rest,
        }
    }
}

impl<C> RoundTrace<C> {
    /// How many merges failed their node.
    pub open spec fn failures(self, enforce_shrink: bool) -> nat {
        fail_count(self.executed, self.executed.len() as int, enforce_shrink)
    }

    /// The regions refused.
    pub open spec fn rejections(self, round: nat, enforce_shrink: bool) -> Seq<Rejection> {
        refused_in(self.executed, self.executed.len() as int, round, enforce_shrink)
    }

    /// Every job of the batch was merged.
    pub open spec fn complete(self) -> bool {
        self.executed.len() == self.jobs.len()
    }

    /// The tree after the round.
    pub open spec fn after(self) -> TreeModel<C> {
        self.trees.last()
    }
}

/// How many attempts the rounds made.
pub open spec fn total_processed<C>(rounds: Seq<RoundTrace<C>>) -> nat
    decreases rounds.len(),
{
    if rounds.len() == 0 {
        0
    } else {
        total_processed(rounds.drop_last()) + rounds.last().executed.len()
    }
}

/// How many attempts failed.
pub open spec fn total_failed<C>(rounds: Seq<RoundTrace<C>>, enforce_shrink: bool) -> nat
    decreases rounds.len(),
{
    if rounds.len() == 0 {
        0
    } else {
        total_failed(rounds.drop_last(), enforce_shrink) + rounds.last().failures(
            enforce_shrink,
        )
    }
}

/// How many rounds processed at least one node.
pub open spec fn working_rounds<C>(rounds: Seq<RoundTrace<C>>) -> nat
    decreases rounds.len(),
{
    if rounds.len() == 0 {
        0
    } else {
        working_rounds(rounds.drop_last()) + (if rounds.last().executed.len() > 0 {
            1nat
        } else {
            0nat
        })
    }
}

/// The regions refused, in the order they were merged.
pub open spec fn all_rejections<C>(rounds: Seq<RoundTrace<C>>, enforce_shrink: bool) -> Seq<
    Rejection,
>
    decreases rounds.len(),
{
    if rounds.len() == 0 {
        Seq::empty()
    } else {
        all_rejections(rounds.drop_last(), enforce_shrink) + rounds.last().rejections(
            (rounds.len() - 1) as nat,
            enforce_shrink,
        )
    }
}

/// The tree that round `r` starts from.
pub open spec fn tree_before<C>(start: TreeModel<C>, rounds: Seq<RoundTrace<C>>, r: int) -> TreeModel<
    C,
> {
    if r <= 0 {
        start
    } else {
        rounds[r - 1].after()
    }
}

/// Each batch was executed as far as `exec` may go with `cancel`; an empty one
/// is not handed to it.
pub open spec fn executed_by<C, E: Executor>(
    exec: &E,
    cancel: &CancelToken,
    rounds: Seq<RoundTrace<C>>,
) -> bool {
    forall|r: int|
        0 <= r < rounds.len() && (#[trigger] rounds[r]).jobs.len() > 0 ==> exec.may_do(
            rounds[r].jobs.len(),
            rounds[r].executed.len(),
            cancel,
        )
}

/// What a run does at the start of a round.
#[derive(Debug)]
pub enum Batch<C> {
    /// Stop: the run was cancelled.
    Cancelled,
    /// Stop: no node has work left.
    Settled,
    /// Execute these jobs.
    Jobs(Vec<Job<C>>),
}

/// What merging a batch came to.
#[derive(Debug)]
pub struct Merged {
    /// Number of outcomes that failed their node.
    pub failed: usize,
    /// The contract violations found, in order.
    pub violations: Vec<Violation>,
}

/// The multi-pass fixpoint driver.
///
/// An engine owns a [`Schedule`] of passes and runs them over a
/// [`ParseTree`] in rounds:
///
/// * **Round `r`** applies `schedule[r]` to every node whose `depth == r`
///   and whose status is [`Unparsed`](crate::Status::Unparsed) or
///   [`Failed`](crate::Status::Failed).
/// * Nodes expanded in round `r` create children at depth `r + 1`; nodes
///   that fail are retried at depth `r + 1` by the next pass.
/// * The run reaches its **fixpoint** when no node has work left, and ends
///   after `max_rounds` rounds, or one round per pass, in any case.
#[verifier::reject_recursive_types(C)]
pub struct Engine<C> {
    schedule: Schedule<C>,
    config: EngineConfig,
}

impl<C> Engine<C> {
    /// The scheduled passes.
    pub closed spec fn passes(&self) -> Seq<BoxedPass<C>> {
        self.schedule@
    }

    /// The configuration.
    pub closed spec fn settings(&self) -> EngineConfig {
        self.config
    }

    /// The effective round cap.
    pub open spec fn round_cap(&self) -> nat {
        match self.settings().max_rounds {
            Some(cap) => cap as nat,
            None => self.passes().len(),
        }
    }

    /// How many rounds a run may make: one per scheduled pass, and no more
    /// than the cap.
    pub open spec fn round_limit(&self) -> nat {
        if self.round_cap() <= self.passes().len() {
            self.round_cap()
        } else {
            self.passes().len()
        }
    }

    /// The schedule has a pass for `job`, and it may be called on it.
    pub open spec fn job_accepted(&self, source: &str, job: &Job<C>) -> bool {
        &&& job.pass_index < self.passes().len()
        &&& self.passes()[job.pass_index as int].accepts(source, job.span, &job.ctx)
    }

    /// The schedule has a pass for `job`, and it may report `outcome`.
    pub open spec fn job_may_return(&self, source: &str, job: &Job<C>, outcome: Outcome<C>) -> bool {
        &&& job.pass_index < self.passes().len()
        &&& self.passes()[job.pass_index as int].may_return(source, job.span, &job.ctx, outcome)
    }

    /// Every pass takes every region within `root`.
    pub open spec fn takes(&self, source: &str, root: Span) -> bool {
        forall|r: int, span: Span, ctx: &C|
            0 <= r < self.passes().len() && root.nests(span)
                ==> #[trigger] self.passes()[r].accepts(source, span, ctx)
    }

    /// `pass` is what a report says of the pass that ran in `round`.
    pub open spec fn may_report_pass(&self, round: nat, pass: Option<&'static str>) -> bool {
        match pass {
            Some(name) => round < self.passes().len() && self.passes()[round as int].may_be_named(
                name,
            ),
            None => round >= self.passes().len(),
        }
    }

    /// `violations` reports the regions refused, one by one.
    pub open spec fn reports(&self, violations: Seq<Violation>, refused: Seq<Rejection>) -> bool {
        &&& violations.len() == refused.len()
        &&& forall|k: int|
            #![trigger violations[k]]
            #![trigger refused[k]]
            0 <= k < refused.len() ==> {
                &&& violations[k].node == refused[k].node
                &&& violations[k].round == refused[k].round
                &&& violations[k].span == refused[k].span
                &&& violations[k].kind == refused[k].kind
                &&& self.may_report_pass(refused[k].round, violations[k].pass)
            }
    }

    /// Creates an engine with default [`EngineConfig`].
    pub fn new(schedule: Schedule<C>) -> (engine: Self)
        ensures
            engine.passes() == schedule@,
            engine.settings() == (EngineConfig { enforce_shrink: false, max_rounds: None }),
    {
        Self { schedule, config: EngineConfig::default() }
    }

    /// The passes of the engine are those of `passes`, in order.
    pub open spec fn runs<P: Passes<C>>(&self, passes: P) -> bool {
        &&& self.passes().len() == passes.count()
        &&& forall|round: int, source: &str, span: Span, ctx: &C|
            0 <= round < passes.count() ==> #[trigger] self.passes()[round].accepts(
                source,
                span,
                ctx,
            ) == passes.pass_accepts(round, source, span, ctx)
        &&& forall|round: int, source: &str, span: Span, ctx: &C, outcome: Outcome<C>|
            0 <= round < passes.count() ==> #[trigger] self.passes()[round].may_return(
                source,
                span,
                ctx,
                outcome,
            ) == passes.pass_may_return(round, source, span, ctx, outcome)
        &&& forall|round: int, name: &'static str|
            0 <= round < passes.count() ==> #[trigger] self.passes()[round].may_be_named(name)
                == passes.pass_may_be_named(round, name)
    }

    /// Creates an engine from passes directly — a tuple of mixed pass types
    /// (up to 12) or a `Vec` of boxed passes. Round 0 runs the first pass,
    /// round 1 the second, and so on.
    pub fn with<P: Passes<C>>(passes: P) -> (engine: Self)
        ensures
            engine.runs(passes),
            engine.settings() == (EngineConfig { enforce_shrink: false, max_rounds: None }),
    {
        Self::new(passes.into_schedule())
    }

    /// Creates an engine with an explicit configuration.
    pub fn with_config<P: Passes<C>>(passes: P, config: EngineConfig) -> (engine: Self)
        ensures
            engine.runs(passes),
            engine.settings() == config,
    {
        Self { schedule: passes.into_schedule(), config }
    }

    /// The pass schedule this engine runs.
    pub fn schedule(&self) -> (schedule: &Schedule<C>)
        ensures
            schedule@ == self.passes(),
    {
        &self.schedule
    }

    /// The engine's configuration.
    pub fn config(&self) -> (config: &EngineConfig)
        ensures
            *config == self.settings(),
    {
        &self.config
    }

    /// The effective round cap: the configured cap, or one round per pass.
    pub fn max_rounds(&self) -> (cap: usize)
        ensures
            cap == self.round_cap(),
    {
        match self.config.max_rounds {
            Some(cap) => cap,
            None => self.schedule.len(),
        }
    }

    /// How many rounds a run may make.
    fn rounds(&self) -> (rounds: usize)
        ensures
            rounds == self.round_limit(),
    {
        let cap: usize = self.max_rounds();
        let passes: usize = self.schedule.len();
        if cap <= passes {
            cap
        } else {
            passes
        }
    }

    fn execute_job(&self, source: &str, job: &Job<C>) -> (outcome: Outcome<C>)
        requires
            self.job_accepted(source, job),
        ensures
            self.job_may_return(source, job, outcome),
    {
        match self.schedule.pass_at(job.pass_index) {
            Some(pass) => pass.parse(source, job.span, &job.ctx),
            None => Outcome::Failed,
        }
    }
}

impl<C: Clone + PartialEq> Engine<C> {
    /// Merging `executed` in order may lead through `trees`.
    pub open spec fn merge_ok(
        &self,
        executed: Seq<(Job<C>, Outcome<C>)>,
        round: usize,
        trees: Seq<TreeModel<C>>,
    ) -> bool {
        &&& trees.len() == executed.len() + 1
        &&& forall|k: int| 0 <= k < trees.len() ==> (#[trigger] trees[k]).wf()
        &&& forall|k: int|
            #![trigger executed[k]]
            0 <= k < executed.len() ==> trees[k].may_apply(
                executed[k].0.node,
                executed[k].1@,
                round as nat,
                self.settings().enforce_shrink,
                trees[k + 1],
            )
    }

    /// `trace` is a possible course of round `round`: the batch holds a job
    /// for every node due, a prefix of it was executed, and the outcomes were
    /// merged in job order.
    #[verifier::opaque]
    pub open spec fn round_ok(&self, source: &str, round: usize, trace: RoundTrace<C>) -> bool {
        &&& trace.trees[0].batch_ok(round, trace.jobs)
        &&& trace.executed.len() <= trace.jobs.len()
        &&& forall|k: int|
            #![trigger trace.executed[k]]
            0 <= k < trace.executed.len() ==> trace.executed[k].0 == trace.jobs[k]
                && self.job_may_return(source, &trace.jobs[k], trace.executed[k].1)
        &&& self.merge_ok(trace.executed, round, trace.trees)
    }

    /// Round `r` of `rounds` is a possible round, starts where the one before
    /// it ended, and is merged in full unless it is the last.
    pub open spec fn step_ok(
        &self,
        source: &str,
        start: TreeModel<C>,
        rounds: Seq<RoundTrace<C>>,
        r: int,
    ) -> bool {
        &&& self.round_ok(source, r as usize, rounds[r])
        &&& rounds[r].trees[0] == tree_before(start, rounds, r)
        &&& r < rounds.len() - 1 ==> rounds[r].complete()
    }

    /// `rounds` is a possible course of the first rounds of a run from
    /// `start`: at most one per scheduled pass and no more than the cap, each
    /// round but the last merged in full.
    pub open spec fn rounds_ok(
        &self,
        source: &str,
        start: TreeModel<C>,
        rounds: Seq<RoundTrace<C>>,
    ) -> bool {
        &&& rounds.len() <= self.passes().len()
        &&& rounds.len() <= self.round_cap()
        &&& forall|r: int|
            0 <= r < rounds.len() ==> #[trigger] self.step_ok(source, start, rounds, r)
    }

    /// `report` sums up `rounds`.
    pub open spec fn counts_ok(&self, rounds: Seq<RoundTrace<C>>, report: RunReport) -> bool {
        let shrink = self.settings().enforce_shrink;
        &&& report.rounds_run == working_rounds(rounds)
        &&& report.nodes_processed == capped(total_processed(rounds))
        &&& report.nodes_failed == capped(total_failed(rounds, shrink))
        &&& self.reports(report.violations@, all_rejections(rounds, shrink))
    }

    /// A run from `start` may go through `rounds`, end in `end` and report
    /// `report`.
    ///
    /// The run ends early where nothing is pending, or cancelled: before a
    /// round, or with a batch that was executed in part. Otherwise it goes
    /// through every round.
    pub open spec fn run_ok(
        &self,
        source: &str,
        start: TreeModel<C>,
        rounds: Seq<RoundTrace<C>>,
        end: TreeModel<C>,
        report: RunReport,
    ) -> bool {
        let short = rounds.len() > 0 && !rounds.last().complete();
        let pending = end.pending_ids(self.round_limit());
        &&& self.rounds_ok(source, start, rounds)
        &&& end == tree_before(start, rounds, rounds.len() as int)
        &&& self.counts_ok(rounds, report)
        &&& short ==> report.cancelled
        &&& report.cancelled ==> short || rounds.len() < self.round_limit()
        &&& !report.cancelled ==> rounds.len() == self.round_limit() || pending.len() == 0
        &&& report.reached_fixpoint == (!report.cancelled && pending.len() == 0)
    }

    /// What a run that went through `rounds` owes to `exec` and `cancel`: each
    /// batch was executed as far as the executor may go, a run is cancelled only
    /// by an executor that stops early or by a read that says so, and it starts
    /// no round, and ends in no other way, without a read that lets it.
    pub open spec fn stop_ok<E: Executor>(
        &self,
        exec: &E,
        cancel: &CancelToken,
        rounds: Seq<RoundTrace<C>>,
        report: RunReport,
    ) -> bool {
        let short = rounds.len() > 0 && !rounds.last().complete();
        &&& executed_by(exec, cancel, rounds)
        &&& report.cancelled ==> short || cancel.may_read(true)
        &&& rounds.len() > 0 || (!report.cancelled && self.round_limit() > 0) ==> cancel.may_read(
            false,
        )
    }

    /// What a run that went through `rounds` was told by `stop`, which it asks
    /// before every round: each round started where `stop` let it, the run was
    /// cancelled by a batch that was executed in part or where `stop` said so,
    /// and it ended before its last round without either only where `stop` let
    /// it go on.
    pub open spec fn asked<S: Fn(usize) -> bool>(
        &self,
        stop: &S,
        rounds: Seq<RoundTrace<C>>,
        report: RunReport,
    ) -> bool {
        let short = rounds.len() > 0 && !rounds.last().complete();
        &&& forall|r: usize| 0 <= r < rounds.len() ==> #[trigger] call_ensures(*stop, (r,), false)
        &&& report.cancelled && !short ==> rounds.len() < self.round_limit() && call_ensures(
            *stop,
            (rounds.len() as usize,),
            true,
        )
        &&& !report.cancelled && rounds.len() < self.round_limit() ==> call_ensures(
            *stop,
            (rounds.len() as usize,),
            false,
        )
    }

    /// Reports a refused region, if `verdict` refuses one.
    fn note(
        &self,
        violations: &mut Vec<Violation>,
        node: NodeId,
        round: usize,
        verdict: Verdict,
        Ghost(refused): Ghost<Seq<Rejection>>,
    )
        requires
            self.reports(old(violations)@, refused),
        ensures
            self.reports(
                final(violations)@,
                match verdict {
                    Verdict::Rejected { span, kind } => refused.push(
                        Rejection { node, round: round as nat, span, kind },
                    ),
                    _ => refused,
                },
            ),
    {
        if let Verdict::Rejected { span, kind } = verdict {
            let pass = self.schedule.pass_name(round);
            let violation = Violation { node, round, pass, span, kind };
            violations.push(violation);
            proof {
                let rejection = Rejection { node, round: round as nat, span, kind };
                self.lemma_reports_join(
                    old(violations)@,
                    refused,
                    seq![violation],
                    seq![rejection],
                );
                assert(violations@ =~= old(violations)@ + seq![violation]);
                assert(refused.push(rejection) =~= refused + seq![rejection]);
            }
        }
    }

    /// Decides what a run does at the start of `round`, given whether it was
    /// `cancelled`.
    pub fn next_batch(&self, tree: &ParseTree<C>, round: usize, cancelled: bool) -> (batch: Batch<C>)
        ensures
            match batch {
                Batch::Cancelled => cancelled,
                Batch::Settled => !cancelled && tree@.ready_ids(round as nat).len() == 0
                    && tree@.pending_ids(self.round_limit()).len() == 0,
                Batch::Jobs(jobs) => !cancelled && tree@.batch_ok(round, jobs@) && (
                tree@.ready_ids(round as nat).len() > 0 || tree@.pending_ids(
                    self.round_limit(),
                ).len() > 0),
            },
    {
        if cancelled {
            return Batch::Cancelled;
        }
        let jobs = tree.ready_jobs(round);
        if jobs.len() == 0 && tree.pending(self.rounds()).len() == 0 {
            Batch::Settled
        } else {
            Batch::Jobs(jobs)
        }
    }

    /// Merges the executed jobs of `round` into the tree, in order.
    ///
    /// `executed` must hold a prefix of the jobs that
    /// [`next_batch`](Self::next_batch) gave for the round.
    pub fn merge(
        &self,
        tree: &mut ParseTree<C>,
        executed: Vec<(Job<C>, Outcome<C>)>,
        round: usize,
    ) -> (merged: Merged)
        requires
            old(tree)@.wf(),
            old(tree)@.prefix_ok(round, executed@),
            round < usize::MAX,
        ensures
            final(tree)@.wf(),
            final(tree)@.nodes[0].span == old(tree)@.nodes[0].span,
            exists|trees: Seq<TreeModel<C>>| #[trigger]
                self.merge_ok(executed@, round, trees) && trees[0] == old(tree)@ && trees.last()
                    == final(tree)@,
            merged.failed == fail_count(
                executed@,
                executed@.len() as int,
                self.settings().enforce_shrink,
            ),
            self.reports(
                merged.violations@,
                refused_in(
                    executed@,
                    executed@.len() as int,
                    round as nat,
                    self.settings().enforce_shrink,
                ),
            ),
    {
        let shrink = self.config.enforce_shrink;
        let mut failed: usize = 0;
        let mut violations: Vec<Violation> = Vec::new();
        let ghost start = tree@;
        let ghost mut trees = seq![tree@];
        let ghost due = start.ready_ids(round as nat);
        proof {
            lemma_due_order(start, round as nat);
        }
        assert(executed@.len() == executed.len());
        for pair in it: executed.into_iter()
            invariant
                it.seq() == executed@,
                shrink == self.settings().enforce_shrink,
                round < usize::MAX,
                start.prefix_ok(round, executed@),
                due == start.ready_ids(round as nat),
                forall|j: int, k: int|
                    0 <= j < k < due.len() ==> (#[trigger] due[j]).0 < (#[trigger] due[k]).0,
                forall|k: int|
                    0 <= k < due.len() ==> start.knows(#[trigger] due[k]) && start.at(due[k]).ready(
                        round as nat,
                    ),
                tree@.wf(),
                start.nodes.len() <= tree@.nodes.len(),
                tree@.nodes[0].span == start.nodes[0].span,
                trees.len() == it.index() + 1,
                trees[0] == start,
                trees.last() == tree@,
                forall|k: int| 0 <= k < trees.len() ==> (#[trigger] trees[k]).wf(),
                forall|k: int|
                    it.index() <= k < due.len() ==> tree@.at(#[trigger] due[k]) == start.at(due[k]),
                forall|k: int|
                    #![trigger executed@[k]]
                    0 <= k < it.index() ==> trees[k].may_apply(
                        executed@[k].0.node,
                        executed@[k].1@,
                        round as nat,
                        shrink,
                        trees[k + 1],
                    ),
                failed == fail_count(executed@, it.index() as int, shrink),
                failed <= it.index(),
                executed@.len() <= usize::MAX,
                self.reports(
                    violations@,
                    refused_in(executed@, it.index() as int, round as nat, shrink),
                ),
        {
            let ghost k = it.index() as int;
            let ghost pre = tree@;
            let (job, outcome) = pair;
            assert(executed@[k] == pair);
            assert(job.node == due[k] && start.job_ok(round, job));
            assert(tree@.at(due[k]) == start.at(due[k]));
            let verdict = tree.apply(job.node, outcome, round, shrink);
            assert(verdict == job_verdict(executed@[k], shrink));
            proof {
                crate::model::lemma_apply_frame(
                    pre,
                    job.node,
                    outcome@,
                    round as nat,
                    shrink,
                    tree@,
                );
                assert(pre.live(0));
                assert forall|j: int| k + 1 <= j < due.len() implies tree@.at(#[trigger] due[j])
                    == start.at(due[j]) by {
                    assert(pre.at(due[j]) == start.at(due[j]));
                    assert(pre.live(due[j].0 as int));
                    assert(due[k].0 < due[j].0);
                }
                trees = trees.push(tree@);
            }
            if verdict.is_failure() {
                failed = failed + 1;
            }
            self.note(
                &mut violations,
                job.node,
                round,
                verdict,
                Ghost(refused_in(executed@, k, round as nat, shrink)),
            );
        }
        assert(self.merge_ok(executed@, round, trees));
        Merged { failed, violations }
    }

    /// Runs passes over `tree` until the fixpoint, the round cap, or
    /// cancellation.
    ///
    /// `source` must be the same text (at the revision the tree was created
    /// with) that passes will slice via their spans. The tree is updated
    /// in place; if the run is cancelled partway, the merged prefix of each
    /// batch keeps the tree consistent and a later call resumes where this
    /// one stopped.
    ///
    /// When re-expanding a node that already has children (after
    /// [`ParseTree::edit`]), produced children are matched against the
    /// existing ones by span and context — equal children are reused
    /// whole, so only the edited regions are re-parsed. This is why `C`
    /// must implement `PartialEq`.
    ///
    /// A run over an already-settled tree reports `reached_fixpoint` without
    /// doing any work. A run over a non-settled tree with an empty schedule
    /// does no work and reports neither fixpoint nor cancellation — the
    /// root simply stays [`Unparsed`](crate::Status::Unparsed).
    ///
    /// The token is read before every round, as
    /// [`run_until`](Self::run_until) asks its `stop`.
    pub fn run<E>(
        &self,
        source: &str,
        tree: &mut ParseTree<C>,
        exec: &E,
        cancel: &CancelToken,
    ) -> (report: RunReport) where C: Send + 'static, E: Executor
        requires
            old(tree)@.wf(),
            self.takes(source, old(tree)@.nodes[0].span),
        ensures
            final(tree)@.wf(),
            final(tree)@.nodes[0].span == old(tree)@.nodes[0].span,
            exists|rounds: Seq<RoundTrace<C>>| #[trigger]
                self.run_ok(source, old(tree)@, rounds, final(tree)@, report) && self.stop_ok(
                    exec,
                    cancel,
                    rounds,
                    report,
                ),
    {
        let stop = |round: usize| -> (cancelled: bool)
            ensures
                cancel.may_read(cancelled),
            { cancel.is_cancelled() };
        let ghost start = tree@;
        let report = self.run_until(source, tree, exec, cancel, stop);
        proof {
            let rounds = choose|rounds: Seq<RoundTrace<C>>| #[trigger]
                self.run_ok(source, start, rounds, tree@, report) && executed_by(
                    exec,
                    cancel,
                    rounds,
                ) && self.asked(&stop, rounds, report);
            if rounds.len() > 0 {
                assert(call_ensures(stop, (0usize,), false));
            }
            assert(self.stop_ok(exec, cancel, rounds, report));
        }
        report
    }

    /// Runs passes over `tree` until the fixpoint or the round cap, one job
    /// after another; nothing cancels it.
    pub(crate) fn run_through(&self, source: &str, tree: &mut ParseTree<C>) -> (report:
        RunReport) where C: Send + 'static
        requires
            old(tree)@.wf(),
            self.takes(source, old(tree)@.nodes[0].span),
        ensures
            final(tree)@.wf(),
            final(tree)@.nodes[0].span == old(tree)@.nodes[0].span,
            !report.cancelled,
            exists|rounds: Seq<RoundTrace<C>>| #[trigger]
                self.run_ok(source, old(tree)@, rounds, final(tree)@, report),
    {
        let never = |round: usize| -> (stop: bool)
            ensures
                !stop,
            { false };
        let ghost start = tree@;
        let token = CancelToken::new();
        let report = self.run_until(source, tree, &SteadyExecutor, &token, never);
        proof {
            let rounds = choose|rounds: Seq<RoundTrace<C>>| #[trigger]
                self.run_ok(source, start, rounds, tree@, report) && executed_by(
                    &SteadyExecutor,
                    &token,
                    rounds,
                ) && self.asked(&never, rounds, report);
            if rounds.len() > 0 && !rounds.last().complete() {
                let r = rounds.len() - 1;
                assert(self.step_ok(source, start, rounds, r));
                reveal(Engine::round_ok);
                assert(rounds[r].jobs.len() > 0);
            }
        }
        report
    }

    /// Runs passes over `tree` as [`run`](Self::run) does, asking `stop` before
    /// every round whether to end there; `cancel` is for the executor alone.
    pub fn run_until<E, S>(
        &self,
        source: &str,
        tree: &mut ParseTree<C>,
        exec: &E,
        cancel: &CancelToken,
        stop: S,
    ) -> (report: RunReport) where C: Send + 'static, E: Executor, S: Fn(usize) -> bool
        requires
            old(tree)@.wf(),
            self.takes(source, old(tree)@.nodes[0].span),
            forall|round: usize| #[trigger] call_requires(stop, (round,)),
        ensures
            final(tree)@.wf(),
            final(tree)@.nodes[0].span == old(tree)@.nodes[0].span,
            exists|rounds: Seq<RoundTrace<C>>| #[trigger]
                self.run_ok(source, old(tree)@, rounds, final(tree)@, report) && executed_by(
                    exec,
                    cancel,
                    rounds,
                ) && self.asked(&stop, rounds, report),
    {
        let mut report = RunReport::default();
        let max_rounds: usize = self.rounds();
        let ghost start = tree@;
        let ghost shrink = self.settings().enforce_shrink;
        let ghost mut rounds: Seq<RoundTrace<C>> = Seq::empty();
        let mut round: usize = 0;
        while round < max_rounds
            invariant
                start == old(tree)@,
                max_rounds == self.round_limit(),
                shrink == self.settings().enforce_shrink,
                self.takes(source, start.nodes[0].span),
                round <= max_rounds,
                rounds.len() == round,
                tree@.wf(),
                tree@.nodes[0].span == start.nodes[0].span,
                tree@ == tree_before(start, rounds, round as int),
                self.rounds_ok(source, start, rounds),
                round > 0 ==> rounds.last().complete(),
                self.counts_ok(rounds, report),
                report.rounds_run <= round,
                forall|r: usize| #[trigger] call_requires(stop, (r,)),
                forall|r: usize| 0 <= r < round ==> #[trigger] call_ensures(stop, (r,), false),
                executed_by(exec, cancel, rounds),
                !report.cancelled,
                !report.reached_fixpoint,
            decreases max_rounds - round,
        {
            let cancelled = stop(round);
            let jobs = match self.next_batch(tree, round, cancelled) {
                Batch::Cancelled => {
                    report.cancelled = true;
                    assert(self.run_ok(source, start, rounds, tree@, report));
                    assert(self.asked(&stop, rounds, report));
                    return report;
                },
                Batch::Settled => {
                    report.reached_fixpoint = true;
                    assert(self.run_ok(source, start, rounds, tree@, report));
                    assert(self.asked(&stop, rounds, report));
                    return report;
                },
                Batch::Jobs(jobs) => jobs,
            };
            let ghost batch = jobs@;
            let batch_size: usize = jobs.len();
            let work = |job: &Job<C>| -> (outcome: Outcome<C>)
                requires
                    self.job_accepted(source, job),
                ensures
                    self.job_may_return(source, job, outcome),
                { self.execute_job(source, job) };
            assert forall|k: int| 0 <= k < jobs@.len() implies call_requires(
                work,
                (&#[trigger] jobs@[k],),
            ) by {
                lemma_due_order(tree@, round as nat);
                let id = tree@.ready_ids(round as nat)[k];
                assert(jobs@[k].node == id);
                assert(tree@.live(id.0 as int));
                crate::model::law_nodes_within_root(tree@, id.0 as int);
            }
            let executed: Vec<(Job<C>, Outcome<C>)> = if batch_size == 0 {
                Vec::new()
            } else {
                exec.execute(jobs, work, cancel)
            };
            let ghost pairs = executed@;
            assert forall|k: int| 0 <= k < pairs.len() implies (#[trigger] pairs[k]).0 == batch[k]
                && self.job_may_return(source, &batch[k], pairs[k].1) by {
                assert(call_ensures(work, (&batch[k],), pairs[k].1));
            }
            let count: usize = executed.len();
            let ghost before = tree@;
            let ghost seen = report.violations@;
            let merged = self.merge(tree, executed, round);
            let mut violations = merged.violations;
            if count > 0 {
                report.rounds_run = report.rounds_run + 1;
            }
            report.nodes_processed = report.nodes_processed.saturating_add(count);
            report.nodes_failed = report.nodes_failed.saturating_add(merged.failed);
            report.violations.append(&mut violations);
            proof {
                let trees = choose|trees: Seq<TreeModel<C>>| #[trigger]
                    self.merge_ok(pairs, round, trees) && trees[0] == before && trees.last()
                        == tree@;
                let trace = RoundTrace { jobs: batch, executed: pairs, trees };
                let more = rounds.push(trace);
                assert(more.drop_last() =~= rounds);
                assert(self.round_ok(source, round, trace)) by {
                    reveal(Engine::round_ok);
                }
                self.lemma_round_added(source, start, rounds, trace);
                self.lemma_reports_join(
                    seen,
                    all_rejections(rounds, shrink),
                    merged.violations@,
                    trace.rejections(round as nat, shrink),
                );
                rounds = more;
            }
            round = round + 1;
            if count < batch_size {
                report.cancelled = true;
                assert(self.run_ok(source, start, rounds, tree@, report));
                assert(self.asked(&stop, rounds, report));
                return report;
            }
        }
        report.reached_fixpoint = tree.pending(max_rounds).len() == 0;
        assert(self.run_ok(source, start, rounds, tree@, report));
        assert(self.asked(&stop, rounds, report));
        report
    }

    /// One more round on top of rounds merged in full.
    proof fn lemma_round_added(
        &self,
        source: &str,
        start: TreeModel<C>,
        rounds: Seq<RoundTrace<C>>,
        trace: RoundTrace<C>,
    )
        requires
            self.rounds_ok(source, start, rounds),
            rounds.len() < self.round_limit(),
            rounds.len() <= usize::MAX,
            rounds.len() > 0 ==> rounds.last().complete(),
            self.round_ok(source, rounds.len() as usize, trace),
            trace.trees[0] == tree_before(start, rounds, rounds.len() as int),
        ensures
            self.rounds_ok(source, start, rounds.push(trace)),
    {
        let more = rounds.push(trace);
        assert forall|r: int| 0 <= r < more.len() implies #[trigger] self.step_ok(
            source,
            start,
            more,
            r,
        ) by {
            if r < rounds.len() {
                assert(self.step_ok(source, start, rounds, r));
                assert(more[r] == rounds[r]);
                assert(tree_before(start, more, r) == tree_before(start, rounds, r));
            }
        }
    }

    /// Reports of refused regions can be strung together.
    proof fn lemma_reports_join(
        &self,
        violations: Seq<Violation>,
        refused: Seq<Rejection>,
        more_violations: Seq<Violation>,
        more_refused: Seq<Rejection>,
    )
        requires
            self.reports(violations, refused),
            self.reports(more_violations, more_refused),
        ensures
            self.reports(violations + more_violations, refused + more_refused),
    {
        let v = violations + more_violations;
        let r = refused + more_refused;
        assert forall|k: int| #![trigger v[k]] #![trigger r[k]] 0 <= k < r.len() implies {
            &&& v[k].node == r[k].node
            &&& v[k].round == r[k].round
            &&& v[k].span == r[k].span
            &&& v[k].kind == r[k].kind
            &&& self.may_report_pass(r[k].round, v[k].pass)
        } by {
            if k < refused.len() {
                assert(v[k] == violations[k] && r[k] == refused[k]);
            } else {
                let j = k - refused.len();
                assert(v[k] == more_violations[j] && r[k] == more_refused[j]);
            }
        }
    }
}

/// The nodes due in a round are known, due, and in creation order.
pub proof fn lemma_due_order<C>(t: TreeModel<C>, round: nat)
    requires
        t.wf(),
    ensures
        forall|j: int, k: int|
            0 <= j < k < t.ready_ids(round).len() ==> (#[trigger] t.ready_ids(round)[j]).0 < (
            #[trigger] t.ready_ids(round)[k]).0,
        forall|k: int|
            0 <= k < t.ready_ids(round).len() ==> t.knows(#[trigger] t.ready_ids(round)[k]) && t.at(
                t.ready_ids(round)[k],
            ).ready(round),
{
    crate::model::lemma_ids_where(
        t,
        t.nodes.len() as int,
        |node: crate::model::NodeModel<C>| node.ready(round),
    );
}

} // verus!
