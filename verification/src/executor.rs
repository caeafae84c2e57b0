//! Pluggable batch execution of jobs.

use crate::cancel::CancelToken;
use crate::job::Job;
use crate::outcome::Outcome;
use vstd::prelude::*;

verus! {

/// `executed` is a prefix of `jobs`, in order, each job paired with an outcome
/// `run` may give for it.
pub open spec fn ran_prefix<C, F: Fn(&Job<C>) -> Outcome<C>>(
    jobs: Seq<Job<C>>,
    run: F,
    executed: Seq<(Job<C>, Outcome<C>)>,
) -> bool {
    &&& executed.len() <= jobs.len()
    &&& forall|k: int|
        0 <= k < executed.len() ==> (#[trigger] executed[k]).0 == jobs[k] && call_ensures(
            run,
            (&jobs[k],),
            executed[k].1,
        )
}

/// Runs a batch of jobs, possibly in parallel.
///
/// The engine collects the ready nodes of a round into jobs, hands the batch
/// to an executor together with a pure `run` closure, and merges the results
/// back into the tree in job order — so runs are deterministic regardless of
/// the executor used.
///
/// # Contract
///
/// Implementations must return the executed jobs paired with their outcomes,
/// **in input order**, and may stop early: the returned vector may be a
/// prefix (possibly empty) of the input batch. The engine treats a short
/// result as a cancellation and leaves the un-merged nodes untouched for a
/// later run.
///
/// # Provided implementations
///
/// * [`SerialExecutor`] — runs jobs one at a time (default, zero cost).
/// * [`RayonExecutor`](crate::RayonExecutor) — runs jobs on a rayon thread
///   pool.
pub trait Executor: Send + Sync {
    /// The executor may execute the first `done` of a batch of `given` jobs
    /// that `cancel` comes with; any of them, unless it says otherwise.
    open spec fn may_do(&self, given: nat, done: nat, cancel: &CancelToken) -> bool {
        done <= given
    }

    /// Executes `jobs` with `run`, honouring `cancel` at job granularity: what
    /// that comes to for the provided executors is stated by [`run_until`] and
    /// [`run_parallel_until`](crate::executor_rayon::run_parallel_until). Of
    /// others it is stated only that they execute a prefix.
    fn execute<C, F>(&self, jobs: Vec<Job<C>>, run: F, cancel: &CancelToken) -> (executed: Vec<
        (Job<C>, Outcome<C>),
    >) where C: Send + 'static, F: Fn(&Job<C>) -> Outcome<C> + Send + Sync
        requires
            forall|k: int| 0 <= k < jobs@.len() ==> call_requires(run, (&#[trigger] jobs@[k],)),
        ensures
            ran_prefix(jobs@, run, executed@),
            self.may_do(jobs@.len(), executed@.len(), cancel),
    ;
}

/// Runs `jobs` one at a time on the calling thread, asking `stop` before each
/// of them: job number `k` runs only where `stop` lets it, and the first that
/// `stop` does not let run ends it.
pub fn run_until<C, F, S>(jobs: Vec<Job<C>>, run: F, stop: S) -> (executed: Vec<
    (Job<C>, Outcome<C>),
>) where F: Fn(&Job<C>) -> Outcome<C>, S: Fn(usize) -> bool
    requires
        forall|k: int| 0 <= k < jobs@.len() ==> call_requires(run, (&#[trigger] jobs@[k],)),
        forall|k: usize| #[trigger] call_requires(stop, (k,)),
    ensures
        ran_prefix(jobs@, run, executed@),
        forall|k: usize| 0 <= k < executed@.len() ==> #[trigger] call_ensures(stop, (k,), false),
        executed@.len() < jobs@.len() ==> call_ensures(stop, (executed@.len() as usize,), true),
{
    let mut executed: Vec<(Job<C>, Outcome<C>)> = Vec::with_capacity(jobs.len());
    for job in batch: jobs.into_iter()
        invariant_except_break
            executed@.len() == batch.index(),
        invariant
            batch.seq() == jobs@,
            forall|k: int| 0 <= k < jobs@.len() ==> call_requires(run, (&#[trigger] jobs@[k],)),
            forall|k: usize| #[trigger] call_requires(stop, (k,)),
            ran_prefix(jobs@, run, executed@),
            forall|k: usize|
                0 <= k < executed@.len() ==> #[trigger] call_ensures(stop, (k,), false),
        ensures
            executed@.len() < jobs@.len() ==> call_ensures(
                stop,
                (executed@.len() as usize,),
                true,
            ),
    {
        if stop(executed.len()) {
            break ;
        }
        let outcome = run(&job);
        executed.push((job, outcome));
    }
    executed
}

/// An [`Executor`] that runs jobs one at a time on the calling thread.
#[derive(Debug, Clone, Copy)]
pub struct SerialExecutor;

impl Default for SerialExecutor {
    fn default() -> Self {
        SerialExecutor
    }
}

impl Executor for SerialExecutor {
    /// Jobs are executed only where the token lets them, and left out only where
    /// it cancels them.
    open spec fn may_do(&self, given: nat, done: nat, cancel: &CancelToken) -> bool {
        &&& done <= given
        &&& done > 0 ==> cancel.may_read(false)
        &&& done < given ==> cancel.may_read(true)
    }

    fn execute<C, F>(&self, jobs: Vec<Job<C>>, run: F, cancel: &CancelToken) -> (executed: Vec<
        (Job<C>, Outcome<C>),
    >) where C: Send + 'static, F: Fn(&Job<C>) -> Outcome<C> + Send + Sync {
        let stop = |k: usize| -> (cancelled: bool)
            ensures
                cancel.may_read(cancelled),
            { cancel.is_cancelled() };
        let executed = run_until(jobs, run, stop);
        proof {
            let done = executed@.len();
            if done > 0 {
                assert(call_ensures(stop, (0usize,), false));
            }
        }
        executed
    }
}

/// An [`Executor`] that runs all jobs, one at a time on the calling thread,
/// whatever becomes of the token.
pub(crate) struct SteadyExecutor;

impl Executor for SteadyExecutor {
    /// All jobs are executed.
    open spec fn may_do(&self, given: nat, done: nat, cancel: &CancelToken) -> bool {
        done == given
    }

    fn execute<C, F>(&self, jobs: Vec<Job<C>>, run: F, cancel: &CancelToken) -> (executed: Vec<
        (Job<C>, Outcome<C>),
    >) where C: Send + 'static, F: Fn(&Job<C>) -> Outcome<C> + Send + Sync {
        let never = |k: usize| -> (stop: bool)
            ensures
                !stop,
            { false };
        run_until(jobs, run, never)
    }
}

/// What was executed is the first of the jobs, in order and unchanged, each with
/// an outcome that running it may give.
pub proof fn law_executed_jobs_come_first<C, F: Fn(&Job<C>) -> Outcome<C>>(
    jobs: Seq<Job<C>>,
    run: F,
    executed: Seq<(Job<C>, Outcome<C>)>,
)
    requires
        ran_prefix(jobs, run, executed),
    ensures
        executed.len() <= jobs.len(),
        executed.map_values(|pair: (Job<C>, Outcome<C>)| pair.0) == jobs.take(
            executed.len() as int,
        ),
        forall|k: int|
            0 <= k < executed.len() ==> call_ensures(
                run,
                (&(#[trigger] executed[k]).0,),
                executed[k].1,
            ),
{
    assert(executed.map_values(|pair: (Job<C>, Outcome<C>)| pair.0) =~= jobs.take(
        executed.len() as int,
    ));
}

} // verus!
