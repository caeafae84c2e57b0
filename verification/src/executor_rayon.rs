//! Batch execution on a rayon thread pool.
//!
//! Job results are merged by the engine in input order, so runs stay
//! deterministic despite parallel execution.

use crate::cancel::CancelToken;
use crate::executor::Executor;
use crate::job::Job;
use crate::outcome::Outcome;
use rayon::iter::{IntoParallelIterator, ParallelIterator};
use vstd::prelude::*;

verus! {

/// Calls rayon's `into_par_iter`, `map` and `collect` on a vector. The
/// parallel iterator of a vector is indexed, so the collected vector holds
/// one result per item, in the order of the items; each result is what `f`
/// returned for the item in its place.
#[verifier::external_body]
fn parallel_map<T, R, F>(items: Vec<T>, f: F) -> (results: Vec<R>) where
    T: Send,
    R: Send,
    F: Fn(T) -> R + Send + Sync,

    requires
        forall|k: int| 0 <= k < items@.len() ==> call_requires(f, (#[trigger] items@[k],)),
    ensures
        results@.len() == items@.len(),
        forall|k: int|
            0 <= k < items@.len() ==> call_ensures(f, (items@[k],), #[trigger] results@[k]),
{
    items.into_par_iter().map(f).collect()
}

/// `run` may be called on `job`.
pub open spec fn may_run<C, F: Fn(&Job<C>) -> Outcome<C>>(run: &F, job: &Job<C>) -> bool {
    call_requires(*run, (job,))
}

/// `stop` may be asked about `job`.
pub open spec fn may_ask<C, S: Fn(&Job<C>) -> bool>(stop: &S, job: &Job<C>) -> bool {
    call_requires(*stop, (job,))
}

/// `slot` holds `job` and an outcome `run` may give for it, as `stop` lets it
/// run, or is empty, as it does not.
pub open spec fn ran_or_skipped<C, F: Fn(&Job<C>) -> Outcome<C>, S: Fn(&Job<C>) -> bool>(
    job: &Job<C>,
    run: &F,
    stop: &S,
    slot: Option<(Job<C>, Outcome<C>)>,
) -> bool {
    match slot {
        Some(pair) => pair.0 == *job && call_ensures(*run, (job,), pair.1) && call_ensures(
            *stop,
            (job,),
            false,
        ),
        None => call_ensures(*stop, (job,), true),
    }
}

/// Asks `stop` about `job`, and runs it if `stop` lets it.
pub fn attempt<C, F, S>(job: Job<C>, run: &F, stop: &S) -> (slot: Option<
    (Job<C>, Outcome<C>),
>) where F: Fn(&Job<C>) -> Outcome<C>, S: Fn(&Job<C>) -> bool
    requires
        call_requires(*run, (&job,)),
        call_requires(*stop, (&job,)),
    ensures
        ran_or_skipped(&job, run, stop, slot),
{
    if stop(&job) {
        None
    } else {
        let outcome = run(&job);
        Some((job, outcome))
    }
}

/// Runs `jobs` on a rayon thread pool, asking `stop` about each of them before
/// it starts: what comes after the first that `stop` does not let run is
/// discarded.
pub fn run_parallel_until<C, F, S>(jobs: Vec<Job<C>>, run: F, stop: S) -> (executed: Vec<
    (Job<C>, Outcome<C>),
>) where
    C: Send,
    F: Fn(&Job<C>) -> Outcome<C> + Send + Sync,
    S: Fn(&Job<C>) -> bool + Send + Sync,

    requires
        forall|k: int| 0 <= k < jobs@.len() ==> call_requires(run, (&#[trigger] jobs@[k],)),
        forall|job: &Job<C>| #[trigger] call_requires(stop, (job,)),
    ensures
        crate::executor::ran_prefix(jobs@, run, executed@),
        forall|k: int|
            0 <= k < executed@.len() ==> call_ensures(stop, (&#[trigger] jobs@[k],), false),
        executed@.len() < jobs@.len() ==> call_ensures(
            stop,
            (&jobs@[executed@.len() as int],),
            true,
        ),
{
    let ghost batch = jobs@;
    let each = |job: Job<C>| -> (slot: Option<(Job<C>, Outcome<C>)>)
        requires
            may_run(&run, &job),
            may_ask(&stop, &job),
        ensures
            ran_or_skipped(&job, &run, &stop, slot),
        { attempt(job, &run, &stop) };
    assert forall|k: int| 0 <= k < jobs@.len() implies call_requires(
        each,
        (#[trigger] jobs@[k],),
    ) by {
        assert(may_run(&run, &jobs@[k]));
        assert(may_ask(&stop, &jobs@[k]));
    }
    let slots = parallel_map(jobs, each);
    let mut executed: Vec<(Job<C>, Outcome<C>)> = Vec::with_capacity(slots.len());
    for slot in done: slots.into_iter()
        invariant_except_break
            executed@.len() == done.index(),
        invariant
            done.seq() == slots@,
            slots@.len() == batch.len(),
            forall|k: int|
                0 <= k < slots@.len() ==> ran_or_skipped(
                    &batch[k],
                    &run,
                    &stop,
                    #[trigger] slots@[k],
                ),
            crate::executor::ran_prefix(batch, run, executed@),
            forall|k: int|
                0 <= k < executed@.len() ==> call_ensures(stop, (&#[trigger] batch[k],), false),
        ensures
            executed@.len() < batch.len() ==> call_ensures(
                stop,
                (&batch[executed@.len() as int],),
                true,
            ),
    {
        assert(slot == slots@[done.index() as int]);
        match slot {
            Some(pair) => executed.push(pair),
            None => break ,
        }
    }
    executed
}

/// An [`Executor`] that runs a round's job batch on a rayon thread pool.
///
/// Useful for batch compilation workloads where intra-round parallelism pays
/// off. Cancellation is checked before each job starts; jobs already in
/// flight are allowed to finish, but their results past the first cancelled
/// slot are discarded and the affected nodes simply remain pending for the
/// next run.
///
/// For LSP-style interactive use, prefer
/// [`SerialExecutor`](crate::SerialExecutor) on a background thread with a
/// [`CancelToken`] — the responsiveness comes from cancelling between batches,
/// not from intra-round parallelism.
#[derive(Debug, Clone, Copy)]
pub struct RayonExecutor;

impl Default for RayonExecutor {
    fn default() -> Self {
        RayonExecutor
    }
}

impl Executor for RayonExecutor {
    /// Jobs are executed only where the token lets them, and left out only where
    /// it cancels them.
    open spec fn may_do(&self, given: nat, done: nat, cancel: &CancelToken) -> bool {
        &&& done <= given
        &&& done > 0 ==> cancel.may_read(false)
        &&& done < given ==> cancel.may_read(true)
    }

    fn execute<C, F>(&self, jobs: Vec<Job<C>>, run: F, cancel: &CancelToken) -> (executed: Vec<
        (Job<C>, Outcome<C>),
    >) where C: Send + 'static, F: Fn(&Job<C>) -> Outcome<C> + Send + Sync {
        let ghost batch = jobs@;
        let stop = |job: &Job<C>| -> (cancelled: bool)
            ensures
                cancel.may_read(cancelled),
            { cancel.is_cancelled() };
        let executed = run_parallel_until(jobs, run, stop);
        proof {
            if executed@.len() > 0 {
                assert(call_ensures(stop, (&batch[0],), false));
            }
        }
        executed
    }
}

} // verus!
