//! Cooperative cancellation for engine runs.

use std::sync::atomic::{AtomicBool, Ordering};
use std::sync::Arc;
use vstd::prelude::*;

verus! {

/// A cheap, thread-safe flag for cancelling an engine run.
///
/// The engine checks the token between batches and executors check it between
/// individual jobs, so cancelling takes effect at job granularity. Clone the
/// token to share it with passes (a pass may cancel a run itself) or with a
/// watchdog thread.
///
/// The flag is shared memory that any clone may change at any moment, so no
/// contract fixes what a particular read returns. What each method does to the
/// flag is stated as the atomic operation that it performs; everything that
/// depends on a read is stated for both answers. Where runs and executors ask
/// for a read, and what they do upon it, is stated of the functions that take
/// the reads from a closure: [`Engine::run_until`](crate::Engine::run_until),
/// [`run_until`](crate::executor::run_until) and
/// [`run_parallel_until`](crate::executor_rayon::run_parallel_until).
#[derive(Debug)]
pub struct CancelToken(Arc<AtomicBool>);

impl Clone for CancelToken {
    /// Another handle to the same flag.
    fn clone(&self) -> (token: Self)
        ensures
            token == *self,
    {
        Self(self.0.clone())
    }
}

impl Default for CancelToken {
    /// A token in the not-cancelled state.
    fn default() -> (token: Self)
        ensures
            token.created_as(false),
    {
        Self::new()
    }
}

impl CancelToken {
    /// The flag of this token was created holding `cancelled`.
    pub closed spec fn created_as(&self, cancelled: bool) -> bool {
        call_ensures(AtomicBool::new, (cancelled,), *self.0)
    }

    /// A read of the flag, as an acquire load, may answer `cancelled`.
    pub closed spec fn may_read(&self, cancelled: bool) -> bool {
        call_ensures(AtomicBool::load, (&*self.0, Ordering::Acquire), cancelled)
    }

    /// `cancelled` was written to the flag, as a release store.
    pub closed spec fn was_set(&self, cancelled: bool) -> bool {
        call_ensures(AtomicBool::store, (&*self.0, cancelled, Ordering::Release), ())
    }

    /// Creates a token in the not-cancelled state.
    pub fn new() -> (token: Self)
        ensures
            token.created_as(false),
    {
        Self(Arc::new(AtomicBool::new(false)))
    }

    /// Marks the run as cancelled.
    pub fn cancel(&self)
        ensures
            self.was_set(true),
    {
        self.0.store(true, Ordering::Release);
    }

    /// Clears the cancelled state so the token can be reused.
    pub fn reset(&self)
        ensures
            self.was_set(false),
    {
        self.0.store(false, Ordering::Release);
    }

    /// Returns `true` if the token has been cancelled.
    pub fn is_cancelled(&self) -> (cancelled: bool)
        ensures
            self.may_read(cancelled),
    {
        self.0.load(Ordering::Acquire)
    }
}

} // verus!
