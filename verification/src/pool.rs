//! The limit on how many probes run at once.
use vstd::prelude::*;

use std::sync::Arc;
use tokio::sync::Semaphore;

verus! {

/// `tokio::sync::Semaphore`, carried through as it is.
#[verifier::external_type_specification]
#[verifier::external_body]
pub struct ExSemaphore(tokio::sync::Semaphore);

/// `tokio::sync::Semaphore::new`: a semaphore with `permits` permits. Its
/// source panics above `Semaphore::MAX_PERMITS` (`usize::MAX >> 3`), which
/// `requires` leaves out; of the semaphore nothing is stated.
#[verifier::external_body]
fn new_semaphore(permits: usize) -> Semaphore
    requires
        permits <= usize::MAX >> 3,
{
    Semaphore::new(permits)
}

/// A limit on concurrent work: a semaphore of `max_concurrent` permits.
pub struct ConcurrencyLimiter {
    pub semaphore: Arc<Semaphore>,
    pub max_concurrent: usize,
}

impl ConcurrencyLimiter {
    /// A limiter of `max_concurrent` permits.
    pub fn new(max_concurrent: usize) -> (r: ConcurrencyLimiter)
        requires
            max_concurrent <= usize::MAX >> 3,
        ensures
            r.max_concurrent == max_concurrent,
    {
        ConcurrencyLimiter { semaphore: Arc::new(new_semaphore(max_concurrent)), max_concurrent }
    }

    /// Its number of permits.
    pub fn max_concurrent(&self) -> (r: usize)
        ensures
            r == self.max_concurrent,
    {
        self.max_concurrent
    }
}

/// The limiter that the service installs for the whole process (as
/// `init_global_limiter`, whose caller keeps the first one it gets).
pub fn init_global_limiter(max_concurrent: usize) -> (r: ConcurrencyLimiter)
    requires
        max_concurrent <= usize::MAX >> 3,
    ensures
        r.max_concurrent == max_concurrent,
{
    ConcurrencyLimiter::new(max_concurrent)
}

} // verus!
