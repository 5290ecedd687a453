use std::sync::atomic::{AtomicBool, Ordering};
use std::sync::Arc;
use std::time::{Duration, Instant};
use vstd::prelude::*;

use crate::error::BufError;

verus! {

#[verifier::external_type_specification]
#[verifier::external_body]
pub struct ExInstant(Instant);

/// Relies on `std::time::Instant::now`: the current monotonic time.
#[verifier::external_body]
fn instant_now() -> (r: Instant) {
    Instant::now()
}

/// Relies on `std::time::Instant::elapsed`: the time since `t`.
#[verifier::external_body]
fn instant_elapsed(t: &Instant) -> (r: Duration) {
    t.elapsed()
}

/// Relies on `std::time::Duration::as_nanos`: the whole nanoseconds in `d`.
#[verifier::external_body]
pub(crate) fn duration_nanos(d: &Duration) -> (r: u128) {
    d.as_nanos()
}

/// Whether a context whose own flag reads `stopped`, whose parent chain
/// reads `parent_done`, which has run for `elapsed_ns` nanoseconds and has
/// the deadline `timeout_ns` (if any) counts as done.
pub open spec fn done_spec(
    stopped: bool,
    parent_done: bool,
    elapsed_ns: u128,
    timeout_ns: Option<u128>,
) -> bool {
    stopped || parent_done || (timeout_ns is Some && elapsed_ns > timeout_ns->Some_0)
}

/// A context below a done parent is done, whatever its own flag and clock
/// read; a context with a deadline whose flag and parents are clear is done
/// exactly once its running time exceeds the deadline, so not at creation.
pub proof fn lemma_child_done(stopped: bool, elapsed_ns: u128, timeout_ns: u128)
    ensures
        done_spec(stopped, true, elapsed_ns, Some(timeout_ns)),
        done_spec(stopped, true, elapsed_ns, None),
        done_spec(false, false, elapsed_ns, Some(timeout_ns)) == (elapsed_ns > timeout_ns),
        !done_spec(false, false, 0, Some(timeout_ns)),
{
}

/// The decision behind [`Context::done`], on observed values.
pub fn done_from(stopped: bool, parent_done: bool, elapsed_ns: u128, timeout_ns: Option<u128>) -> (r:
    bool)
    ensures
        r == done_spec(stopped, parent_done, elapsed_ns, timeout_ns),
{
    if parent_done || stopped {
        return true;
    }
    match timeout_ns {
        Some(t) => elapsed_ns > t,
        None => false,
    }
}

struct CtxInner {
    parent: Option<Context>,
    doned: AtomicBool,
    times: Instant,
    timeout: Option<Duration>,
}

/// A cancellation token shared by all its clones. It is done once it is
/// stopped, once any ancestor is done, or once its deadline has passed.
#[derive(Clone)]
pub struct Context {
    inner: Arc<CtxInner>,
}

impl Context {
    /// The number of ancestors above this context.
    pub closed spec fn depth(&self) -> nat
        decreases self,
    {
        match self.inner.parent {
            Some(p) => p.depth() + 1,
            None => 0,
        }
    }

    /// The context one level up, if any.
    pub closed spec fn parent(&self) -> Option<Context> {
        self.inner.parent
    }

    /// How long after its creation the context becomes done by itself, if at all.
    pub closed spec fn deadline(&self) -> Option<Duration> {
        self.inner.timeout
    }

    /// A context without a deadline, below `prt` if given.
    pub fn background(prt: Option<Context>) -> (r: Self)
        ensures
            r.parent() == prt,
            r.deadline() is None,
    {
        Context {
            inner: Arc::new(
                CtxInner { parent: prt, doned: AtomicBool::new(false), times: instant_now(), timeout: None },
            ),
        }
    }

    /// A context that is done `tmd` after its creation, below `prt` if given.
    pub fn with_timeout(prt: Option<Context>, tmd: Duration) -> (r: Self)
        ensures
            r.parent() == prt,
            r.deadline() == Some(tmd),
    {
        Context {
            inner: Arc::new(
                CtxInner {
                    parent: prt,
                    doned: AtomicBool::new(false),
                    times: instant_now(),
                    timeout: Some(tmd),
                },
            ),
        }
    }

    /// Whether this context is done: stopped, below a done context, or past
    /// its deadline. It reads shared flags and the clock, so two calls may differ.
    pub fn done(&self) -> (r: bool)
        decreases self.depth(),
    {
        let parent_done = match &self.inner.parent {
            Some(p) => p.done(),
            None => false,
        };
        let stopped = self.inner.doned.load(Ordering::SeqCst);
        let (elapsed_ns, timeout_ns) = match &self.inner.timeout {
            Some(t) => (duration_nanos(&instant_elapsed(&self.inner.times)), Some(duration_nanos(t))),
            None => (0, None),
        };
        done_from(stopped, parent_done, elapsed_ns, timeout_ns)
    }

    /// `Err(Closed)` once the context is done.
    pub fn done_err(&self) -> (r: Result<(), BufError>)
        ensures
            r is Err ==> r == Err::<(), BufError>(BufError::Closed),
    {
        if self.done() {
            Err(BufError::Closed)
        } else {
            Ok(())
        }
    }

    /// Marks this context, and so every context below it, as done.
    pub fn stop(&self) -> (r: bool)
        ensures
            r,
    {
        self.inner.doned.store(true, Ordering::SeqCst);
        true
    }
}

} // verus!
