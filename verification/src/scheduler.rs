//! Time, and work that is put off until later.

use crate::context::Subscription;
use vstd::prelude::*;

verus! {

/// Nanoseconds in a second.
pub const NANOS_PER_SEC: u32 = 1_000_000_000;

/// A span of time, to the nanosecond.
#[derive(Clone, Copy, Debug)]
pub struct Duration {
    secs: u64,
    nanos: u32,
}

impl View for Duration {
    type V = nat;

    /// The length of the span in nanoseconds.
    closed spec fn view(&self) -> nat {
        (self.secs * NANOS_PER_SEC + self.nanos) as nat
    }
}

impl Duration {
    #[verifier::type_invariant]
    spec fn well_formed(self) -> bool {
        self.nanos < NANOS_PER_SEC
    }

    /// A span of `secs` seconds and `nanos` nanoseconds.
    pub fn new(secs: u64, nanos: u32) -> (span: Self)
        requires
            secs + nanos / NANOS_PER_SEC <= u64::MAX,
        ensures
            span@ == secs * NANOS_PER_SEC + nanos,
    {
        Duration { secs: secs + (nanos / NANOS_PER_SEC) as u64, nanos: nanos % NANOS_PER_SEC }
    }

    /// A span of `millis` milliseconds.
    pub fn from_millis(millis: u64) -> (span: Self)
        ensures
            span@ == millis * 1_000_000,
    {
        Duration { secs: millis / 1_000, nanos: ((millis % 1_000) * 1_000_000) as u32 }
    }

    /// The length of the span in nanoseconds.
    pub fn as_nanos(&self) -> (nanos: u128)
        ensures
            nanos == self@,
    {
        proof {
            use_type_invariant(self);
            assert(self.secs * 1_000_000_000 <= u64::MAX * 1_000_000_000);
        }
        self.secs as u128 * NANOS_PER_SEC as u128 + self.nanos as u128
    }

    /// Whether the span is empty.
    pub fn is_zero(&self) -> (empty: bool)
        ensures
            empty == (self@ == 0),
    {
        self.secs == 0 && self.nanos == 0
    }
}

/// What a task tells its scheduler after it has run.
#[derive(Clone, Copy, Debug, PartialEq, Eq, Structural)]
pub enum TaskState {
    /// The task is done and is not to run again.
    Finished,
    /// The task is to run again.
    Again,
}

/// Work that a scheduler can run.
pub trait Task {
    /// Does the work.
    fn run(&mut self) -> TaskState;
}

/// Runs tasks later, on its own terms: possibly on another thread, possibly
/// before `schedule` returns.
pub trait Scheduler<T> {
    /// Cancels a scheduled task.
    type TaskHandle: Subscription;

    /// Arranges for `task` to run once `delay` has passed.
    fn schedule(&self, task: T, delay: Option<Duration>) -> Self::TaskHandle;
}

/// `scheduler` has been given `task`, to run after `delay`, and has handed out
/// `handle` for it.
pub open spec fn scheduled<T, Sch: Scheduler<T>>(
    scheduler: Sch,
    task: T,
    delay: Option<Duration>,
    handle: Sch::TaskHandle,
) -> bool {
    call_ensures(Sch::schedule, (&scheduler, task, delay), handle)
}

// ==================== How the calls on a span fit together ====================
/// A span made of seconds and nanoseconds, or of milliseconds, has that many
/// nanoseconds, all of them: reading it gives back what was put in.
pub proof fn law_spans_are_exact(
    secs: u64,
    nanos: u32,
    millis: u64,
    span: Duration,
    total: u128,
)
    requires
        call_ensures(Duration::as_nanos, (&span,), total),
    ensures
        call_ensures(Duration::new, (secs, nanos), span) ==> total == secs * 1_000_000_000 + nanos,
        call_ensures(Duration::from_millis, (millis,), span) ==> total == millis * 1_000_000,
        total == span@,
{
}

/// A span is empty exactly if it has no nanosecond.
pub proof fn law_only_the_empty_span_is_zero(span: Duration, empty: bool, total: u128)
    requires
        call_ensures(Duration::is_zero, (&span,), empty),
        call_ensures(Duration::as_nanos, (&span,), total),
    ensures
        empty <==> total == 0,
{
}

} // verus!
