//! Periodic tasks: how a timer was started, and the token that tells a task to stop.
use crate::primitives::Duration;
use vstd::prelude::*;

verus! {

/// How a timer thread runs its task first.
#[derive(PartialEq, Eq, Structural, Clone, Copy, Debug)]
pub enum TimerStartType {
    /// Run at once, then after each interval.
    Start,
    /// Wait one interval before the first run.
    StartDelayed,
    /// Run once in the calling thread, then after each interval.
    RunOnceThenStart,
}

/// A record that a timer thread was started.
#[derive(PartialEq, Eq, Clone, Debug)]
pub struct TimerStartEvent {
    pub thread_name: String,
    pub start_type: TimerStartType,
    pub interval: Duration,
}

/// Tells a periodic task whether to stop. A token either stops once `cancel` is called, or,
/// scripted, answers a given number of waits with "not cancelled" and every later wait with
/// "cancelled" (and then counts as cancelled). Each wait is recorded with its timeout.
pub struct CancellationToken {
    uncancelled_waits: Option<usize>,
    cancelled: bool,
    waits: Vec<Duration>,
}

impl CancellationToken {
    /// For a scripted token the waits still answered with "not cancelled"; none for a token
    /// that stops on `cancel`.
    pub closed spec fn remaining_waits(&self) -> Option<usize> {
        self.uncancelled_waits
    }

    pub closed spec fn cancelled_spec(&self) -> bool {
        self.cancelled
    }

    /// The timeouts of the waits so far, in order.
    pub closed spec fn waits_spec(&self) -> Seq<Duration> {
        self.waits@
    }

    /// A token that stops when `cancel` is called.
    pub fn new() -> (r: CancellationToken)
        ensures
            r.remaining_waits() is None,
            !r.cancelled_spec(),
            r.waits_spec() == Seq::<Duration>::empty(),
    {
        CancellationToken { uncancelled_waits: None, cancelled: false, waits: Vec::new() }
    }

    /// A scripted token that is never cancelled in practice.
    pub fn new_null() -> (r: CancellationToken)
        ensures
            r.remaining_waits() == Some(usize::MAX),
            !r.cancelled_spec(),
            r.waits_spec() == Seq::<Duration>::empty(),
    {
        Self::new_null_with_uncancelled_waits(usize::MAX)
    }

    /// A scripted token that answers `uncancelled_wait_count` waits with "not cancelled";
    /// with none it starts cancelled.
    pub fn new_null_with_uncancelled_waits(uncancelled_wait_count: usize) -> (r: CancellationToken)
        ensures
            r.remaining_waits() == Some(uncancelled_wait_count),
            r.cancelled_spec() == (uncancelled_wait_count == 0),
            r.waits_spec() == Seq::<Duration>::empty(),
    {
        CancellationToken {
            uncancelled_waits: Some(uncancelled_wait_count),
            cancelled: uncancelled_wait_count == 0,
            waits: Vec::new(),
        }
    }

    /// Waits up to `timeout` for cancellation; returns whether the token is cancelled. The
    /// wait is recorded. A scripted token uses up one "not cancelled" answer, or, with none
    /// left, becomes cancelled. (The time itself passes where the token's owner waits.)
    pub fn wait_for_cancellation(&mut self, timeout: Duration) -> (r: bool)
        ensures
            final(self).waits_spec() == old(self).waits_spec().push(timeout),
            match old(self).remaining_waits() {
                None => r == old(self).cancelled_spec() && final(self).cancelled_spec() == old(
                    self,
                ).cancelled_spec() && final(self).remaining_waits() is None,
                Some(n) => if n > 0 {
                    !r && final(self).remaining_waits() == Some((n - 1) as usize)
                        && final(self).cancelled_spec() == old(self).cancelled_spec()
                } else {
                    r && final(self).cancelled_spec() && final(self).remaining_waits() == Some(0usize)
                },
            },
    {
        self.waits.push(timeout);
        match self.uncancelled_waits {
            None => self.cancelled,
            Some(n) => {
                if n > 0 {
                    self.uncancelled_waits = Some(n - 1);
                    false
                } else {
                    self.cancelled = true;
                    true
                }
            },
        }
    }

    /// Cancels a token that stops on `cancel`; a scripted token ignores it.
    pub fn cancel(&mut self)
        ensures
            final(self).remaining_waits() == old(self).remaining_waits(),
            final(self).waits_spec() == old(self).waits_spec(),
            old(self).remaining_waits() is None ==> final(self).cancelled_spec(),
            old(self).remaining_waits() is Some ==> final(self).cancelled_spec() == old(self).cancelled_spec(),
    {
        if self.uncancelled_waits.is_none() {
            self.cancelled = true;
        }
    }

    /// Whether the token answers waits by its script rather than by `cancel`.
    pub fn is_scripted(&self) -> (r: bool)
        ensures
            r == self.remaining_waits() is Some,
    {
        self.uncancelled_waits.is_some()
    }

    pub fn is_cancelled(&self) -> (r: bool)
        ensures
            r == self.cancelled_spec(),
    {
        self.cancelled
    }

    /// The timeouts of the waits so far, in order.
    pub fn waits(&self) -> (r: &Vec<Duration>)
        ensures
            r@ == self.waits_spec(),
    {
        &self.waits
    }
}

} // verus!
