//! The deadlock retry of the vocabulary statement: a failed attempt is
//! rolled back; a deadlock is retried after a linear backoff, any other
//! failure ends the batch.

use vstd::prelude::*;
use crate::bytes::str_eq;
use rand::Rng;

verus! {

/// The code the store reports when it broke a deadlock.
pub const DEADLOCK_CODE: &'static str = "40P01";

/// Shortest and longest base delay, in milliseconds.
pub const MIN_BASE_DELAY_MS: u64 = 100;
pub const MAX_BASE_DELAY_MS: u64 = 500;

/// Relies on rand's `thread_rng().gen_range(lo..=hi)`: a value drawn
/// uniformly from the inclusive range, which must not be empty.
#[verifier::external_body]
fn draw_in_range(lo: u64, hi: u64) -> (r: u64)
    requires
        lo <= hi,
    ensures
        lo <= r <= hi,
{
    rand::thread_rng().gen_range(lo..=hi)
}

/// Whether a store error code is the deadlock code.
pub fn is_deadlock_code(code: &str) -> (r: bool)
    ensures
        r == (code@ == DEADLOCK_CODE@),
{
    str_eq(code, DEADLOCK_CODE)
}

pub struct DeadlockRetry {
    base_delay_ms: u64,
    attempts: u32,
}

impl DeadlockRetry {
    pub closed spec fn base_delay(&self) -> nat {
        self.base_delay_ms as nat
    }

    /// Deadlocks met so far.
    pub closed spec fn failed_attempts(&self) -> nat {
        self.attempts as nat
    }

    pub closed spec fn wf(&self) -> bool {
        MIN_BASE_DELAY_MS <= self.base_delay_ms <= MAX_BASE_DELAY_MS
    }

    /// A retry state with the given base delay and no attempt made.
    pub fn with_base_delay(base_delay_ms: u64) -> (r: Self)
        requires
            MIN_BASE_DELAY_MS <= base_delay_ms <= MAX_BASE_DELAY_MS,
        ensures
            r.wf(),
            r.base_delay() == base_delay_ms,
            r.failed_attempts() == 0,
    {
        DeadlockRetry { base_delay_ms, attempts: 0 }
    }

    /// A retry state whose base delay is drawn once, uniformly between
    /// `MIN_BASE_DELAY_MS` and `MAX_BASE_DELAY_MS`.
    pub fn new() -> (r: Self)
        ensures
            r.wf(),
            MIN_BASE_DELAY_MS <= r.base_delay() <= MAX_BASE_DELAY_MS,
            r.failed_attempts() == 0,
    {
        Self::with_base_delay(draw_in_range(MIN_BASE_DELAY_MS, MAX_BASE_DELAY_MS))
    }

    /// After a failed, rolled-back attempt that reported `error_code`: the
    /// milliseconds to sleep before the next attempt, or `None` when the
    /// failure is not a deadlock and the batch ends. The n-th deadlock
    /// sleeps n times the base delay (the count stops at `u32::MAX`).
    pub fn on_failure(&mut self, error_code: Option<&str>) -> (delay_ms: Option<u64>)
        requires
            old(self).wf(),
        ensures
            final(self).wf(),
            final(self).base_delay() == old(self).base_delay(),
            match error_code {
                Some(code) if code@ == DEADLOCK_CODE@ => {
                    &&& final(self).failed_attempts() == if old(self).failed_attempts() < u32::MAX {
                        old(self).failed_attempts() + 1
                    } else {
                        old(self).failed_attempts()
                    }
                    &&& delay_ms is Some
                    &&& delay_ms->0 == old(self).base_delay() * final(self).failed_attempts()
                },
                _ => delay_ms is None && final(self).failed_attempts() == old(self).failed_attempts(),
            },
    {
        match error_code {
            Some(code) => {
                if is_deadlock_code(code) {
                    if self.attempts < u32::MAX {
                        self.attempts = self.attempts + 1;
                    }
                    assert(self.base_delay_ms * self.attempts <= 500 * 0xffff_ffff) by (nonlinear_arith)
                        requires
                            self.base_delay_ms <= 500,
                            self.attempts <= 0xffff_ffff,
                    ;
                    Some(self.base_delay_ms * self.attempts as u64)
                } else {
                    None
                }
            },
            None => None,
        }
    }
}

} // verus!
