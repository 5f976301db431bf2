//! Exponential backoff after failed sends, and the point at which an outage
//! counts as long.

use vstd::prelude::*;
use vstd::arithmetic::power2::pow2;
use vstd::arithmetic::power2::lemma_pow2_unfold;

verus! {

/// Delay before the first retry, in milliseconds, unless configured.
pub const DEFAULT_BASE_DELAY_MS: u64 = 500;

/// Longest delay between two attempts, in milliseconds.
pub const MAX_DELAY_MS: u64 = 600_000;

/// Once the delay has grown beyond this many milliseconds, the outage
/// counts as long and what is buffered is given up.
pub const LONG_OUTAGE_MS: u64 = 30_000;

/// The delay that `count` consecutive failures call for, before any cap:
/// nothing without a failure, then the base delay, doubled with each further
/// failure.
pub open spec fn uncapped_delay(base: nat, count: nat) -> nat {
    if count == 0 {
        0
    } else {
        base * pow2((count - 1) as nat)
    }
}

/// The delay that is waited after `count` consecutive failures.
pub open spec fn delay_after(base: nat, count: nat) -> nat {
    if uncapped_delay(base, count) <= MAX_DELAY_MS {
        uncapped_delay(base, count)
    } else {
        MAX_DELAY_MS as nat
    }
}

/// Whether `count` consecutive failures make a long outage.
pub open spec fn is_long_outage(base: nat, count: nat) -> bool {
    uncapped_delay(base, count) > LONG_OUTAGE_MS
}

/// One more failure never shortens the uncapped delay.
pub proof fn lemma_uncapped_delay_step(base: nat, count: nat)
    ensures
        uncapped_delay(base, count) <= uncapped_delay(base, count + 1),
        count >= 1 ==> uncapped_delay(base, count + 1) == 2 * uncapped_delay(base, count),
{
    if count >= 1 {
        lemma_pow2_unfold(count);
        assert(pow2(count) == 2 * pow2((count - 1) as nat));
        assert(base * pow2(count) == 2 * (base * pow2((count - 1) as nat))) by (nonlinear_arith)
            requires
                pow2(count) == 2 * pow2((count - 1) as nat),
        ;
    }
}

/// The uncapped delay never shrinks as failures accumulate.
pub proof fn lemma_uncapped_delay_monotonic(base: nat, fewer: nat, more: nat)
    requires
        fewer <= more,
    ensures
        uncapped_delay(base, fewer) <= uncapped_delay(base, more),
    decreases more - fewer,
{
    if fewer < more {
        lemma_uncapped_delay_monotonic(base, fewer, (more - 1) as nat);
        lemma_uncapped_delay_step(base, (more - 1) as nat);
    }
}

/// Consecutive failures without a success in between give delays that never
/// decrease and never pass the ceiling.
pub proof fn lemma_delay_monotonic(base: nat, fewer: nat, more: nat)
    requires
        fewer <= more,
    ensures
        delay_after(base, fewer) <= delay_after(base, more) <= MAX_DELAY_MS,
{
    lemma_uncapped_delay_monotonic(base, fewer, more);
}

/// Once an outage is long it stays long while failures continue.
pub proof fn lemma_long_outage_persists(base: nat, fewer: nat, more: nat)
    requires
        fewer <= more,
        is_long_outage(base, fewer),
    ensures
        is_long_outage(base, more),
{
    lemma_uncapped_delay_monotonic(base, fewer, more);
}

/// What one failure means for the next attempt.
#[derive(Clone, Copy, Debug, PartialEq, Eq, Structural)]
pub struct Retry {
    /// How many sends have failed in a row, this one included.
    pub attempt: u32,
    /// How long to wait before the next attempt, in milliseconds.
    pub delay_ms: u64,
    /// Whether the outage is long and what is buffered is given up.
    pub drop_outstanding: bool,
}

/// The failure counter and the base delay it is scaled by.
#[derive(Clone, Copy, Debug, PartialEq, Eq, Structural)]
pub struct Backoff {
    base_ms: u64,
    count: u32,
}

impl Backoff {
    /// The configured delay before the first retry, in milliseconds.
    pub closed spec fn base(&self) -> nat {
        self.base_ms as nat
    }

    /// The number of sends that failed since the last success.
    pub closed spec fn failures(&self) -> nat {
        self.count as nat
    }

    /// A backoff without failures that starts at `base_ms` milliseconds.
    pub fn new(base_ms: u64) -> (backoff: Backoff)
        ensures
            backoff.base() == base_ms,
            backoff.failures() == 0,
    {
        Backoff { base_ms, count: 0 }
    }

    /// The configured delay before the first retry, in milliseconds.
    pub fn base_delay_ms(&self) -> (base_ms: u64)
        ensures
            base_ms == self.base(),
    {
        self.base_ms
    }

    /// The number of sends that failed since the last success.
    pub fn failure_count(&self) -> (count: u32)
        ensures
            count == self.failures(),
    {
        self.count
    }

    /// Whether the failures so far make a long outage, and the delay that
    /// is waited after them, in milliseconds.
    pub fn backoff_time(&self) -> (time: (bool, u64))
        ensures
            time.0 == is_long_outage(self.base(), self.failures()),
            time.1 == delay_after(self.base(), self.failures()),
    {
        if self.count == 0 || self.base_ms == 0 {
            assert(uncapped_delay(self.base(), self.failures()) == 0) by (nonlinear_arith)
                requires
                    self.failures() == 0 || self.base() == 0,
                    uncapped_delay(self.base(), self.failures()) == if self.failures() == 0 {
                        0
                    } else {
                        self.base() * pow2((self.failures() - 1) as nat)
                    },
            ;
            return (false, 0);
        }
        let ghost base = self.base();
        let mut delay: u64 = self.base_ms;
        let mut doubled: u32 = 1;
        proof {
            vstd::arithmetic::power2::lemma2_to64();
            assert(base * pow2(0) == base) by (nonlinear_arith)
                requires
                    pow2(0) == 1,
            ;
        }
        while doubled < self.count && delay <= MAX_DELAY_MS
            invariant
                base == self.base(),
                base > 0,
                1 <= doubled <= self.count,
                delay == uncapped_delay(base, doubled as nat),
            decreases self.count - doubled,
        {
            proof {
                lemma_uncapped_delay_step(base, doubled as nat);
            }
            delay = delay * 2;
            doubled = doubled + 1;
        }
        proof {
            lemma_uncapped_delay_monotonic(base, doubled as nat, self.failures());
        }
        if doubled < self.count {
            (true, MAX_DELAY_MS)
        } else if delay > MAX_DELAY_MS {
            (true, MAX_DELAY_MS)
        } else {
            (delay > LONG_OUTAGE_MS, delay)
        }
    }

    /// Forgets the failures: the next one is a first failure again.
    pub fn record_success(&mut self)
        ensures
            final(self).failures() == 0,
            final(self).base() == old(self).base(),
    {
        self.count = 0;
    }

    /// Counts one more failure and says how to go on. The counter stops at
    /// the largest value it can hold.
    pub fn record_failure(&mut self) -> (retry: Retry)
        ensures
            final(self).base() == old(self).base(),
            final(self).failures() == if old(self).failures() < u32::MAX {
                old(self).failures() + 1
            } else {
                old(self).failures()
            },
            retry.attempt == final(self).failures(),
            retry.delay_ms == delay_after(final(self).base(), final(self).failures()),
            retry.drop_outstanding == is_long_outage(
                final(self).base(),
                final(self).failures(),
            ),
    {
        if self.count < u32::MAX {
            self.count = self.count + 1;
        }
        let (drop_outstanding, delay_ms) = self.backoff_time();
        Retry { attempt: self.count, delay_ms, drop_outstanding }
    }
}

} // verus!
