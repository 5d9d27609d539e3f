//! Retry policies with exponential backoff and jitter.
//!
//! The retry loop itself (which awaits an operation and sleeps) is run by the
//! caller; `RetryPolicy::delay_after_failure` decides, after each failed
//! attempt, whether to give up or how long to wait before the next one.
use vstd::prelude::*;

use crate::random::random_u64;

verus! {

/// `2^e`.
pub open spec fn two_pow(e: nat) -> nat
    decreases e,
{
    if e == 0 {
        1
    } else {
        2 * two_pow((e - 1) as nat)
    }
}

proof fn lemma_two_pow_grows(a: nat, b: nat)
    requires
        a <= b,
    ensures
        1 <= two_pow(a) <= two_pow(b),
    decreases b - a,
{
    if a < b {
        lemma_two_pow_grows(a, (b - 1) as nat);
    } else {
        lemma_two_pow_positive(a);
    }
}

proof fn lemma_two_pow_positive(a: nat)
    ensures
        1 <= two_pow(a),
    decreases a,
{
    if a > 0 {
        lemma_two_pow_positive((a - 1) as nat);
    }
}

/// A policy for retrying failed operations. Delays are in milliseconds.
#[derive(Clone, Copy, Debug)]
pub struct RetryPolicy {
    /// The maximum number of attempts.
    pub max_attempts: u32,
    /// The delay (ms) before the first retry; it doubles with each attempt.
    pub base_delay: u64,
    /// The longest delay (ms) between retries, before jitter.
    pub max_delay: u64,
}

impl RetryPolicy {
    /// `base_delay * 2^attempt`, at most `max_delay`.
    pub open spec fn spec_exponential_backoff(&self, attempt: u32) -> nat {
        let d: int = self.base_delay * two_pow(attempt as nat);
        if d <= self.max_delay {
            d as nat
        } else {
            self.max_delay as nat
        }
    }

    /// The jittered delay is defined for `attempt`: the delay and a quarter of
    /// it fit in 64 bits.
    pub open spec fn jitter_defined(&self, attempt: u32) -> bool {
        self.spec_exponential_backoff(attempt) + self.spec_exponential_backoff(attempt) / 4 <= u64::MAX
    }

    /// The delay for `attempt` with the jitter taken from the random number `r`:
    /// `d + r % (d / 4 + 1)` for the exponential delay `d`.
    pub open spec fn spec_jittered_backoff(&self, attempt: u32, r: u64) -> nat {
        let d: int = self.spec_exponential_backoff(attempt) as int;
        (d + (r as int) % (d / 4 + 1)) as nat
    }

    /// A new policy.
    pub fn new(max_attempts: u32, base_delay: u64, max_delay: u64) -> (p: Self)
        ensures
            p.max_attempts == max_attempts,
            p.base_delay == base_delay,
            p.max_delay == max_delay,
    {
        RetryPolicy { max_attempts, base_delay, max_delay }
    }

    /// A fast policy for responsive mailbox operations: four attempts, 50 ms
    /// base delay, 500 ms longest delay.
    pub fn fast_mailbox() -> (p: Self)
        ensures
            p.max_attempts == 4,
            p.base_delay == 50,
            p.max_delay == 500,
    {
        Self::new(4, 50, 500)
    }

    /// The exponential delay (ms) before the retry that follows `attempt`
    /// (0-based): `base_delay * 2^attempt`, at most `max_delay`, for every
    /// attempt.
    pub fn exponential_backoff(&self, attempt: u32) -> (d: u64)
        ensures
            d == self.spec_exponential_backoff(attempt),
    {
        let mut cur: u128 = self.base_delay as u128;
        let mut i: u32 = 0;
        proof {
            assert(two_pow(0) == 1);
            assert(self.base_delay * two_pow(0) == self.base_delay);
        }
        while i < attempt && cur != 0 && cur <= self.max_delay as u128
            invariant
                i <= attempt,
                cur == self.base_delay * two_pow(i as nat),
                cur <= 2 * (u64::MAX as int),
            decreases attempt - i,
        {
            proof {
                assert(two_pow((i + 1) as nat) == 2 * two_pow(i as nat));
                assert(self.base_delay * two_pow((i + 1) as nat) == 2 * (self.base_delay * two_pow(i as nat)))
                    by (nonlinear_arith);
            }
            cur = cur * 2;
            i += 1;
        }
        proof {
            if cur == 0 {
                lemma_two_pow_positive(i as nat);
                let x = two_pow(i as nat);
                let b = self.base_delay as nat;
                assert(b == 0) by (nonlinear_arith)
                    requires
                        b * x == 0,
                        x >= 1,
                ;
                assert(self.base_delay * two_pow(attempt as nat) == 0);
            } else if i < attempt {
                lemma_two_pow_grows(i as nat, attempt as nat);
                let x = two_pow(i as nat);
                let y = two_pow(attempt as nat);
                let b = self.base_delay as nat;
                assert(b * x <= b * y) by (nonlinear_arith)
                    requires
                        x <= y,
                ;
            }
        }
        if cur <= self.max_delay as u128 {
            cur as u64
        } else {
            self.max_delay
        }
    }

    /// The exponential delay for `attempt` with a jitter of up to a quarter of
    /// it, taken from the random number `random`.
    pub fn exponential_backoff_with_jitter_from(&self, attempt: u32, random: u64) -> (d: u64)
        requires
            self.jitter_defined(attempt),
        ensures
            d == self.spec_jittered_backoff(attempt, random),
    {
        let base = self.exponential_backoff(attempt);
        let jitter = random % (base / 4 + 1);
        base + jitter
    }

    /// The exponential delay for `attempt` with a random jitter of up to a
    /// quarter of it.
    pub fn exponential_backoff_with_jitter(&self, attempt: u32) -> (d: u64)
        requires
            self.jitter_defined(attempt),
        ensures
            exists|r: u64| d == #[trigger] self.spec_jittered_backoff(attempt, r),
            self.spec_exponential_backoff(attempt) <= d <= self.spec_exponential_backoff(attempt)
                + self.spec_exponential_backoff(attempt) / 4,
    {
        let r = random_u64();
        self.exponential_backoff_with_jitter_from(attempt, r)
    }

    /// The decision after the attempt numbered `attempt` (0-based) failed, with
    /// the random number `random` for the jitter: `None` when it was the last
    /// attempt (the error is returned), else the delay (ms) to wait before the
    /// next attempt.
    pub fn delay_after_failure(&self, attempt: u32, random: u64) -> (r: Option<u64>)
        requires
            attempt < self.max_attempts,
            attempt + 1 < self.max_attempts ==> self.jitter_defined(attempt),
        ensures
            r == (if attempt + 1 >= self.max_attempts {
                None
            } else {
                Some(self.spec_jittered_backoff(attempt, random) as u64)
            }),
    {
        if attempt + 1 >= self.max_attempts {
            None
        } else {
            Some(self.exponential_backoff_with_jitter_from(attempt, random))
        }
    }
}

/// The exponential delay never shrinks from one attempt to a later one.
pub proof fn law_exponential_backoff_never_shrinks(p: RetryPolicy, a: u32, b: u32)
    requires
        a <= b,
    ensures
        p.spec_exponential_backoff(a) <= p.spec_exponential_backoff(b),
{
    lemma_two_pow_grows(a as nat, b as nat);
    let x = two_pow(a as nat);
    let y = two_pow(b as nat);
    let base = p.base_delay as nat;
    assert(base * x <= base * y) by (nonlinear_arith)
        requires
            x <= y,
    ;
}

/// The exponential delay never exceeds `max_delay`, and a jitter adds at most
/// a quarter of it.
pub proof fn law_jittered_backoff_bounds(p: RetryPolicy, attempt: u32, r: u64)
    ensures
        p.spec_exponential_backoff(attempt) <= p.max_delay,
        p.spec_exponential_backoff(attempt) <= p.spec_jittered_backoff(attempt, r),
        p.spec_jittered_backoff(attempt, r) <= p.spec_exponential_backoff(attempt)
            + p.spec_exponential_backoff(attempt) / 4,
{
}

} // verus!
