//! Retry decisions for HTTP fetches: which failures are transient, how long
//! to wait before each retry, and when to give up. Transient failures
//! (connection errors, timeouts, HTTP 429 and 5xx) are retried with
//! exponential backoff; a permanent failure is never retried.

use vstd::prelude::*;

verus! {

/// Whether an HTTP status is worth retrying.
#[derive(Debug, Clone, Copy, PartialEq, Eq)]
pub enum Classification {
    Retry,
    Permanent,
}

/// HTTP 429 and every 5xx status are transient; everything else is permanent.
pub open spec fn status_is_retryable(status: u16) -> bool {
    status == 429 || (500 <= status && status < 600)
}

pub fn classify_status(status: u16) -> (c: Classification)
    ensures
        c == (if status_is_retryable(status) { Classification::Retry } else { Classification::Permanent }),
{
    if status == 429 || (500 <= status && status < 600) {
        Classification::Retry
    } else {
        Classification::Permanent
    }
}


/// A failed request (no HTTP status) is transient when it timed out, could
/// not connect, or broke while reading the body.
pub fn classify_request_failure(is_timeout: bool, is_connect: bool, is_body: bool) -> (c: Classification)
    ensures
        c == (if is_timeout || is_connect || is_body { Classification::Retry } else { Classification::Permanent }),
{
    if is_timeout || is_connect || is_body {
        Classification::Retry
    } else {
        Classification::Permanent
    }
}

/// Exponential backoff parameters, in whole milliseconds.
#[derive(Debug, Clone, Copy, PartialEq, Eq)]
pub struct BackoffPolicy {
    /// The delay before the first retry.
    pub base_delay_ms: u64,
    /// The factor by which each further delay grows.
    pub multiplier: u64,
    /// The cap on any one delay.
    pub max_delay_ms: u64,
    /// Attempts in all, the first one included.
    pub max_attempts: u32,
}

pub open spec fn pow_nat(b: nat, e: nat) -> nat
    decreases e,
{
    if e == 0 {
        1
    } else {
        b * pow_nat(b, (e - 1) as nat)
    }
}

/// The delay before attempt number `attempt` (1-based; none before the
/// first): `base * multiplier^(attempt - 2)`, capped at `max_delay_ms`.
pub open spec fn backoff_delay(p: BackoffPolicy, attempt: nat) -> nat {
    if attempt <= 1 {
        0
    } else {
        let raw = (p.base_delay_ms as nat) * pow_nat(p.multiplier as nat, (attempt - 2) as nat);
        if raw <= p.max_delay_ms {
            raw
        } else {
            p.max_delay_ms as nat
        }
    }
}

proof fn lemma_capped_step(x: nat, m: nat, c: nat)
    ensures
        (if (if x <= c { x } else { c }) * m <= c { (if x <= c { x } else { c }) * m } else { c }) == (if x * m
            <= c {
            x * m
        } else {
            c
        }),
{
    if x <= c {
    } else {
        if m >= 1 {
            assert(c * m >= c) by (nonlinear_arith)
                requires
                    m >= 1,
            ;
            assert(x * m >= c * m) by (nonlinear_arith)
                requires
                    x > c,
            ;
        } else {
            assert(m == 0);
            assert(c * m == 0);
            assert(x * m == 0);
        }
    }
}

/// What one attempt of a request ended with, as far as retrying goes.
#[derive(Debug, Clone, Copy, PartialEq, Eq)]
pub enum AttemptResult {
    Succeeded,
    Failed { retryable: bool },
}

/// What to do after an attempt.
#[derive(Debug, Clone, Copy, PartialEq, Eq)]
pub enum FetchDecision {
    /// The body arrived; return it.
    Done,
    /// Report this attempt's failure.
    GiveUp,
    /// Wait `delay_ms`, then make attempt number `attempt`.
    RetryAfter { attempt: u32, delay_ms: u64 },
}

impl BackoffPolicy {
    /// The delay to sleep before attempt number `attempt` (1-based; there is
    /// no delay before the first attempt).
    pub fn delay_before_attempt(&self, attempt: u32) -> (d: u64)
        ensures
            d == backoff_delay(*self, attempt as nat),
    {
        if attempt <= 1 {
            return 0;
        }
        let mut d: u64 = if self.base_delay_ms <= self.max_delay_ms {
            self.base_delay_ms
        } else {
            self.max_delay_ms
        };
        let steps = attempt - 2;
        let mut k: u32 = 0;
        proof {
            assert(pow_nat(self.multiplier as nat, 0) == 1);
            assert((self.base_delay_ms as nat) * 1 == self.base_delay_ms);
        }
        while k < steps
            invariant
                k <= steps,
                steps == attempt - 2,
                d == (if (self.base_delay_ms as nat) * pow_nat(self.multiplier as nat, k as nat) <= self.max_delay_ms {
                    (self.base_delay_ms as nat) * pow_nat(self.multiplier as nat, k as nat)
                } else {
                    self.max_delay_ms as nat
                }),
            decreases steps - k,
        {
            let ghost pk = pow_nat(self.multiplier as nat, k as nat);
            let ghost x = (self.base_delay_ms as nat) * pk;
            proof {
                let b = self.base_delay_ms as nat;
                let m = self.multiplier as nat;
                assert((d as nat) * m <= 0xffff_ffff_ffff_ffffnat * 0xffff_ffff_ffff_ffffnat) by (nonlinear_arith)
                    requires
                        d <= 0xffff_ffff_ffff_ffffnat,
                        m <= 0xffff_ffff_ffff_ffffnat,
                ;
                lemma_capped_step(x, m, self.max_delay_ms as nat);
                assert(pow_nat(m, (k + 1) as nat) == m * pk);
                assert(b * (m * pk) == (b * pk) * m) by (nonlinear_arith);
            }
            let wide: u128 = d as u128 * self.multiplier as u128;
            d = if wide <= self.max_delay_ms as u128 {
                wide as u64
            } else {
                self.max_delay_ms
            };
            k = k + 1;
        }
        d
    }

    /// What to do after attempt number `attempt` ended with `result`: a
    /// success is done; a permanent failure, or any failure of the last
    /// allowed attempt, is given up; otherwise the next attempt follows
    /// after its backoff delay.
    pub fn decide_after_attempt(&self, attempt: u32, result: AttemptResult) -> (d: FetchDecision)
        ensures
            match result {
                AttemptResult::Succeeded => d == FetchDecision::Done,
                AttemptResult::Failed { retryable } => if !retryable || attempt >= self.max_attempts {
                    d == FetchDecision::GiveUp
                } else {
                    d == (FetchDecision::RetryAfter {
                        attempt: (attempt + 1) as u32,
                        delay_ms: backoff_delay(*self, (attempt + 1) as nat) as u64,
                    })
                },
            },
    {
        match result {
            AttemptResult::Succeeded => FetchDecision::Done,
            AttemptResult::Failed { retryable } => {
                if !retryable || attempt >= self.max_attempts {
                    FetchDecision::GiveUp
                } else {
                    let next = attempt + 1;
                    let delay_ms = self.delay_before_attempt(next);
                    FetchDecision::RetryAfter { attempt: next, delay_ms }
                }
            },
        }
    }
}

impl Default for BackoffPolicy {
    /// Five attempts in all, the first retry after 500 ms and each further
    /// one twice as long, at most 8 s.
    fn default() -> (p: Self)
        ensures
            p == (BackoffPolicy { base_delay_ms: 500, multiplier: 2, max_delay_ms: 8000, max_attempts: 5 }),
    {
        BackoffPolicy { base_delay_ms: 500, multiplier: 2, max_delay_ms: 8000, max_attempts: 5 }
    }
}

/// No backoff delay exceeds the policy's cap.
pub proof fn lemma_backoff_capped(p: BackoffPolicy, attempt: nat)
    ensures
        backoff_delay(p, attempt) <= p.max_delay_ms,
{
}

/// Under the default policy the worst case (every one of the five attempts
/// failing transiently) sleeps 7.5 s in all, well under a minute.
pub proof fn lemma_default_worst_case_backoff()
    ensures
        ({
            let p = BackoffPolicy { base_delay_ms: 500, multiplier: 2, max_delay_ms: 8000, max_attempts: 5 };
            backoff_delay(p, 1) + backoff_delay(p, 2) + backoff_delay(p, 3) + backoff_delay(p, 4) + backoff_delay(p, 5)
                == 7500
        }),
{
    reveal_with_fuel(pow_nat, 4);
}


/// A fetch failure, before the caller maps it into its own error type.
/// A failed request is carried as its rendered message.
#[derive(Debug, Clone, PartialEq, Eq)]
pub enum FetchError {
    Request { attempts: u32, message: String },
    Status { status: u16, url: String, attempts: u32 },
    Cancelled,
}

} // verus!
