//! Retry-policy decisions for one idempotent document fetch: bounded
//! exponential backoff starting at 10 ms, at most five attempts, and a
//! not-found response treated as terminal, never retried. The caller
//! performs the fetch and the sleep (and may jitter the delay); the
//! decisions stand here.

use vstd::prelude::*;

verus! {

/// The cap on fetch attempts for one document.
pub const MAX_FETCH_ATTEMPTS: u32 = 5;

/// Ten to the `k`-th power.
pub open spec fn spec_pow10(k: nat) -> nat
    decreases k,
{
    if k == 0 {
        1
    } else {
        10 * spec_pow10((k - 1) as nat)
    }
}

/// The decision after a failed attempt: `None` to give up — always
/// for a not-found response, and once the attempt cap is reached —
/// otherwise the nominal delay in milliseconds before the next
/// attempt: 10 ms after the first failure, tenfold each failure after.
pub open spec fn backoff_decision(not_found: bool, attempts_made: u32) -> Option<u64> {
    if not_found || attempts_made >= MAX_FETCH_ATTEMPTS {
        None
    } else {
        Some(spec_pow10(attempts_made as nat) as u64)
    }
}

/// Whether a response status ends the fetch with no retry: only the
/// not-found status does; it means the resource does not exist.
pub fn is_terminal_status(status: u16) -> (r: bool)
    ensures
        r == (status == 404),
{
    status == 404
}

/// Decides whether to retry after a failed attempt and after which
/// delay. `attempts_made` counts the attempts so far, the failed one
/// included.
pub fn retry_backoff_ms(not_found: bool, attempts_made: u32) -> (r: Option<u64>)
    requires
        attempts_made >= 1,
    ensures
        r == backoff_decision(not_found, attempts_made),
{
    proof {
        assert(spec_pow10(0) == 1);
        assert(spec_pow10(1) == 10);
        assert(spec_pow10(2) == 100);
        assert(spec_pow10(3) == 1000);
        assert(spec_pow10(4) == 10000);
    }
    if not_found || attempts_made >= MAX_FETCH_ATTEMPTS {
        None
    } else if attempts_made == 1 {
        Some(10)
    } else if attempts_made == 2 {
        Some(100)
    } else if attempts_made == 3 {
        Some(1000)
    } else {
        Some(10000)
    }
}

} // verus!
