//! The background poller's pacing: a long base interval, and exponential
//! backoff after a rate-limit refusal, capped so the poller recovers.
use vstd::prelude::*;

verus! {

/// Base poll interval, in seconds.
pub const INTERVAL: u64 = 1800;

/// Upper bound on rate-limit backoff, in seconds.
pub const MAX_BACKOFF: u64 = 7200;

/// The backoff after another rate-limit refusal: twice the current one (twice
/// the base interval on the first), capped at `MAX_BACKOFF`.
pub fn next_backoff(backoff: Option<u64>) -> (r: u64)
    requires
        backoff matches Some(b) ==> b <= MAX_BACKOFF,
    ensures
        r == match backoff {
            Some(b) => if 2 * b < MAX_BACKOFF {
                2 * b
            } else {
                MAX_BACKOFF as int
            },
            None => 2 * INTERVAL as int,
        },
        r <= MAX_BACKOFF,
{
    let doubled = match backoff {
        Some(b) => b * 2,
        None => INTERVAL * 2,
    };
    if doubled < MAX_BACKOFF {
        doubled
    } else {
        MAX_BACKOFF
    }
}

/// How long to sleep before the next fetch: the backoff when one is in
/// force, else the base interval.
pub fn wait_secs(backoff: Option<u64>) -> (r: u64)
    ensures
        r == match backoff {
            Some(b) => b,
            None => INTERVAL,
        },
{
    match backoff {
        Some(b) => b,
        None => INTERVAL,
    }
}

/// However many rate-limit refusals in a row, the wait never exceeds
/// `MAX_BACKOFF` and never shrinks from one refusal to the next.
pub proof fn law_backoff_bounded_and_growing(b: u64)
    requires
        b <= MAX_BACKOFF,
    ensures
        ({
            let n = if 2 * b < MAX_BACKOFF {
                2 * b
            } else {
                MAX_BACKOFF as int
            };
            b <= n <= MAX_BACKOFF
        }),
{
}

} // verus!
