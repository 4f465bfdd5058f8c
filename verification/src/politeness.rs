//! Per-source politeness: a minimal delay between requests and a cap on
//! requests at once.
use vstd::prelude::*;

verus! {

/// What is left of the minimal delay, given how long ago the last request was
/// made; nothing before the first request.
pub open spec fn delay_left(min_delay: int, since_last: Option<u128>) -> int {
    match since_last {
        Some(elapsed) => if elapsed < min_delay {
            min_delay - elapsed
        } else {
            0
        },
        None => 0,
    }
}

/// How long to wait before the next request, in nanoseconds.
pub fn delay_before_request(min_delay: u128, since_last: Option<u128>) -> (r: u128)
    ensures
        r == delay_left(min_delay as int, since_last),
{
    match since_last {
        Some(elapsed) => if elapsed < min_delay {
            min_delay - elapsed
        } else {
            0
        },
        None => 0,
    }
}

/// How many requests may be made at once: at least one.
pub fn concurrency(max_concurrency: usize) -> (r: usize)
    ensures
        r == if max_concurrency < 1 {
            1
        } else {
            max_concurrency
        },
{
    if max_concurrency < 1 {
        1
    } else {
        max_concurrency
    }
}

/// Waiting as told keeps requests at least the minimal delay apart, and delays
/// none that come that late of themselves.
pub proof fn law_requests_keep_their_distance(min_delay: u128, elapsed: u128)
    ensures
        elapsed + delay_left(min_delay as int, Some(elapsed)) >= min_delay,
        elapsed >= min_delay ==> delay_left(min_delay as int, Some(elapsed)) == 0,
{
}

} // verus!
