//! The decisions of a download with retries: after each attempt, stop, wait and try
//! again, or give up with the last error.
use vstd::prelude::*;
use crate::text::chars_of;

verus! {

/// What follows an attempt.
#[derive(Debug, PartialEq, Eq)]
pub enum RetryAction {
    /// The file is there: the download is done.
    Finished,
    /// Wait this many milliseconds, then make the next attempt.
    WaitThenRetry(u64),
    /// The last attempt failed: its error is the result.
    GiveUp,
}

/// The pause before the next attempt: one second more after each failure.
pub open spec fn backoff_ms(attempt: int) -> int {
    1000 * (attempt + 1)
}

/// The step after attempt number `attempt` (counted from 0) of `max_retries`: a success
/// ends the download; a failure is followed by a pause of `1000 * (attempt + 1)` ms when
/// an attempt is left, and otherwise ends it with the failure.
pub fn after_attempt(attempt: usize, max_retries: usize, succeeded: bool) -> (r: RetryAction)
    requires
        attempt < max_retries,
        backoff_ms(attempt as int) <= u64::MAX,
    ensures
        succeeded ==> r == RetryAction::Finished,
        !succeeded && attempt + 1 < max_retries ==> r == RetryAction::WaitThenRetry(backoff_ms(attempt as int) as u64),
        !succeeded && attempt + 1 >= max_retries ==> r == RetryAction::GiveUp,
{
    if succeeded {
        RetryAction::Finished
    } else if attempt + 1 < max_retries {
        let n: u64 = (attempt + 1) as u64;
        RetryAction::WaitThenRetry(1000 * n)
    } else {
        RetryAction::GiveUp
    }
}

/// Whether a fetched file is kept: always when no SHA-1 is expected (none, or empty),
/// and otherwise only when its digest matches.
pub fn download_accepted(expected_sha1: Option<&str>, digest_matches: bool) -> (r: bool)
    ensures
        r == match expected_sha1 {
            Some(e) => e@.len() == 0 || digest_matches,
            None => true,
        },
{
    match expected_sha1 {
        Some(e) => chars_of(e).len() == 0 || digest_matches,
        None => true,
    }
}

} // verus!
