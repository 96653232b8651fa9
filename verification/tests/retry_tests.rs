use qomicex_core::retry::{after_attempt, download_accepted, RetryAction};

#[test]
fn retries_back_off_by_a_second_each_time() {
    assert_eq!(after_attempt(0, 3, false), RetryAction::WaitThenRetry(1000));
    assert_eq!(after_attempt(1, 3, false), RetryAction::WaitThenRetry(2000));
    assert_eq!(after_attempt(2, 3, false), RetryAction::GiveUp);
    assert_eq!(after_attempt(1, 3, true), RetryAction::Finished);
    assert_eq!(after_attempt(0, 1, false), RetryAction::GiveUp);
}

#[test]
fn downloads_are_kept_when_digest_matches_or_none_expected() {
    assert!(download_accepted(None, false));
    assert!(download_accepted(Some(""), false));
    assert!(download_accepted(Some("abc"), true));
    assert!(!download_accepted(Some("abc"), false));
}
