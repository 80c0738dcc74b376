use voyager::retry::{
    needs_rate_limit_probe, rate_limit_wait_secs, retry_backoff_delay, should_retry_download_error,
};

#[test]
fn backoff_starts_at_base_delay() {
    assert_eq!(retry_backoff_delay(1), 500);
}

#[test]
fn backoff_is_capped() {
    assert_eq!(retry_backoff_delay(30), 30_000);
}

#[test]
fn backoff_doubles_per_attempt() {
    assert_eq!(retry_backoff_delay(2), 1_000);
    assert_eq!(retry_backoff_delay(3), 2_000);
    assert_eq!(retry_backoff_delay(7), 30_000);
}

#[test]
fn retries_server_errors_and_too_many_requests() {
    assert!(should_retry_download_error(Some(500), false, false, false));
    assert!(should_retry_download_error(Some(503), false, false, false));
    assert!(should_retry_download_error(Some(429), false, false, false));
}

#[test]
fn does_not_retry_other_client_errors() {
    assert!(!should_retry_download_error(Some(404), false, false, false));
    assert!(!should_retry_download_error(Some(403), false, false, false));
}

#[test]
fn retries_transport_failures() {
    assert!(should_retry_download_error(None, true, false, false));
    assert!(should_retry_download_error(None, false, true, false));
    assert!(should_retry_download_error(None, false, false, true));
    assert!(!should_retry_download_error(None, false, false, false));
}

#[test]
fn rate_limit_probe_triggers_on_sentinel_and_low_budget() {
    assert!(needs_rate_limit_probe(u64::MAX));
    assert!(needs_rate_limit_probe(10));
    assert!(needs_rate_limit_probe(0));
    assert!(!needs_rate_limit_probe(11));
}

#[test]
fn rate_limit_waits_until_one_second_past_reset() {
    assert_eq!(rate_limit_wait_secs(5, 1_000, 990), 11);
    assert_eq!(rate_limit_wait_secs(5, 1_000, 1_000), 0);
    assert_eq!(rate_limit_wait_secs(50, 1_000, 990), 0);
}
