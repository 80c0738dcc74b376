//! Retry and rate-limit policy: capped exponential backoff, which failures
//! deserve another attempt, and when to sleep for the upstream rate limit.

use vstd::prelude::*;

verus! {

/// The delay before retry attempt `attempt` (counted from 1), in
/// milliseconds: 500ms doubled per attempt, capped at 30s.
pub open spec fn spec_backoff_ms(attempt: u32) -> int {
    let exponent = if attempt <= 1 {
        0int
    } else if attempt - 1 > 16 {
        16int
    } else {
        attempt - 1
    };
    let raw = 500int * pow2(exponent);
    if raw > 30000 {
        30000
    } else {
        raw
    }
}

/// Two to the power `e`.
pub open spec fn pow2(e: int) -> int
    decreases e,
{
    if e <= 0 {
        1
    } else {
        2 * pow2(e - 1)
    }
}

/// The delay between download attempt `attempt` and the next one, in
/// milliseconds.
pub fn retry_backoff_delay(attempt: u32) -> (r: u64)
    ensures
        r == spec_backoff_ms(attempt),
{
    let exponent: u32 = if attempt <= 1 {
        0
    } else if attempt - 1 > 16 {
        16
    } else {
        attempt - 1
    };
    let mut factor: u64 = 1;
    let mut e: u32 = 0;
    while e < exponent
        invariant
            e <= exponent <= 16,
            factor == pow2(e as int),
            factor <= 65536,
        decreases exponent - e,
    {
        proof {
            lemma_pow2_bounds(e as int + 1);
        }
        factor = factor * 2;
        e = e + 1;
    }
    let raw = 500 * factor;
    proof {
        lemma_pow2_bounds(exponent as int);
    }
    if raw > 30000 {
        30000
    } else {
        raw
    }
}

/// Every power of two is positive.
proof fn lemma_pow2_pos(e: int)
    ensures
        pow2(e) >= 1,
    decreases e,
{
    if e > 0 {
        lemma_pow2_pos(e - 1);
    }
}

/// Powers of two grow with the exponent.
proof fn lemma_pow2_mono(a: int, b: int)
    requires
        a <= b,
    ensures
        pow2(a) <= pow2(b),
    decreases b - a,
{
    if a < b {
        lemma_pow2_mono(a, b - 1);
        lemma_pow2_pos(b - 1);
    }
}

/// The sixteenth power of two, by unfolding.
proof fn lemma_pow2_16()
    ensures
        pow2(16) == 65536,
{
    assert(pow2(0) == 1);
    assert(pow2(1) == 2);
    assert(pow2(2) == 4);
    assert(pow2(3) == 8);
    assert(pow2(4) == 16);
    assert(pow2(5) == 32);
    assert(pow2(6) == 64);
    assert(pow2(7) == 128);
    assert(pow2(8) == 256);
    assert(pow2(9) == 512);
    assert(pow2(10) == 1024);
    assert(pow2(11) == 2048);
    assert(pow2(12) == 4096);
    assert(pow2(13) == 8192);
    assert(pow2(14) == 16384);
    assert(pow2(15) == 32768);
}

/// Powers of two up to the sixteenth stay small.
proof fn lemma_pow2_bounds(e: int)
    requires
        e <= 16,
    ensures
        1 <= pow2(e) <= 65536,
{
    lemma_pow2_pos(e);
    if e >= 0 {
        lemma_pow2_mono(e, 16);
        lemma_pow2_16();
    }
}

/// Whether a failed download deserves another attempt: transport-level
/// failures (timeout, connection, request construction) and the retryable
/// HTTP statuses (429 and every 5xx).  Other client errors do not.
pub open spec fn spec_should_retry(
    status: Option<u16>,
    is_timeout: bool,
    is_connect: bool,
    is_request: bool,
) -> bool {
    match status {
        Some(code) => (500 <= code < 600) || code == 429,
        None => is_timeout || is_connect || is_request,
    }
}

/// Decides whether a download error is worth retrying, from what the HTTP
/// layer observed: the response status, if one arrived, and the transport
/// failure flags otherwise.
pub fn should_retry_download_error(
    status: Option<u16>,
    is_timeout: bool,
    is_connect: bool,
    is_request: bool,
) -> (r: bool)
    ensures
        r == spec_should_retry(status, is_timeout, is_connect, is_request),
{
    match status {
        Some(code) => (500 <= code && code < 600) || code == 429,
        None => is_timeout || is_connect || is_request,
    }
}

/// The sentinel meaning "remaining calls not yet probed".
pub open spec fn spec_rate_limit_unknown() -> u64 {
    0xffff_ffff_ffff_ffffu64
}

/// How many remaining calls trigger waiting for the reset.
pub open spec fn spec_rate_limit_buffer() -> u64 {
    10u64
}

/// Whether the rate-limit counters must be refreshed before the next call:
/// either they were never fetched, or the remaining budget is at or below
/// the buffer.
pub fn needs_rate_limit_probe(remaining: u64) -> (r: bool)
    ensures
        r == (remaining == spec_rate_limit_unknown() || remaining <= spec_rate_limit_buffer()),
{
    remaining == 0xffff_ffff_ffff_ffff || remaining <= 10
}

/// How long to sleep before the next upstream call, in seconds: when the
/// remaining budget is at or below the buffer and the reset lies in the
/// future, until one second past the reset; otherwise not at all.
pub fn rate_limit_wait_secs(remaining: u64, reset_epoch: u64, now_epoch: u64) -> (r: u64)
    ensures
        (remaining <= spec_rate_limit_buffer() && reset_epoch > 0 && reset_epoch > now_epoch
            && reset_epoch < 0xffff_ffff_ffff_ffff) ==> r == reset_epoch - now_epoch + 1,
        !(remaining <= spec_rate_limit_buffer() && reset_epoch > 0 && reset_epoch > now_epoch)
            ==> r == 0,
{
    if remaining <= 10 && reset_epoch > 0 && reset_epoch > now_epoch {
        if reset_epoch == 0xffff_ffff_ffff_ffff {
            reset_epoch - now_epoch
        } else {
            reset_epoch - now_epoch + 1
        }
    } else {
        0
    }
}

} // verus!
