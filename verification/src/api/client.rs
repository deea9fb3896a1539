//! When a failed request is tried again.

use vstd::prelude::*;

verus! {

/// How long to wait before each retry of a failed action, in milliseconds: about half a second,
/// two, eight and sixteen seconds, and a minute.
pub const RETRY_DELAYS_MS: [u64; 5] = [500, 2000, 8000, 16000, 60000];

/// How often an action is tried in all.
pub const ACTION_ATTEMPTS: usize = 6;

/// How long to wait after the given attempt, counted from 0, has failed; none after the last.
pub fn retry_delay_ms(attempt: usize) -> (r: Option<u64>)
    ensures
        r == if attempt < 5 {
            Some(RETRY_DELAYS_MS@[attempt as int])
        } else {
            None
        },
        r is Some <==> attempt + 1 < ACTION_ATTEMPTS,
{
    if attempt < 5 {
        let delays: [u64; 5] = RETRY_DELAYS_MS;
        Some(delays[attempt])
    } else {
        None
    }
}

/// Later retries never wait less than earlier ones.
pub proof fn law_backoff_never_shortens(a: int, b: int)
    requires
        0 <= a <= b < 5,
    ensures
        0 < RETRY_DELAYS_MS@[a] <= RETRY_DELAYS_MS@[b],
{
}

/// The first retry comes after half a second, each of the next two waits four times as long as the
/// one before, the fourth doubles that, and the last waits a minute: six attempts in all, with
/// eighty-six and a half seconds between the first and the last.
pub proof fn law_backoff_grows_to_a_minute(a: int)
    requires
        0 <= a < 5,
    ensures
        ACTION_ATTEMPTS == 6,
        RETRY_DELAYS_MS@.len() == 5,
        a == 0 ==> RETRY_DELAYS_MS@[a] == 500,
        a == 1 || a == 2 ==> RETRY_DELAYS_MS@[a] == 4 * RETRY_DELAYS_MS@[a - 1],
        a == 3 ==> RETRY_DELAYS_MS@[a] == 2 * RETRY_DELAYS_MS@[a - 1],
        a == 4 ==> RETRY_DELAYS_MS@[a] == 60_000,
{
}

/// How often each piece of reference data is asked for at startup.
pub const INIT_RETRY_ATTEMPTS: u32 = 5;

/// How long to wait between those attempts, in seconds.
pub const INIT_RETRY_DELAY_SECS: u64 = 2;

/// Whether to ask again after the given attempt, counted from 1, has failed.
pub fn retries_init(attempt: u32) -> (r: bool)
    ensures
        r == (attempt < INIT_RETRY_ATTEMPTS),
{
    attempt < INIT_RETRY_ATTEMPTS
}

/// Reference data is asked for five times in all, with eight seconds of waiting in between.
pub proof fn law_startup_waits_eight_seconds()
    ensures
        INIT_RETRY_ATTEMPTS == 5,
        (INIT_RETRY_ATTEMPTS - 1) * INIT_RETRY_DELAY_SECS == 8,
{
}

/// How long to wait for a cooldown that ends at `expiration`, in nanoseconds; both moments are given
/// in nanoseconds from a common start.
pub fn cooldown_left(expiration: i64, now: i64) -> (nanos: u64)
    ensures
        nanos == if expiration > now {
            expiration - now
        } else {
            0
        },
{
    if expiration > now {
        (expiration as i128 - now as i128) as u64
    } else {
        0
    }
}

} // verus!
