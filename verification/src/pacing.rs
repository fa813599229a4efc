//! Fixed, non-exponential pacing: short delays between network calls and a
//! longer cooldown at regular intervals, protecting a source that publishes
//! no rate limits. Deliberately simple: no backoff growth, no jitter.

use vstd::prelude::*;

verus! {

/// Delay after each detail fetch, in milliseconds.
pub const DETAIL_DELAY_MS: u64 = 500;

/// Delay after finishing one artist's work in a Discover pass, in
/// milliseconds.
pub const ARTIST_DELAY_MS: u64 = 500;

/// A Refresh pass cools down after this many processed products.
pub const COOLDOWN_EVERY: u64 = 64;

/// Length of the Refresh cooldown, in seconds.
pub const COOLDOWN_SECS: u64 = 30;

/// Milliseconds to wait after a detail fetch.
pub fn detail_delay_ms() -> (r: u64)
    ensures
        r == DETAIL_DELAY_MS,
{
    DETAIL_DELAY_MS
}

/// Milliseconds to wait after completing an artist in Discover.
pub fn artist_delay_ms() -> (r: u64)
    ensures
        r == ARTIST_DELAY_MS,
{
    ARTIST_DELAY_MS
}

/// Whether a Refresh pass owes a cooldown after `processed` products:
/// exactly after every 64th.
pub fn cooldown_due(processed: u64) -> (r: bool)
    ensures
        r == (processed > 0 && processed % COOLDOWN_EVERY == 0),
{
    processed > 0 && processed % COOLDOWN_EVERY == 0
}

/// Seconds the Refresh cooldown lasts.
pub fn cooldown_secs() -> (r: u64)
    ensures
        r == COOLDOWN_SECS,
{
    COOLDOWN_SECS
}

} // verus!
