//! When the catalogue of streams is fetched anew.

use vstd::prelude::*;

verus! {

/// Seconds in an hour.
pub const SECS_IN_HOUR: u64 = 3600;

/// How long after the full hour the catalogue is fetched, in seconds: the
/// programme changes on the hour and the listing follows a little later.
pub const REFRESH_DELAY_SECS: u64 = 240;

/// The number of seconds to wait, at `secs_since_epoch`, until the
/// catalogue is due again: up to the next full hour and four minutes more.
pub fn duration_until_next_hour(secs_since_epoch: u64) -> (wait: u64)
    ensures
        wait == (secs_since_epoch / 3600 + 1) * 3600 - secs_since_epoch + 240,
        240 < wait <= 3840,
        (secs_since_epoch + wait - 240) % 3600 == 0,
{
    let into_hour: u64 = secs_since_epoch % SECS_IN_HOUR;
    (SECS_IN_HOUR - into_hour) + REFRESH_DELAY_SECS
}

} // verus!
