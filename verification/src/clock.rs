//! The wall clock.
use vstd::prelude::*;

use crate::date_math::LocalOffset;

verus! {

/// `web_time::SystemTime::now()` measured from `web_time::UNIX_EPOCH`, in
/// whole milliseconds; `None` when the clock reads earlier than the epoch.
/// The value is whatever the system clock says: nothing is claimed of it.
#[verifier::external_body]
fn unix_millis_now() -> Option<u128> {
    match web_time::SystemTime::now().duration_since(web_time::UNIX_EPOCH) {
        Ok(duration) => Some(duration.as_millis()),
        Err(_) => None,
    }
}

/// Milliseconds since the Unix epoch by the system clock (0 when the clock
/// reads earlier than the epoch).
pub fn now_ms() -> i64 {
    millis_or_zero(unix_millis_now())
}

/// The local wall-clock time now, in milliseconds: the UTC clock moved by the
/// local offset, as `local_ms_at` does it.
pub fn local_now_ms(offset: &LocalOffset) -> i64 {
    local_ms_at(offset, now_ms())
}

/// What the clock's reading becomes: the milliseconds cut to `i64` (as an
/// `as` cast does), or 0 for a clock earlier than the epoch.
pub fn millis_or_zero(reading: Option<u128>) -> (r: i64)
    ensures
        r == match reading {
            Some(ms) => ms as i64,
            None => 0i64,
        },
{
    match reading {
        Some(ms) => ms as i64,
        None => 0,
    }
}

/// `x` wrapped into the range of `i64`, as two's complement arithmetic does
/// for a sum of two `i64` values.
pub open spec fn wrap_i64(x: int) -> int {
    if x > i64::MAX {
        x - 0x1_0000_0000_0000_0000
    } else if x < i64::MIN {
        x + 0x1_0000_0000_0000_0000
    } else {
        x
    }
}

/// The local wall-clock instant of the UTC instant `utc_ms`: moved by the
/// local offset, wrapping around where the sum leaves `i64`.
pub fn local_ms_at(offset: &LocalOffset, utc_ms: i64) -> (r: i64)
    ensures
        r == wrap_i64(utc_ms + offset.offset_ms),
        i64::MIN <= utc_ms + offset.offset_ms <= i64::MAX ==> r == utc_ms + offset.offset_ms,
{
    let sum: i128 = utc_ms as i128 + offset.offset_ms as i128;
    if sum > i64::MAX as i128 {
        (sum - 0x1_0000_0000_0000_0000i128) as i64
    } else if sum < i64::MIN as i128 {
        (sum + 0x1_0000_0000_0000_0000i128) as i64
    } else {
        sum as i64
    }
}

} // verus!
