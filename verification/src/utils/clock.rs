//! Expiration dates, counted in seconds since the Unix epoch.

use vstd::prelude::*;

verus! {

/// Reads the system clock with `std::time::SystemTime::now` and gives the
/// whole seconds elapsed since the Unix epoch, or nothing where the clock
/// stands before the epoch. Nothing is claimed of the number.
#[verifier::external_body]
fn seconds_since_epoch() -> (seconds: Option<u64>) {
    match std::time::SystemTime::now().duration_since(std::time::UNIX_EPOCH) {
        Ok(elapsed) => Some(elapsed.as_secs()),
        Err(_) => None,
    }
}

/// The second at which something issued at `now` with this lifetime
/// expires, kept at the largest date where it would pass it.
pub open spec fn expiration(now: int, lifetime: int) -> int {
    if now + lifetime > i64::MAX {
        i64::MAX as int
    } else {
        now + lifetime
    }
}

/// The date `lifetime` seconds after `now`.
pub fn expiration_date(now: u64, lifetime: u64) -> (date: i64)
    ensures
        date as int == expiration(now as int, lifetime as int),
{
    match now.checked_add(lifetime) {
        Some(sum) => {
            if sum > i64::MAX as u64 {
                i64::MAX
            } else {
                sum as i64
            }
        },
        None => i64::MAX,
    }
}

/// The date `lifetime` seconds from now. A clock that stands before the
/// epoch counts as standing at the epoch.
pub fn expiration_from_now(lifetime: u64) -> (date: i64)
    ensures
        exists|now: int| 0 <= now <= u64::MAX && date as int == expiration(now, lifetime as int),
        lifetime <= i64::MAX ==> date >= lifetime,
{
    let now = match seconds_since_epoch() {
        Some(seconds) => seconds,
        None => 0,
    };
    let date = expiration_date(now, lifetime);
    assert(date as int == expiration(now as int, lifetime as int));
    date
}

} // verus!
