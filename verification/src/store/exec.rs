//! Execution support: the clock every journal row is stamped with, and the
//! error for a row that is not there.
use vstd::prelude::*;

use crate::store::error::StoreError;

verus! {

/// `std::time::SystemTime`, carried opaquely.
#[verifier::external_type_specification]
#[verifier::external_body]
pub struct ExSystemTime(std::time::SystemTime);

/// `std::time::SystemTimeError`, carried opaquely.
#[verifier::external_type_specification]
#[verifier::external_body]
pub struct ExSystemTimeError(std::time::SystemTimeError);

/// The system clock's reading, by `SystemTime::now`. Nothing is stated of
/// it: it is the time.
#[verifier::external_body]
fn clock_now() -> std::time::SystemTime {
    std::time::SystemTime::now()
}

/// How long after the Unix epoch `t` is, by `SystemTime::duration_since`
/// with `UNIX_EPOCH`: an error when `t` is earlier than the epoch. Nothing
/// is stated of which: that depends on the reading.
#[verifier::external_body]
fn since_epoch(t: std::time::SystemTime) -> Result<std::time::Duration, std::time::SystemTimeError> {
    t.duration_since(std::time::UNIX_EPOCH)
}

/// A duration's whole milliseconds, by `Duration::as_millis`. A duration is
/// opaque here, so nothing is stated of the count.
#[verifier::external_body]
fn whole_millis(d: std::time::Duration) -> u128 {
    d.as_millis()
}

/// A clock reading as stored: the millisecond count as an `i64` (truncated as
/// `as` truncates), or 0 when the clock reads before the epoch.
pub fn stamp(millis: Option<u128>) -> (r: i64)
    ensures
        r == match millis {
            Some(ms) => ms as i64,
            None => 0,
        },
{
    match millis {
        Some(ms) => #[verifier::truncate] (ms as i64),
        None => 0,
    }
}

/// Milliseconds since the Unix epoch, UTC. Stored as an integer rather than
/// formatted text: sortable, compact, and no calendar arithmetic in the store.
pub fn now_ms() -> i64 {
    let reading = match since_epoch(clock_now()) {
        Ok(d) => Some(whole_millis(d)),
        Err(_) => None,
    };
    stamp(reading)
}

/// The error for a row of `kind` with this `id` that does not exist.
pub fn missing(kind: &'static str, id: i64) -> (r: StoreError)
    ensures
        r == (StoreError::NotFound { kind, id }),
{
    StoreError::NotFound { kind, id }
}

} // verus!
