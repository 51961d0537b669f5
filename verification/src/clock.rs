//! Wall-clock timestamps in nanoseconds since the UNIX epoch.

use std::time::{Duration, SystemTime};
use vstd::prelude::*;

verus! {

/// The system clock reads a time before the UNIX epoch.
#[derive(Clone, Copy, Debug, PartialEq, Eq, Structural)]
pub struct ClockBeforeEpoch;

/// `std::time::SystemTime`, an opaque reading of the system clock.
#[verifier::external_type_specification]
#[verifier::external_body]
pub struct ExSystemTime(std::time::SystemTime);

/// `std::time::SystemTime::now`: a reading of the system clock, of which
/// nothing is known beforehand.
#[verifier::external_body]
fn read_clock() -> (r: SystemTime) {
    SystemTime::now()
}

/// The nanoseconds that a duration lasts.
pub uninterp spec fn nanos_in(span: Duration) -> u128;

/// The nanoseconds from the UNIX epoch to a clock reading; none where the
/// reading lies before the epoch.
pub uninterp spec fn epoch_nanos(reading: SystemTime) -> Option<u128>;

/// `SystemTime::duration_since` with the UNIX epoch, its error dropped: the time
/// from the epoch to the reading, or nothing where the reading lies before it.
#[verifier::external_body]
fn since_epoch(reading: SystemTime) -> (r: Option<Duration>)
    ensures
        r is Some == epoch_nanos(reading) is Some,
        r matches Some(span) ==> epoch_nanos(reading) == Some(nanos_in(span)),
{
    reading.duration_since(std::time::UNIX_EPOCH).ok()
}

/// `Duration::as_nanos`: the nanoseconds that the duration lasts.
#[verifier::external_body]
fn whole_nanos(span: Duration) -> (r: u128)
    ensures
        r == nanos_in(span),
{
    span.as_nanos()
}

/// The timestamp for a clock reading: its low 64 bits of nanoseconds, or an
/// error for a reading before the epoch.
pub open spec fn timestamp_of(nanos: Option<u128>) -> Result<u64, ClockBeforeEpoch> {
    match nanos {
        Some(n) => Ok((n % 0x1_0000_0000_0000_0000) as u64),
        None => Err(ClockBeforeEpoch),
    }
}

/// Turns nanoseconds since the epoch, or their absence, into a timestamp.
pub fn timestamp_ns(nanos: Option<u128>) -> (r: Result<u64, ClockBeforeEpoch>)
    ensures
        r == timestamp_of(nanos),
{
    match nanos {
        Some(n) => {
            let low: u128 = n % 0x1_0000_0000_0000_0000;
            Ok(low as u64)
        },
        None => Err(ClockBeforeEpoch),
    }
}

/// The current time in nanoseconds since the UNIX epoch: the timestamp for a
/// reading of the system clock.
pub fn now_ns() -> (r: Result<u64, ClockBeforeEpoch>)
    ensures
        exists|reading: SystemTime| r == timestamp_of(#[trigger] epoch_nanos(reading)),
{
    let reading = read_clock();
    let nanos: Option<u128> = match since_epoch(reading) {
        Some(span) => Some(whole_nanos(span)),
        None => None,
    };
    assert(nanos == epoch_nanos(reading));
    timestamp_ns(nanos)
}

/// A timestamp is the nanoseconds since the epoch themselves below 2^64, and stays
/// the same when 2^64 nanoseconds go by; there is none before the epoch.
pub proof fn law_timestamp_counts_nanoseconds(nanos: u128)
    ensures
        nanos < 0x1_0000_0000_0000_0000 ==> timestamp_of(Some(nanos)) == Ok::<
            u64,
            ClockBeforeEpoch,
        >(nanos as u64),
        nanos >= 0x1_0000_0000_0000_0000 ==> timestamp_of(Some(nanos)) == timestamp_of(
            Some((nanos - 0x1_0000_0000_0000_0000) as u128),
        ),
        timestamp_of(None) == Err::<u64, ClockBeforeEpoch>(ClockBeforeEpoch),
{
}

} // verus!
