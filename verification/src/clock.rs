//! The wall clock.
use std::time::UNIX_EPOCH;
use vstd::prelude::*;

verus! {

/// `std::time::SystemTime::elapsed` of the UNIX epoch: whole seconds and the
/// nanoseconds beyond them, or nothing while the clock stands before the epoch.
///
/// There are fewer than 1,000,000,000 nanoseconds. Nothing is said of the time
/// itself.
#[verifier::external_body]
pub(crate) fn since_epoch() -> (r: Option<(u64, u32)>)
    ensures
        r matches Some((_, nanos)) ==> nanos < 1_000_000_000,
{
    match UNIX_EPOCH.elapsed() {
        Ok(elapsed) => Some((elapsed.as_secs(), elapsed.subsec_nanos())),
        Err(_) => None,
    }
}

/// Whether the clock can give the reading to a call at some time: it is what
/// [`since_epoch`] came back with.
pub closed spec fn clock_gives(reading: Option<(u64, u32)>) -> bool {
    call_ensures(since_epoch, (), reading)
}

/// A reading is one that the clock gives if and only if it came of a call.
pub(crate) proof fn readings_come_of_calls(reading: Option<(u64, u32)>)
    ensures
        clock_gives(reading) <==> call_ensures(since_epoch, (), reading),
{
}

/// Microseconds since the epoch at a clock reading, in 64 bits; 0 before the
/// epoch.
pub open spec fn micros_at(reading: Option<(u64, u32)>) -> int {
    match reading {
        Some((secs, nanos)) => (secs * 1_000_000 + nanos / 1_000) % 0x1_0000_0000_0000_0000,
        None => 0,
    }
}

/// Milliseconds since the epoch at a clock reading, in 64 bits; nothing before
/// the epoch.
pub open spec fn millis_at(reading: Option<(u64, u32)>) -> Option<u64> {
    match reading {
        Some((secs, nanos)) => Some(
            ((secs * 1_000 + nanos / 1_000_000) % 0x1_0000_0000_0000_0000) as u64,
        ),
        None => None,
    }
}

/// The microseconds that a clock reading stands for.
pub fn micros_of(reading: Option<(u64, u32)>) -> (r: u64)
    ensures
        r == micros_at(reading),
{
    match reading {
        Some((secs, nanos)) => {
            let total: u128 = secs as u128 * 1_000_000 + (nanos / 1_000) as u128;
            (total % 0x1_0000_0000_0000_0000) as u64
        },
        None => 0,
    }
}

/// The milliseconds that a clock reading stands for.
pub fn millis_of(reading: Option<(u64, u32)>) -> (r: Option<u64>)
    ensures
        r == millis_at(reading),
{
    match reading {
        Some((secs, nanos)) => {
            let total: u128 = secs as u128 * 1_000 + (nanos / 1_000_000) as u128;
            Some((total % 0x1_0000_0000_0000_0000) as u64)
        },
        None => None,
    }
}

/// Whether the clock can give the reading: whole seconds with less than a
/// second in nanoseconds, or nothing before the epoch.
pub open spec fn is_reading(reading: Option<(u64, u32)>) -> bool {
    match reading {
        Some((_, nanos)) => nanos < 1_000_000_000,
        None => true,
    }
}

/// The current UNIX time in microseconds, or 0 while the clock stands before
/// the epoch: what [`micros_of`] makes of a reading that the clock gives.
pub fn now_micros() -> (r: u64)
    ensures
        exists|reading: Option<(u64, u32)>| #[trigger]
            clock_gives(reading) && is_reading(reading) && r == micros_at(reading),
{
    let reading = since_epoch();
    assert(clock_gives(reading) && is_reading(reading));
    micros_of(reading)
}

/// The current UNIX time in milliseconds, or nothing while the clock stands
/// before the epoch: what [`millis_of`] makes of a reading that the clock gives.
pub fn now_millis() -> (r: Option<u64>)
    ensures
        exists|reading: Option<(u64, u32)>| #[trigger]
            clock_gives(reading) && is_reading(reading) && r == millis_at(reading),
{
    let reading = since_epoch();
    assert(clock_gives(reading) && is_reading(reading));
    millis_of(reading)
}

} // verus!
