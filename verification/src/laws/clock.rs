//! Times that clock readings stand for.
use crate::clock::clock_gives;
use crate::clock::micros_of;
use crate::clock::millis_of;
use crate::clock::now_micros;
use crate::clock::now_millis;
use vstd::prelude::*;

verus! {

/// A time in microseconds is that of the reading, cut to whole microseconds, as
/// long as it fits 64 bits.
pub proof fn micros_measure_the_reading(secs: u64, nanos: u32, r: u64)
    requires
        call_ensures(micros_of, (Some((secs, nanos)),), r),
        nanos < 1_000_000_000,
        secs < 18_446_744_073_709,
    ensures
        r * 1_000 <= secs * 1_000_000_000 + nanos < (r + 1) * 1_000,
{
}

/// A time in milliseconds is that of the reading, cut to whole milliseconds, as
/// long as it fits 64 bits.
pub proof fn millis_measure_the_reading(secs: u64, nanos: u32, r: Option<u64>)
    requires
        call_ensures(millis_of, (Some((secs, nanos)),), r),
        nanos < 1_000_000_000,
        secs < 18_446_744_073_709_551,
    ensures
        r matches Some(ms) && ms * 1_000_000 <= secs * 1_000_000_000 + nanos < (ms + 1)
            * 1_000_000,
{
}

/// Before the epoch there is no time in milliseconds, and 0 stands for the one
/// in microseconds.
pub proof fn no_time_before_the_epoch(us: u64, ms: Option<u64>)
    requires
        call_ensures(micros_of, (None,), us),
        call_ensures(millis_of, (None,), ms),
    ensures
        us == 0,
        ms is None,
{
}

/// The current time in microseconds is that of a reading that the clock gives.
pub proof fn current_micros_are_the_clocks(r: u64)
    requires
        call_ensures(now_micros, (), r),
    ensures
        exists|reading: Option<(u64, u32)>| #[trigger]
            clock_gives(reading) && match reading {
                Some((secs, nanos)) => secs < 18_446_744_073_709 ==> r * 1_000 <= secs
                    * 1_000_000_000 + nanos < (r + 1) * 1_000,
                None => r == 0,
            },
{
    let reading = choose|reading: Option<(u64, u32)>| #[trigger]
        clock_gives(reading) && crate::clock::is_reading(reading) && r == crate::clock::micros_at(
            reading,
        );
    assert(clock_gives(reading));
}

/// The current time in milliseconds is that of a reading that the clock gives.
pub proof fn current_millis_are_the_clocks(r: Option<u64>)
    requires
        call_ensures(now_millis, (), r),
    ensures
        exists|reading: Option<(u64, u32)>| #[trigger]
            clock_gives(reading) && match reading {
                Some((secs, nanos)) => secs < 18_446_744_073_709_551 ==> (r matches Some(ms) && ms
                    * 1_000_000 <= secs * 1_000_000_000 + nanos < (ms + 1) * 1_000_000),
                None => r is None,
            },
{
    let reading = choose|reading: Option<(u64, u32)>| #[trigger]
        clock_gives(reading) && crate::clock::is_reading(reading) && r == crate::clock::millis_at(
            reading,
        );
    assert(clock_gives(reading));
}

} // verus!
