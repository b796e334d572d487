//! Timestamps in microseconds.
use std::time::{Duration, SystemTime};
use vstd::prelude::*;

verus! {

/// `std::time::SystemTime`, a reading of the system clock. Nothing is claimed
/// of it.
#[verifier::external_type_specification]
#[verifier::external_body]
pub struct ExSystemTime(SystemTime);

/// `SystemTime::now` reads the system clock. Nothing is claimed of the reading:
/// the clock may be set to any time, also between two readings.
pub assume_specification[ SystemTime::now ]() -> (time: SystemTime);

/// `Duration::as_micros` gives the whole microseconds of a duration. Nothing is
/// claimed of the number.
pub assume_specification[ Duration::as_micros ](duration: &Duration) -> (micros: u128);

/// Calls `SystemTime::duration_since` with the Unix epoch: how long after the
/// epoch `time` is, or `None` for the error of a time before it. Nothing is
/// claimed of which of the two it is. It is public because the contract of
/// [`capture_timestamp_us`] speaks of it.
#[verifier::external_body]
pub fn since_epoch(time: SystemTime) -> (duration: Option<Duration>) {
    time.duration_since(std::time::UNIX_EPOCH).ok()
}

/// The timestamp of a clock reading: its microseconds since the epoch, modulo
/// 2^64. A clock set before the epoch gives none.
pub open spec fn timestamp_of(reading: Option<u128>) -> Option<u64> {
    match reading {
        Some(micros) => Some((micros % 0x1_0000_0000_0000_0000) as u64),
        None => None,
    }
}

/// Makes a timestamp of a clock reading.
pub fn timestamp_us(reading: Option<u128>) -> (timestamp: Option<u64>)
    ensures
        timestamp == timestamp_of(reading),
{
    match reading {
        Some(micros) => {
            assert(micros as u64 == micros % 0x1_0000_0000_0000_0000) by (bit_vector);
            Some(
                #[verifier::truncate]
                (micros as u64),
            )
        },
        None => None,
    }
}

/// Whether `reading` came from the system clock: it is the microseconds from
/// the epoch to a time that `SystemTime::now` gave, or nothing where that time
/// lies before the epoch.
pub open spec fn is_reading(reading: Option<u128>) -> bool {
    exists|time: SystemTime, since: Option<Duration>|
        {
            &&& call_ensures(SystemTime::now, (), time)
            &&& #[trigger] call_ensures(since_epoch, (time,), since)
            &&& match (since, reading) {
                (Some(duration), Some(micros)) => call_ensures(
                    Duration::as_micros,
                    (&duration,),
                    micros,
                ),
                (None, None) => true,
                _ => false,
            }
        }
}

/// Reads the system clock as a timestamp, or `None` if the clock is set to a
/// time before the epoch.
pub fn capture_timestamp_us() -> (timestamp: Option<u64>)
    ensures
        exists|reading: Option<u128>|
            #[trigger] is_reading(reading) && timestamp == timestamp_of(reading),
{
    let time = SystemTime::now();
    let since = since_epoch(time);
    let reading = match &since {
        Some(duration) => Some(duration.as_micros()),
        None => None,
    };
    assert(is_reading(reading));
    timestamp_us(reading)
}

/// The timestamp of a hardware counter that has made `ticks` ticks at `freq`
/// ticks a second, modulo 2^64.
pub fn ticks_to_us(ticks: u64, freq: u64) -> (timestamp: u64)
    requires
        freq > 0,
    ensures
        timestamp == (ticks * 1_000_000) / (freq as int) % 0x1_0000_0000_0000_0000,
{
    let micros: u128 = (ticks as u128 * 1_000_000) / (freq as u128);
    assert(micros as u64 == micros % 0x1_0000_0000_0000_0000) by (bit_vector);
    #[verifier::truncate]
    (micros as u64)
}

/// How long after `start` `now` is; nothing if `now` comes first.
pub open spec fn elapsed(now: u64, start: u64) -> int {
    if now >= start {
        now - start
    } else {
        0
    }
}

/// While they fit 64 bits, a counter's timestamps never run backwards.
pub proof fn law_ticks_keep_order(earlier: u64, later: u64, freq: u64)
    requires
        freq > 0,
        earlier <= later,
        (later * 1_000_000) / (freq as int) < 0x1_0000_0000_0000_0000,
    ensures
        (earlier * 1_000_000) / (freq as int) % 0x1_0000_0000_0000_0000 <= (later * 1_000_000) / (
        freq as int) % 0x1_0000_0000_0000_0000,
{
    vstd::arithmetic::div_mod::lemma_div_is_ordered(
        earlier * 1_000_000,
        later * 1_000_000,
        freq as int,
    );
    vstd::arithmetic::div_mod::lemma_div_pos_is_pos(earlier * 1_000_000, freq as int);
}

/// A timestamp is the reading itself where it fits 64 bits, begins anew at each
/// multiple of 2^64, and is missing exactly where the reading is.
pub proof fn law_timestamp_of_a_reading(micros: u128)
    ensures
        timestamp_of(None) is None,
        micros < 0x1_0000_0000_0000_0000 ==> timestamp_of(Some(micros)) == Some(micros as u64),
        micros >= 0x1_0000_0000_0000_0000 ==> timestamp_of(Some(micros)) == timestamp_of(
            Some((micros - 0x1_0000_0000_0000_0000) as u128),
        ),
{
}

/// Time that has passed and the time at which it began make up the present,
/// unless the clock has gone back: then none has passed.
pub proof fn law_elapsed_time(now: u64, start: u64)
    ensures
        start <= now ==> start + elapsed(now, start) == now,
        now < start ==> elapsed(now, start) == 0,
{
}

} // verus!
