//! The time of day, as far as the records need it.

use vstd::prelude::*;
use crate::text::{number_text, number_to_text};

verus! {

/// A reading of the system clock.
#[verifier::external_type_specification]
#[verifier::external_body]
pub struct ExSystemTime(std::time::SystemTime);

/// `std::time::SystemTime::now`: the current reading of the system clock.
/// It depends on the clock, so nothing is stated of it.
#[verifier::external_body]
fn clock_now() -> (t: std::time::SystemTime) {
    std::time::SystemTime::now()
}

/// `std::time::SystemTime::duration_since`, asked for the time since
/// `UNIX_EPOCH`: how long after the epoch the reading lies, and nothing
/// where it lies before it.
#[verifier::external_body]
fn since_epoch(t: std::time::SystemTime) -> (d: Option<core::time::Duration>) {
    t.duration_since(std::time::UNIX_EPOCH).ok()
}

/// `Duration::as_secs`: the whole seconds of the duration.
pub assume_specification[ core::time::Duration::as_secs ](d: &core::time::Duration) -> (s: u64);

/// `Duration::as_nanos`: the duration in nanoseconds.
pub assume_specification[ core::time::Duration::as_nanos ](d: &core::time::Duration) -> (n: u128);

/// Whole seconds since the epoch, 0 where the clock stands before it.
fn epoch_seconds() -> (out: u64) {
    match since_epoch(clock_now()) {
        Some(d) => d.as_secs(),
        None => 0,
    }
}

/// Nanoseconds since the epoch, 0 where the clock stands before it.
fn epoch_nanos() -> (out: u128) {
    match since_epoch(clock_now()) {
        Some(d) => d.as_nanos(),
        None => 0,
    }
}

/// A count of seconds as a timestamp; counts beyond the range of a
/// timestamp are cut off at its largest value.
pub open spec fn timestamp_of(seconds: u64) -> i64 {
    if seconds <= i64::MAX as u64 {
        seconds as i64
    } else {
        i64::MAX
    }
}

/// A count of seconds as a timestamp.
pub fn to_timestamp(seconds: u64) -> (out: i64)
    ensures
        out == timestamp_of(seconds),
        out >= 0,
{
    if seconds <= 9223372036854775807u64 {
        seconds as i64
    } else {
        9223372036854775807i64
    }
}

/// The clock in universal time.
pub struct Utc;

/// A moment read from the clock.
pub struct DateTime {
    seconds: u64,
}

impl Utc {
    /// Reads the clock.
    pub fn now() -> (out: DateTime) {
        DateTime { seconds: epoch_seconds() }
    }
}

impl DateTime {
    /// The moment that lies `seconds` after the epoch.
    pub fn from_seconds(seconds: u64) -> (out: DateTime)
        ensures
            out.seconds() == seconds,
    {
        DateTime { seconds }
    }

    /// Seconds since the epoch at this moment.
    pub closed spec fn seconds(&self) -> u64 {
        self.seconds
    }

    /// This moment as a timestamp: seconds since the epoch.
    pub fn timestamp(&self) -> (out: i64)
        ensures
            out == timestamp_of(self.seconds()),
            out >= 0,
    {
        to_timestamp(self.seconds)
    }
}

/// The lower-case hexadecimal digits of `n`, without leading zeros; `0` for zero.
pub open spec fn hex_number(n: nat) -> Seq<char> {
    number_text(n, true)
}

/// Makes names that differ from call to call.
pub struct Uuid;

impl Uuid {
    /// A name made from the clock: the nanoseconds since the epoch, in
    /// hexadecimal.
    pub fn new_v4() -> (out: String)
        ensures
            exists|n: nat| out@ == hex_number(n),
    {
        let n = epoch_nanos();
        let out = number_to_text(n, true);
        assert(out@ == hex_number(n as nat));
        out
    }
}

} // verus!
