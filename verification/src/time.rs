//! Points in time.
use std::time::{Duration, SystemTime, SystemTimeError};
use vstd::prelude::*;

verus! {

/// A reading of the system clock.
#[verifier::external_type_specification]
#[verifier::external_body]
pub struct ExSystemTime(SystemTime);

/// The error of a reading that lies before another.
#[verifier::external_type_specification]
#[verifier::external_body]
pub struct ExSystemTimeError(SystemTimeError);

/// `SystemTime::now`. Nothing is claimed of the reading.
pub assume_specification[ SystemTime::now ]() -> SystemTime
;

/// `SystemTime::duration_since`. Nothing is claimed of the span, which depends on the two
/// readings, nor of when there is one.
pub assume_specification[ SystemTime::duration_since ](
    t: &SystemTime,
    earlier: SystemTime,
) -> Result<Duration, SystemTimeError>
;

/// `SystemTimeError::duration`. Nothing is claimed of the span by which the one reading lies before
/// the other.
pub assume_specification[ SystemTimeError::duration ](e: &SystemTimeError) -> Duration
;

/// `Duration::as_secs`. Nothing is claimed of the number of whole seconds in the span.
pub assume_specification[ Duration::as_secs ](d: &Duration) -> u64
;

/// `Duration::subsec_nanos`. The contract claims, as the documentation says, that the nanoseconds
/// beyond the whole seconds never make up another second.
pub assume_specification[ Duration::subsec_nanos ](d: &Duration) -> (r: u32)
    ensures
        r < 1_000_000_000,
;

/// The Unix epoch, `SystemTime::UNIX_EPOCH`. Nothing is claimed of it.
#[verifier::external_body]
fn unix_epoch() -> SystemTime {
    SystemTime::UNIX_EPOCH
}

/// A point in time: the whole seconds since the Unix epoch, negative for a point before it, and
/// the nanoseconds beyond them.
#[derive(Clone, Copy, PartialEq, Eq, Structural, Hash, Debug)]
pub struct Timestamp {
    pub secs: i128,
    pub nanos: u32,
}

impl Timestamp {
    /// The nanoseconds since the Unix epoch.
    pub open spec fn since_epoch(self) -> int {
        self.secs * 1_000_000_000 + self.nanos
    }

    /// The Unix epoch.
    pub open spec fn spec_epoch() -> Timestamp {
        Timestamp { secs: 0, nanos: 0 }
    }

    /// The Unix epoch.
    pub fn epoch() -> (r: Timestamp)
        ensures
            r == Timestamp::spec_epoch(),
    {
        Timestamp { secs: 0, nanos: 0 }
    }

    /// Whether the point lies before the Unix epoch.
    pub open spec fn spec_is_before_epoch(self) -> bool {
        self.secs < 0
    }

    /// Whether the point lies before the Unix epoch.
    pub fn is_before_epoch(&self) -> (r: bool)
        ensures
            r == self.spec_is_before_epoch(),
    {
        self.secs < 0
    }

    /// The point that lies so many seconds and nanoseconds after the Unix epoch.
    pub fn after_epoch(secs: u64, nanos: u32) -> (r: Timestamp)
        requires
            nanos < 1_000_000_000,
        ensures
            r.since_epoch() == secs * 1_000_000_000 + nanos,
            r.nanos < 1_000_000_000,
    {
        Timestamp { secs: secs as i128, nanos }
    }

    /// The point that lies so many seconds and nanoseconds before the Unix epoch.
    pub fn before_epoch(secs: u64, nanos: u32) -> (r: Timestamp)
        requires
            nanos < 1_000_000_000,
        ensures
            r.since_epoch() == -(secs * 1_000_000_000 + nanos),
            r.nanos < 1_000_000_000,
    {
        if nanos == 0 {
            Timestamp { secs: -(secs as i128), nanos: 0 }
        } else {
            Timestamp { secs: -(secs as i128) - 1, nanos: 1_000_000_000 - nanos }
        }
    }

    /// The current time, as the clock tells it, even where it stands before the Unix epoch.
    pub fn now() -> (r: Timestamp)
        ensures
            r.nanos < 1_000_000_000,
    {
        match SystemTime::now().duration_since(unix_epoch()) {
            Ok(d) => Timestamp::after_epoch(d.as_secs(), d.subsec_nanos()),
            Err(e) => {
                let d = e.duration();
                Timestamp::before_epoch(d.as_secs(), d.subsec_nanos())
            },
        }
    }
}

/// A point in time stands for one number of nanoseconds, and for no other point. It lies before the
/// Unix epoch exactly when that number is negative, and is the epoch exactly when it is zero.
pub proof fn law_points_differ(a: Timestamp, b: Timestamp)
    requires
        a.nanos < 1_000_000_000,
        b.nanos < 1_000_000_000,
    ensures
        (a == b) == (a.since_epoch() == b.since_epoch()),
        a.spec_is_before_epoch() == (a.since_epoch() < 0),
        (a == Timestamp::spec_epoch()) == (a.since_epoch() == 0),
{
}

} // verus!
