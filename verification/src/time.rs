//! Moments in time, as Docker and other services write them.

use vstd::prelude::*;

verus! {

/// A moment: seconds since the Unix epoch, and nanoseconds within the second.
#[derive(Clone, Copy, Debug, PartialEq, Eq, Structural)]
pub struct Stamp {
    pub seconds: i64,
    pub nanos: u32,
}

impl Stamp {
    /// The moment lies before another.
    pub open spec fn before(self, other: Stamp) -> bool {
        self.seconds < other.seconds || (self.seconds == other.seconds && self.nanos < other.nanos)
    }

    /// Whether the moment lies before another.
    pub fn is_before(&self, other: &Stamp) -> (r: bool)
        ensures
            r == self.before(*other),
    {
        self.seconds < other.seconds || (self.seconds == other.seconds && self.nanos < other.nanos)
    }

    /// The seconds since the Unix epoch.
    pub fn timestamp(&self) -> (r: i64)
        ensures
            r == self.seconds,
    {
        self.seconds
    }
}

/// What `chrono::DateTime::parse_from_rfc3339` reads out of a text: the seconds since the epoch
/// and the nanoseconds within the second, if the text is a timestamp.
pub uninterp spec fn rfc3339(text: Seq<char>) -> Option<(i64, u32)>;

/// `chrono::DateTime::parse_from_rfc3339`, as the moment in UTC. Which texts are timestamps, and
/// of which moment, is named here and not spelled out.
#[verifier::external_body]
fn rfc3339_parts(text: &str) -> (r: Option<(i64, u32)>)
    ensures
        r == rfc3339(text@),
{
    match chrono::DateTime::parse_from_rfc3339(text) {
        Ok(t) => Some((t.timestamp(), t.timestamp_subsec_nanos())),
        Err(_) => None,
    }
}

/// The moment that a text stands for.
pub open spec fn stamp_of(text: Seq<char>) -> Option<Stamp> {
    match rfc3339(text) {
        Some(p) => Some(Stamp { seconds: p.0, nanos: p.1 }),
        None => None,
    }
}

/// The moment that a text stands for.
pub fn parse_stamp(text: &str) -> (r: Option<Stamp>)
    ensures
        r == stamp_of(text@),
{
    match rfc3339_parts(text) {
        Some((seconds, nanos)) => Some(Stamp { seconds, nanos }),
        None => None,
    }
}

/// Seconds since the epoch, from the epoch on and within 32 bits.
pub open spec fn since_epoch(seconds: i64) -> i32 {
    if seconds < 0 {
        0
    } else {
        clamped(seconds)
    }
}

/// The second from which Docker is asked for log lines.
pub fn docker_since_timestamp(stamp: &Stamp) -> (r: i32)
    ensures
        r == since_epoch(stamp.seconds),
{
    if stamp.seconds < 0 {
        0
    } else {
        clamp_timestamp(stamp.seconds)
    }
}

/// Seconds since the epoch within 32 bits.
pub open spec fn clamped(seconds: i64) -> i32 {
    if seconds < i32::MIN {
        i32::MIN
    } else if seconds > i32::MAX {
        i32::MAX
    } else {
        seconds as i32
    }
}

/// Seconds since the epoch within 32 bits.
pub fn clamp_timestamp(seconds: i64) -> (r: i32)
    ensures
        r == clamped(seconds),
{
    if seconds < i32::MIN as i64 {
        i32::MIN
    } else if seconds > i32::MAX as i64 {
        i32::MAX
    } else {
        seconds as i32
    }
}

/// A leap second that one moment lies in counts towards the time to the other, where that lies at
/// another second of its day: before it, or after it.
pub open spec fn leap_between(from: Stamp, to: Stamp) -> int {
    let first = from.seconds as int % 86400;
    let last = to.seconds as int % 86400;
    if last > first && from.nanos >= 1_000_000_000 {
        1
    } else if last < first && to.nanos >= 1_000_000_000 {
        -1
    } else {
        0
    }
}

/// The whole seconds from one moment to a later one; 0 where it is not later.
pub open spec fn seconds_between(from: Stamp, to: Stamp) -> int {
    let nanos = (to.seconds - from.seconds + leap_between(from, to)) * 1_000_000_000 + to.nanos
        - from.nanos;
    if nanos > 0 {
        nanos / 1_000_000_000
    } else {
        0
    }
}

fn second_of_day(seconds: i64) -> (r: i128)
    ensures
        r == seconds as int % 86400,
{
    (seconds as i128 + 9_504_000_000_000_000_000i128) % 86400
}

/// The whole seconds from one moment to a later one, as far as they fit; 0 where it is not later.
pub fn elapsed_seconds(from: &Stamp, to: &Stamp) -> (r: i64)
    ensures
        r == if seconds_between(*from, *to) > i64::MAX {
            i64::MAX as int
        } else {
            seconds_between(*from, *to)
        },
{
    let first = second_of_day(from.seconds);
    let last = second_of_day(to.seconds);
    let leap: i128 = if last > first && from.nanos >= 1_000_000_000 {
        1
    } else if last < first && to.nanos >= 1_000_000_000 {
        -1
    } else {
        0
    };
    let nanos: i128 = (to.seconds as i128 - from.seconds as i128 + leap) * 1_000_000_000
        + to.nanos as i128 - from.nanos as i128;
    if nanos <= 0 {
        return 0;
    }
    let whole: i128 = nanos / 1_000_000_000;
    if whole > i64::MAX as i128 {
        i64::MAX
    } else {
        whole as i64
    }
}

// ---------------------------------------------------------------------------------------------
// Laws.

/// Moments are in order: of two different moments exactly one lies before the other, and that is
/// the one of the earlier second, or of the earlier nanosecond in the same second.
pub proof fn law_moments_are_ordered(a: Stamp, b: Stamp, c: Stamp)
    ensures
        !a.before(a),
        a != b ==> a.before(b) != b.before(a),
        a.before(b) && b.before(c) ==> a.before(c),
        a.seconds < b.seconds ==> a.before(b),
        a.seconds == b.seconds ==> (a.before(b) <==> a.nanos < b.nanos),
{
}

/// Seconds that fit in 32 bits stay as they are, and others become the nearest that do; before the
/// epoch Docker is asked for everything.
pub proof fn law_seconds_are_clamped(seconds: i64)
    ensures
        -0x8000_0000 <= seconds <= 0x7fff_ffff ==> clamped(seconds) == seconds,
        seconds > 0x7fff_ffff ==> clamped(seconds) == 0x7fff_ffff,
        seconds < -0x8000_0000 ==> clamped(seconds) == -0x8000_0000,
        0 <= seconds <= 0x7fff_ffff ==> since_epoch(seconds) == seconds,
        seconds < 0 ==> since_epoch(seconds) == 0,
        seconds > 0x7fff_ffff ==> since_epoch(seconds) == 0x7fff_ffff,
{
}

/// The time between two moments of which neither is in a leap second is the largest number of whole
/// seconds that passed; it is none where the second is not later. A later end is never nearer.
pub proof fn law_elapsed_time_is_whole_seconds(from: Stamp, to: Stamp, n: int)
    requires
        from.nanos < 1_000_000_000,
        to.nanos < 1_000_000_000,
    ensures
        !from.before(to) ==> seconds_between(from, to) == 0,
        seconds_between(from, to) >= 0,
        n > 0 ==> (seconds_between(from, to) >= n <==> from.seconds + n < to.seconds
            || from.seconds + n == to.seconds && from.nanos <= to.nanos),
        from.nanos == to.nanos && from.seconds <= to.seconds ==> seconds_between(from, to)
            == to.seconds - from.seconds,
{
    let nanos = (to.seconds - from.seconds) * 1_000_000_000 + to.nanos - from.nanos;
    assert(leap_between(from, to) == 0);
    if nanos > 0 {
        let q = nanos / 1_000_000_000;
        assert(nanos == q * 1_000_000_000 + nanos % 1_000_000_000);
    }
}

} // verus!
