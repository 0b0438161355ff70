//! The load of the node: taken now and then, and answered while it is fresh.

use crate::error::Failure;
use crate::protection::SECOND;
use crate::text;
use vstd::prelude::*;

verus! {

/// How often the load is taken where nothing is configured, in seconds.
pub const DEFAULT_STATS_SAMPLE_INTERVAL: u64 = 1;

/// How seldom the load may be taken, in seconds.
pub const MAX_STATS_SAMPLE_INTERVAL: u64 = 60;

/// How often the load is taken, in seconds: as configured, but no more seldom than may be.
pub open spec fn interval_of(seconds: Option<u64>) -> u64 {
    match seconds {
        Some(n) => if n == 0 {
            DEFAULT_STATS_SAMPLE_INTERVAL
        } else if n > MAX_STATS_SAMPLE_INTERVAL {
            MAX_STATS_SAMPLE_INTERVAL
        } else {
            n
        },
        None => DEFAULT_STATS_SAMPLE_INTERVAL,
    }
}

/// How often the load is taken, in seconds: as configured, but no more seldom than may be.
pub fn bounded_stats_sample_interval(seconds: Option<u64>) -> (r: u64)
    ensures
        r == interval_of(seconds),
        1 <= r <= MAX_STATS_SAMPLE_INTERVAL,
{
    match seconds {
        Some(n) => if n == 0 {
            DEFAULT_STATS_SAMPLE_INTERVAL
        } else if n > MAX_STATS_SAMPLE_INTERVAL {
            MAX_STATS_SAMPLE_INTERVAL
        } else {
            n
        },
        None => DEFAULT_STATS_SAMPLE_INTERVAL,
    }
}

/// How often the load is taken, by the value of a setting.
pub fn stats_sample_interval(setting: Option<&str>) -> (r: u64)
    ensures
        r == interval_of(
            match setting {
                Some(s) => match text::parsed(s@) {
                    Some(n) => if n <= u64::MAX {
                        Some(n as u64)
                    } else {
                        None
                    },
                    None => None,
                },
                None => None,
            },
        ),
        1 <= r <= MAX_STATS_SAMPLE_INTERVAL,
{
    let seconds = match setting {
        Some(s) => text::parse_number(s, u64::MAX),
        None => None,
    };
    bounded_stats_sample_interval(seconds)
}

/// How old an answer may be, in nanoseconds, where the load is taken so often.
pub open spec fn oldest(interval: u64) -> int {
    if interval * 3 > 5 {
        interval * 3 * SECOND
    } else {
        5 * SECOND
    }
}

/// The load of the node as it was last taken.
pub struct NodeTelemetry<T> {
    pub stats: T,
    /// When it was taken, in nanoseconds.
    pub sampled_at: u64,
    /// How old an answer may be, in nanoseconds.
    pub maximum_age: u64,
}

/// How long ago something was, in nanoseconds.
pub open spec fn age(now: u64, then: u64) -> int {
    if now > then {
        now - then
    } else {
        0
    }
}

impl<T> NodeTelemetry<T> {
    /// Begins with the load as it was first taken.
    pub fn start(stats: T, now: u64, interval: u64) -> (r: NodeTelemetry<T>)
        requires
            1 <= interval <= MAX_STATS_SAMPLE_INTERVAL,
        ensures
            r.stats == stats,
            r.sampled_at == now,
            r.maximum_age == oldest(interval),
    {
        let maximum_age: u64 = if interval * 3 > 5 {
            interval * 3 * SECOND
        } else {
            5 * SECOND
        };
        NodeTelemetry { stats, sampled_at: now, maximum_age }
    }

    /// The load was taken again, or could not be: then what was known stays.
    pub fn refresh(&mut self, taken: Option<T>, now: u64)
        ensures
            final(self).maximum_age == old(self).maximum_age,
            match taken {
                Some(stats) => final(self).stats == stats && final(self).sampled_at == now,
                None => *final(self) == *old(self),
            },
    {
        match taken {
            Some(stats) => {
                self.stats = stats;
                self.sampled_at = now;
            },
            None => {},
        }
    }

    /// The load as it was last taken. What is too old is refused.
    pub fn snapshot(&self, now: u64) -> (r: Result<&T, Failure>)
        ensures
            r is Ok <==> age(now, self.sampled_at) <= self.maximum_age,
            r is Ok ==> *r->Ok_0 == self.stats,
            r is Err ==> r->Err_0.message@ == "host telemetry snapshot is stale ("@ + text::decimal(
                (age(now, self.sampled_at) / 1_000_000) as nat,
            ) + " ms old)"@,
    {
        let age: u64 = if now > self.sampled_at {
            now - self.sampled_at
        } else {
            0
        };
        if age > self.maximum_age {
            let number = text::decimal_string(age / 1_000_000);
            return Err(
                Failure {
                    message: text::concat3(
                        "host telemetry snapshot is stale (",
                        number.as_str(),
                        " ms old)",
                    ),
                },
            );
        }
        Ok(&self.stats)
    }
}

// ---------------------------------------------------------------------------------------------
// Laws.

/// An answer survives a missed sample: one that is no older than two intervals is given.
pub proof fn law_one_missed_sample_is_no_fault<T>(telemetry: NodeTelemetry<T>, interval: u64, now: u64)
    requires
        1 <= interval <= MAX_STATS_SAMPLE_INTERVAL,
        telemetry.maximum_age == oldest(interval),
        age(now, telemetry.sampled_at) <= 2 * interval * SECOND,
    ensures
        age(now, telemetry.sampled_at) <= telemetry.maximum_age,
{
    assert(2 * interval * SECOND <= interval * 3 * SECOND) by (nonlinear_arith)
        requires
            interval >= 0,
            SECOND == 1_000_000_000,
    ;
    assert(2 * interval * SECOND <= 5 * SECOND || interval * 3 > 5) by (nonlinear_arith)
        requires
            interval >= 1,
            SECOND == 1_000_000_000,
    ;
}

} // verus!
