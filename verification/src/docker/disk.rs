//! Measured disk usage of servers, kept for a while.

use crate::json::{label_of, Json};
use crate::protection::{elapsed, SECOND};
use crate::table::Table;
use crate::text;
use vstd::prelude::*;

verus! {

/// The disk space of a server that names none, in bytes.
pub const DEFAULT_DISK_LIMIT: i64 = 10_737_418_240;

/// How long a measurement is waited for, in seconds.
pub const DISK_WAIT_SECONDS: u64 = 120;

/// What is known of a server's disk usage.
#[derive(Clone, Copy, PartialEq, Eq, Structural)]
pub enum CacheState {
    /// Measured at this moment: the usage and the limit.
    Ready(u64, i64, i64),
    /// Being measured, under this number.
    Calculating(u64),
}

/// What a request for a server's disk usage leads to.
#[derive(Clone, Copy, PartialEq, Eq, Structural)]
pub enum DiskCalculation {
    /// This usage and limit.
    Cached(i64, i64),
    /// Wait for the measurement with this number, then ask again.
    Wait(u64),
    /// Measure, under this number.
    Calculate(u64),
}

/// How long a measurement counts, in seconds.
pub fn disk_cache_age(value: Option<&str>) -> (r: u64)
    ensures
        r == match value {
            Some(s) => match text::parsed(s@) {
                Some(n) => if 0 < n <= u64::MAX {
                    n as u64
                } else {
                    75
                },
                None => 75,
            },
            None => 75,
        },
{
    match value {
        Some(s) => match text::parse_number(s, u64::MAX) {
            Some(n) => if n > 0 {
                n
            } else {
                75
            },
            None => 75,
        },
        None => 75,
    }
}

/// The disk usage of all servers, as far as it is known.
pub struct DiskCache {
    pub entries: Table<CacheState>,
}

/// A measurement still counts.
pub open spec fn is_fresh(state: CacheState, max_age: u64, now: u64) -> bool {
    state is Ready && elapsed(state->Ready_0, now) <= max_age * SECOND
}

impl DiskCache {
    /// Nothing is known.
    pub fn new() -> (r: DiskCache)
        ensures
            r.entries@ == Map::<Seq<char>, CacheState>::empty(),
    {
        DiskCache { entries: Table::new() }
    }

    /// The usage and the limit of the last measurement, however old.
    pub fn peek(&self, id: &str) -> (r: Option<(i64, i64)>)
        ensures
            r == if self.entries@.contains_key(id@) {
                match self.entries@[id@] {
                    CacheState::Ready(_, usage, limit) => Some((usage, limit)),
                    CacheState::Calculating(_) => None,
                }
            } else {
                None
            },
    {
        match self.entries.get(id) {
            Some(CacheState::Ready(_, usage, limit)) => Some((*usage, *limit)),
            _ => None,
        }
    }

    /// What a request leads to.
    pub open spec fn answer(&self, id: Seq<char>, force: bool, max_age: u64, now: u64, token: u64) -> DiskCalculation {
        if self.entries@.contains_key(id) {
            match self.entries@[id] {
                CacheState::Ready(_, usage, limit) => if !force && is_fresh(
                    self.entries@[id],
                    max_age,
                    now,
                ) {
                    DiskCalculation::Cached(usage, limit)
                } else {
                    DiskCalculation::Calculate(token)
                },
                CacheState::Calculating(other) => DiskCalculation::Wait(other),
            }
        } else {
            DiskCalculation::Calculate(token)
        }
    }

    /// Answers a request: by a measurement that counts, unless a new one is forced, by waiting
    /// for one that is under way, or by beginning one under the given number.
    pub fn begin_disk_calculation(
        &mut self,
        id: &str,
        force: bool,
        max_age: u64,
        now: u64,
        token: u64,
    ) -> (r: DiskCalculation)
        ensures
            r == old(self).answer(id@, force, max_age, now, token),
            final(self).entries@ == if r is Calculate {
                old(self).entries@.insert(id@, CacheState::Calculating(token))
            } else {
                old(self).entries@
            },
    {
        let state = match self.entries.get(id) {
            Some(state) => Some(*state),
            None => None,
        };
        match state {
            Some(CacheState::Ready(when, usage, limit)) => {
                let age: u128 = now.saturating_sub(when) as u128;
                if !force && age <= max_age as u128 * SECOND as u128 {
                    return DiskCalculation::Cached(usage, limit);
                }
            },
            Some(CacheState::Calculating(other)) => {
                return DiskCalculation::Wait(other);
            },
            None => {},
        }
        self.entries.insert(id.to_owned(), CacheState::Calculating(token));
        DiskCalculation::Calculate(token)
    }

    /// The measurement with this number is under way.
    pub open spec fn is_current(&self, id: Seq<char>, token: u64) -> bool {
        self.entries@.contains_key(id) && self.entries@[id] == CacheState::Calculating(token)
    }

    fn current(&self, id: &str, token: u64) -> (r: bool)
        ensures
            r == self.is_current(id@, token),
    {
        match self.entries.get(id) {
            Some(CacheState::Calculating(other)) => *other == token,
            _ => false,
        }
    }

    /// Keeps the outcome of a measurement, if it was not overtaken.
    pub fn complete(&mut self, id: &str, token: u64, now: u64, usage: i64, limit: i64)
        ensures
            final(self).entries@ == if old(self).is_current(id@, token) {
                old(self).entries@.insert(id@, CacheState::Ready(now, usage, limit))
            } else {
                old(self).entries@
            },
    {
        if self.current(id, token) {
            self.entries.insert(id.to_owned(), CacheState::Ready(now, usage, limit));
        }
    }

    /// Gives up a measurement, if it was not overtaken.
    pub fn abandon(&mut self, id: &str, token: u64)
        ensures
            final(self).entries@ == if old(self).is_current(id@, token) {
                old(self).entries@.remove(id@)
            } else {
                old(self).entries@
            },
    {
        if self.current(id, token) {
            let _ = self.entries.remove(id);
        }
    }

    /// Forgets what is known of a server.
    pub fn remove(&mut self, id: &str)
        ensures
            final(self).entries@ == old(self).entries@.remove(id@),
    {
        let _ = self.entries.remove(id);
    }
}

/// A limit that a text names.
pub open spec fn limit_in(s: Seq<char>) -> Option<i64> {
    match text::signed_parsed(s) {
        Some(n) => if i64::MIN <= n <= i64::MAX {
            Some(n as i64)
        } else {
            None
        },
        None => None,
    }
}

/// The disk space of a server: what its file says, else what its container is labelled with, else
/// the default.
pub fn disk_limit(recorded: Option<&str>, inspect: Option<&Json>) -> (r: i64)
    ensures
        r == match recorded {
            Some(s) => match limit_in(text::trimmed(s@)) {
                Some(n) => n,
                None => DEFAULT_DISK_LIMIT,
            },
            None => match inspect {
                Some(i) => match label_of(i@, "agapornis.disk_limit_bytes"@) {
                    Some(s) => match limit_in(s) {
                        Some(n) => n,
                        None => DEFAULT_DISK_LIMIT,
                    },
                    None => DEFAULT_DISK_LIMIT,
                },
                None => DEFAULT_DISK_LIMIT,
            },
        },
{
    match recorded {
        Some(s) => match text::parse_signed(text::trim(s).as_str()) {
            Some(n) => n,
            None => DEFAULT_DISK_LIMIT,
        },
        None => match inspect {
            Some(i) => match i.label("agapornis.disk_limit_bytes") {
                Some(s) => match text::parse_signed(s.as_str()) {
                    Some(n) => n,
                    None => DEFAULT_DISK_LIMIT,
                },
                None => DEFAULT_DISK_LIMIT,
            },
            None => DEFAULT_DISK_LIMIT,
        },
    }
}

/// A number of bytes, as far as it fits.
pub open spec fn saturated(n: u64) -> i64 {
    if n > i64::MAX {
        i64::MAX
    } else {
        n as i64
    }
}

/// A number of bytes, as far as it fits.
pub fn saturating_i64(value: u64) -> (r: i64)
    ensures
        r == saturated(value),
{
    if value > i64::MAX as u64 {
        i64::MAX
    } else {
        value as i64
    }
}

/// The size of a directory with one more file, as far as it fits.
pub fn add_size(total: i64, length: u64) -> (r: i64)
    requires
        total >= 0,
    ensures
        r >= 0,
        r == if total + length > i64::MAX {
            i64::MAX as int
        } else {
            total + length
        },
{
    let room: u64 = (i64::MAX - total) as u64;
    if length > room {
        i64::MAX
    } else {
        total + length as i64
    }
}

// ---------------------------------------------------------------------------------------------
// Laws.

/// While a measurement is under way no second one is begun, whether forced or not.
pub proof fn law_one_measurement_at_a_time(
    cache: DiskCache,
    id: Seq<char>,
    current: u64,
    force: bool,
    max_age: u64,
    now: u64,
    token: u64,
)
    requires
        cache.is_current(id, current),
    ensures
        cache.answer(id, force, max_age, now, token) == DiskCalculation::Wait(current),
{
}

/// A measurement is used again as long as it is no older than asked for and no new one is demanded;
/// in every other case one is made, unless one is under way.
pub proof fn law_fresh_measurements_are_used_again(
    cache: DiskCache,
    id: Seq<char>,
    then: u64,
    usage: i64,
    limit: i64,
    force: bool,
    max_age: u64,
    now: u64,
    token: u64,
)
    requires
        cache.entries@.contains_key(id),
        cache.entries@[id] == CacheState::Ready(then, usage, limit),
        then <= now,
    ensures
        !force && now - then <= max_age * 1_000_000_000 ==> cache.answer(
            id,
            force,
            max_age,
            now,
            token,
        ) == DiskCalculation::Cached(usage, limit),
        force || now - then > max_age * 1_000_000_000 ==> cache.answer(
            id,
            force,
            max_age,
            now,
            token,
        ) == DiskCalculation::Calculate(token),
        !cache.is_current(id, token),
{
}

/// What was never measured is measured.
pub proof fn law_unknown_usage_is_measured(
    cache: DiskCache,
    id: Seq<char>,
    force: bool,
    max_age: u64,
    now: u64,
    token: u64,
)
    requires
        !cache.entries@.contains_key(id),
    ensures
        cache.answer(id, force, max_age, now, token) == DiskCalculation::Calculate(token),
{
}

/// A limit is the number that its record holds; what is no number, or does not fit, is no limit.
/// Numbers of bytes are reported as they are as far as they fit.
pub proof fn law_recorded_limits_read_back(n: int, s: Seq<char>, bytes: u64)
    ensures
        i64::MIN <= n <= i64::MAX ==> limit_in(text::signed_decimal(n)) == Some(n as i64),
        n < i64::MIN || n > i64::MAX ==> limit_in(text::signed_decimal(n)) is None,
        text::signed_parsed(s) is None ==> limit_in(s) is None,
        bytes <= i64::MAX ==> saturated(bytes) == bytes,
        bytes > i64::MAX ==> saturated(bytes) == i64::MAX,
{
    text::law_signed_decimal_reads_back(n, s);
}

} // verus!
