//! Rate limits on console output and commands, and the protection status of servers.

use crate::table::Table;
use crate::text;
use vstd::prelude::*;

verus! {

/// One second, in nanoseconds.
pub const SECOND: u64 = 1_000_000_000;

/// A positive number read from a setting, or the fallback where the setting is absent, is no
/// number that fits, or is zero.
pub open spec fn setting(value: Option<Seq<char>>, fallback: usize) -> usize {
    match value {
        Some(s) => match text::parsed(s) {
            Some(n) => if 0 < n <= usize::MAX {
                n as usize
            } else {
                fallback
            },
            None => fallback,
        },
        None => fallback,
    }
}

/// The contents of an optional string slice.
pub open spec fn str_view(value: Option<&str>) -> Option<Seq<char>> {
    match value {
        Some(s) => Some(s@),
        None => None,
    }
}

/// A positive number read from the value of an environment variable, or the fallback.
pub fn env_usize(value: Option<&str>, fallback: usize) -> (r: usize)
    ensures
        r == setting(str_view(value), fallback),
{
    match value {
        Some(s) => match text::parse_number(s, usize::MAX as u64) {
            Some(n) => if n > 0 {
                n as usize
            } else {
                fallback
            },
            None => fallback,
        },
        None => fallback,
    }
}

/// Commands counted since a moment.
#[derive(Clone, Copy)]
pub struct Rate {
    pub started: u64,
    pub count: usize,
}

/// Console lines counted since a moment, and the seconds in which the limit was passed.
#[derive(Clone, Copy)]
pub struct ConsoleRate {
    pub started: u64,
    pub count: usize,
    pub strikes: usize,
    pub last_strike: Option<u64>,
    pub exceeded: bool,
}

/// What becomes of one console line.
#[derive(PartialEq, Eq, Structural)]
pub enum LineDecision {
    Allow,
    Suppress,
    Notify,
    Trip,
}

/// The time from `then` to `now`, none where the clock has not moved on.
pub open spec fn elapsed(then: u64, now: u64) -> int {
    if now >= then {
        now - then
    } else {
        0
    }
}

/// One more, up to the largest number.
pub open spec fn one_more(n: usize) -> usize {
    if n < usize::MAX {
        (n + 1) as usize
    } else {
        n
    }
}

/// The rate of a server whose console has not been observed yet.
pub open spec fn fresh_rate(now: u64) -> ConsoleRate {
    ConsoleRate { started: now, count: 0, strikes: 0, last_strike: None, exceeded: false }
}

/// The rate as it stands at `now`, before the next line: strikes are forgotten after ten
/// seconds without one, and counting begins anew each second.
pub open spec fn aged(rate: ConsoleRate, now: u64) -> ConsoleRate {
    let forgiven = rate.last_strike is Some && elapsed(rate.last_strike->0, now) >= 10 * SECOND;
    let renewed = elapsed(rate.started, now) >= SECOND;
    ConsoleRate {
        started: if renewed {
            now
        } else {
            rate.started
        },
        count: if renewed {
            0
        } else {
            rate.count
        },
        strikes: if forgiven {
            0
        } else {
            rate.strikes
        },
        last_strike: if forgiven {
            None
        } else {
            rate.last_strike
        },
        exceeded: rate.exceeded && !renewed,
    }
}

/// The line passes the limit for the first time in its second.
pub open spec fn strikes_now(rate: ConsoleRate, limit: usize) -> bool {
    one_more(rate.count) > limit && !rate.exceeded
}

/// The rate after one more line; `rate` is as it stands at `now`.
pub open spec fn counted(rate: ConsoleRate, limit: usize, now: u64) -> ConsoleRate {
    let strike = strikes_now(rate, limit);
    ConsoleRate {
        started: rate.started,
        count: one_more(rate.count),
        strikes: if strike {
            one_more(rate.strikes)
        } else {
            rate.strikes
        },
        last_strike: if strike {
            Some(now)
        } else {
            rate.last_strike
        },
        exceeded: rate.exceeded || strike,
    }
}

/// What becomes of a line that meets the rate `rate` as it stands when the line comes.
pub open spec fn verdict(rate: ConsoleRate, limit: usize, strike_limit: usize) -> LineDecision {
    if one_more(rate.count) <= limit {
        LineDecision::Allow
    } else if rate.exceeded {
        LineDecision::Suppress
    } else if one_more(rate.strikes) >= strike_limit {
        LineDecision::Trip
    } else if one_more(rate.strikes) == 1 {
        LineDecision::Notify
    } else {
        LineDecision::Suppress
    }
}

/// How long a server is left alone that someone recovers by hand, in nanoseconds.
pub const RECOVERY_TIME: u64 = 120_000_000_000;

/// A server is left alone at `now`: it was granted that, and the grant lasts.
pub open spec fn left_alone(recovery: Map<Seq<char>, u64>, id: Seq<char>, now: u64) -> bool {
    recovery.contains_key(id) && recovery[id] > now
}

/// The grants once it was asked whether a server is left alone at `now`: one that ended is
/// forgotten.
pub open spec fn asked_for(recovery: Map<Seq<char>, u64>, id: Seq<char>, now: u64) -> Map<
    Seq<char>,
    u64,
> {
    if left_alone(recovery, id, now) {
        recovery
    } else {
        recovery.remove(id)
    }
}

/// The grants once a server was left alone from `now` on.
pub open spec fn granted(recovery: Map<Seq<char>, u64>, id: Seq<char>, now: u64) -> Map<
    Seq<char>,
    u64,
> {
    recovery.insert(id, (now + RECOVERY_TIME) as u64)
}

/// The protection state of every server.
pub struct ProtectionState {
    pub commands: Table<Rate>,
    pub console: Table<ConsoleRate>,
    pub statuses: Table<String>,
    pub recovery: Table<u64>,
    pub console_lines_per_second: usize,
    pub console_strike_limit: usize,
    pub console_max_line_length: usize,
    pub console_commands_per_5_seconds: usize,
}

impl ProtectionState {
    /// The limits are those of another state.
    pub open spec fn same_limits(&self, other: &ProtectionState) -> bool {
        &&& self.console_lines_per_second == other.console_lines_per_second
        &&& self.console_strike_limit == other.console_strike_limit
        &&& self.console_max_line_length == other.console_max_line_length
        &&& self.console_commands_per_5_seconds == other.console_commands_per_5_seconds
    }

    /// The state of an agent that starts, with its limits read from the given settings.
    pub fn configured(
        lines_per_second: Option<&str>,
        strike_limit: Option<&str>,
        max_line_length: Option<&str>,
        commands_per_5_seconds: Option<&str>,
    ) -> (r: ProtectionState)
        ensures
            r.commands@ == Map::<Seq<char>, Rate>::empty(),
            r.console@ == Map::<Seq<char>, ConsoleRate>::empty(),
            r.statuses@ == Map::<Seq<char>, String>::empty(),
            r.recovery@ == Map::<Seq<char>, u64>::empty(),
            r.console_lines_per_second == setting(str_view(lines_per_second), 2000),
            r.console_strike_limit == setting(str_view(strike_limit), 3),
            r.console_max_line_length == setting(str_view(max_line_length), 16384),
            r.console_commands_per_5_seconds == setting(str_view(commands_per_5_seconds), 20),
    {
        ProtectionState {
            commands: Table::new(),
            console: Table::new(),
            statuses: Table::new(),
            recovery: Table::new(),
            console_lines_per_second: env_usize(lines_per_second, 2000),
            console_strike_limit: env_usize(strike_limit, 3),
            console_max_line_length: env_usize(max_line_length, 16384),
            console_commands_per_5_seconds: env_usize(commands_per_5_seconds, 20),
        }
    }

    /// The rate that a line of `id` meets at `now`.
    pub open spec fn rate_at(&self, id: Seq<char>, now: u64) -> ConsoleRate {
        aged(
            if self.console@.contains_key(id) {
                self.console@[id]
            } else {
                fresh_rate(now)
            },
            now,
        )
    }

    /// Counts one console line of `id` at `now` and decides what becomes of it.
    pub fn observe_line(&mut self, id: &str, now: u64) -> (r: LineDecision)
        ensures
            final(self).same_limits(old(self)),
            final(self).commands@ == old(self).commands@,
            final(self).statuses@ == old(self).statuses@,
            final(self).recovery@ == old(self).recovery@,
            final(self).console@ == old(self).console@.insert(
                id@,
                counted(old(self).rate_at(id@, now), old(self).console_lines_per_second, now),
            ),
            r == verdict(
                old(self).rate_at(id@, now),
                old(self).console_lines_per_second,
                old(self).console_strike_limit,
            ),
    {
        let mut rate = match self.console.get(id) {
            Some(rate) => *rate,
            None => ConsoleRate {
                started: now,
                count: 0,
                strikes: 0,
                last_strike: None,
                exceeded: false,
            },
        };
        if let Some(then) = rate.last_strike {
            if now.saturating_sub(then) >= 10 * SECOND {
                rate.strikes = 0;
                rate.last_strike = None;
            }
        }
        if now.saturating_sub(rate.started) >= SECOND {
            rate.started = now;
            rate.count = 0;
            rate.exceeded = false;
        }
        rate.count = rate.count.saturating_add(1);
        let decision = if rate.count <= self.console_lines_per_second {
            LineDecision::Allow
        } else if rate.exceeded {
            LineDecision::Suppress
        } else {
            rate.exceeded = true;
            rate.strikes = rate.strikes.saturating_add(1);
            rate.last_strike = Some(now);
            if rate.strikes >= self.console_strike_limit {
                LineDecision::Trip
            } else if rate.strikes == 1 {
                LineDecision::Notify
            } else {
                LineDecision::Suppress
            }
        };
        self.console.insert(id.to_owned(), rate);
        decision
    }

    /// The longest console line, in bytes, that is shown whole.
    pub fn max_line_length(&self) -> (r: usize)
        ensures
            r == self.console_max_line_length,
    {
        self.console_max_line_length
    }

    /// The number of console lines that are shown each second.
    pub fn console_lines_per_second(&self) -> (r: usize)
        ensures
            r == self.console_lines_per_second,
    {
        self.console_lines_per_second
    }

    /// The command rate that a command of `id` meets at `now`.
    pub open spec fn command_rate_at(&self, id: Seq<char>, now: u64) -> Rate {
        if self.commands@.contains_key(id) && elapsed(self.commands@[id].started, now) < 5
            * SECOND {
            self.commands@[id]
        } else {
            Rate { started: now, count: 0 }
        }
    }

    /// Counts one command for `id` at `now` and says whether it may pass.
    pub fn accept_command(&mut self, id: &str, now: u64) -> (r: bool)
        ensures
            final(self).same_limits(old(self)),
            final(self).console@ == old(self).console@,
            final(self).statuses@ == old(self).statuses@,
            final(self).recovery@ == old(self).recovery@,
            ({
                let rate = old(self).command_rate_at(id@, now);
                &&& final(self).commands@ == old(self).commands@.insert(
                    id@,
                    Rate { started: rate.started, count: one_more(rate.count) },
                )
                &&& r == (one_more(rate.count) <= old(self).console_commands_per_5_seconds)
            }),
    {
        let mut rate = match self.commands.get(id) {
            Some(rate) => *rate,
            None => Rate { started: now, count: 0 },
        };
        if now.saturating_sub(rate.started) >= 5 * SECOND {
            rate = Rate { started: now, count: 0 };
        }
        rate.count = rate.count.saturating_add(1);
        self.commands.insert(id.to_owned(), rate);
        rate.count <= self.console_commands_per_5_seconds
    }

    /// The protection status of a server, by its contents.
    pub open spec fn status_of(&self, id: Seq<char>) -> Option<Seq<char>> {
        if self.statuses@.contains_key(id) {
            Some(self.statuses@[id]@)
        } else {
            None
        }
    }

    /// Nothing but the statuses differs from another state.
    pub open spec fn same_but_statuses(&self, other: &ProtectionState) -> bool {
        &&& self.same_limits(other)
        &&& self.commands@ == other.commands@
        &&& self.console@ == other.console@
        &&& self.recovery@ == other.recovery@
    }

    /// The protection status of a server.
    pub fn status(&self, id: &str) -> (r: Option<String>)
        ensures
            text::opt_view(r) == self.status_of(id@),
    {
        match self.statuses.get(id) {
            Some(s) => Some(s.as_str().to_owned()),
            None => None,
        }
    }

    /// Sets the protection status of a server.
    pub fn mark(&mut self, id: &str, status: &str)
        ensures
            final(self).same_but_statuses(old(self)),
            final(self).status_of(id@) == Some(status@),
            forall|other: Seq<char>|
                other != id@ ==> #[trigger] final(self).status_of(other) == old(self).status_of(
                    other,
                ),
    {
        self.statuses.insert(id.to_owned(), status.to_owned());
    }

    /// Forgets that a server is over its disk limit; any other status stays.
    pub fn clear_disk(&mut self, id: &str)
        ensures
            final(self).same_but_statuses(old(self)),
            final(self).status_of(id@) == if old(self).status_of(id@) == Some(
                "disk-limit-exceeded"@,
            ) {
                None
            } else {
                old(self).status_of(id@)
            },
            forall|other: Seq<char>|
                other != id@ ==> #[trigger] final(self).status_of(other) == old(self).status_of(
                    other,
                ),
    {
        let over = match self.statuses.get(id) {
            Some(s) => text::same(s.as_str(), "disk-limit-exceeded"),
            None => false,
        };
        if over {
            let _ = self.statuses.remove(id);
        }
    }

    /// Clears a server's status and leaves it alone for two minutes.
    pub fn manual_recovery(&mut self, id: &str, now: u64)
        requires
            now + RECOVERY_TIME <= u64::MAX,
        ensures
            final(self).same_limits(old(self)),
            final(self).commands@ == old(self).commands@,
            final(self).console@ == old(self).console@,
            final(self).statuses@ == old(self).statuses@.remove(id@),
            final(self).status_of(id@) is None,
            final(self).recovery@ == granted(old(self).recovery@, id@, now),
    {
        let _ = self.statuses.remove(id);
        self.recovery.insert(id.to_owned(), now + RECOVERY_TIME);
    }

    /// Whether a server is left alone at `now`; an expired grant is forgotten.
    pub fn in_manual_recovery(&mut self, id: &str, now: u64) -> (r: bool)
        ensures
            final(self).same_limits(old(self)),
            final(self).commands@ == old(self).commands@,
            final(self).console@ == old(self).console@,
            final(self).statuses@ == old(self).statuses@,
            r == left_alone(old(self).recovery@, id@, now),
            final(self).recovery@ == asked_for(old(self).recovery@, id@, now),
    {
        let until = match self.recovery.get(id) {
            Some(until) => Some(*until),
            None => None,
        };
        match until {
            Some(until) => if until > now {
                true
            } else {
                let _ = self.recovery.remove(id);
                false
            },
            None => {
                assert(self.recovery@ =~= self.recovery@.remove(id@));
                false
            },
        }
    }

    /// Forgets everything about a server.
    pub fn remove(&mut self, id: &str)
        ensures
            final(self).same_limits(old(self)),
            final(self).commands@ == old(self).commands@.remove(id@),
            final(self).console@ == old(self).console@.remove(id@),
            final(self).statuses@ == old(self).statuses@.remove(id@),
            final(self).recovery@ == old(self).recovery@.remove(id@),
    {
        let _ = self.commands.remove(id);
        let _ = self.console.remove(id);
        let _ = self.statuses.remove(id);
        let _ = self.recovery.remove(id);
    }
}

// ---------------------------------------------------------------------------------------------
// Laws.

/// The decisions for a row of lines that come one after another at the given times.
pub open spec fn verdicts(
    rate: ConsoleRate,
    times: Seq<u64>,
    limit: usize,
    strike_limit: usize,
) -> Seq<LineDecision>
    decreases times.len(),
{
    if times.len() == 0 {
        Seq::empty()
    } else {
        let met = aged(rate, times[0]);
        seq![verdict(met, limit, strike_limit)] + verdicts(
            counted(met, limit, times[0]),
            times.drop_first(),
            limit,
            strike_limit,
        )
    }
}

/// The number of lines that are shown as they came.
pub open spec fn allowed(decisions: Seq<LineDecision>) -> nat
    decreases decisions.len(),
{
    if decisions.len() == 0 {
        0
    } else {
        (if decisions[0] == LineDecision::Allow {
            1nat
        } else {
            0nat
        }) + allowed(decisions.drop_first())
    }
}

/// However many lines come within one second of counting, no more than the limit are shown as
/// they came.
pub proof fn law_lines_per_second(
    rate: ConsoleRate,
    times: Seq<u64>,
    limit: usize,
    strike_limit: usize,
)
    requires
        limit < usize::MAX,
        forall|i: int| 0 <= i < times.len() ==> elapsed(rate.started, #[trigger] times[i]) < SECOND,
    ensures
        allowed(verdicts(rate, times, limit, strike_limit)) <= if limit > rate.count {
            limit - rate.count
        } else {
            0
        },
    decreases times.len(),
{
    if times.len() > 0 {
        let met = aged(rate, times[0]);
        let next = counted(met, limit, times[0]);
        let rest = times.drop_first();
        assert(elapsed(rate.started, times[0]) < SECOND);
        assert forall|i: int| 0 <= i < rest.len() implies elapsed(next.started, #[trigger] rest[i])
            < SECOND by {
            assert(rest[i] == times[i + 1]);
        }
        law_lines_per_second(next, rest, limit, strike_limit);
        let all = verdicts(rate, times, limit, strike_limit);
        assert(all.drop_first() =~= verdicts(next, rest, limit, strike_limit));
    }
}

/// At most one line in a second of counting is answered by a strike; once the limit was passed,
/// the rest of the second is suppressed.
pub proof fn law_one_strike_per_second(rate: ConsoleRate, limit: usize, now: u64, later: u64)
    requires
        strikes_now(rate, limit),
        elapsed(rate.started, later) < SECOND,
    ensures
        ({
            let met = aged(counted(rate, limit, now), later);
            !strikes_now(met, limit)
        }),
        ({
            let met = aged(counted(rate, limit, now), later);
            forall|strike_limit: usize|
                #[trigger] verdict(met, limit, strike_limit) == LineDecision::Suppress
        }),
{
}

/// Something that bears on whether servers are left alone.
pub ghost enum RecoveryEvent {
    /// Someone recovers a server by hand, at a moment.
    Grant(Seq<char>, u64),
    /// It is asked whether a server is left alone, at a moment.
    Ask(Seq<char>, u64),
    /// Everything about a server is forgotten.
    Remove(Seq<char>),
}

/// The grants after some events, from none.
pub open spec fn grants_after(events: Seq<RecoveryEvent>) -> Map<Seq<char>, u64>
    decreases events.len(),
{
    if events.len() == 0 {
        Map::empty()
    } else {
        let before = grants_after(events.drop_last());
        match events.last() {
            RecoveryEvent::Grant(id, at) => granted(before, id, at),
            RecoveryEvent::Ask(id, at) => asked_for(before, id, at),
            RecoveryEvent::Remove(id) => before.remove(id),
        }
    }
}

/// When a server was last recovered by hand, if it was not forgotten since.
pub open spec fn last_grant(events: Seq<RecoveryEvent>, id: Seq<char>) -> Option<u64>
    decreases events.len(),
{
    if events.len() == 0 {
        None
    } else {
        match events.last() {
            RecoveryEvent::Grant(other, at) => if other == id {
                Some(at)
            } else {
                last_grant(events.drop_last(), id)
            },
            RecoveryEvent::Ask(_, _) => last_grant(events.drop_last(), id),
            RecoveryEvent::Remove(other) => if other == id {
                None
            } else {
                last_grant(events.drop_last(), id)
            },
        }
    }
}

/// The events came no later than `now`, and within the range of the clock.
pub open spec fn came_before(events: Seq<RecoveryEvent>, now: u64) -> bool {
    forall|i: int|
        0 <= i < events.len() ==> match #[trigger] events[i] {
            RecoveryEvent::Grant(_, at) => at <= now && at + RECOVERY_TIME <= u64::MAX,
            RecoveryEvent::Ask(_, at) => at <= now,
            RecoveryEvent::Remove(_) => true,
        }
}

/// Whatever happened, a server is left alone exactly where someone recovered it by hand, it was not
/// forgotten since, and the last recovery is less than two minutes ago. So asking changes no later
/// answer, for no server.
pub proof fn law_recovery_lasts_two_minutes(events: Seq<RecoveryEvent>, id: Seq<char>, now: u64)
    requires
        came_before(events, now),
    ensures
        left_alone(grants_after(events), id, now) <==> last_grant(events, id) is Some && now
            - last_grant(events, id)->0 < RECOVERY_TIME,
        grants_after(events).contains_key(id) ==> last_grant(events, id) is Some
            && grants_after(events)[id] == last_grant(events, id)->0 + RECOVERY_TIME,
    decreases events.len(),
{
    if events.len() > 0 {
        let before = events.drop_last();
        assert(came_before(before, now)) by {
            assert forall|i: int| 0 <= i < before.len() implies match #[trigger] before[i] {
                RecoveryEvent::Grant(_, at) => at <= now && at + RECOVERY_TIME <= u64::MAX,
                RecoveryEvent::Ask(_, at) => at <= now,
                RecoveryEvent::Remove(_) => true,
            } by {
                assert(before[i] == events[i]);
            }
        }
        law_recovery_lasts_two_minutes(before, id, now);
        assert(events.last() == events[events.len() - 1]);
    }
}

/// Asking whether one server is left alone changes no answer from that moment on, for no server.
pub proof fn law_asking_changes_no_answer(
    recovery: Map<Seq<char>, u64>,
    asked: Seq<char>,
    at: u64,
    id: Seq<char>,
    now: u64,
)
    requires
        at <= now,
    ensures
        left_alone(asked_for(recovery, asked, at), id, now) == left_alone(recovery, id, now),
{
}

/// A setting counts where it spells a positive number that fits; else the usual number does.
pub proof fn law_settings_are_positive_numbers(n: nat, s: Seq<char>, fallback: usize)
    ensures
        0 < n <= usize::MAX ==> setting(Some(text::decimal(n)), fallback) == n,
        n == 0 || n > usize::MAX ==> setting(Some(text::decimal(n)), fallback) == fallback,
        text::parsed(s) is None ==> setting(Some(s), fallback) == fallback,
        setting(None, fallback) == fallback,
{
    text::law_decimal_reads_back(n);
}

/// A line of a console is shown exactly while no more came in its second than may. The first one too
/// many is a strike, which is told once; the last strike that is allowed trips the protection; and
/// every other line too many is left out.
pub proof fn law_each_line_gets_its_verdict(rate: ConsoleRate, limit: usize, strike_limit: usize)
    requires
        rate.count < usize::MAX,
        rate.strikes < usize::MAX,
    ensures
        verdict(rate, limit, strike_limit) == LineDecision::Allow <==> rate.count < limit,
        verdict(rate, limit, strike_limit) == LineDecision::Trip <==> rate.count >= limit
            && !rate.exceeded && rate.strikes + 1 >= strike_limit,
        verdict(rate, limit, strike_limit) == LineDecision::Notify <==> rate.count >= limit
            && !rate.exceeded && rate.strikes == 0 && strike_limit > 1,
        verdict(rate, limit, strike_limit) == LineDecision::Suppress <==> rate.count >= limit && (
        rate.exceeded || rate.strikes > 0 && rate.strikes + 1 < strike_limit),
{
}

/// Lines are counted within a second and anew in the next one; strikes are kept until ten seconds
/// pass without one.
pub proof fn law_rates_are_counted_by_the_second(
    rate: ConsoleRate,
    limit: usize,
    now: u64,
)
    requires
        rate.started <= now,
        rate.last_strike is Some ==> rate.last_strike->0 <= now,
        rate.count < usize::MAX,
        rate.strikes < usize::MAX,
    ensures
        now - rate.started < 1_000_000_000 ==> aged(rate, now).count == rate.count && aged(
            rate,
            now,
        ).started == rate.started && aged(rate, now).exceeded == rate.exceeded,
        now - rate.started >= 1_000_000_000 ==> aged(rate, now).count == 0 && aged(rate, now).started
            == now && !aged(rate, now).exceeded,
        rate.last_strike is Some && now - rate.last_strike->0 >= 10_000_000_000 ==> aged(
            rate,
            now,
        ).strikes == 0 && aged(rate, now).last_strike is None,
        rate.last_strike is None || now - rate.last_strike->0 < 10_000_000_000 ==> aged(
            rate,
            now,
        ).strikes == rate.strikes && aged(rate, now).last_strike == rate.last_strike,
        counted(rate, limit, now).count == rate.count + 1,
        counted(rate, limit, now).started == rate.started,
        rate.count >= limit && !rate.exceeded ==> counted(rate, limit, now).strikes == rate.strikes
            + 1 && counted(rate, limit, now).last_strike == Some(now) && counted(
            rate,
            limit,
            now,
        ).exceeded,
        rate.count < limit || rate.exceeded ==> counted(rate, limit, now).strikes == rate.strikes
            && counted(rate, limit, now).last_strike == rate.last_strike && counted(
            rate,
            limit,
            now,
        ).exceeded == rate.exceeded,
        fresh_rate(now).count == 0 && fresh_rate(now).strikes == 0 && fresh_rate(now).started == now
            && !fresh_rate(now).exceeded && fresh_rate(now).last_strike is None,
{
}

/// The commands of a server are counted for five seconds from the first one on, each server for
/// itself; after that counting begins anew.
pub proof fn law_commands_are_counted_for_five_seconds(
    state: ProtectionState,
    id: Seq<char>,
    now: u64,
)
    requires
        state.commands@.contains_key(id) ==> state.commands@[id].started <= now,
    ensures
        state.commands@.contains_key(id) && now - state.commands@[id].started < 5_000_000_000
            ==> state.command_rate_at(id, now) == state.commands@[id],
        !state.commands@.contains_key(id) || now - state.commands@[id].started >= 5_000_000_000
            ==> state.command_rate_at(id, now).count == 0 && state.command_rate_at(
            id,
            now,
        ).started == now,
        !state.console@.contains_key(id) ==> state.rate_at(id, now).count == 0 && state.rate_at(
            id,
            now,
        ).strikes == 0 && !state.rate_at(id, now).exceeded,
        state.console@.contains_key(id) ==> state.rate_at(id, now) == aged(state.console@[id], now),
        state.status_of(id) is Some <==> state.statuses@.contains_key(id),
        state.statuses@.contains_key(id) ==> state.status_of(id) == Some(state.statuses@[id]@),
{
}

/// The time that passed is the difference of two moments, and none where the clock stood still or
/// went back.
pub proof fn law_time_passes(then: u64, now: u64)
    ensures
        then <= now ==> elapsed(then, now) == now - then,
        now <= then ==> elapsed(then, now) == 0,
{
}

} // verus!
