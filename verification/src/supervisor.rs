//! Watching over servers: those that keep crashing are stopped, and so are those that use more
//! disk than they may.

use crate::json::{bool_of, field_of, inner_of, signed_of, Json};
use crate::protection::elapsed;
use crate::table::Table;
use crate::text;
use vstd::prelude::*;

verus! {

/// How often servers are looked at where nothing is configured, in seconds.
pub const DEFAULT_SCAN_SECONDS: u64 = 10;

/// How often the disk of a server is measured where nothing is configured, in seconds.
pub const DEFAULT_DISK_CHECK_SECONDS: u64 = 150;

/// How long after the start images are cleaned up first, in seconds, where nothing is configured.
pub const DEFAULT_CLEANUP_DELAY_SECONDS: u64 = 60;

/// How often images are cleaned up, in seconds, where nothing is configured.
pub const DEFAULT_CLEANUP_INTERVAL_SECONDS: u64 = 21_600;

/// How old an image has to be that is cleaned up, in hours, where nothing is configured.
pub const DEFAULT_CLEANUP_AGE_HOURS: u64 = 24;

/// How long failures count, in nanoseconds.
pub const FAILURE_WINDOW: u64 = 300_000_000_000;

/// How long a server is to run for its failures to be forgotten, in nanoseconds.
pub const STABLE_AFTER: u64 = 120_000_000_000;

/// How many failures are too many.
pub const FAILURE_LIMIT: usize = 3;

/// What is known of a server that is watched.
pub struct Observation {
    pub last_restart: i64,
    pub was_running: bool,
    /// Since when it is seen to run, in nanoseconds.
    pub running_since: Option<u64>,
    /// When it failed, in nanoseconds.
    pub failures: Vec<u64>,
    pub quarantined: bool,
}

/// What is known of a server that is watched, by its contents.
#[verifier::ext_equal]
pub ghost struct Watched {
    pub last_restart: int,
    pub was_running: bool,
    pub running_since: Option<u64>,
    pub failures: Seq<u64>,
    pub quarantined: bool,
}

impl View for Observation {
    type V = Watched;

    open spec fn view(&self) -> Watched {
        Watched {
            last_restart: self.last_restart as int,
            was_running: self.was_running,
            running_since: self.running_since,
            failures: self.failures@,
            quarantined: self.quarantined,
        }
    }
}

/// A server that is seen for the first time, or whose failures are forgotten.
pub open spec fn first_seen(restart: int, running: bool, now: u64) -> Watched {
    Watched {
        last_restart: restart,
        was_running: running,
        running_since: if running {
            Some(now)
        } else {
            None
        },
        failures: Seq::empty(),
        quarantined: false,
    }
}

/// The failures that still count: without those at the start that are too old.
pub open spec fn recent(failures: Seq<u64>, now: u64) -> Seq<u64>
    decreases failures.len(),
{
    if failures.len() > 0 && elapsed(failures[0], now) > FAILURE_WINDOW {
        recent(failures.skip(1), now)
    } else {
        failures
    }
}

/// How many restarts count as failures: those since the last look, but no more than three.
pub open spec fn new_restarts(last: int, restart: int) -> nat {
    if restart <= last {
        0
    } else if restart - last > 3 {
        3
    } else {
        (restart - last) as nat
    }
}

/// One moment, so many times.
pub open spec fn repeated(now: u64, n: nat) -> Seq<u64> {
    Seq::new(n, |i: int| now)
}

/// The failures that count once a server was looked at.
pub open spec fn failures_now(w: Watched, restart: int, running: bool, exit: int, now: u64) -> Seq<
    u64,
> {
    let restarted = w.failures + repeated(now, new_restarts(w.last_restart, restart));
    let crashed = if w.was_running && !running && exit != 0 {
        restarted.push(now)
    } else {
        restarted
    };
    if running && elapsed(running_from(w, now), now) >= STABLE_AFTER {
        Seq::empty()
    } else {
        recent(crashed, now)
    }
}

/// Since when a running server is seen to run.
pub open spec fn running_from(w: Watched, now: u64) -> u64 {
    match w.running_since {
        Some(since) => since,
        None => now,
    }
}

/// What is known of a server once it was looked at.
pub open spec fn looked_at(w: Watched, restart: int, running: bool, exit: int, now: u64) -> Watched {
    let failures = failures_now(w, restart, running, exit, now);
    Watched {
        last_restart: restart,
        was_running: running,
        running_since: if running {
            Some(running_from(w, now))
        } else {
            None
        },
        failures,
        quarantined: w.quarantined || failures.len() >= FAILURE_LIMIT,
    }
}

impl Observation {
    fn first(restart: i64, running: bool, now: u64) -> (r: Observation)
        ensures
            r@ == first_seen(restart as int, running, now),
    {
        let running_since = if running {
            Some(now)
        } else {
            None
        };
        let r = Observation {
            last_restart: restart,
            was_running: running,
            running_since,
            failures: Vec::new(),
            quarantined: false,
        };
        assert(r@ =~= first_seen(restart as int, running, now));
        r
    }

    /// Looks at the server again. The result says whether it is to be stopped now, because it
    /// failed too often.
    pub fn look(&mut self, restart: i64, running: bool, exit: i64, now: u64) -> (r: bool)
        ensures
            final(self)@ == looked_at(old(self)@, restart as int, running, exit as int, now),
            r == (!old(self)@.quarantined && final(self)@.quarantined),
    {
        let ghost w = self@;
        let last = self.last_restart;
        let more: usize = if restart <= last {
            0
        } else if restart as i128 - last as i128 > 3 {
            3
        } else {
            (restart as i128 - last as i128) as usize
        };
        let ghost start = self.failures@;
        let mut i: usize = 0;
        assert(start + repeated(now, 0) =~= start);
        while i < more
            invariant
                0 <= i <= more,
                self.last_restart == w.last_restart,
                self.was_running == w.was_running,
                self.running_since == w.running_since,
                self.quarantined == w.quarantined,
                start == w.failures,
                self.failures@ == start + repeated(now, i as nat),
            decreases more - i,
        {
            self.failures.push(now);
            assert(start + repeated(now, (i + 1) as nat) =~= (start + repeated(now, i as nat)).push(
                now,
            ));
            i += 1;
        }
        if self.was_running && !running && exit != 0 {
            self.failures.push(now);
        }
        let ghost crashed = self.failures@;
        assert(crashed.skip(0) =~= crashed);
        while self.failures.len() > 0 && now.saturating_sub(self.failures[0]) > FAILURE_WINDOW
            invariant
                self.last_restart == w.last_restart,
                self.was_running == w.was_running,
                self.running_since == w.running_since,
                self.quarantined == w.quarantined,
                recent(crashed, now) == recent(self.failures@, now),
            decreases self.failures.len(),
        {
            let ghost before = self.failures@;
            let _ = self.failures.remove(0);
            assert(self.failures@ =~= before.skip(1));
        }
        if running {
            let since: u64 = match self.running_since {
                Some(since) => since,
                None => now,
            };
            self.running_since = Some(since);
            if now.saturating_sub(since) >= STABLE_AFTER {
                self.failures = Vec::new();
            }
        } else {
            self.running_since = None;
        }
        self.last_restart = restart;
        self.was_running = running;
        let engage = !self.quarantined && self.failures.len() >= FAILURE_LIMIT;
        if engage {
            self.quarantined = true;
        }
        assert(self@ =~= looked_at(w, restart as int, running, exit as int, now));
        engage
    }
}

/// Everything that is known of the servers that are watched.
pub struct Supervisor {
    pub observations: Table<Observation>,
    /// When the disk of a server is measured next, in nanoseconds.
    pub disk_due: Table<u64>,
}

/// What was known of a server before it is looked at: what is kept of it, or that it is new.
pub open spec fn known(
    all: Map<Seq<char>, Observation>,
    id: Seq<char>,
    restart: int,
    running: bool,
    now: u64,
) -> Watched {
    if all.contains_key(id) {
        all[id]@
    } else {
        first_seen(restart, running, now)
    }
}

/// A moment that lies a while behind another, as far as moments go.
pub open spec fn later(now: u64, by: u64) -> u64 {
    if now + by > u64::MAX {
        u64::MAX
    } else {
        (now + by) as u64
    }
}

impl Supervisor {
    /// Nothing is known yet.
    pub fn new() -> (r: Supervisor)
        ensures
            r.observations@ == Map::<Seq<char>, Observation>::empty(),
            r.disk_due@ == Map::<Seq<char>, u64>::empty(),
    {
        Supervisor { observations: Table::new(), disk_due: Table::new() }
    }

    /// Looks at a server. The result says whether it is to be stopped now, because it failed too
    /// often. While someone is recovering it by hand, what it did is forgotten.
    pub fn observe(
        &mut self,
        id: &str,
        restart: i64,
        running: bool,
        exit: i64,
        now: u64,
        recovering: bool,
    ) -> (r: bool)
        ensures
            final(self).disk_due@ == old(self).disk_due@,
            final(self).observations@.contains_key(id@),
            final(self).observations@.remove(id@) == old(self).observations@.remove(id@),
            ({
                let w = known(old(self).observations@, id@, restart as int, running, now);
                let after = final(self).observations@[id@]@;
                if recovering {
                    after == first_seen(restart as int, running, now) && !r
                } else {
                    &&& after == looked_at(w, restart as int, running, exit as int, now)
                    &&& r == (!w.quarantined && after.quarantined)
                }
            }),
    {
        let ghost before = self.observations@;
        let mut seen = match self.observations.remove(id) {
            Some(seen) => seen,
            None => Observation::first(restart, running, now),
        };
        let engage = if recovering {
            seen = Observation::first(restart, running, now);
            false
        } else {
            seen.look(restart, running, exit, now)
        };
        let ghost between = self.observations@;
        self.observations.insert(id.to_owned(), seen);
        assert(self.observations@.remove(id@) =~= before.remove(id@));
        engage
    }

    /// Whether the disk of a server is to be measured now; if so, the next time is a while later.
    pub fn disk_is_due(&mut self, id: &str, now: u64, every: u64) -> (r: bool)
        ensures
            final(self).observations@ == old(self).observations@,
            ({
                let due = if old(self).disk_due@.contains_key(id@) {
                    old(self).disk_due@[id@]
                } else {
                    now
                };
                &&& r == (due <= now)
                &&& final(self).disk_due@ == old(self).disk_due@.insert(
                    id@,
                    if r {
                        later(now, every)
                    } else {
                        due
                    },
                )
            }),
    {
        let due: u64 = match self.disk_due.get(id) {
            Some(due) => *due,
            None => now,
        };
        if due <= now {
            let next: u64 = now.saturating_add(every);
            self.disk_due.insert(id.to_owned(), next);
            true
        } else {
            self.disk_due.insert(id.to_owned(), due);
            false
        }
    }
}

/// What is looked at of a server: how often it was restarted, whether it runs, and with which code
/// it ended.
pub fn observed_state(inspect: &Json) -> (r: (i64, bool, i64))
    ensures
        r.0 == match signed_of(field_of(inspect@, "RestartCount"@)) {
            Some(n) => n,
            None => 0,
        },
        r.1 == match bool_of(inner_of(inspect@, "State"@, "Running"@)) {
            Some(b) => b,
            None => false,
        },
        r.2 == match signed_of(inner_of(inspect@, "State"@, "ExitCode"@)) {
            Some(n) => n,
            None => 0,
        },
{
    let restart: i64 = match inspect.field("RestartCount") {
        Some(v) => match v.as_signed() {
            Some(n) => n,
            None => 0,
        },
        None => 0,
    };
    let running = match inspect.inner_bool("State", "Running") {
        Some(b) => b,
        None => false,
    };
    let exit: i64 = match inspect.inner_signed("State", "ExitCode") {
        Some(n) => n,
        None => 0,
    };
    (restart, running, exit)
}

/// The arguments with which Docker lists the servers of the agent.
pub fn list_arguments() -> (r: Vec<String>)
    ensures
        text::views(r@) == seq![
            "ps"@,
            "-a"@,
            "--filter"@,
            "label=agapornis.server_id"@,
            "--format"@,
            "{{.Names}}"@,
        ],
{
    let list: Vec<&str> = vec![
        "ps",
        "-a",
        "--filter",
        "label=agapornis.server_id",
        "--format",
        "{{.Names}}",
    ];
    let r = text::owned(list);
    assert(text::views(r@) =~= seq![
        "ps"@,
        "-a"@,
        "--filter"@,
        "label=agapornis.server_id"@,
        "--format"@,
        "{{.Names}}"@,
    ]);
    r
}

/// The lines that are not blank, in order.
pub open spec fn filled_lines(lines: Seq<Seq<char>>) -> Seq<Seq<char>>
    decreases lines.len(),
{
    if lines.len() == 0 {
        Seq::empty()
    } else if text::is_blank(lines.last()) {
        filled_lines(lines.drop_last())
    } else {
        filled_lines(lines.drop_last()).push(lines.last())
    }
}

/// The servers that Docker listed.
pub fn listed_servers(raw: &str) -> (r: Vec<String>)
    ensures
        text::views(r@) == filled_lines(text::lines_of(raw@)),
{
    let lines = text::lines(raw);
    let ghost all = text::lines_of(raw@);
    let mut out: Vec<String> = Vec::new();
    let mut i: usize = 0;
    assert(all.take(0) =~= Seq::<Seq<char>>::empty());
    assert(text::views(out@) =~= Seq::<Seq<char>>::empty());
    while i < lines.len()
        invariant
            text::views(lines@) == all,
            0 <= i <= lines@.len(),
            text::views(out@) == filled_lines(all.take(i as int)),
        decreases lines.len() - i,
    {
        assert(all[i as int] == lines@[i as int]@);
        assert(all.take(i + 1).drop_last() =~= all.take(i as int));
        if !text::blank(lines[i].as_str()) {
            let ghost before = out@;
            let line = lines[i].as_str().to_owned();
            out.push(line);
            proof {
                text::lemma_views_push(before, line);
            }
        }
        i += 1;
    }
    assert(all.take(all.len() as int) =~= all);
    out
}

/// The status of a server that failed too often.
pub const CRASH_LOOP_STATUS: &'static str = "crash-loop-protected";

/// What is written to the console of a server that failed too often.
pub const CRASH_LOOP_NOTICE: &'static str =
    "[agent] Crash-loop protection engaged after 3 failures in 5 minutes. Automatic restarts are disabled; use Start or Restart after correcting the cause.";

/// The status of a server that uses more disk than it may.
pub const DISK_STATUS: &'static str = "disk-limit-exceeded";

/// What is written to the console of a server that uses more disk than it may; none where it does
/// not. A limit that is not positive is none.
pub fn disk_notice(usage: i64, limit: i64) -> (r: Option<String>)
    ensures
        r is Some <==> limit > 0 && usage > limit,
        r is Some ==> r->0@ == "[agent] Disk limit exceeded ("@ + text::signed_decimal(usage as int)
            + " / "@ + text::signed_decimal(limit as int)
            + " bytes). The server was stopped and cannot start until files are deleted."@,
{
    if limit > 0 && usage > limit {
        let used = text::signed_decimal_string(usage);
        let allowed = text::signed_decimal_string(limit);
        Some(
            text::concat5(
                "[agent] Disk limit exceeded (",
                used.as_str(),
                " / ",
                allowed.as_str(),
                " bytes). The server was stopped and cannot start until files are deleted.",
            ),
        )
    } else {
        None
    }
}

/// The arguments with which Docker no longer restarts a server by itself.
pub fn no_restart_arguments(id: &str) -> (r: Vec<String>)
    ensures
        text::views(r@) == seq!["update"@, "--restart"@, "no"@, id@],
{
    let list: Vec<&str> = vec!["update", "--restart", "no", id];
    let r = text::owned(list);
    assert(text::views(r@) =~= seq!["update"@, "--restart"@, "no"@, id@]);
    r
}

/// The arguments with which Docker stops a server soon.
pub fn stop_arguments(id: &str) -> (r: Vec<String>)
    ensures
        text::views(r@) == seq!["stop"@, "--time"@, "5"@, id@],
{
    let list: Vec<&str> = vec!["stop", "--time", "5", id];
    let r = text::owned(list);
    assert(text::views(r@) =~= seq!["stop"@, "--time"@, "5"@, id@]);
    r
}

/// A number of seconds or hours that a setting gives, if it is positive.
pub fn env_secs(setting: Option<&str>, fallback: u64) -> (r: u64)
    ensures
        r == match setting {
            Some(s) => match text::parsed(s@) {
                Some(n) => if 0 < n <= u64::MAX {
                    n as u64
                } else {
                    fallback
                },
                None => fallback,
            },
            None => fallback,
        },
{
    match setting {
        Some(s) => match text::parse_number(s, u64::MAX) {
            Some(n) => if n > 0 {
                n
            } else {
                fallback
            },
            None => fallback,
        },
        None => fallback,
    }
}

/// Whether images that nothing uses are removed: unless a setting says that they are not.
pub fn cleans_images(setting: Option<&str>) -> (r: bool)
    ensures
        r == match setting {
            Some(s) => !(text::lowered(s@) == text::lowered("false"@) || s@ == "0"@),
            None => true,
        },
{
    match setting {
        Some(s) => !(text::same_ignoring_case(s, "false") || text::same(s, "0")),
        None => true,
    }
}

/// The arguments with which Docker removes images: only those that no tag names, and only those
/// that are old enough.
pub fn image_cleanup_arguments(minimum_age_hours: u64) -> (r: Vec<String>)
    ensures
        text::views(r@) == seq![
            "image"@,
            "prune"@,
            "--force"@,
            "--filter"@,
            "dangling=true"@,
            "--filter"@,
            "until="@ + text::decimal(minimum_age_hours as nat) + "h"@,
        ],
{
    let number = text::decimal_string(minimum_age_hours);
    let until = text::concat3("until=", number.as_str(), "h");
    let list: Vec<&str> = vec![
        "image",
        "prune",
        "--force",
        "--filter",
        "dangling=true",
        "--filter",
        until.as_str(),
    ];
    let r = text::owned(list);
    assert(text::views(r@) =~= seq![
        "image"@,
        "prune"@,
        "--force"@,
        "--filter"@,
        "dangling=true"@,
        "--filter"@,
        "until="@ + text::decimal(minimum_age_hours as nat) + "h"@,
    ]);
    r
}

// ---------------------------------------------------------------------------------------------
// Laws.

proof fn lemma_recent(failures: Seq<u64>, now: u64)
    ensures
        recent(failures, now).len() <= failures.len(),
        recent(failures, now) == failures.skip(failures.len() - recent(failures, now).len()),
        recent(failures, now).len() > 0 ==> elapsed(recent(failures, now)[0], now)
            <= FAILURE_WINDOW,
    decreases failures.len(),
{
    if failures.len() > 0 && elapsed(failures[0], now) > FAILURE_WINDOW {
        lemma_recent(failures.skip(1), now);
        let r = recent(failures, now);
        assert(failures.skip(1).skip(failures.len() - 1 - r.len()) =~= failures.skip(
            failures.len() - r.len(),
        ));
    } else {
        assert(failures.skip(0) =~= failures);
    }
}

/// A server that was stopped stays quarantined however it is looked at, so that it is not stopped
/// again for the same failures.
pub proof fn law_quarantine_stays(w: Watched, restart: int, running: bool, exit: int, now: u64)
    requires
        w.quarantined,
    ensures
        looked_at(w, restart, running, exit, now).quarantined,
{
}

/// Failures are kept in the order in which they came.
pub open spec fn in_order(failures: Seq<u64>, now: u64) -> bool {
    &&& forall|i: int, j: int| 0 <= i <= j < failures.len() ==> failures[i] <= failures[j]
    &&& forall|i: int| 0 <= i < failures.len() ==> failures[i] <= now
}

/// The failures that count came within the window, and looking at a server keeps them in the order
/// in which they came.
pub proof fn law_failures_are_recent(
    w: Watched,
    restart: int,
    running: bool,
    exit: int,
    now: u64,
)
    requires
        in_order(w.failures, now),
    ensures
        in_order(looked_at(w, restart, running, exit, now).failures, now),
        forall|i: int|
            0 <= i < looked_at(w, restart, running, exit, now).failures.len() ==> elapsed(
                #[trigger] looked_at(w, restart, running, exit, now).failures[i],
                now,
            ) <= FAILURE_WINDOW,
{
    let restarted = w.failures + repeated(now, new_restarts(w.last_restart, restart));
    let crashed = if w.was_running && !running && exit != 0 {
        restarted.push(now)
    } else {
        restarted
    };
    assert(in_order(crashed, now));
    lemma_recent(crashed, now);
}

/// A server is stopped for failures that count: there are at least as many as the limit says, and
/// all of them came within the window.
pub proof fn law_quarantine_needs_recent_failures(
    w: Watched,
    restart: int,
    running: bool,
    exit: int,
    now: u64,
)
    requires
        in_order(w.failures, now),
        !w.quarantined,
        looked_at(w, restart, running, exit, now).quarantined,
    ensures
        failures_now(w, restart, running, exit, now).len() >= FAILURE_LIMIT,
        forall|i: int|
            0 <= i < failures_now(w, restart, running, exit, now).len() ==> elapsed(
                #[trigger] failures_now(w, restart, running, exit, now)[i],
                now,
            ) <= FAILURE_WINDOW,
{
    law_failures_are_recent(w, restart, running, exit, now);
}

/// A server that ran long enough has no failures.
pub proof fn law_stability_forgives(w: Watched, restart: int, exit: int, now: u64)
    requires
        elapsed(running_from(w, now), now) >= STABLE_AFTER,
    ensures
        looked_at(w, restart, true, exit, now).failures.len() == 0,
        looked_at(w, restart, true, exit, now).quarantined == w.quarantined,
{
}

/// A server that neither restarted nor ended since it was last looked at has no new failure.
pub proof fn law_quiet_servers_do_not_fail(w: Watched, running: bool, exit: int, now: u64)
    requires
        w.was_running == running,
    ensures
        failures_now(w, w.last_restart, running, exit, now).len() <= w.failures.len(),
{
    assert(w.failures + repeated(now, 0) =~= w.failures);
    lemma_recent(w.failures, now);
}

/// Every failure counts. A look at a server that has not run for two minutes adds a failure at that
/// moment for each restart since the last look, three at most, and one more where the server ran
/// and is now down with an exit code other than zero, whatever became of the number of restarts.
/// Those that are within five minutes stay. Where that makes three, the server is quarantined.
pub proof fn law_every_failure_counts(w: Watched, restart: int, running: bool, exit: int, now: u64)
    requires
        in_order(w.failures, now),
        running && w.running_since is Some ==> now - w.running_since->0 < 120_000_000_000,
    ensures
        ({
            let after = looked_at(w, restart, running, exit, now);
            let restarts = if restart > w.last_restart {
                if restart - w.last_restart >= 3 {
                    3int
                } else {
                    restart - w.last_restart
                }
            } else {
                0int
            };
            let crashes = if w.was_running && !running && exit != 0 {
                1int
            } else {
                0int
            };
            let added = restarts + crashes;
            let kept = after.failures.len() - added;
            &&& 0 <= kept <= w.failures.len()
            &&& after.failures.skip(kept) == Seq::new(added as nat, |i: int| now)
            &&& after.failures.take(kept) == w.failures.skip(w.failures.len() - kept)
            &&& forall|i: int|
                0 <= i < w.failures.len() ==> (i >= w.failures.len() - kept <==> now
                    - #[trigger] w.failures[i] <= 300_000_000_000)
            &&& after.quarantined == (w.quarantined || after.failures.len() >= 3)
            &&& after.last_restart == restart
            &&& after.was_running == running
        }),
{
    let restarts = new_restarts(w.last_restart, restart);
    let restarted = w.failures + repeated(now, restarts);
    let crashes = if w.was_running && !running && exit != 0 {
        1int
    } else {
        0int
    };
    let crashed = if w.was_running && !running && exit != 0 {
        restarted.push(now)
    } else {
        restarted
    };
    let added = restarts + crashes;
    let after = looked_at(w, restart, running, exit, now);
    assert(in_order(crashed, now));
    lemma_recent(crashed, now);
    lemma_recent_drops_the_old(crashed, now);
    let r = recent(crashed, now);
    let gone = crashed.len() - r.len();
    assert(after.failures == r);
    if gone > w.failures.len() {
        assert(crashed[w.failures.len() as int] == now);
        assert(now - crashed[w.failures.len() as int] > FAILURE_WINDOW);
    }
    let kept = r.len() - added;
    assert(r.skip(kept) =~= Seq::new(added as nat, |i: int| now));
    assert(r.take(kept) =~= w.failures.skip(w.failures.len() - kept));
    assert forall|i: int| 0 <= i < w.failures.len() implies (i >= w.failures.len() - kept <==> now
        - #[trigger] w.failures[i] <= 300_000_000_000) by {
        assert(crashed[i] == w.failures[i]);
        if i >= gone {
            assert(crashed[gone] == r[0]);
            assert(crashed[gone] <= crashed[i]);
        }
    }
}

proof fn lemma_recent_drops_the_old(failures: Seq<u64>, now: u64)
    requires
        in_order(failures, now),
    ensures
        forall|i: int|
            0 <= i < failures.len() - recent(failures, now).len() ==> now - #[trigger] failures[i]
                > FAILURE_WINDOW,
    decreases failures.len(),
{
    if failures.len() > 0 && elapsed(failures[0], now) > FAILURE_WINDOW {
        let rest = failures.skip(1);
        assert(in_order(rest, now)) by {
            assert forall|i: int, j: int| 0 <= i <= j < rest.len() implies rest[i] <= rest[j] by {
                assert(failures[i + 1] <= failures[j + 1]);
            }
        }
        lemma_recent_drops_the_old(rest, now);
        assert forall|i: int|
            0 <= i < failures.len() - recent(failures, now).len() implies now
            - #[trigger] failures[i] > FAILURE_WINDOW by {
            if i > 0 {
                assert(rest[i - 1] == failures[i]);
            }
        }
    }
}

/// A server that runs is seen to run since it was first seen to, without a break: a look at it while
/// it runs keeps the beginning, and one while it does not forgets it.
pub proof fn law_running_time_is_unbroken(w: Watched, restart: int, exit: int, now: u64)
    ensures
        looked_at(w, restart, false, exit, now).running_since is None,
        looked_at(w, restart, true, exit, now).running_since == Some(
            match w.running_since {
                Some(since) => since,
                None => now,
            },
        ),
        first_seen(restart, true, now).running_since == Some(now),
        first_seen(restart, false, now).running_since is None,
        first_seen(restart, true, now).failures.len() == 0,
        !first_seen(restart, true, now).quarantined,
{
}

/// A server that is seen for the first time has not failed, however often it was restarted before;
/// one that is known goes on from what is kept of it.
pub proof fn law_new_servers_have_not_failed(
    all: Map<Seq<char>, Observation>,
    id: Seq<char>,
    restart: int,
    running: bool,
    exit: int,
    now: u64,
)
    ensures
        all.contains_key(id) ==> known(all, id, restart, running, now) == all[id]@,
        !all.contains_key(id) ==> {
            let after = looked_at(known(all, id, restart, running, now), restart, running, exit, now);
            after.failures.len() == 0 && !after.quarantined
        },
{
    if !all.contains_key(id) {
        let w = first_seen(restart, running, now);
        assert(w.failures + repeated(now, 0) =~= w.failures);
    }
}

/// The servers that were listed are the lines that are not blank, all of them and in their order.
pub proof fn law_every_listed_server_is_looked_at(lines: Seq<Seq<char>>)
    ensures
        filled_lines(lines) == lines.filter(|line: Seq<char>| !text::is_blank(line)),
        forall|i: int|
            0 <= i < lines.len() && !text::is_blank(#[trigger] lines[i]) ==> filled_lines(
                lines,
            ).contains(lines[i]),
    decreases lines.len(),
{
    reveal(Seq::filter);
    let keep = |line: Seq<char>| !text::is_blank(line);
    if lines.len() > 0 {
        let front = lines.drop_last();
        law_every_listed_server_is_looked_at(front);
        assert forall|i: int|
            0 <= i < lines.len() && !text::is_blank(#[trigger] lines[i]) implies filled_lines(
            lines,
        ).contains(lines[i]) by {
            let out = filled_lines(lines);
            if i < front.len() {
                assert(front[i] == lines[i]);
                let k = choose|k: int|
                    0 <= k < filled_lines(front).len() && filled_lines(front)[k] == lines[i];
                assert(out[k] == lines[i]);
            } else {
                assert(out.last() == lines[i]);
                assert(out[out.len() - 1] == lines[i]);
            }
        }
    }
}

/// A disk that was measured is due again once the time between two measurements has passed, and not
/// before; the next time never lies in the past.
pub proof fn law_next_measurement_is_later(now: u64, every: u64)
    ensures
        now + every <= u64::MAX ==> later(now, every) == now + every,
        later(now, every) >= now,
        later(now, every) >= every,
{
}

} // verus!
