//! What is reported of a container that was looked at.

use crate::docker::disk::{saturated, saturating_i64, DEFAULT_DISK_LIMIT};
use crate::json::{
    bool_of, field_of, inner_of, items_view, label_of, lemma_json_view, text_of, Json, JsonView,
};
use crate::paths::HOME_CONTAINER_PATH;
use crate::process::{lossy, lossy_text};
use crate::protection::{elapsed, SECOND};
use crate::table::{NameSet, Table};
use crate::text;
use crate::time::{
    clamp_timestamp, clamped, elapsed_seconds, parse_stamp, seconds_between, stamp_of, Stamp,
};
use vstd::prelude::*;

verus! {

/// Where a server's files are.
pub struct ServerRoot {
    /// The directory on the host.
    pub path: String,
    /// The directory inside the container.
    pub data: String,
    pub running: bool,
    /// The directory on the host is that of the container's data directory.
    pub exact: bool,
}

/// The first mount of the list, from `from` on, whose destination is as wanted: by name, or one
/// of the two usual ones.
pub open spec fn mount_from(mounts: Seq<JsonView>, wanted: Option<Seq<char>>, from: int) -> Option<
    JsonView,
>
    decreases mounts.len() - from,
{
    if from < 0 || from >= mounts.len() {
        None
    } else {
        let destination = text_of(field_of(mounts[from], "Destination"@));
        let hit = match wanted {
            Some(w) => destination == Some(w),
            None => destination == Some("/data"@) || destination == Some("/home/container"@),
        };
        if hit {
            Some(mounts[from])
        } else {
            mount_from(mounts, wanted, from + 1)
        }
    }
}

/// The host directory of such a mount.
pub open spec fn mount_source(inspect: JsonView, wanted: Option<Seq<char>>) -> Option<Seq<char>> {
    match field_of(inspect, "Mounts"@) {
        Some(JsonView::Array(mounts)) => match mount_from(mounts, wanted, 0) {
            Some(mount) => text_of(field_of(mount, "Source"@)),
            None => None,
        },
        _ => None,
    }
}

fn find_mount_source(inspect: &Json, wanted: Option<&str>) -> (r: Option<String>)
    ensures
        text::opt_view(r) == mount_source(inspect@, crate::protection::str_view(wanted)),
{
    broadcast use lemma_json_view;
    let mounts = match inspect.field("Mounts") {
        Some(Json::Array(mounts)) => mounts,
        _ => {
            return None;
        },
    };
    let ghost all = items_view(mounts@);
    let ghost w = crate::protection::str_view(wanted);
    let mut i: usize = 0;
    while i < mounts.len()
        invariant
            all == items_view(mounts@),
            w == crate::protection::str_view(wanted),
            field_of(inspect@, "Mounts"@) == Some(JsonView::Array(all)),
            0 <= i <= mounts@.len(),
            mount_from(all, w, 0) == mount_from(all, w, i as int),
        decreases mounts.len() - i,
    {
        assert(all[i as int] == mounts@[i as int]@);
        let destination = mounts[i].field_text("Destination");
        let hit = match destination {
            Some(d) => match wanted {
                Some(w) => text::same(d.as_str(), w),
                None => text::same(d.as_str(), "/data") || text::same(
                    d.as_str(),
                    "/home/container",
                ),
            },
            None => false,
        };
        if hit {
            return mounts[i].field_text("Source");
        }
        i += 1;
    }
    None
}

/// The data directory that a container is labelled with.
pub open spec fn labelled_data(inspect: JsonView) -> Seq<char> {
    match label_of(inspect, "agapornis.data_path"@) {
        Some(s) => s,
        None => HOME_CONTAINER_PATH@,
    }
}

/// Where a server's files are: at the mount of its data directory, else at one of the usual
/// mounts, else in its own directory. Without a container it is its own directory.
pub fn root(inspect: Option<&Json>, fallback: &str) -> (r: ServerRoot)
    ensures
        match inspect {
            None => r.path@ == fallback@ && r.data@ == HOME_CONTAINER_PATH@ && !r.running
                && r.exact,
            Some(i) => {
                let data = labelled_data(i@);
                let exact = mount_source(i@, Some(data));
                let known = mount_source(i@, None);
                &&& r.path@ == match exact {
                    Some(s) => s,
                    None => match known {
                        Some(s) => s,
                        None => fallback@,
                    },
                }
                &&& r.data@ == data
                &&& r.running == (bool_of(inner_of(i@, "State"@, "Running"@)) == Some(true))
                &&& r.exact == (exact is Some)
            },
        },
{
    let inspect = match inspect {
        Some(i) => i,
        None => {
            return ServerRoot {
                path: fallback.to_owned(),
                data: HOME_CONTAINER_PATH.to_owned(),
                running: false,
                exact: true,
            };
        },
    };
    let data = match inspect.label("agapornis.data_path") {
        Some(s) => s,
        None => HOME_CONTAINER_PATH.to_owned(),
    };
    let running = match inspect.inner_bool("State", "Running") {
        Some(b) => b,
        None => false,
    };
    let exact = find_mount_source(inspect, Some(data.as_str()));
    let known = find_mount_source(inspect, None);
    let found = exact.is_some();
    let path = match exact {
        Some(s) => s,
        None => match known {
            Some(s) => s,
            None => fallback.to_owned(),
        },
    };
    ServerRoot { path, data, running, exact: found }
}

/// What is reported of a server, but for its share of the processors.
pub struct Metrics {
    pub memory_usage: i64,
    pub memory_limit: i64,
    pub network_read: i64,
    pub network_write: i64,
    pub disk_usage: i64,
    pub disk_limit: i64,
    pub status: String,
    pub uptime_seconds: i64,
}

/// What is reported of a server without a container.
pub fn deleted_metrics() -> (r: Metrics)
    ensures
        r.memory_usage == 0,
        r.memory_limit == 0,
        r.network_read == 0,
        r.network_write == 0,
        r.disk_usage == 0,
        r.disk_limit == DEFAULT_DISK_LIMIT,
        r.status@ == "deleted"@,
        r.uptime_seconds == 0,
{
    Metrics {
        memory_usage: 0,
        memory_limit: 0,
        network_read: 0,
        network_write: 0,
        disk_usage: 0,
        disk_limit: DEFAULT_DISK_LIMIT,
        status: "deleted".to_owned(),
        uptime_seconds: 0,
    }
}

/// The moment at which an inspected container was started.
pub open spec fn started_at(inspect: JsonView) -> Option<Stamp> {
    match text_of(inner_of(inspect, "State"@, "StartedAt"@)) {
        Some(s) => stamp_of(s),
        None => None,
    }
}

fn read_started_at(inspect: &Json) -> (r: Option<Stamp>)
    ensures
        r == started_at(inspect@),
{
    match inspect.inner_text("State", "StartedAt") {
        Some(s) => parse_stamp(s.as_str()),
        None => None,
    }
}

/// How long an inspected container has run, in seconds.
pub fn container_uptime_seconds(inspect: &Json, now: &Stamp) -> (r: i64)
    ensures
        r == match started_at(inspect@) {
            Some(started) => if seconds_between(started, *now) > i64::MAX {
                i64::MAX as int
            } else {
                seconds_between(started, *now)
            },
            None => 0,
        },
{
    match read_started_at(inspect) {
        Some(started) => elapsed_seconds(&started, now),
        None => 0,
    }
}

/// The status of a server before its startup is looked at: what protects it says first, then
/// whether its container runs, then what Docker calls its state.
pub open spec fn basic_status(inspect: JsonView, protection: Option<Seq<char>>) -> Seq<char> {
    match protection {
        Some(s) => s,
        None => if bool_of(inner_of(inspect, "State"@, "Running"@)) == Some(true) {
            "running"@
        } else {
            match text_of(inner_of(inspect, "State"@, "Status"@)) {
                Some(s) => s,
                None => "unknown"@,
            }
        },
    }
}

/// The status of a server; one that runs but has not finished starting is starting.
pub fn server_status(inspect: &Json, protection: Option<String>, started: bool) -> (r: String)
    ensures
        ({
            let status = basic_status(inspect@, text::opt_view(protection));
            r@ == if status == "running"@ && !started {
                "starting"@
            } else {
                status
            }
        }),
{
    let status = match protection {
        Some(s) => s,
        None => {
            let running = match inspect.inner_bool("State", "Running") {
                Some(b) => b,
                None => false,
            };
            if running {
                "running".to_owned()
            } else {
                match inspect.inner_text("State", "Status") {
                    Some(s) => s,
                    None => "unknown".to_owned(),
                }
            }
        },
    };
    if text::same(status.as_str(), "running") && !started {
        "starting".to_owned()
    } else {
        status
    }
}

/// What is reported of a server whose container does not run; nothing for one that runs, whatever
/// its status says.
pub fn inactive_metrics(
    container_running: bool,
    status: String,
    disk_usage: i64,
    disk_limit: i64,
    uptime_seconds: i64,
) -> (r: Option<Metrics>)
    ensures
        r is None <==> container_running,
        r is Some ==> {
            let m = r->0;
            &&& m.status@ == status@
            &&& m.disk_usage == disk_usage
            &&& m.disk_limit == disk_limit
            &&& m.uptime_seconds == uptime_seconds
            &&& m.memory_usage == 0
            &&& m.memory_limit == 0
            &&& m.network_read == 0
            &&& m.network_write == 0
        },
{
    if container_running {
        None
    } else {
        Some(
            Metrics {
                memory_usage: 0,
                memory_limit: 0,
                network_read: 0,
                network_write: 0,
                disk_usage,
                disk_limit,
                status,
                uptime_seconds,
            },
        )
    }
}

/// A sample of what a container uses, as Docker gives it.
pub struct StatsSample {
    pub has_memory: bool,
    pub memory_usage: Option<u64>,
    pub memory_limit: Option<u64>,
    pub total_inactive_file: Option<u64>,
    pub inactive_file: Option<u64>,
    /// The bytes read and written on each network.
    pub networks: Vec<(Option<u64>, Option<u64>)>,
    pub cpu_total: Option<u64>,
    pub previous_cpu_total: Option<u64>,
    pub system_cpu: Option<u64>,
    pub previous_system_cpu: Option<u64>,
    pub has_cpu: bool,
    pub has_previous_cpu: bool,
    pub online_cpus: Option<u32>,
    pub listed_cpus: Option<u64>,
}

/// What a container uses. The share of the processors is `cpu_delta` of `system_delta`, on
/// `online_cpus` of them.
#[derive(Clone, Copy, Debug, PartialEq, Eq, Structural)]
pub struct ResourceMetrics {
    pub memory_usage: i64,
    pub memory_limit: i64,
    pub network_read: i64,
    pub network_write: i64,
    pub cpu_delta: u64,
    pub system_delta: u64,
    pub online_cpus: u64,
}

/// A number, or 0.
pub open spec fn or_zero(n: Option<u64>) -> u64 {
    match n {
        Some(n) => n,
        None => 0,
    }
}

fn zero_if_none(n: Option<u64>) -> (r: u64)
    ensures
        r == or_zero(n),
{
    match n {
        Some(n) => n,
        None => 0,
    }
}

/// A difference, or 0 where it is negative.
pub open spec fn less(a: u64, b: u64) -> u64 {
    if a >= b {
        (a - b) as u64
    } else {
        0
    }
}

/// A sum, as far as it fits.
pub open spec fn capped_sum(a: u64, b: u64) -> u64 {
    if a + b > u64::MAX {
        u64::MAX
    } else {
        (a + b) as u64
    }
}

/// The bytes read on all networks, as far as they fit.
pub open spec fn read_total(networks: Seq<(Option<u64>, Option<u64>)>) -> u64
    decreases networks.len(),
{
    if networks.len() == 0 {
        0
    } else {
        capped_sum(read_total(networks.drop_last()), or_zero(networks.last().0))
    }
}

/// The bytes written on all networks, as far as they fit.
pub open spec fn write_total(networks: Seq<(Option<u64>, Option<u64>)>) -> u64
    decreases networks.len(),
{
    if networks.len() == 0 {
        0
    } else {
        capped_sum(write_total(networks.drop_last()), or_zero(networks.last().1))
    }
}

/// The part of the used memory that is file cache.
pub open spec fn cache_of(s: StatsSample) -> u64 {
    match s.total_inactive_file {
        Some(n) => n,
        None => or_zero(s.inactive_file),
    }
}

/// The number of processors that a container sees.
pub open spec fn processors(s: StatsSample) -> u64 {
    let n = match s.online_cpus {
        Some(n) => n as u64,
        None => or_zero(s.listed_cpus),
    };
    if n > 0 {
        n
    } else {
        1
    }
}

/// What a container uses: memory without file cache, and all its networks.
pub open spec fn resources_of(s: StatsSample) -> ResourceMetrics {
    let both = s.has_cpu && s.has_previous_cpu;
    ResourceMetrics {
        memory_usage: if s.has_memory {
            saturated(less(or_zero(s.memory_usage), cache_of(s)))
        } else {
            0
        },
        memory_limit: if s.has_memory {
            saturated(or_zero(s.memory_limit))
        } else {
            0
        },
        network_read: saturated(read_total(s.networks@)),
        network_write: saturated(write_total(s.networks@)),
        cpu_delta: if both {
            less(or_zero(s.cpu_total), or_zero(s.previous_cpu_total))
        } else {
            0
        },
        system_delta: if both {
            less(or_zero(s.system_cpu), or_zero(s.previous_system_cpu))
        } else {
            0
        },
        online_cpus: processors(s),
    }
}

/// What a container uses.
pub fn resource_metrics(stat: &StatsSample) -> (r: ResourceMetrics)
    ensures
        r == resources_of(*stat),
{
    let cache = match stat.total_inactive_file {
        Some(n) => n,
        None => zero_if_none(stat.inactive_file),
    };
    let mut read: u64 = 0;
    let mut write: u64 = 0;
    let mut i: usize = 0;
    assert(stat.networks@.take(0) =~= Seq::<(Option<u64>, Option<u64>)>::empty());
    while i < stat.networks.len()
        invariant
            0 <= i <= stat.networks@.len(),
            read == read_total(stat.networks@.take(i as int)),
            write == write_total(stat.networks@.take(i as int)),
        decreases stat.networks.len() - i,
    {
        proof {
            let next = stat.networks@.take(i as int + 1);
            assert(next.drop_last() =~= stat.networks@.take(i as int));
            assert(next.last() == stat.networks@[i as int]);
        }
        let (rx, tx) = stat.networks[i];
        read = read.saturating_add(zero_if_none(rx));
        write = write.saturating_add(zero_if_none(tx));
        i += 1;
    }
    assert(stat.networks@.take(stat.networks@.len() as int) =~= stat.networks@);
    let both = stat.has_cpu && stat.has_previous_cpu;
    let listed = match stat.online_cpus {
        Some(n) => n as u64,
        None => zero_if_none(stat.listed_cpus),
    };
    ResourceMetrics {
        memory_usage: if stat.has_memory {
            saturating_i64(zero_if_none(stat.memory_usage).saturating_sub(cache))
        } else {
            0
        },
        memory_limit: if stat.has_memory {
            saturating_i64(zero_if_none(stat.memory_limit))
        } else {
            0
        },
        network_read: saturating_i64(read),
        network_write: saturating_i64(write),
        cpu_delta: if both {
            zero_if_none(stat.cpu_total).saturating_sub(zero_if_none(stat.previous_cpu_total))
        } else {
            0
        },
        system_delta: if both {
            zero_if_none(stat.system_cpu).saturating_sub(zero_if_none(stat.previous_system_cpu))
        } else {
            0
        },
        online_cpus: if listed > 0 {
            listed
        } else {
            1
        },
    }
}

// ---------------------------------------------------------------------------------------------
// Whether a server has finished starting.

/// What is known of servers that are starting: which have finished, and when and from which second
/// on the log of the others was read last.
pub struct StartupState {
    pub ready: NameSet,
    pub checks: Table<(u64, i32)>,
}

/// What is done to find out whether a server has finished starting.
#[derive(Clone, Copy, PartialEq, Eq, Structural)]
pub enum StartupCheck {
    Ready,
    NotYet,
    /// Read the log from this second on.
    ReadLog(i32),
}

/// The text in a server's log that says that it has finished starting.
pub open spec fn marker_of(inspect: JsonView) -> Seq<char> {
    match label_of(inspect, "agapornis.startup_done"@) {
        Some(s) => s,
        None => Seq::empty(),
    }
}

/// The text in a server's log that says that it has finished starting.
pub fn startup_marker(inspect: &Json) -> (r: String)
    ensures
        r@ == marker_of(inspect@),
{
    match inspect.label("agapornis.startup_done") {
        Some(s) => s,
        None => {
            let none = String::new();
            assert(none@ =~= Seq::<char>::empty());
            none
        },
    }
}

/// The second from which a server's log is read the first time.
pub open spec fn first_second(inspect: JsonView, unix_now: i32) -> i32 {
    match started_at(inspect) {
        Some(stamp) => clamped(stamp.seconds),
        None => if unix_now < i32::MIN + 5 {
            i32::MIN
        } else {
            (unix_now - 5) as i32
        },
    }
}

impl StartupState {
    /// Nothing is known.
    pub fn new() -> (r: StartupState)
        ensures
            r.ready@ == Set::<Seq<char>>::empty(),
            r.checks@ == Map::<Seq<char>, (u64, i32)>::empty(),
    {
        StartupState { ready: NameSet::new(), checks: Table::new() }
    }

    /// What is done to find out whether a server has finished starting.
    pub open spec fn check_of(&self, id: Seq<char>, inspect: JsonView, now: u64, unix_now: i32) -> StartupCheck {
        if marker_of(inspect).len() == 0 || self.ready@.contains(id) {
            StartupCheck::Ready
        } else if self.checks@.contains_key(id) {
            if elapsed(self.checks@[id].0, now) < 5 * SECOND {
                StartupCheck::NotYet
            } else {
                StartupCheck::ReadLog(self.checks@[id].1)
            }
        } else {
            StartupCheck::ReadLog(first_second(inspect, unix_now))
        }
    }

    /// What is done to find out whether a server has finished starting: its log is read from its
    /// start on, and then every five seconds from the last time on. A server without a marker
    /// has finished at once.
    pub fn begin_check(&mut self, id: &str, inspect: &Json, now: u64, unix_now: i32) -> (r:
        StartupCheck)
        ensures
            r == old(self).check_of(id@, inspect@, now, unix_now),
            final(self).ready@ == old(self).ready@,
            final(self).checks@ == if r is ReadLog {
                old(self).checks@.insert(id@, (now, unix_now))
            } else {
                old(self).checks@
            },
    {
        let marker = startup_marker(inspect);
        if text::is_empty(marker.as_str()) || self.ready.contains(id) {
            return StartupCheck::Ready;
        }
        let last = match self.checks.get(id) {
            Some(check) => Some(*check),
            None => None,
        };
        let since = match last {
            Some((when, since)) => {
                if now.saturating_sub(when) < 5 * SECOND {
                    return StartupCheck::NotYet;
                }
                since
            },
            None => match read_started_at(inspect) {
                Some(stamp) => clamp_timestamp(stamp.seconds),
                None => if unix_now < i32::MIN + 5 {
                    i32::MIN
                } else {
                    unix_now - 5
                },
            },
        };
        self.checks.insert(id.to_owned(), (now, unix_now));
        StartupCheck::ReadLog(since)
    }

    /// Notes that the marker was found.
    pub fn mark_ready(&mut self, id: &str)
        ensures
            final(self).ready@ == old(self).ready@.insert(id@),
            final(self).checks@ == old(self).checks@.remove(id@),
    {
        self.ready.insert(id.to_owned());
        let _ = self.checks.remove(id);
    }

    /// Forgets what is known of a server.
    pub fn forget(&mut self, id: &str)
        ensures
            final(self).ready@ == old(self).ready@.remove(id@),
            final(self).checks@ == old(self).checks@.remove(id@),
    {
        self.ready.remove(id);
        let _ = self.checks.remove(id);
    }
}

/// Whether a piece of a server's log holds the marker.
pub fn log_has_marker(bytes: &[u8], marker: &str) -> (r: bool)
    ensures
        r == text::contains(lossy(bytes@), marker@),
{
    text::has(lossy_text(bytes).as_str(), marker)
}

// ---------------------------------------------------------------------------------------------
// Laws.

/// A mount goes to the given directory, or to one of the usual two where none is given.
pub open spec fn goes_to(mount: JsonView, wanted: Option<Seq<char>>) -> bool {
    let destination = text_of(field_of(mount, "Destination"@));
    match wanted {
        Some(w) => destination == Some(w),
        None => destination == Some("/data"@) || destination == Some("/home/container"@),
    }
}

/// The mount that is found is the first one that goes where it should; none is found where none does.
pub proof fn law_the_first_mount_is_found(
    mounts: Seq<JsonView>,
    wanted: Option<Seq<char>>,
    from: int,
)
    requires
        0 <= from <= mounts.len(),
    ensures
        match mount_from(mounts, wanted, from) {
            Some(mount) => goes_to(mount, wanted) && exists|i: int|
                from <= i < mounts.len() && #[trigger] mounts[i] == mount && forall|k: int|
                    from <= k < i ==> !goes_to(#[trigger] mounts[k], wanted),
            None => forall|k: int|
                from <= k < mounts.len() ==> !goes_to(#[trigger] mounts[k], wanted),
        },
    decreases mounts.len() - from,
{
    if from < mounts.len() {
        if goes_to(mounts[from], wanted) {
            assert(mount_from(mounts, wanted, from) == Some(mounts[from]));
        } else {
            law_the_first_mount_is_found(mounts, wanted, from + 1);
            assert(mount_from(mounts, wanted, from) == mount_from(mounts, wanted, from + 1));
            match mount_from(mounts, wanted, from) {
                Some(mount) => {
                    let i = choose|i: int|
                        from + 1 <= i < mounts.len() && #[trigger] mounts[i] == mount && forall|
                            k: int,
                        |
                            from + 1 <= k < i ==> !goes_to(#[trigger] mounts[k], wanted);
                    assert forall|k: int| from <= k < i implies !goes_to(
                        #[trigger] mounts[k],
                        wanted,
                    ) by {}
                },
                None => {},
            }
        }
    }
}

/// A server that is protected shows that; else it runs where its container does; else it shows what
/// Docker calls its state.
pub proof fn law_statuses_are_told_in_order(inspect: JsonView, s: Seq<char>)
    ensures
        basic_status(inspect, Some(s)) == s,
        bool_of(inner_of(inspect, "State"@, "Running"@)) == Some(true) ==> basic_status(
            inspect,
            None,
        ) == "running"@,
        bool_of(inner_of(inspect, "State"@, "Running"@)) != Some(true) ==> basic_status(
            inspect,
            None,
        ) == (if text_of(inner_of(inspect, "State"@, "Status"@)) is Some {
            text_of(inner_of(inspect, "State"@, "Status"@))->0
        } else {
            "unknown"@
        }),
{
}

/// The bytes on several networks are those on all of them together: one more network adds its own,
/// as far as the sum fits.
pub proof fn law_networks_add_up(
    networks: Seq<(Option<u64>, Option<u64>)>,
    read: u64,
    written: u64,
)
    ensures
        read_total(Seq::empty()) == 0,
        write_total(Seq::empty()) == 0,
        read_total(networks) + read <= u64::MAX ==> read_total(
            networks.push((Some(read), Some(written))),
        ) == read_total(networks) + read,
        read_total(networks) + read > u64::MAX ==> read_total(
            networks.push((Some(read), Some(written))),
        ) == u64::MAX,
        write_total(networks) + written <= u64::MAX ==> write_total(
            networks.push((Some(read), Some(written))),
        ) == write_total(networks) + written,
        write_total(networks) + written > u64::MAX ==> write_total(
            networks.push((Some(read), Some(written))),
        ) == u64::MAX,
        read_total(networks.push((None, None))) == read_total(networks),
        write_total(networks.push((None, None))) == write_total(networks),
{
    assert(networks.push((Some(read), Some(written))).drop_last() =~= networks);
    assert(networks.push((None, None)).drop_last() =~= networks);
}

/// The memory that a container uses is what Docker reports less the cache of files, and never
/// negative; what the cache of all its groups is counts before its own.
pub proof fn law_cached_files_are_no_used_memory(s: StatsSample)
    requires
        s.has_memory,
        s.memory_usage is Some,
        s.memory_usage->0 <= i64::MAX,
    ensures
        ({
            let cache: int = if s.total_inactive_file is Some {
                s.total_inactive_file->0 as int
            } else if s.inactive_file is Some {
                s.inactive_file->0 as int
            } else {
                0
            };
            resources_of(s).memory_usage == if cache <= s.memory_usage->0 {
                s.memory_usage->0 - cache
            } else {
                0
            }
        }),
        s.memory_limit is Some && s.memory_limit->0 <= i64::MAX ==> resources_of(s).memory_limit
            == s.memory_limit->0,
{
}

/// The work of a processor is what was added since the measurement before, of the container as of
/// the whole system; there is none where one of the two measurements is missing.
pub proof fn law_work_is_counted_since_the_last_measurement(s: StatsSample)
    ensures
        !s.has_cpu || !s.has_previous_cpu ==> resources_of(s).cpu_delta == 0 && resources_of(
            s,
        ).system_delta == 0,
        s.has_cpu && s.has_previous_cpu && s.cpu_total is Some && s.previous_cpu_total is Some
            && s.previous_cpu_total->0 <= s.cpu_total->0 ==> resources_of(s).cpu_delta
            == s.cpu_total->0 - s.previous_cpu_total->0,
        s.has_cpu && s.has_previous_cpu && s.system_cpu is Some && s.previous_system_cpu is Some
            && s.previous_system_cpu->0 <= s.system_cpu->0 ==> resources_of(s).system_delta
            == s.system_cpu->0 - s.previous_system_cpu->0,
        resources_of(s).online_cpus >= 1,
        s.online_cpus is Some && s.online_cpus->0 > 0 ==> resources_of(s).online_cpus
            == s.online_cpus->0,
        s.online_cpus is None && s.listed_cpus is Some && s.listed_cpus->0 > 0 ==> resources_of(
            s,
        ).online_cpus == s.listed_cpus->0,
        read_total(s.networks@) <= i64::MAX ==> resources_of(s).network_read == read_total(
            s.networks@,
        ),
        write_total(s.networks@) <= i64::MAX ==> resources_of(s).network_write == write_total(
            s.networks@,
        ),
{
}

/// A server without a marker, or one that was seen to have started, has started. Of another one the
/// log is read, from its start on or from where it was read last, at most every five seconds.
pub proof fn law_starting_servers_are_watched(
    watch: StartupState,
    id: Seq<char>,
    inspect: JsonView,
    now: u64,
    unix_now: i32,
)
    ensures
        watch.ready@.contains(id) ==> watch.check_of(id, inspect, now, unix_now)
            == StartupCheck::Ready,
        label_of(inspect, "agapornis.startup_done"@) is None ==> watch.check_of(
            id,
            inspect,
            now,
            unix_now,
        ) == StartupCheck::Ready,
        label_of(inspect, "agapornis.startup_done"@) is Some && label_of(
            inspect,
            "agapornis.startup_done"@,
        )->0.len() > 0 && !watch.ready@.contains(id) ==> ({
            let check = watch.check_of(id, inspect, now, unix_now);
            &&& !watch.checks@.contains_key(id) ==> check is ReadLog
            &&& watch.checks@.contains_key(id) && watch.checks@[id].0 <= now && now
                - watch.checks@[id].0 < 5_000_000_000 ==> check == StartupCheck::NotYet
            &&& watch.checks@.contains_key(id) && watch.checks@[id].0 <= now && now
                - watch.checks@[id].0 >= 5_000_000_000 ==> check == StartupCheck::ReadLog(
                watch.checks@[id].1,
            )
        }),
{
}

/// A log is first read from the second in which its container was started; where that is not known,
/// from five seconds before now.
pub proof fn law_logs_are_read_from_the_start(inspect: JsonView, unix_now: i32)
    ensures
        started_at(inspect) is Some && i32::MIN <= started_at(inspect)->0.seconds <= i32::MAX
            ==> first_second(inspect, unix_now) == started_at(inspect)->0.seconds,
        started_at(inspect) is None && unix_now >= 0 ==> first_second(inspect, unix_now) == unix_now
            - 5,
        text_of(inner_of(inspect, "State"@, "StartedAt"@)) is Some ==> started_at(inspect)
            == stamp_of(text_of(inner_of(inspect, "State"@, "StartedAt"@))->0),
        text_of(inner_of(inspect, "State"@, "StartedAt"@)) is None ==> started_at(inspect) is None,
{
}

} // verus!
