//! Starting, stopping, replacing and resizing containers.

use crate::docker::container::positive;
use crate::docker::runtime::{
    cpu_share, disk_share, effective_cpus, effective_disk_limit, inspected_environment,
    inspected_tmpfs, pinned_cpu_set, pinned_ranges, runtime_configuration_ready, runtime_dir,
    without_space, MANAGED_XDG_RUNTIME_DIR, MANAGED_XDG_RUNTIME_TMPFS_OPTIONS,
};
use crate::error::Failure;
use crate::json::{bool_of, field_of, inner_of, label_of, signed_of, text_of, Json, JsonView};
use crate::paths::{valid_id, validate_id};
use crate::protection::ProtectionState;
use crate::text;
use vstd::prelude::*;

verus! {

/// A message of Docker Desktop about a bind mount whose source has gone.
pub open spec fn is_stale_bind(message: Seq<char>) -> bool {
    let m = text::lowered(message);
    &&& text::contains(m, "docker-desktop-bind-mounts"@)
    &&& text::contains(m, "no such file or directory"@)
    &&& (text::contains(m, "error mounting"@) || text::contains(m, "mount src="@))
}

/// Whether a message is that of Docker Desktop about a bind mount whose source has gone.
pub fn stale_docker_desktop_bind_message(message: &str) -> (r: bool)
    ensures
        r == is_stale_bind(message@),
{
    let lower = text::to_lower(message);
    let m = lower.as_str();
    text::has(m, "docker-desktop-bind-mounts") && text::has(m, "no such file or directory") && (
    text::has(m, "error mounting") || text::has(m, "mount src="))
}

/// Whether a failure is that of Docker Desktop about a bind mount whose source has gone.
pub fn stale_docker_desktop_bind_error(error: &Failure) -> (r: bool)
    ensures
        r == is_stale_bind(error.message@),
{
    stale_docker_desktop_bind_message(error.message.as_str())
}

/// A container runs.
pub open spec fn runs(inspect: JsonView) -> bool {
    bool_of(inner_of(inspect, "State"@, "Running"@)) == Some(true)
}

fn container_runs(inspect: &Json) -> (r: bool)
    ensures
        r == runs(inspect@),
{
    match inspect.inner_bool("State", "Running") {
        Some(b) => b,
        None => false,
    }
}

/// A container has the runtime directory that it needs.
pub open spec fn has_runtime_dir(inspect: JsonView) -> bool {
    match runtime_dir(inspected_environment(inspect)) {
        Some(value) => if value == MANAGED_XDG_RUNTIME_DIR@ {
            inspected_tmpfs(inspect) == Some(MANAGED_XDG_RUNTIME_TMPFS_OPTIONS@)
        } else {
            !text::is_blank(value)
        },
        None => false,
    }
}

/// Whether a container is replaced before it is started: its bind mounts have gone, or it does
/// not run and lacks its runtime directory.
pub fn needs_repair(inspect: Option<&Json>) -> (r: bool)
    ensures
        r == match inspect {
            Some(i) => {
                let error = text_of(inner_of(i@, "State"@, "Error"@));
                (error is Some && is_stale_bind(error->0)) || (!runs(i@) && !has_runtime_dir(i@))
            },
            None => false,
        },
{
    match inspect {
        Some(i) => {
            let bind = match i.inner_text("State", "Error") {
                Some(message) => stale_docker_desktop_bind_message(message.as_str()),
                None => false,
            };
            bind || (!container_runs(i) && !runtime_configuration_ready(i))
        },
        None => false,
    }
}

/// What follows a try to start a container.
#[derive(Clone, Copy, PartialEq, Eq, Structural)]
pub enum StartStep {
    Done,
    /// Replace the container, and start it once more.
    Repair,
    Fail,
}

/// What follows a try to start a container: one whose bind mounts have gone is replaced and
/// started once more.
pub fn after_start(failure: Option<&Failure>, repaired: bool) -> (r: StartStep)
    ensures
        r == match failure {
            None => StartStep::Done,
            Some(e) => if is_stale_bind(e.message@) && !repaired {
                StartStep::Repair
            } else {
                StartStep::Fail
            },
        },
{
    match failure {
        None => StartStep::Done,
        Some(e) => if stale_docker_desktop_bind_error(e) && !repaired {
            StartStep::Repair
        } else {
            StartStep::Fail
        },
    }
}

/// How a container is stopped.
pub enum StopPlan {
    /// It does not run.
    AlreadyStopped,
    /// It is interrupted, and stopped by force if that does not end it.
    Interrupt,
    /// It is given this command, and stopped by force if that does not end it.
    Command(String),
    /// It is stopped by force.
    Force,
}

/// The command that stops a server, without white space around it.
pub open spec fn stop_command(inspect: JsonView) -> Seq<char> {
    match label_of(inspect, "agapornis.stop_command"@) {
        Some(s) => text::trimmed(s),
        None => text::trimmed(Seq::empty()),
    }
}

/// How a container is stopped.
pub fn stop_plan(inspect: &Json) -> (r: StopPlan)
    ensures
        ({
            let command = stop_command(inspect@);
            if !runs(inspect@) {
                r is AlreadyStopped
            } else if command.len() == 0 {
                r is Force
            } else if command == "^C"@ {
                r is Interrupt
            } else {
                r is Command && r->Command_0@ == command
            }
        }),
{
    if !container_runs(inspect) {
        return StopPlan::AlreadyStopped;
    }
    let command = match inspect.label("agapornis.stop_command") {
        Some(s) => text::trim(s.as_str()),
        None => {
            let none = String::new();
            assert(none@ =~= Seq::<char>::empty());
            text::trim(none.as_str())
        },
    };
    if text::is_empty(command.as_str()) {
        StopPlan::Force
    } else if text::same(command.as_str(), "^C") {
        StopPlan::Interrupt
    } else {
        StopPlan::Command(command)
    }
}

/// How long a container may take to stop by itself, in nanoseconds, and the pause between two
/// looks at it, in milliseconds.
pub const STOP_WAIT: u64 = 10_000_000_000;

pub const STOP_POLL_MILLIS: u64 = 100;

/// Whether the wait for a container is over, and then whether it has stopped.
pub fn stop_wait(running: bool, now: u64, deadline: u64) -> (r: Option<bool>)
    ensures
        r == if !running {
            Some(true)
        } else if now >= deadline {
            Some(false)
        } else {
            None
        },
{
    if !running {
        Some(true)
    } else if now >= deadline {
        Some(false)
    } else {
        None
    }
}

/// Whether Docker's answer to a stop counts as success; 304 says that it had stopped.
pub fn stop_succeeded(stopped: bool, status: Option<u16>) -> (r: bool)
    ensures
        r == (stopped || status == Some(304u16)),
{
    stopped || match status {
        Some(code) => code == 304,
        None => false,
    }
}

/// Whether Docker's answer to a removal counts as success; 404 says that it had gone.
pub fn removal_succeeded(removed: bool, status: Option<u16>) -> (r: bool)
    ensures
        r == (removed || status == Some(404u16)),
{
    removed || match status {
        Some(code) => code == 404,
        None => false,
    }
}

/// A container that is to be replaced by one of the newest image.
pub struct RecreationStart {
    pub image: String,
    pub was_running: bool,
    pub previous_image_id: String,
}

/// The image of a container, if it names one.
pub open spec fn image_of(inspect: JsonView) -> Option<Seq<char>> {
    match text_of(inner_of(inspect, "Config"@, "Image"@)) {
        Some(s) => if text::is_blank(s) {
            None
        } else {
            Some(s)
        },
        None => None,
    }
}

/// The identity of a container's image; empty where it is not given.
pub open spec fn image_id(inspect: JsonView) -> Seq<char> {
    match text_of(field_of(inspect, "Image"@)) {
        Some(s) => s,
        None => Seq::empty(),
    }
}

/// The identity of a container's image.
pub fn read_image_id(inspect: &Json) -> (r: String)
    ensures
        r@ == image_id(inspect@),
{
    match inspect.field_text("Image") {
        Some(s) => s,
        None => {
            let none = String::new();
            assert(none@ =~= Seq::<char>::empty());
            none
        },
    }
}

/// What is to be known of a container before it is replaced.
pub fn begin_recreation(inspect: &Json) -> (r: Result<RecreationStart, Failure>)
    ensures
        r is Ok <==> image_of(inspect@) is Some,
        r is Ok ==> Some(r->Ok_0.image@) == image_of(inspect@) && r->Ok_0.was_running == runs(
            inspect@,
        ) && r->Ok_0.previous_image_id@ == image_id(inspect@),
        r is Err ==> r->Err_0.message@ == "container has no image to update"@,
{
    match inspect.inner_text("Config", "Image") {
        Some(image) => if text::blank(image.as_str()) {
            Err(Failure::new("container has no image to update"))
        } else {
            Ok(
                RecreationStart {
                    image,
                    was_running: container_runs(inspect),
                    previous_image_id: read_image_id(inspect),
                },
            )
        },
        None => Err(Failure::new("container has no image to update")),
    }
}

/// A container that was replaced.
pub struct ContainerRecreation {
    pub image: String,
    pub image_changed: bool,
    pub previous_image_id: String,
    pub image_id: String,
}

/// What is reported of a container that was replaced.
pub fn finish_recreation(start: RecreationStart, updated: &Json) -> (r: ContainerRecreation)
    ensures
        r.image@ == start.image@,
        r.previous_image_id@ == start.previous_image_id@,
        r.image_id@ == image_id(updated@),
        r.image_changed == (start.previous_image_id@.len() > 0 && start.previous_image_id@
            != image_id(updated@)),
{
    let image_id = read_image_id(updated);
    let changed = !text::is_empty(start.previous_image_id.as_str()) && !text::same(
        start.previous_image_id.as_str(),
        image_id.as_str(),
    );
    ContainerRecreation {
        image: start.image,
        image_changed: changed,
        previous_image_id: start.previous_image_id,
        image_id,
    }
}

// ---------------------------------------------------------------------------------------------
// Resources.

/// New limits for a server. Processors are given in billionths of one.
pub struct ResourceUpdateSpec {
    pub server_id: String,
    pub memory_bytes: i64,
    pub swap_memory_bytes: i64,
    pub swap_memory_storage: String,
    pub cpu_limit_percentage: i32,
    pub cpu_nanos: i64,
    pub cpu_pinning: bool,
    pub cpu_pinned_threads: String,
    pub disk_limit_bytes: i64,
}

/// The limits that Docker is told.
pub struct ContainerUpdate {
    pub memory: Option<i64>,
    pub memory_swap: Option<i64>,
    pub nano_cpus: Option<i64>,
    pub cpuset_cpus: String,
}

/// The processors that a server is pinned to; empty for none.
pub open spec fn pinned(spec: ResourceUpdateSpec, available: usize) -> Result<Seq<char>, Seq<char>> {
    let v = without_space(spec.cpu_pinned_threads@);
    if !spec.cpu_pinning || v.len() == 0 {
        Ok(Seq::empty())
    } else {
        match pinned_ranges(text::split_on(v, ','), available) {
            Ok(_) => Ok(v),
            Err(m) => Err(m),
        }
    }
}

/// The memory with the swap, as far as it fits.
pub open spec fn with_swap(memory: i64, swap: i64) -> i64 {
    let extra = if swap > 0 {
        swap
    } else {
        0
    };
    if memory + extra > i64::MAX {
        i64::MAX
    } else {
        (memory + extra) as i64
    }
}

/// The limits that Docker is told; none where only the disk space changes. A thread that the node
/// does not have is refused. `available` is the number of threads.
pub fn container_update(spec: &ResourceUpdateSpec, available: usize) -> (r: Result<
    Option<ContainerUpdate>,
    Failure,
>)
    requires
        available >= 1,
    ensures
        ({
            let cpus = positive(cpu_share(spec.cpu_limit_percentage, spec.cpu_nanos));
            let memory = positive(spec.memory_bytes);
            &&& r is Ok <==> valid_id(spec.server_id@) && pinned(*spec, available) is Ok
            &&& !valid_id(spec.server_id@) ==> r->Err_0.message@ == "invalid server id"@
            &&& valid_id(spec.server_id@) && r is Err ==> r->Err_0.message@ == pinned(
                *spec,
                available,
            )->Err_0
            &&& r is Ok ==> (r->Ok_0 is Some <==> memory is Some || cpus is Some)
            &&& r is Ok && r->Ok_0 is Some ==> {
                let u = r->Ok_0->0;
                &&& u.memory == memory
                &&& u.memory_swap == match memory {
                    Some(m) => Some(with_swap(m, spec.swap_memory_bytes)),
                    None => None,
                }
                &&& u.nano_cpus == cpus
                &&& u.cpuset_cpus@ == pinned(*spec, available)->Ok_0
            }
        }),
{
    match validate_id(spec.server_id.as_str()) {
        Ok(()) => {},
        Err(e) => {
            return Err(e);
        },
    }
    let cpuset_cpus = if spec.cpu_pinning {
        match pinned_cpu_set(spec.cpu_pinned_threads.as_str(), available) {
            Ok(Some(set)) => set,
            Ok(None) => {
                let none = String::new();
                assert(none@ =~= Seq::<char>::empty());
                none
            },
            Err(e) => {
                return Err(e);
            },
        }
    } else {
        let none = String::new();
        assert(none@ =~= Seq::<char>::empty());
        none
    };
    let cpus = effective_cpus(spec.cpu_limit_percentage, spec.cpu_nanos);
    if spec.memory_bytes <= 0 && cpus <= 0 {
        return Ok(None);
    }
    let memory_swap = if spec.memory_bytes > 0 {
        let extra: i64 = if spec.swap_memory_bytes > 0 {
            spec.swap_memory_bytes
        } else {
            0
        };
        Some(
            if extra > i64::MAX - spec.memory_bytes {
                i64::MAX
            } else {
                spec.memory_bytes + extra
            },
        )
    } else {
        None
    };
    Ok(
        Some(
            ContainerUpdate {
                memory: if spec.memory_bytes > 0 {
                    Some(spec.memory_bytes)
                } else {
                    None
                },
                memory_swap,
                nano_cpus: if cpus > 0 {
                    Some(cpus)
                } else {
                    None
                },
                cpuset_cpus,
            },
        ),
    )
}

/// An optional number as it is shown to a user.
pub open spec fn shown_option(n: Option<i64>) -> Seq<char> {
    match n {
        Some(n) => "Some("@ + text::signed_decimal(n as int) + ")"@,
        None => "None"@,
    }
}

fn show_option(n: Option<i64>) -> (r: String)
    ensures
        r@ == shown_option(n),
{
    match n {
        Some(n) => {
            let shown = text::signed_decimal_string(n);
            text::concat3("Some(", shown.as_str(), ")")
        },
        None => "None".to_owned(),
    }
}

/// A limit that Docker reports is not the one that it was told.
pub open spec fn differs(
    told: Option<i64>,
    reported: Option<i64>,
    what: Seq<char>,
) -> Option<Seq<char>> {
    match told {
        Some(expected) => if reported == Some(expected) {
            None
        } else {
            Some(
                "Docker reported "@ + what + " limit "@ + shown_option(reported) + ", expected "@
                    + text::signed_decimal(expected as int),
            )
        },
        None => None,
    }
}

fn check_limit(told: Option<i64>, reported: Option<i64>, what: &str) -> (r: Result<(), Failure>)
    ensures
        r is Ok <==> differs(told, reported, what@) is None,
        r is Err ==> Some(r->Err_0.message@) == differs(told, reported, what@),
{
    match told {
        Some(expected) => {
            let same = match reported {
                Some(actual) => actual == expected,
                None => false,
            };
            if same {
                return Ok(());
            }
            let actual = show_option(reported);
            let wanted = text::signed_decimal_string(expected);
            let mut message = text::concat5(
                "Docker reported ",
                what,
                " limit ",
                actual.as_str(),
                ", expected ",
            );
            message.append(wanted.as_str());
            Err(Failure { message })
        },
        None => Ok(()),
    }
}

/// Accepts new limits once Docker reports them: the memory first, then the processors.
pub fn verify_update(update: &ContainerUpdate, inspect: &Json) -> (r: Result<(), Failure>)
    ensures
        ({
            let memory = differs(
                update.memory,
                signed_of(inner_of(inspect@, "HostConfig"@, "Memory"@)),
                "memory"@,
            );
            let cpus = differs(
                update.nano_cpus,
                signed_of(inner_of(inspect@, "HostConfig"@, "NanoCpus"@)),
                "CPU"@,
            );
            &&& r is Ok <==> memory is None && cpus is None
            &&& memory is Some ==> r->Err_0.message@ == memory->0
            &&& memory is None && cpus is Some ==> r->Err_0.message@ == cpus->0
        }),
{
    match check_limit(update.memory, inspect.inner_signed("HostConfig", "Memory"), "memory") {
        Ok(()) => {},
        Err(e) => {
            return Err(e);
        },
    }
    check_limit(update.nano_cpus, inspect.inner_signed("HostConfig", "NanoCpus"), "CPU")
}

/// The disk limit that is written down for a server; none where it has none.
pub fn disk_record(spec: &ResourceUpdateSpec) -> (r: Result<Option<i64>, Failure>)
    ensures
        match disk_share(spec.disk_limit_bytes, spec.swap_memory_bytes, spec.swap_memory_storage@) {
            Ok(limit) => r is Ok && r->Ok_0 == positive(limit),
            Err(m) => r is Err && r->Err_0.message@ == m,
        },
{
    match effective_disk_limit(
        spec.disk_limit_bytes,
        spec.swap_memory_bytes,
        spec.swap_memory_storage.as_str(),
    ) {
        Ok(limit) => Ok(
            if limit > 0 {
                Some(limit)
            } else {
                None
            },
        ),
        Err(e) => Err(e),
    }
}

/// Accepts a disk limit once it reads back as it was written.
pub fn verify_disk_record(written: i64, read_back: &str) -> (r: Result<(), Failure>)
    ensures
        ({
            let text = text::trimmed(read_back@);
            let refused = text::integer_refusal(text);
            let applied = text::signed_parsed(text)->0;
            &&& r is Ok <==> refused is None && applied == written
            &&& refused is Some ==> r->Err_0.message@ == refused->0
            &&& refused is None && applied != written ==> r->Err_0.message@
                == "disk limit metadata reported "@ + text::signed_decimal(applied)
                + ", expected "@ + text::signed_decimal(written as int)
        }),
{
    let line = text::trim(read_back);
    match text::parse_signed(line.as_str()) {
        Some(applied) => if applied == written {
            Ok(())
        } else {
            let actual = text::signed_decimal_string(applied);
            let wanted = text::signed_decimal_string(written);
            Err(
                Failure {
                    message: text::concat4(
                        "disk limit metadata reported ",
                        actual.as_str(),
                        ", expected ",
                        wanted.as_str(),
                    ),
                },
            )
        },
        None => Err(Failure { message: text::explain_integer(line.as_str()) }),
    }
}

/// Keeps a server whose files exceed its disk space from being started.
pub fn ensure_disk(protection: &mut ProtectionState, id: &str, usage: i64, limit: i64) -> (r: Result<
    (),
    Failure,
>)
    ensures
        r is Err <==> limit > 0 && usage > limit,
        final(protection).same_but_statuses(old(protection)),
        final(protection).status_of(id@) == if r is Err {
            Some("disk-limit-exceeded"@)
        } else if old(protection).status_of(id@) == Some("disk-limit-exceeded"@) {
            None
        } else {
            old(protection).status_of(id@)
        },
        forall|other: Seq<char>|
            other != id@ ==> #[trigger] final(protection).status_of(other) == old(
                protection,
            ).status_of(other),
        r is Err ==> r->Err_0.message@ == "Server disk limit exceeded ("@ + text::signed_decimal(
            usage as int,
        ) + " / "@ + text::signed_decimal(limit as int)
            + " bytes). Delete files before starting the server."@,
{
    if limit > 0 && usage > limit {
        protection.mark(id, "disk-limit-exceeded");
        let used = text::signed_decimal_string(usage);
        let allowed = text::signed_decimal_string(limit);
        return Err(
            Failure {
                message: text::concat5(
                    "Server disk limit exceeded (",
                    used.as_str(),
                    " / ",
                    allowed.as_str(),
                    " bytes). Delete files before starting the server.",
                ),
            },
        );
    }
    protection.clear_disk(id);
    Ok(())
}

proof fn lemma_inside(a: Seq<char>, p: Seq<char>, b: Seq<char>)
    ensures
        text::contains(a + p + b, p),
{
    let s = a + p + b;
    assert(s.subrange(a.len() as int, a.len() as int + p.len()) =~= p);
    assert(text::occurs_at(s, p, a.len() as int));
}

/// An error is about a bind mount that has gone where it speaks, in letters of any size, of Docker
/// Desktop's mounts, of a file that is not there, and of mounting; each of the three is needed.
pub proof fn law_gone_mounts_are_recognised(message: Seq<char>, a: Seq<char>, b: Seq<char>)
    ensures
        is_stale_bind(message) ==> text::contains(
            text::lowered(message),
            "docker-desktop-bind-mounts"@,
        ) && text::contains(text::lowered(message), "no such file or directory"@) && (
        text::contains(text::lowered(message), "error mounting"@) || text::contains(
            text::lowered(message),
            "mount src="@,
        )),
        text::lowered(message) == "error mounting"@ + a + "docker-desktop-bind-mounts"@ + b
            + "no such file or directory"@ ==> is_stale_bind(message),
        text::lowered(message) == "mount src="@ + a + "docker-desktop-bind-mounts"@ + b
            + "no such file or directory"@ ==> is_stale_bind(message),
{
    let none = Seq::<char>::empty();
    let d = "docker-desktop-bind-mounts"@;
    let n = "no such file or directory"@;
    let x = "error mounting"@;
    let y = "mount src="@;
    let s = x + a + d + b + n;
    let t = y + a + d + b + n;
    lemma_inside(none, x, a + d + b + n);
    assert(none + x + (a + d + b + n) =~= s);
    lemma_inside(x + a, d, b + n);
    assert(x + a + d + (b + n) =~= s);
    lemma_inside(x + a + d + b, n, none);
    assert(s + none =~= s);
    lemma_inside(none, y, a + d + b + n);
    assert(none + y + (a + d + b + n) =~= t);
    lemma_inside(y + a, d, b + n);
    assert(y + a + d + (b + n) =~= t);
    lemma_inside(y + a + d + b, n, none);
    assert(t + none =~= t);
}

/// What the daemon says of a container is read where it stands: whether it runs, its image, and the
/// command that stops it.
pub proof fn law_containers_are_read_where_docker_says(inspect: JsonView)
    ensures
        runs(inspect) <==> bool_of(inner_of(inspect, "State"@, "Running"@)) == Some(true),
        image_of(inspect) is Some ==> text_of(inner_of(inspect, "Config"@, "Image"@)) == image_of(
            inspect,
        ),
        image_of(inspect) is None <==> text_of(inner_of(inspect, "Config"@, "Image"@)) is None
            || text::is_blank(text_of(inner_of(inspect, "Config"@, "Image"@))->0),
        text_of(field_of(inspect, "Image"@)) is Some ==> text_of(field_of(inspect, "Image"@))
            == Some(image_id(inspect)),
        text_of(field_of(inspect, "Image"@)) is None ==> image_id(inspect).len() == 0,
        label_of(inspect, "agapornis.stop_command"@) is Some ==> stop_command(inspect)
            == text::trimmed(label_of(inspect, "agapornis.stop_command"@)->0),
        label_of(inspect, "agapornis.stop_command"@) is None ==> stop_command(inspect).len() == 0,
{
}

/// Swap counts on top of the memory, and only where it is positive.
pub proof fn law_swap_counts_on_top(memory: i64, swap: i64)
    ensures
        swap <= 0 ==> with_swap(memory, swap) == memory,
        swap > 0 && memory + swap <= i64::MAX ==> with_swap(memory, swap) == memory + swap,
        swap > 0 && memory + swap > i64::MAX ==> with_swap(memory, swap) == i64::MAX,
{
}

/// A limit was applied exactly where Docker reports the one it was told, or was told none.
pub proof fn law_applied_limits_are_reported(
    told: Option<i64>,
    reported: Option<i64>,
    what: Seq<char>,
)
    ensures
        differs(told, reported, what) is None <==> told is None || reported == told,
        reported is Some ==> shown_option(reported) == "Some("@ + text::signed_decimal(
            reported->0 as int,
        ) + ")"@,
{
}

/// A server is pinned to the processors that are named, without the white space between them; to
/// none where it is not to be pinned or names none; and not at all to what is no list of processors.
pub proof fn law_servers_are_pinned_as_asked(spec: ResourceUpdateSpec, available: usize)
    ensures
        !spec.cpu_pinning ==> pinned(spec, available) is Ok && pinned(spec, available)->Ok_0.len()
            == 0,
        pinned(spec, available) is Ok && pinned(spec, available)->Ok_0.len() > 0 ==> pinned(
            spec,
            available,
        )->Ok_0 == without_space(spec.cpu_pinned_threads@) && pinned_ranges(
            text::split_on(without_space(spec.cpu_pinned_threads@), ','),
            available,
        ) is Ok,
        spec.cpu_pinning && without_space(spec.cpu_pinned_threads@).len() > 0 ==> (pinned(
            spec,
            available,
        ) is Ok <==> pinned_ranges(
            text::split_on(without_space(spec.cpu_pinned_threads@), ','),
            available,
        ) is Ok),
        spec.cpu_pinning && pinned(spec, available) is Ok ==> pinned(spec, available)->Ok_0
            == without_space(spec.cpu_pinned_threads@),
{
    if spec.cpu_pinning && without_space(spec.cpu_pinned_threads@).len() == 0 {
        assert(without_space(spec.cpu_pinned_threads@) =~= Seq::empty());
    }
}

} // verus!
