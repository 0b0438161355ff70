//! What a server runs with: its environment, its command, and its share of the node.

use crate::error::Failure;
use crate::json::{field_of, inner_of, text_of, texts_of, Json, JsonView};
use crate::paths::{join_path, joined};
use crate::table::Table;
use crate::text;
use vstd::prelude::*;

verus! {

pub const XDG_RUNTIME_DIR_KEY: &'static str = "XDG_RUNTIME_DIR";

pub const MANAGED_XDG_RUNTIME_DIR: &'static str = "/tmp/agapornis-runtime";

pub const MANAGED_XDG_RUNTIME_TMPFS_OPTIONS: &'static str =
    "rw,nosuid,nodev,noexec,size=16m,mode=0700,uid=999,gid=999";

/// The shell that starts a server, under a virtual display where its image asks for one.
pub const RUNTIME_LAUNCHER: &'static str = r#"case "${XVFB:-0}" in
    1|true|TRUE|yes|YES)
        if command -v xvfb-run >/dev/null 2>&1; then
            exec xvfb-run --auto-servernum \
                --server-args="-screen 0 ${DISPLAY_WIDTH:-1024}x${DISPLAY_HEIGHT:-768}x${DISPLAY_DEPTH:-16} -nolisten tcp" \
                /bin/sh -lc "$1"
        fi
        ;;
esac
exec /bin/sh -lc "$1""#;

/// How often, and how many milliseconds apart, the file that a server starts is looked for.
pub const STARTUP_TARGET_CHECK_ATTEMPTS: usize = 10;

pub const STARTUP_TARGET_CHECK_MILLIS: u64 = 200;

/// The value that an environment entry gives the runtime directory.
pub open spec fn runtime_dir_of(entry: Seq<char>) -> Option<Seq<char>> {
    match text::split_first(entry, '=') {
        Some((key, value)) => if key == XDG_RUNTIME_DIR_KEY@ {
            Some(value)
        } else {
            None
        },
        None => None,
    }
}

/// The value that the last entry to set the runtime directory gives it.
pub open spec fn runtime_dir(values: Seq<Seq<char>>) -> Option<Seq<char>>
    decreases values.len(),
{
    if values.len() == 0 {
        None
    } else {
        match runtime_dir_of(values.last()) {
            Some(value) => Some(value),
            None => runtime_dir(values.drop_last()),
        }
    }
}

fn entry_runtime_dir(entry: &str) -> (r: Option<String>)
    ensures
        text::opt_view(r) == runtime_dir_of(entry@),
{
    match text::split_once(entry, '=') {
        Some((key, value)) => if text::same(key.as_str(), XDG_RUNTIME_DIR_KEY) {
            Some(value)
        } else {
            None
        },
        None => None,
    }
}

/// The value that the last entry to set the runtime directory gives it.
pub fn runtime_environment_value(values: &Vec<String>) -> (r: Option<String>)
    ensures
        text::opt_view(r) == runtime_dir(text::views(values@)),
{
    let ghost all = text::views(values@);
    let mut i: usize = values.len();
    assert(all.take(all.len() as int) =~= all);
    while i > 0
        invariant
            all == text::views(values@),
            0 <= i <= values@.len(),
            runtime_dir(all) == runtime_dir(all.take(i as int)),
        decreases i,
    {
        proof {
            assert(all.take(i as int).last() == values@[i - 1]@);
            assert(all.take(i as int).drop_last() =~= all.take(i - 1));
        }
        if let Some(value) = entry_runtime_dir(values[i - 1].as_str()) {
            return Some(value);
        }
        i -= 1;
    }
    None
}

/// The runtime directory that a server gets: what its environment says, or the managed one.
pub open spec fn chosen_runtime_dir(values: Seq<Seq<char>>) -> Seq<char> {
    match runtime_dir(values) {
        Some(value) => if text::trimmed(value).len() > 0 {
            text::trimmed(value)
        } else {
            MANAGED_XDG_RUNTIME_DIR@
        },
        None => MANAGED_XDG_RUNTIME_DIR@,
    }
}

/// The entries that do not set the runtime directory, in order.
pub open spec fn other_entries(values: Seq<Seq<char>>) -> Seq<Seq<char>>
    decreases values.len(),
{
    if values.len() == 0 {
        Seq::empty()
    } else if runtime_dir_of(values.last()) is Some {
        other_entries(values.drop_last())
    } else {
        other_entries(values.drop_last()).push(values.last())
    }
}

/// The environment of a server: its entries, and one runtime directory at the end.
pub open spec fn managed_environment(values: Seq<Seq<char>>) -> Seq<Seq<char>> {
    other_entries(values).push(XDG_RUNTIME_DIR_KEY@ + "="@ + chosen_runtime_dir(values))
}

/// The environment of a server: its entries, and one runtime directory at the end.
pub fn runtime_environment(values: &Vec<String>) -> (r: Vec<String>)
    ensures
        text::views(r@) == managed_environment(text::views(values@)),
{
    let configured = match runtime_environment_value(values) {
        Some(value) => {
            let value = text::trim(value.as_str());
            if text::is_empty(value.as_str()) {
                MANAGED_XDG_RUNTIME_DIR.to_owned()
            } else {
                value
            }
        },
        None => MANAGED_XDG_RUNTIME_DIR.to_owned(),
    };
    let ghost all = text::views(values@);
    let mut out: Vec<String> = Vec::new();
    let mut i: usize = 0;
    assert(all.take(0) =~= Seq::<Seq<char>>::empty());
    assert(text::views(out@) =~= Seq::<Seq<char>>::empty());
    while i < values.len()
        invariant
            all == text::views(values@),
            0 <= i <= values@.len(),
            text::views(out@) == other_entries(all.take(i as int)),
        decreases values.len() - i,
    {
        proof {
            assert(all.take(i as int + 1).last() == values@[i as int]@);
            assert(all.take(i as int + 1).drop_last() =~= all.take(i as int));
        }
        if entry_runtime_dir(values[i].as_str()).is_none() {
            let ghost before = out@;
            let entry = values[i].as_str().to_owned();
            out.push(entry);
            proof {
                text::lemma_views_push(before, entry);
            }
        }
        i += 1;
    }
    assert(all.take(all.len() as int) =~= all);
    let ghost before = out@;
    let entry = text::concat3(XDG_RUNTIME_DIR_KEY, "=", configured.as_str());
    out.push(entry);
    proof {
        text::lemma_views_push(before, entry);
    }
    out
}

/// The command of a server that starts as the given text says.
pub open spec fn launcher_command(startup: Seq<char>) -> Option<Seq<Seq<char>>> {
    if text::is_blank(startup) {
        None
    } else {
        Some(
            seq![
                "/bin/sh"@,
                "-lc"@,
                RUNTIME_LAUNCHER@,
                "agapornis-runtime"@,
                "exec "@ + startup,
            ],
        )
    }
}

/// The command of a server that starts as the given text says. The text is handed to the launcher
/// as an argument.
pub fn runtime_server_command(startup: &str) -> (r: Option<Vec<String>>)
    ensures
        text::list_view(r) == launcher_command(startup@),
{
    if text::blank(startup) {
        return None;
    }
    let run = text::concat2("exec ", startup);
    let out = text::owned(
        vec!["/bin/sh", "-lc", RUNTIME_LAUNCHER, "agapornis-runtime", run.as_str()],
    );
    assert(text::views(out@) =~= launcher_command(startup@)->0);
    Some(out)
}

/// The text that a container without the launcher starts.
pub open spec fn legacy_startup(command: Seq<Seq<char>>) -> Option<Seq<char>> {
    if command.len() == 3 && command[0] == "/bin/sh"@ && command[1] == "-lc"@ {
        match text::without_prefix(command[2], "exec "@) {
            Some(startup) => if text::is_blank(startup) {
                None
            } else {
                Some(startup)
            },
            None => None,
        }
    } else {
        None
    }
}

/// The text that a container without the launcher starts.
pub fn legacy_runtime_command(command: &Vec<String>) -> (r: Option<String>)
    ensures
        text::opt_view(r) == legacy_startup(text::views(command@)),
{
    let ghost all = text::views(command@);
    if command.len() != 3 {
        return None;
    }
    proof {
        assert(all[0] == command@[0]@);
        assert(all[1] == command@[1]@);
        assert(all[2] == command@[2]@);
    }
    if !text::same(command[0].as_str(), "/bin/sh") || !text::same(command[1].as_str(), "-lc") {
        return None;
    }
    match text::strip_prefix(command[2].as_str(), "exec ") {
        Some(startup) => if text::blank(startup.as_str()) {
            None
        } else {
            Some(startup)
        },
        None => None,
    }
}

/// Whether an inspected container still runs without the launcher.
pub fn runtime_launcher_repair_needed(inspect: &Json) -> (r: bool)
    ensures
        r == match inner_of(inspect@, "Config"@, "Cmd"@) {
            Some(JsonView::Array(items)) => legacy_startup(texts_of(items)) is Some,
            _ => false,
        },
{
    match inspect.inner("Config", "Cmd") {
        Some(v) => match v.texts() {
            Some(command) => legacy_runtime_command(&command).is_some(),
            None => false,
        },
        None => false,
    }
}

/// Puts the launcher into a command without it, and says whether it did.
pub fn repair_legacy_runtime_command(command: &mut Option<Vec<String>>) -> (r: bool)
    ensures
        ({
            let was = text::list_view(*old(command));
            let startup = match was {
                Some(list) => legacy_startup(list),
                None => None,
            };
            &&& r == (startup is Some)
            &&& text::list_view(*final(command)) == if r {
                launcher_command(startup->0)
            } else {
                was
            }
        }),
{
    let startup = match command {
        Some(list) => legacy_runtime_command(list),
        None => None,
    };
    match startup {
        Some(startup) => {
            *command = runtime_server_command(startup.as_str());
            true
        },
        None => false,
    }
}

/// Gives a container the managed runtime directory, where its environment asks for that one.
pub fn ensure_runtime_tmpfs(tmpfs: &mut Option<Table<String>>, environment: &Vec<String>)
    ensures
        runtime_dir(text::views(environment@)) != Some(MANAGED_XDG_RUNTIME_DIR@) ==> *final(tmpfs)
            == *old(tmpfs),
        runtime_dir(text::views(environment@)) == Some(MANAGED_XDG_RUNTIME_DIR@) ==> {
            let was = match *old(tmpfs) {
                Some(t) => t@,
                None => Map::empty(),
            };
            let now = *final(tmpfs);
            &&& now is Some
            &&& now->0@.dom() == was.dom().insert(MANAGED_XDG_RUNTIME_DIR@)
            &&& now->0@[MANAGED_XDG_RUNTIME_DIR@]@ == MANAGED_XDG_RUNTIME_TMPFS_OPTIONS@
            &&& forall|k: Seq<char>|
                was.contains_key(k) && k != MANAGED_XDG_RUNTIME_DIR@ ==> #[trigger] now->0@[k]
                    == was[k]
        },
{
    let managed = match runtime_environment_value(environment) {
        Some(value) => text::same(value.as_str(), MANAGED_XDG_RUNTIME_DIR),
        None => false,
    };
    if !managed {
        return ;
    }
    let mut taken: Option<Table<String>> = None;
    core::mem::swap(&mut taken, tmpfs);
    let mut table = match taken {
        Some(table) => table,
        None => Table::new(),
    };
    table.insert(
        MANAGED_XDG_RUNTIME_DIR.to_owned(),
        MANAGED_XDG_RUNTIME_TMPFS_OPTIONS.to_owned(),
    );
    *tmpfs = Some(table);
}

/// Whether a container has the runtime directory that its environment asks for.
pub fn runtime_tmpfs_ready(tmpfs: Option<&Table<String>>, environment: &Vec<String>) -> (r: bool)
    ensures
        r == (runtime_dir(text::views(environment@)) == Some(MANAGED_XDG_RUNTIME_DIR@) ==> (tmpfs
            is Some && tmpfs->0@.contains_key(MANAGED_XDG_RUNTIME_DIR@)
            && tmpfs->0@[MANAGED_XDG_RUNTIME_DIR@]@ == MANAGED_XDG_RUNTIME_TMPFS_OPTIONS@)),
{
    let managed = match runtime_environment_value(environment) {
        Some(value) => text::same(value.as_str(), MANAGED_XDG_RUNTIME_DIR),
        None => false,
    };
    if !managed {
        return true;
    }
    match tmpfs {
        Some(table) => match table.get(MANAGED_XDG_RUNTIME_DIR) {
            Some(options) => text::same(options.as_str(), MANAGED_XDG_RUNTIME_TMPFS_OPTIONS),
            None => false,
        },
        None => false,
    }
}

/// The environment of an inspected container.
pub open spec fn inspected_environment(inspect: JsonView) -> Seq<Seq<char>> {
    match inner_of(inspect, "Config"@, "Env"@) {
        Some(JsonView::Array(items)) => texts_of(items),
        _ => Seq::empty(),
    }
}

/// The options of the managed runtime directory of an inspected container.
pub open spec fn inspected_tmpfs(inspect: JsonView) -> Option<Seq<char>> {
    match inner_of(inspect, "HostConfig"@, "Tmpfs"@) {
        Some(tmpfs) => text_of(field_of(tmpfs, MANAGED_XDG_RUNTIME_DIR@)),
        None => None,
    }
}

/// Whether an inspected container has a runtime directory: one of its own, or the managed one
/// with its options.
pub fn runtime_configuration_ready(inspect: &Json) -> (r: bool)
    ensures
        r == match runtime_dir(inspected_environment(inspect@)) {
            Some(value) => if value == MANAGED_XDG_RUNTIME_DIR@ {
                inspected_tmpfs(inspect@) == Some(MANAGED_XDG_RUNTIME_TMPFS_OPTIONS@)
            } else {
                !text::is_blank(value)
            },
            None => false,
        },
{
    let environment = match inspect.inner("Config", "Env") {
        Some(v) => match v.texts() {
            Some(list) => list,
            None => {
                let none: Vec<String> = Vec::new();
                assert(text::views(none@) =~= Seq::<Seq<char>>::empty());
                none
            },
        },
        None => {
            let none: Vec<String> = Vec::new();
            assert(text::views(none@) =~= Seq::<Seq<char>>::empty());
            none
        },
    };
    assert(text::views(environment@) == inspected_environment(inspect@));
    match runtime_environment_value(&environment) {
        Some(value) => if text::same(value.as_str(), MANAGED_XDG_RUNTIME_DIR) {
            match inspect.inner("HostConfig", "Tmpfs") {
                Some(tmpfs) => match tmpfs.field(MANAGED_XDG_RUNTIME_DIR) {
                    Some(Json::Text(options)) => text::same(
                        options.as_str(),
                        MANAGED_XDG_RUNTIME_TMPFS_OPTIONS,
                    ),
                    _ => false,
                },
                None => false,
            }
        } else {
            !text::blank(value.as_str())
        },
        None => false,
    }
}

/// The share of the node's processors that a server gets, in billionths of one: what it asks for
/// in processors, else the percentage, else no limit.
pub open spec fn cpu_share(percent: i32, nano_cpus: i64) -> i64 {
    if nano_cpus > 0 {
        nano_cpus
    } else if percent > 0 {
        (percent * 10_000_000) as i64
    } else {
        0
    }
}

/// The share of the node's processors that a server gets, in billionths of one.
pub fn effective_cpus(percent: i32, nano_cpus: i64) -> (r: i64)
    ensures
        r == cpu_share(percent, nano_cpus),
{
    if nano_cpus > 0 {
        nano_cpus
    } else if percent > 0 {
        percent as i64 * 10_000_000
    } else {
        0
    }
}

// ---------------------------------------------------------------------------------------------
// Pinning processors.

/// A text without its white space.
pub open spec fn without_space(s: Seq<char>) -> Seq<char>
    decreases s.len(),
{
    if s.len() == 0 {
        Seq::empty()
    } else if text::is_space(s.last()) {
        without_space(s.drop_last())
    } else {
        without_space(s.drop_last()).push(s.last())
    }
}

fn remove_space(s: &str) -> (r: String)
    ensures
        r@ == without_space(s@),
{
    let cs = text::chars_of(s);
    let mut out = String::new();
    let mut i: usize = 0;
    assert(s@.take(0) =~= Seq::<char>::empty());
    assert(out@ =~= Seq::<char>::empty());
    while i < cs.len()
        invariant
            cs@ == s@,
            0 <= i <= cs@.len(),
            out@ == without_space(s@.take(i as int)),
        decreases cs.len() - i,
    {
        assert(s@.take(i as int + 1).drop_last() =~= s@.take(i as int));
        if !text::space(cs[i]) {
            out.push(cs[i]);
        }
        i += 1;
    }
    assert(s@.take(s@.len() as int) =~= s@);
    out
}

/// The number that a text spells, or why it spells none.
pub open spec fn thread_number(s: Seq<char>) -> Result<usize, Seq<char>> {
    if s.len() == 0 {
        Err("cannot parse integer from empty string"@)
    } else {
        match text::parsed(s) {
            Some(n) => if n <= usize::MAX {
                Ok(n as usize)
            } else {
                Err("number too large to fit in target type"@)
            },
            None => Err("invalid digit found in string"@),
        }
    }
}

fn parse_thread(s: &str) -> (r: Result<usize, Failure>)
    ensures
        match thread_number(s@) {
            Ok(n) => r is Ok && r->Ok_0 == n,
            Err(m) => r is Err && r->Err_0.message@ == m,
        },
{
    if text::is_empty(s) {
        return Err(Failure::new("cannot parse integer from empty string"));
    }
    match text::parse_number(s, usize::MAX as u64) {
        Some(n) => Ok(n as usize),
        None => if text::is_number(s) {
            Err(Failure::new("number too large to fit in target type"))
        } else {
            Err(Failure::new("invalid digit found in string"))
        },
    }
}

/// The first and the last thread of a segment: a number, or two with a dash between them.
pub open spec fn thread_range(segment: Seq<char>) -> Result<(usize, usize), Seq<char>> {
    match text::split_first(segment, '-') {
        Some((start, end)) => match thread_number(start) {
            Ok(a) => match thread_number(end) {
                Ok(b) => Ok((a, b)),
                Err(m) => Err(m),
            },
            Err(m) => Err(m),
        },
        None => match thread_number(segment) {
            Ok(a) => Ok((a, a)),
            Err(m) => Err(m),
        },
    }
}

fn parse_range(segment: &str) -> (r: Result<(usize, usize), Failure>)
    ensures
        match thread_range(segment@) {
            Ok(p) => r is Ok && r->Ok_0 == p,
            Err(m) => r is Err && r->Err_0.message@ == m,
        },
{
    match text::split_once(segment, '-') {
        Some((start, end)) => match parse_thread(start.as_str()) {
            Ok(a) => match parse_thread(end.as_str()) {
                Ok(b) => Ok((a, b)),
                Err(e) => Err(e),
            },
            Err(e) => Err(e),
        },
        None => match parse_thread(segment) {
            Ok(a) => Ok((a, a)),
            Err(e) => Err(e),
        },
    }
}

/// A thread lies in one of the ranges.
pub open spec fn selected(ranges: Seq<(usize, usize)>, thread: int) -> bool {
    exists|i: int| 0 <= i < ranges.len() && (#[trigger] ranges[i]).0 <= thread <= ranges[i].1
}

/// The first thread from `from` to `to` that is selected already.
pub open spec fn first_selected(ranges: Seq<(usize, usize)>, from: int, to: int) -> Option<int>
    decreases to + 1 - from,
{
    if from > to {
        None
    } else if selected(ranges, from) {
        Some(from)
    } else {
        first_selected(ranges, from + 1, to)
    }
}

/// The ranges with one more segment, or why it is refused on a node with so many threads.
pub open spec fn with_segment(ranges: Seq<(usize, usize)>, segment: Seq<char>, available: usize) -> Result<
    Seq<(usize, usize)>,
    Seq<char>,
> {
    match thread_range(segment) {
        Err(m) => Err(m),
        Ok((start, end)) => if end < start {
            Err("invalid pinned CPU thread range '"@ + segment + "'"@)
        } else if end >= available {
            Err(
                "pinned CPU thread "@ + text::decimal(end as nat)
                    + " does not exist; this node has threads 0-"@ + text::decimal(
                    (available - 1) as nat,
                ),
            )
        } else {
            match first_selected(ranges, start as int, end as int) {
                Some(thread) => Err(
                    "pinned CPU thread "@ + text::decimal(thread as nat)
                        + " is listed more than once"@,
                ),
                None => Ok(ranges.push((start, end))),
            }
        },
    }
}

/// The ranges of all segments, or why the first one to be refused is refused.
pub open spec fn pinned_ranges(segments: Seq<Seq<char>>, available: usize) -> Result<
    Seq<(usize, usize)>,
    Seq<char>,
>
    decreases segments.len(),
{
    if segments.len() == 0 {
        Ok(Seq::empty())
    } else {
        match pinned_ranges(segments.drop_last(), available) {
            Err(m) => Err(m),
            Ok(ranges) => with_segment(ranges, segments.last(), available),
        }
    }
}

proof fn lemma_pinned_fails(segments: Seq<Seq<char>>, available: usize, i: int)
    requires
        0 <= i <= segments.len(),
        pinned_ranges(segments.take(i), available) is Err,
    ensures
        pinned_ranges(segments, available) == pinned_ranges(segments.take(i), available),
    decreases segments.len() - i,
{
    if i < segments.len() {
        assert(segments.take(i + 1).drop_last() =~= segments.take(i));
        lemma_pinned_fails(segments, available, i + 1);
    } else {
        assert(segments.take(i) =~= segments);
    }
}

fn thread_selected(ranges: &Vec<(usize, usize)>, thread: usize) -> (r: bool)
    ensures
        r == selected(ranges@, thread as int),
{
    let mut i: usize = 0;
    while i < ranges.len()
        invariant
            0 <= i <= ranges@.len(),
            forall|k: int|
                0 <= k < i ==> !((#[trigger] ranges@[k]).0 <= thread <= ranges@[k].1),
        decreases ranges.len() - i,
    {
        let (a, b) = ranges[i];
        if a <= thread && thread <= b {
            assert(ranges@[i as int].0 <= thread <= ranges@[i as int].1);
            return true;
        }
        i += 1;
    }
    false
}

/// The processors that a server is pinned to, as it wrote them but for white space; none where it
/// wrote none. Every thread must exist on the node and be listed once.
pub fn pinned_cpu_set(requested: &str, available: usize) -> (r: Result<Option<String>, Failure>)
    requires
        available >= 1,
    ensures
        ({
            let v = without_space(requested@);
            let ranges = pinned_ranges(text::split_on(v, ','), available);
            if v.len() == 0 {
                r is Ok && r->Ok_0 is None
            } else {
                &&& r is Ok <==> ranges is Ok
                &&& r is Ok ==> text::opt_view(r->Ok_0) == Some(v)
                &&& r is Err ==> r->Err_0.message@ == ranges->Err_0
            }
        }),
{
    let value = remove_space(requested);
    if text::is_empty(value.as_str()) {
        return Ok(None);
    }
    let segments = text::split(value.as_str(), ',');
    let ghost all = text::views(segments@);
    let mut ranges: Vec<(usize, usize)> = Vec::new();
    let mut i: usize = 0;
    assert(all.take(0) =~= Seq::<Seq<char>>::empty());
    while i < segments.len()
        invariant
            available >= 1,
            all == text::views(segments@),
            all == text::split_on(value@, ','),
            value@.len() > 0,
            value@ == without_space(requested@),
            0 <= i <= segments@.len(),
            pinned_ranges(all.take(i as int), available) == Ok::<
                Seq<(usize, usize)>,
                Seq<char>,
            >(ranges@),
        decreases segments.len() - i,
    {
        let segment = segments[i].as_str();
        proof {
            assert(all.take(i as int + 1).drop_last() =~= all.take(i as int));
            assert(all.take(i as int + 1).last() == segment@);
        }
        match pin_segment(&mut ranges, segment, available) {
            Ok(()) => {},
            Err(e) => {
                proof {
                    lemma_pinned_fails(all, available, i as int + 1);
                }
                return Err(e);
            },
        }
        i += 1;
    }
    assert(all.take(all.len() as int) =~= all);
    Ok(Some(value))
}

fn pin_segment(ranges: &mut Vec<(usize, usize)>, segment: &str, available: usize) -> (r: Result<
    (),
    Failure,
>)
    requires
        available >= 1,
    ensures
        match with_segment(old(ranges)@, segment@, available) {
            Ok(after) => r is Ok && final(ranges)@ == after,
            Err(m) => r is Err && r->Err_0.message@ == m,
        },
{
    let (start, end) = match parse_range(segment) {
        Ok(p) => p,
        Err(e) => {
            return Err(e);
        },
    };
    if end < start {
        return Err(
            Failure { message: text::concat3("invalid pinned CPU thread range '", segment, "'") },
        );
    }
    if end >= available {
        let last = text::decimal_string(end as u64);
        let limit = text::decimal_string((available - 1) as u64);
        return Err(
            Failure {
                message: text::concat4(
                    "pinned CPU thread ",
                    last.as_str(),
                    " does not exist; this node has threads 0-",
                    limit.as_str(),
                ),
            },
        );
    }
    let mut thread: usize = start;
    while thread <= end
        invariant
            end < available,
            start <= thread <= end + 1,
            ranges@ == old(ranges)@,
            first_selected(ranges@, start as int, end as int) == first_selected(
                ranges@,
                thread as int,
                end as int,
            ),
            thread_range(segment@) == Ok::<(usize, usize), Seq<char>>((start, end)),
            start <= end,
        decreases end + 1 - thread,
    {
        if thread_selected(ranges, thread) {
            let shown = text::decimal_string(thread as u64);
            return Err(
                Failure {
                    message: text::concat3(
                        "pinned CPU thread ",
                        shown.as_str(),
                        " is listed more than once",
                    ),
                },
            );
        }
        thread += 1;
    }
    ranges.push((start, end));
    Ok(())
}

/// The disk space that a server's files may take: its own limit, less the swap that is kept on
/// its storage; or why there is none.
pub open spec fn disk_share(disk: i64, swap: i64, storage: Seq<char>) -> Result<i64, Seq<char>> {
    if swap < 0 {
        Err("swap memory cannot be negative"@)
    } else if storage == "server"@ && swap > 0 {
        if disk <= swap {
            Err("server storage must be larger than swap memory"@)
        } else {
            Ok((disk - swap) as i64)
        }
    } else {
        Ok(disk)
    }
}

/// The disk space that a server's files may take.
pub fn effective_disk_limit(disk: i64, swap: i64, storage: &str) -> (r: Result<i64, Failure>)
    ensures
        match disk_share(disk, swap, storage@) {
            Ok(limit) => r is Ok && r->Ok_0 == limit,
            Err(m) => r is Err && r->Err_0.message@ == m,
        },
{
    if swap < 0 {
        return Err(Failure::new("swap memory cannot be negative"));
    }
    if text::same(storage, "server") && swap > 0 {
        if disk <= swap {
            return Err(Failure::new("server storage must be larger than swap memory"));
        }
        Ok(disk - swap)
    } else {
        Ok(disk)
    }
}

// ---------------------------------------------------------------------------------------------
// The file that a server starts.

/// A quote of either kind.
pub open spec fn is_quote(c: char) -> bool {
    c == '\'' || c == '"'
}

/// A word without quotes at its ends.
pub open spec fn unquoted(s: Seq<char>) -> Seq<char>
    decreases s.len(),
{
    if s.len() > 0 && is_quote(s[0]) {
        unquoted(s.drop_first())
    } else if s.len() > 0 && is_quote(s.last()) {
        unquoted(s.drop_last())
    } else {
        s
    }
}

fn unquote(s: &str) -> (r: String)
    ensures
        r@ == unquoted(s@),
{
    let cs = text::chars_of(s);
    let mut a: usize = 0;
    let mut b: usize = cs.len();
    assert(cs@.subrange(0, b as int) =~= s@);
    while a < b && (cs[a] == '\'' || cs[a] == '"')
        invariant
            0 <= a <= b <= cs@.len(),
            b == cs@.len(),
            unquoted(s@) == unquoted(cs@.subrange(a as int, b as int)),
        decreases b - a,
    {
        assert(cs@.subrange(a as int, b as int).drop_first() =~= cs@.subrange(
            a as int + 1,
            b as int,
        ));
        a += 1;
    }
    while a < b && (cs[b - 1] == '\'' || cs[b - 1] == '"')
        invariant
            0 <= a <= b <= cs@.len(),
            a < b ==> !is_quote(cs@[a as int]),
            unquoted(s@) == unquoted(cs@.subrange(a as int, b as int)),
        decreases b,
    {
        assert(cs@.subrange(a as int, b as int).drop_last() =~= cs@.subrange(a as int, b - 1));
        b -= 1;
    }
    text::string_range(cs.as_slice(), a, b)
}

/// A path without steps to the current directory at its start.
pub open spec fn without_dot_slash(s: Seq<char>) -> Seq<char>
    decreases s.len(),
{
    if s.len() >= 2 && s[0] == '.' && s[1] == '/' {
        without_dot_slash(s.skip(2))
    } else {
        s
    }
}

fn strip_dot_slash(s: &str) -> (r: String)
    ensures
        r@ == without_dot_slash(s@),
{
    let cs = text::chars_of(s);
    let mut a: usize = 0;
    assert(cs@.skip(0) =~= s@);
    while cs.len() - a >= 2 && cs[a] == '.' && cs[a + 1] == '/'
        invariant
            0 <= a <= cs@.len(),
            without_dot_slash(s@) == without_dot_slash(cs@.skip(a as int)),
        decreases cs.len() - a,
    {
        assert(cs@.skip(a as int).skip(2) =~= cs@.skip(a as int + 2));
        a += 2;
    }
    let r = text::string_range(cs.as_slice(), a, cs.len());
    assert(r@ =~= cs@.skip(a as int));
    r
}

/// A word of a startup command that names a file of the server.
pub open spec fn names_file(word: Seq<char>) -> bool {
    text::ends(word, ".jar"@) || text::begins(word, "./"@)
}

/// The file that the first such word names.
pub open spec fn first_file(words: Seq<Seq<char>>) -> Option<Seq<char>>
    decreases words.len(),
{
    if words.len() == 0 {
        None
    } else if names_file(unquoted(words[0])) {
        Some(without_dot_slash(unquoted(words[0])))
    } else {
        first_file(words.drop_first())
    }
}

/// The file of the server that a startup command runs, relative to the server's directory.
pub fn startup_target(command: &str) -> (r: Option<String>)
    ensures
        text::opt_view(r) == first_file(text::words_of(command@)),
{
    let words = text::words(command);
    let ghost all = text::views(words@);
    let mut i: usize = 0;
    assert(all.skip(0) =~= all);
    while i < words.len()
        invariant
            all == text::views(words@),
            all == text::words_of(command@),
            0 <= i <= words@.len(),
            first_file(all) == first_file(all.skip(i as int)),
        decreases words.len() - i,
    {
        proof {
            assert(all.skip(i as int)[0] == words@[i as int]@);
            assert(all.skip(i as int).drop_first() =~= all.skip(i as int + 1));
        }
        let word = unquote(words[i].as_str());
        if text::ends_with(word.as_str(), ".jar") || text::starts_with(word.as_str(), "./") {
            return Some(strip_dot_slash(word.as_str()));
        }
        i += 1;
    }
    None
}

/// What was found where the startup file should be.
pub enum TargetState {
    File,
    NotAFile,
    Missing,
    /// It could not be looked at, for this reason.
    Unreadable(String),
}

/// What follows from looking for the startup file.
pub enum TargetCheck {
    Ready,
    /// Look again after a pause.
    Again,
    /// It is missing for good.
    Missing(MissingStartupTarget),
    Failed(Failure),
}

/// A startup file that is not there.
pub struct MissingStartupTarget {
    pub target: String,
    pub resolved: String,
}

impl MissingStartupTarget {
    /// What a user is told.
    pub fn message(&self) -> (r: String)
        ensures
            r@ == "Startup target '"@ + self.target@ + "' was not found at '"@ + self.resolved@
                + "'."@,
    {
        text::concat5(
            "Startup target '",
            self.target.as_str(),
            "' was not found at '",
            self.resolved.as_str(),
            "'.",
        )
    }
}

/// Judges what was found at the given attempt, counted from 1: a missing file is looked for again
/// until the attempts are used up.
pub fn check_startup_target(root: &str, target: &str, attempt: usize, state: TargetState) -> (r:
    TargetCheck)
    ensures
        match state {
            TargetState::File => r is Ready,
            TargetState::NotAFile => r is Failed && r->Failed_0.message@ == "Startup target '"@
                + target@ + "' exists at '"@ + joined(root@, target@)
                + "', but is not a regular file."@,
            TargetState::Missing => if attempt < STARTUP_TARGET_CHECK_ATTEMPTS {
                r is Again
            } else {
                &&& r is Missing
                &&& r->Missing_0.target@ == target@
                &&& r->Missing_0.resolved@ == joined(root@, target@)
            },
            TargetState::Unreadable(_) => r is Failed && r->Failed_0.message@
                == "inspect startup target '"@ + target@ + "' at '"@ + joined(root@, target@)
                + "'"@,
        },
{
    let resolved = join_path(root, target);
    match state {
        TargetState::File => TargetCheck::Ready,
        TargetState::NotAFile => TargetCheck::Failed(
            Failure {
                message: text::concat5(
                    "Startup target '",
                    target,
                    "' exists at '",
                    resolved.as_str(),
                    "', but is not a regular file.",
                ),
            },
        ),
        TargetState::Missing => if attempt < STARTUP_TARGET_CHECK_ATTEMPTS {
            TargetCheck::Again
        } else {
            TargetCheck::Missing(MissingStartupTarget { target: target.to_owned(), resolved })
        },
        TargetState::Unreadable(_) => TargetCheck::Failed(
            Failure {
                message: text::concat5(
                    "inspect startup target '",
                    target,
                    "' at '",
                    resolved.as_str(),
                    "'",
                ),
            },
        ),
    }
}

// ---------------------------------------------------------------------------------------------
// Laws.

/// The managed environment sets the runtime directory exactly once, to a value that is not empty,
/// and managing it again changes nothing.
pub proof fn law_managed_environment_is_stable(values: Seq<Seq<char>>)
    ensures
        other_entries(managed_environment(values)) == other_entries(values),
        managed_environment(values).len() == other_entries(values).len() + 1,
        runtime_dir(managed_environment(values)) == Some(chosen_runtime_dir(values)),
        !text::is_blank(chosen_runtime_dir(values)),
        managed_environment(managed_environment(values)) == managed_environment(values),
{
    let entry = XDG_RUNTIME_DIR_KEY@ + "="@ + chosen_runtime_dir(values);
    let out = managed_environment(values);
    reveal_strlit("=");
    reveal_strlit("XDG_RUNTIME_DIR");
    assert(XDG_RUNTIME_DIR_KEY@ == "XDG_RUNTIME_DIR"@);
    let n = XDG_RUNTIME_DIR_KEY@.len() as int;
    assert forall|k: int| 0 <= k < n implies entry[k] != '=' by {
        assert(entry[k] == XDG_RUNTIME_DIR_KEY@[k]);
    }
    assert(entry[n] == '=');
    text::lemma_index_of_unique(entry, '=', n);
    assert(entry.take(n) =~= XDG_RUNTIME_DIR_KEY@);
    assert(entry.skip(n + 1) =~= chosen_runtime_dir(values));
    assert(runtime_dir_of(entry) == Some(chosen_runtime_dir(values)));
    assert(out.last() == entry);
    assert(out.drop_last() =~= other_entries(values));
    lemma_other_entries_stable(values);
    match runtime_dir(values) {
        Some(value) => text::lemma_trimmed_twice(value),
        None => {},
    }
    reveal_strlit("/tmp/agapornis-runtime");
    let managed = MANAGED_XDG_RUNTIME_DIR@;
    assert(managed == "/tmp/agapornis-runtime"@);
    assert(managed[0] == '/' && managed.last() == 'e');
    assert(text::trimmed(managed) == managed);
}

proof fn lemma_other_entries_stable(values: Seq<Seq<char>>)
    ensures
        other_entries(other_entries(values)) == other_entries(values),
    decreases values.len(),
{
    if values.len() > 0 {
        lemma_other_entries_stable(values.drop_last());
        if runtime_dir_of(values.last()) is None {
            let front = other_entries(values.drop_last());
            assert(front.push(values.last()).drop_last() =~= front);
        }
    }
}

/// An entry sets the runtime directory where its key is the name of it, to what stands behind the
/// first equals sign.
pub proof fn law_entries_set_the_runtime_directory(key: Seq<char>, value: Seq<char>)
    requires
        !key.contains('='),
    ensures
        runtime_dir_of(key + "="@ + value) == if key == "XDG_RUNTIME_DIR"@ {
            Some(value)
        } else {
            None
        },
        runtime_dir_of(key) is None,
{
    reveal_strlit("=");
    let s = key + "="@ + value;
    let n = key.len() as int;
    assert(s[n] == '=');
    assert forall|k: int| 0 <= k < n implies s[k] != '=' && key[k] != '=' by {
        assert(key.contains(key[k]));
    }
    text::lemma_index_of_unique(s, '=', n);
    text::lemma_index_of_unique(key, '=', n);
    assert(s.take(n) =~= key);
    assert(s.skip(n + 1) =~= value);
}

/// A server keeps every entry of its environment but those that set the runtime directory.
pub proof fn law_environments_are_kept(values: Seq<Seq<char>>, i: int)
    requires
        0 <= i < values.len(),
        runtime_dir_of(values[i]) is None,
    ensures
        other_entries(values).contains(values[i]),
        managed_environment(values).contains(values[i]),
    decreases values.len(),
{
    let before = values.drop_last();
    let out = other_entries(values);
    if i < values.len() - 1 {
        law_environments_are_kept(before, i);
        assert(before[i] == values[i]);
        let j = choose|j: int|
            0 <= j < other_entries(before).len() && other_entries(before)[j] == values[i];
        assert(out[j] == values[i]);
    } else {
        assert(out[out.len() - 1] == values[i]);
    }
    let j = choose|j: int| 0 <= j < out.len() && out[j] == values[i];
    assert(managed_environment(values)[j] == values[i]);
}

/// Entries are kept in their order, and the last one to set the runtime directory counts, without
/// white space around it. Where it sets nothing, and where none does, the managed directory is used.
pub proof fn law_the_last_runtime_directory_counts(
    values: Seq<Seq<char>>,
    entry: Seq<char>,
    value: Seq<char>,
)
    requires
        runtime_dir_of(entry) is None,
    ensures
        other_entries(values.push(entry)) == other_entries(values).push(entry),
        chosen_runtime_dir(values.push(entry)) == chosen_runtime_dir(values),
        chosen_runtime_dir(values.push("XDG_RUNTIME_DIR"@ + "="@ + value)) == if text::is_blank(
            value,
        ) {
            "/tmp/agapornis-runtime"@
        } else {
            text::trimmed(value)
        },
        other_entries(values.push("XDG_RUNTIME_DIR"@ + "="@ + value)) == other_entries(values),
        chosen_runtime_dir(Seq::empty()) == "/tmp/agapornis-runtime"@,
        managed_environment(values).last() == "XDG_RUNTIME_DIR"@ + "="@ + chosen_runtime_dir(values),
{
    let plain = values.push(entry);
    assert(plain.drop_last() =~= values);
    let set = values.push("XDG_RUNTIME_DIR"@ + "="@ + value);
    assert(set.drop_last() =~= values);
    reveal_strlit("XDG_RUNTIME_DIR");
    assert(!"XDG_RUNTIME_DIR"@.contains('='));
    law_entries_set_the_runtime_directory("XDG_RUNTIME_DIR"@, value);
    text::law_trimming_takes_white_space(value);
    assert(XDG_RUNTIME_DIR_KEY@ == "XDG_RUNTIME_DIR"@);
    assert(MANAGED_XDG_RUNTIME_DIR@ == "/tmp/agapornis-runtime"@);
}

/// A server is started by a shell that runs the launcher, which gets the startup as it is.
pub proof fn law_startups_are_run_by_the_launcher(startup: Seq<char>)
    ensures
        text::is_blank(startup) <==> launcher_command(startup) is None,
        launcher_command(startup) is Some ==> launcher_command(startup)->0.len() == 5,
        launcher_command(startup) is Some ==> launcher_command(startup)->0[0] == "/bin/sh"@,
        launcher_command(startup) is Some ==> launcher_command(startup)->0[1] == "-lc"@,
        launcher_command(startup) is Some ==> launcher_command(startup)->0[2] == RUNTIME_LAUNCHER@,
        launcher_command(startup) is Some ==> launcher_command(startup)->0[4] == "exec "@ + startup,
{
}

/// The startup of a container without the launcher is found again: it is what its shell executes.
pub proof fn law_old_startups_are_found_again(command: Seq<Seq<char>>, startup: Seq<char>)
    ensures
        legacy_startup(command) == Some(startup) <==> command.len() == 3 && command[0]
            == "/bin/sh"@ && command[1] == "-lc"@ && command[2] == "exec "@ + startup
            && !text::is_blank(startup),
{
    if command.len() == 3 {
        text::law_prefixes_and_suffixes("exec "@, startup, command[2]);
    }
}

/// A server gets the processors that it asks for, else the percentage of one, else all.
pub proof fn law_processors_come_before_percentages(percent: i32, nano_cpus: i64)
    ensures
        nano_cpus > 0 ==> cpu_share(percent, nano_cpus) == nano_cpus,
        nano_cpus <= 0 && percent > 0 ==> cpu_share(percent, nano_cpus) == percent * 10_000_000,
        nano_cpus <= 0 && percent <= 0 ==> cpu_share(percent, nano_cpus) == 0,
{
    if nano_cpus <= 0 && percent > 0 {
        assert(0 < percent * 10_000_000 <= i64::MAX);
    }
}

/// White space goes from a list of threads, and nothing else does.
pub proof fn law_only_white_space_goes(s: Seq<char>, c: char)
    ensures
        text::is_space(c) ==> without_space(s.push(c)) == without_space(s),
        !text::is_space(c) ==> without_space(s.push(c)) == without_space(s).push(c),
        without_space(Seq::empty()) == Seq::<char>::empty(),
{
    assert(s.push(c).drop_last() =~= s);
}

/// A segment names one thread by its number, or all from one to another with a dash between.
pub proof fn law_segments_name_threads(a: usize, b: usize)
    ensures
        thread_range(text::decimal(a as nat)) == Ok::<(usize, usize), Seq<char>>((a, a)),
        thread_range(text::decimal(a as nat) + "-"@ + text::decimal(b as nat)) == Ok::<
            (usize, usize),
            Seq<char>,
        >((a, b)),
{
    reveal_strlit("-");
    let x = text::decimal(a as nat);
    let y = text::decimal(b as nat);
    text::law_decimal_reads_back(a as nat);
    text::law_decimal_reads_back(b as nat);
    let s = x + "-"@ + y;
    let n = x.len() as int;
    assert(s[n] == '-');
    assert forall|k: int| 0 <= k < n implies s[k] != '-' && x[k] != '-' by {
        assert(text::is_digit(x[k]));
    }
    text::lemma_index_of_unique(s, '-', n);
    text::lemma_index_of_unique(x, '-', n);
    assert(s.take(n) =~= x);
    assert(s.skip(n + 1) =~= y);
}

proof fn lemma_first_selected(ranges: Seq<(usize, usize)>, from: int, to: int)
    ensures
        first_selected(ranges, from, to) is None <==> forall|t: int|
            from <= t <= to ==> !(#[trigger] selected(ranges, t)),
    decreases to + 1 - from,
{
    if from <= to {
        if selected(ranges, from) {
            assert(first_selected(ranges, from, to) is Some);
        } else {
            lemma_first_selected(ranges, from + 1, to);
            assert(first_selected(ranges, from, to) == first_selected(ranges, from + 1, to));
        }
    }
}

/// A segment is taken exactly where it names threads that the node has, in their order, none of
/// which was named before.
pub proof fn law_threads_are_named_once(
    ranges: Seq<(usize, usize)>,
    segment: Seq<char>,
    start: usize,
    end: usize,
    available: usize,
)
    requires
        thread_range(segment) == Ok::<(usize, usize), Seq<char>>((start, end)),
    ensures
        with_segment(ranges, segment, available) is Ok <==> start <= end && end < available && (
        forall|t: int| start <= t <= end ==> !(#[trigger] selected(ranges, t))),
        with_segment(ranges, segment, available) is Ok ==> with_segment(ranges, segment, available)
            == Ok::<Seq<(usize, usize)>, Seq<char>>(ranges.push((start, end))),
{
    lemma_first_selected(ranges, start as int, end as int);
}

/// A list of threads that is taken has one range for each of its segments, each within the node,
/// and no two of them share a thread.
pub proof fn law_pinned_threads_are_distinct(segments: Seq<Seq<char>>, available: usize)
    requires
        pinned_ranges(segments, available) is Ok,
    ensures
        pinned_ranges(segments, available)->Ok_0.len() == segments.len(),
        forall|i: int|
            0 <= i < segments.len() ==> thread_range(#[trigger] segments[i]) == Ok::<
                (usize, usize),
                Seq<char>,
            >(pinned_ranges(segments, available)->Ok_0[i]),
        forall|i: int|
            0 <= i < segments.len() ==> (#[trigger] pinned_ranges(segments, available)->Ok_0[i]).0
                <= pinned_ranges(segments, available)->Ok_0[i].1 < available,
        forall|i: int, j: int|
            0 <= i < j < segments.len() ==> (#[trigger] pinned_ranges(segments, available)->Ok_0[i]).1
                < (#[trigger] pinned_ranges(segments, available)->Ok_0[j]).0 || pinned_ranges(
                segments,
                available,
            )->Ok_0[j].1 < pinned_ranges(segments, available)->Ok_0[i].0,
    decreases segments.len(),
{
    if segments.len() > 0 {
        let before = segments.drop_last();
        law_pinned_threads_are_distinct(before, available);
        let old_ranges = pinned_ranges(before, available)->Ok_0;
        let all = pinned_ranges(segments, available)->Ok_0;
        let last = segments.last();
        assert(with_segment(old_ranges, last, available) is Ok);
        assert(thread_range(last) is Ok);
        let (start, end) = thread_range(last)->Ok_0;
        law_threads_are_named_once(old_ranges, last, start, end, available);
        assert(all == old_ranges.push((start, end)));
        assert forall|i: int| 0 <= i < segments.len() implies thread_range(#[trigger] segments[i])
            == Ok::<(usize, usize), Seq<char>>(all[i]) by {
            if i < before.len() {
                assert(before[i] == segments[i]);
            }
        }
        assert forall|i: int| 0 <= i < segments.len() implies (#[trigger] all[i]).0 <= all[i].1
            < available by {
            if i < before.len() {
                assert(all[i] == old_ranges[i]);
            }
        }
        assert forall|i: int, j: int| 0 <= i < j < segments.len() implies (#[trigger] all[i]).1 < (
        #[trigger] all[j]).0 || all[j].1 < all[i].0 by {
            assert(all[i] == old_ranges[i]);
            if j < before.len() {
                assert(all[j] == old_ranges[j]);
            } else {
                let t: int = if old_ranges[i].0 >= start {
                    old_ranges[i].0 as int
                } else {
                    start as int
                };
                if start <= old_ranges[i].1 && old_ranges[i].0 <= end {
                    assert(old_ranges[i].0 <= t <= old_ranges[i].1);
                    assert(selected(old_ranges, t));
                }
            }
        }
    }
}

/// Swap that is kept on a server's storage counts against the space for its files, which has to
/// leave some; swap that is kept elsewhere does not.
pub proof fn law_swap_takes_disk_space(disk: i64, swap: i64, storage: Seq<char>)
    ensures
        swap < 0 ==> disk_share(disk, swap, storage) is Err,
        swap == 0 ==> disk_share(disk, swap, storage) == Ok::<i64, Seq<char>>(disk),
        swap > 0 && storage != "server"@ ==> disk_share(disk, swap, storage) == Ok::<
            i64,
            Seq<char>,
        >(disk),
        swap > 0 ==> (disk_share(disk, swap, "server"@) is Ok <==> disk > swap),
        swap > 0 && disk > swap ==> disk_share(disk, swap, "server"@) is Ok && disk_share(
            disk,
            swap,
            "server"@,
        )->Ok_0 + swap == disk,
{
}

/// Quotes go from both ends of a word, and steps to the current directory from its start; what is
/// left has neither.
pub proof fn law_words_lose_quotes(s: Seq<char>, q: char)
    requires
        q == '"' || q == '\'',
        s.len() > 0 ==> s[0] != '"' && s[0] != '\'' && s.last() != '"' && s.last() != '\'',
    ensures
        unquoted(s) == s,
        unquoted(seq![q] + s + seq![q]) == s,
        without_dot_slash(seq!['.', '/'] + s) == without_dot_slash(s),
        !(s.len() >= 2 && s[0] == '.' && s[1] == '/') ==> without_dot_slash(s) == s,
{
    let both = seq![q] + s + seq![q];
    let right = s + seq![q];
    assert(both[0] == q);
    assert(both.drop_first() =~= right);
    assert(unquoted(both) == unquoted(right));
    assert(right.last() == q);
    assert(right.drop_last() =~= s);
    if s.len() > 0 {
        assert(right[0] == s[0]);
        assert(unquoted(right) == unquoted(s));
    } else {
        assert(right.drop_first() =~= s);
        assert(unquoted(right) == unquoted(s));
    }
    let dotted = seq!['.', '/'] + s;
    assert(dotted.skip(2) =~= s);
}

/// The file that a startup command runs is the first word that names one: a Java archive, or a
/// path from the current directory.
pub proof fn law_the_first_named_file_is_run(words: Seq<Seq<char>>, i: int)
    requires
        0 <= i < words.len(),
        forall|k: int|
            0 <= k < i ==> !text::ends(unquoted(#[trigger] words[k]), ".jar"@) && !text::begins(
                unquoted(words[k]),
                "./"@,
            ),
    ensures
        text::ends(unquoted(words[i]), ".jar"@) || text::begins(unquoted(words[i]), "./"@)
            ==> first_file(words) == Some(without_dot_slash(unquoted(words[i]))),
        i == words.len() - 1 && !text::ends(unquoted(words[i]), ".jar"@) && !text::begins(
            unquoted(words[i]),
            "./"@,
        ) ==> first_file(words) is None,
    decreases words.len(),
{
    if i > 0 {
        let rest = words.drop_first();
        assert forall|k: int| 0 <= k < i - 1 implies !text::ends(
            unquoted(#[trigger] rest[k]),
            ".jar"@,
        ) && !text::begins(unquoted(rest[k]), "./"@) by {
            assert(rest[k] == words[k + 1]);
        }
        assert(!names_file(unquoted(words[0])));
        law_the_first_named_file_is_run(rest, i - 1);
        assert(rest[i - 1] == words[i]);
    } else if words.len() == 1 {
        assert(words.drop_first().len() == 0);
        assert(first_file(words.drop_first()) is None);
    }
}

} // verus!
