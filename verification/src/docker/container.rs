//! The container that a server runs in.

use crate::docker::database::{
    database_health_command, database_port, effective_internal_port, health_command,
    listening_port, named_port,
};
use crate::docker::ports::{
    add_port_mapping, binds_host, law_ports_are_exposed_and_bound, law_ports_read_back,
    mappings_view, normalized, port_key, with_port, PortPlan, PortPlanView,
};
use crate::docker::runtime::{cpu_share, effective_cpus};
use crate::error::Failure;
use crate::paths::{DATA_CONTAINER_PATH, HOME_CONTAINER_PATH};
use crate::text;
use vstd::prelude::*;

verus! {

/// A server that is to be created. Processors are given in billionths of one, and once more as
/// the text that labels the container.
pub struct CreateSpec {
    pub server_id: String,
    pub image: String,
    pub internal_port: String,
    pub env: Vec<String>,
    pub memory_bytes: i64,
    pub cpu_limit_percentage: i32,
    pub cpu_nanos: i64,
    pub cpu_cores: String,
    pub disk_limit_bytes: i64,
    pub startup_command: String,
    pub stop_command: String,
    pub startup_done: String,
    pub install_image: String,
    pub install_entrypoint: String,
    pub install_script: String,
    pub config_files_json: String,
    pub host_port: i32,
    pub network_owner_id: String,
    pub expose_public_port: bool,
    pub port_mappings: Vec<(String, i32)>,
}

/// How Docker tells whether a database is up. Times are in nanoseconds.
pub struct HealthPlan {
    pub command: String,
    pub interval: i64,
    pub timeout: i64,
    pub start_period: i64,
    pub retries: i64,
}

/// The container that a server runs in.
pub struct ContainerPlan {
    pub image: String,
    pub user: String,
    pub working_dir: String,
    /// Its input stays open between the agent's attachments.
    pub open_stdin: bool,
    pub stdin_once: bool,
    pub tty: bool,
    /// Its input and both its outputs can be attached to.
    pub attached: bool,
    pub env: Option<Vec<String>>,
    pub cmd: Option<Vec<String>>,
    pub health: Option<HealthPlan>,
    pub labels: Vec<(String, String)>,
    pub exposed_ports: Option<Vec<String>>,
    /// Where the server's directory is seen inside the container.
    pub mount_targets: Vec<String>,
    pub mount_source: String,
    pub network: String,
    pub alias: String,
    pub pids_limit: i64,
    pub restarts_on_failure: i64,
    pub security_option: String,
    pub memory: Option<i64>,
    pub memory_swap: Option<i64>,
    pub nano_cpus: Option<i64>,
    pub port_bindings: Option<Vec<(String, Vec<u16>)>>,
}

/// The places where the server's directory is seen: its data directory and the two usual ones,
/// in order and each once.
pub open spec fn mount_points(data_path: Seq<char>) -> Seq<Seq<char>> {
    let home = HOME_CONTAINER_PATH@;
    let data = DATA_CONTAINER_PATH@;
    if data_path == data || data_path == home {
        seq![data, home]
    } else if text::precedes(data_path, data) {
        seq![data_path, data, home]
    } else if text::precedes(data_path, home) {
        seq![data, data_path, home]
    } else {
        seq![data, home, data_path]
    }
}

/// The places where the server's directory is seen.
pub fn server_mounts(data_path: &str) -> (r: Vec<String>)
    ensures
        text::views(r@) == mount_points(data_path@),
{
    let home = HOME_CONTAINER_PATH;
    let data = DATA_CONTAINER_PATH;
    let out = if text::same(data_path, data) || text::same(data_path, home) {
        text::owned(vec![data, home])
    } else if text::is_before(data_path, data) {
        text::owned(vec![data_path, data, home])
    } else if text::is_before(data_path, home) {
        text::owned(vec![data, data_path, home])
    } else {
        text::owned(vec![data, home, data_path])
    };
    assert(text::views(out@) =~= mount_points(data_path@));
    out
}

/// Labels by their contents.
pub open spec fn labels_view(l: Seq<(String, String)>) -> Seq<(Seq<char>, Seq<char>)> {
    l.map_values(|e: (String, String)| (e.0@, e.1@))
}

/// The labels by which the agent knows its container.
pub open spec fn labels_of(spec: CreateSpec, network: Seq<char>, data_path: Seq<char>) -> Seq<
    (Seq<char>, Seq<char>),
> {
    let labels = seq![
        ("agapornis.server_id"@, spec.server_id@),
        ("agapornis.disk_limit_bytes"@, text::signed_decimal(spec.disk_limit_bytes as int)),
        ("agapornis.cpu_cores"@, spec.cpu_cores@),
        (
            "agapornis.cpu_limit_percentage"@,
            text::signed_decimal(spec.cpu_limit_percentage as int),
        ),
        ("agapornis.data_path"@, data_path),
        ("agapornis.network"@, network),
        ("agapornis.stop_command"@, spec.stop_command@),
        ("agapornis.startup_done"@, spec.startup_done@),
    ];
    if text::is_blank(spec.network_owner_id@) {
        labels
    } else {
        labels.push(("agapornis.network_owner_id"@, spec.network_owner_id@))
    }
}

fn push_label(labels: &mut Vec<(String, String)>, key: &str, value: &str)
    ensures
        labels_view(final(labels)@) == labels_view(old(labels)@).push((key@, value@)),
{
    labels.push((key.to_owned(), value.to_owned()));
    assert(labels_view(labels@) =~= labels_view(old(labels)@).push((key@, value@)));
}

/// The labels by which the agent knows its container.
pub fn server_labels(spec: &CreateSpec, network: &str, data_path: &str) -> (r: Vec<
    (String, String),
>)
    ensures
        labels_view(r@) == labels_of(*spec, network@, data_path@),
{
    let disk = text::signed_decimal_string(spec.disk_limit_bytes);
    let percent = text::signed_decimal_string(spec.cpu_limit_percentage as i64);
    let mut labels: Vec<(String, String)> = Vec::new();
    assert(labels_view(labels@) =~= Seq::<(Seq<char>, Seq<char>)>::empty());
    push_label(&mut labels, "agapornis.server_id", spec.server_id.as_str());
    push_label(&mut labels, "agapornis.disk_limit_bytes", disk.as_str());
    push_label(&mut labels, "agapornis.cpu_cores", spec.cpu_cores.as_str());
    push_label(&mut labels, "agapornis.cpu_limit_percentage", percent.as_str());
    push_label(&mut labels, "agapornis.data_path", data_path);
    push_label(&mut labels, "agapornis.network", network);
    push_label(&mut labels, "agapornis.stop_command", spec.stop_command.as_str());
    push_label(&mut labels, "agapornis.startup_done", spec.startup_done.as_str());
    if !text::blank(spec.network_owner_id.as_str()) {
        push_label(&mut labels, "agapornis.network_owner_id", spec.network_owner_id.as_str());
    }
    assert(labels_view(labels@) =~= labels_of(*spec, network@, data_path@));
    labels
}

/// The plan without ports.
pub open spec fn no_ports() -> PortPlanView {
    PortPlanView { exposed: Seq::empty(), bindings: Seq::empty() }
}

/// The plan with every mapping, or why the first one to be refused is refused.
pub open spec fn mapped(m: Seq<(Seq<char>, i32)>, taken: Seq<u16>) -> Result<
    PortPlanView,
    Seq<char>,
>
    decreases m.len(),
{
    if m.len() == 0 {
        Ok(no_ports())
    } else {
        match mapped(m.drop_last(), taken) {
            Err(e) => Err(e),
            Ok(plan) => with_port(plan, m.last().0, Some(m.last().1), taken),
        }
    }
}

proof fn lemma_mapped_fails(m: Seq<(Seq<char>, i32)>, taken: Seq<u16>, i: int)
    requires
        0 <= i <= m.len(),
        mapped(m.take(i), taken) is Err,
    ensures
        mapped(m, taken) == mapped(m.take(i), taken),
    decreases m.len() - i,
{
    if i < m.len() {
        assert(m.take(i + 1).drop_last() =~= m.take(i));
        lemma_mapped_fails(m, taken, i + 1);
    } else {
        assert(m.take(i) =~= m);
    }
}

/// The ports of a server: those it maps, or the one it listens on, bound to `host_port` where the
/// server is reachable from outside.
pub open spec fn ports_of(spec: CreateSpec, host_port: i32, taken: Seq<u16>) -> Result<
    PortPlanView,
    Seq<char>,
> {
    if spec.expose_public_port && spec.port_mappings@.len() > 0 {
        mapped(mappings_view(spec.port_mappings@), taken)
    } else {
        match listening_port(spec.internal_port@, text::views(spec.env@)) {
            Err(m) => Err(m),
            Ok(None) => Ok(no_ports()),
            Ok(Some(port)) => with_port(
                no_ports(),
                port,
                if spec.expose_public_port {
                    Some(host_port)
                } else {
                    None
                },
                taken,
            ),
        }
    }
}

/// The ports of a server. `taken` are the host ports that cannot be bound.
pub fn server_ports(spec: &CreateSpec, host_port: i32, taken: &Vec<u16>) -> (r: Result<
    PortPlan,
    Failure,
>)
    ensures
        match ports_of(*spec, host_port, taken@) {
            Ok(plan) => r is Ok && r->Ok_0@ == plan,
            Err(m) => r is Err && r->Err_0.message@ == m,
        },
{
    let mut plan = PortPlan { exposed: Vec::new(), bindings: Vec::new() };
    assert(plan@ =~= no_ports());
    if spec.expose_public_port && spec.port_mappings.len() > 0 {
        let ghost all = mappings_view(spec.port_mappings@);
        let mut i: usize = 0;
        assert(all.take(0) =~= Seq::<(Seq<char>, i32)>::empty());
        while i < spec.port_mappings.len()
            invariant
                all == mappings_view(spec.port_mappings@),
                ports_of(*spec, host_port, taken@) == mapped(all, taken@),
                0 <= i <= spec.port_mappings@.len(),
                mapped(all.take(i as int), taken@) == Ok::<PortPlanView, Seq<char>>(plan@),
            decreases spec.port_mappings.len() - i,
        {
            let host = spec.port_mappings[i].1;
            let internal = spec.port_mappings[i].0.as_str();
            proof {
                assert(all.take(i as int + 1).drop_last() =~= all.take(i as int));
                assert(all.take(i as int + 1).last() == (internal@, host));
            }
            match add_port_mapping(&mut plan, internal, Some(host), taken) {
                Ok(()) => {},
                Err(e) => {
                    proof {
                        lemma_mapped_fails(all, taken@, i as int + 1);
                    }
                    return Err(e);
                },
            }
            i += 1;
        }
        assert(all.take(all.len() as int) =~= all);
        return Ok(plan);
    }
    match effective_internal_port(spec.internal_port.as_str(), &spec.env) {
        Ok(Some(port)) => {
            let host = if spec.expose_public_port {
                Some(host_port)
            } else {
                None
            };
            match add_port_mapping(&mut plan, port.as_str(), host, taken) {
                Ok(()) => Ok(plan),
                Err(e) => Err(e),
            }
        },
        Ok(None) => Ok(plan),
        Err(e) => Err(e),
    }
}

/// What a server's container runs: a database on its port, the startup command in a shell, or
/// what the image says.
pub open spec fn command_of(startup: Seq<char>, env: Seq<Seq<char>>) -> Option<Seq<Seq<char>>> {
    match named_port(env) {
        Some(port) => Some(seq!["--port="@ + text::decimal(port as nat)]),
        None => if text::is_blank(startup) {
            None
        } else {
            Some(seq!["/bin/sh"@, "-lc"@, "exec "@ + startup])
        },
    }
}

/// What a server's container runs.
pub fn server_command(spec: &CreateSpec) -> (r: Option<Vec<String>>)
    ensures
        text::list_view(r) == command_of(spec.startup_command@, text::views(spec.env@)),
{
    if let Some(port) = database_port(&spec.env) {
        let shown = text::decimal_string(port as u64);
        let option = text::concat2("--port=", shown.as_str());
        let out = text::owned(vec![option.as_str()]);
        assert(text::views(out@) =~= seq![option@]);
        return Some(out);
    }
    if text::blank(spec.startup_command.as_str()) {
        return None;
    }
    let run = text::concat2("exec ", spec.startup_command.as_str());
    let out = text::owned(vec!["/bin/sh", "-lc", run.as_str()]);
    assert(text::views(out@) =~= seq!["/bin/sh"@, "-lc"@, run@]);
    Some(out)
}

/// A number that is positive.
pub open spec fn positive(n: i64) -> Option<i64> {
    if n > 0 {
        Some(n)
    } else {
        None
    }
}

fn if_positive(n: i64) -> (r: Option<i64>)
    ensures
        r == positive(n),
{
    if n > 0 {
        Some(n)
    } else {
        None
    }
}

/// The container that a server runs in. `taken` are the host ports that cannot be bound.
pub fn build_container(
    spec: &CreateSpec,
    host: &str,
    network: &str,
    data_path: String,
    host_port: i32,
    taken: &Vec<u16>,
) -> (r: Result<ContainerPlan, Failure>)
    ensures
        ({
            let ports = ports_of(*spec, host_port, taken@);
            &&& r is Ok <==> ports is Ok
            &&& r is Err ==> r->Err_0.message@ == ports->Err_0
            &&& r is Ok ==> {
                let p = r->Ok_0;
                let env = text::views(spec.env@);
                &&& p.image@ == spec.image@
                &&& p.user@ == "999:999"@
                &&& p.working_dir@ == data_path@
                &&& p.open_stdin && !p.stdin_once && p.tty && p.attached
                &&& text::list_view(p.env) == if env.len() > 0 {
                    Some(env)
                } else {
                    None
                }
                &&& text::list_view(p.cmd) == command_of(spec.startup_command@, env)
                &&& p.health is Some <==> health_command(env) is Some
                &&& p.health is Some ==> {
                    &&& Some(p.health->0.command@) == health_command(env)
                    &&& p.health->0.interval == 10_000_000_000
                    &&& p.health->0.timeout == 5_000_000_000
                    &&& p.health->0.start_period == 30_000_000_000
                    &&& p.health->0.retries == 5
                }
                &&& labels_view(p.labels@) == labels_of(*spec, network@, data_path@)
                &&& text::list_view(p.exposed_ports) == if ports->Ok_0.exposed.len() > 0 {
                    Some(ports->Ok_0.exposed)
                } else {
                    None
                }
                &&& text::views(p.mount_targets@) == mount_points(data_path@)
                &&& p.mount_source@ == host@
                &&& p.network@ == network@
                &&& p.alias@ == spec.server_id@
                &&& p.pids_limit == 512
                &&& p.restarts_on_failure == 2
                &&& p.security_option@ == "no-new-privileges"@
                &&& p.memory == positive(spec.memory_bytes)
                &&& p.memory_swap == positive(spec.memory_bytes)
                &&& p.nano_cpus == positive(
                    cpu_share(spec.cpu_limit_percentage, spec.cpu_nanos),
                )
                &&& p.port_bindings is Some <==> ports->Ok_0.bindings.len() > 0
                &&& p.port_bindings is Some ==> crate::docker::ports::bindings_view(
                    p.port_bindings->0@,
                ) == ports->Ok_0.bindings
            }
        }),
{
    let ports = match server_ports(spec, host_port, taken) {
        Ok(ports) => ports,
        Err(e) => {
            return Err(e);
        },
    };
    let labels = server_labels(spec, network, data_path.as_str());
    let mount_targets = server_mounts(data_path.as_str());
    let health = match database_health_command(&spec.env) {
        Some(command) => Some(
            HealthPlan {
                command,
                interval: 10_000_000_000,
                timeout: 5_000_000_000,
                start_period: 30_000_000_000,
                retries: 5,
            },
        ),
        None => None,
    };
    let PortPlan { exposed, bindings } = ports;
    Ok(
        ContainerPlan {
            image: spec.image.as_str().to_owned(),
            user: "999:999".to_owned(),
            working_dir: data_path,
            open_stdin: true,
            stdin_once: false,
            tty: true,
            attached: true,
            env: if spec.env.len() > 0 {
                Some(text::copy_list(&spec.env))
            } else {
                None
            },
            cmd: server_command(spec),
            health,
            labels,
            exposed_ports: if exposed.len() > 0 {
                Some(exposed)
            } else {
                None
            },
            mount_targets,
            mount_source: host.to_owned(),
            network: network.to_owned(),
            alias: spec.server_id.as_str().to_owned(),
            pids_limit: 512,
            restarts_on_failure: 2,
            security_option: "no-new-privileges".to_owned(),
            memory: if_positive(spec.memory_bytes),
            memory_swap: if_positive(spec.memory_bytes),
            nano_cpus: if_positive(effective_cpus(spec.cpu_limit_percentage, spec.cpu_nanos)),
            port_bindings: if bindings.len() > 0 {
                Some(bindings)
            } else {
                None
            },
        },
    )
}

/// Whether an image reference names a tag or a digest.
pub open spec fn is_tagged(image: Seq<char>) -> bool {
    image.contains('@') || image.skip(text::after_last(image, '/')).contains(':')
}

/// Whether an image reference names a tag or a digest.
pub fn image_has_tag_or_digest(image: &str) -> (r: bool)
    ensures
        r == is_tagged(image@),
{
    if text::has_char(image, '@') {
        return true;
    }
    let cs = text::chars_of(image);
    let start = text::find_last(cs.as_slice(), '/');
    let last = text::string_range(cs.as_slice(), start, cs.len());
    assert(last@ =~= image@.skip(start as int));
    text::has_char(last.as_str(), ':')
}

// ---------------------------------------------------------------------------------------------
// Laws.

/// The server's directory is seen at its data directory and at the two usual places, each once
/// and in order.
pub proof fn law_mounts_are_sorted_and_distinct(data_path: Seq<char>)
    ensures
        text::strictly_sorted(mount_points(data_path)),
        mount_points(data_path).to_set() == set![data_path, HOME_CONTAINER_PATH@, DATA_CONTAINER_PATH@],
{
    reveal_strlit("/home/container");
    reveal_strlit("/data");
    let home = HOME_CONTAINER_PATH@;
    let data = DATA_CONTAINER_PATH@;
    let m = mount_points(data_path);
    assert(text::precedes(data, home)) by {
        assert(data == "/data"@);
        assert(home == "/home/container"@);
        assert(data[0] == home[0]);
        assert(data.drop_first()[0] == 'd');
        assert(home.drop_first()[0] == 'h');
        reveal_with_fuel(text::precedes, 3);
    }
    text::lemma_order(data_path, data);
    text::lemma_order(data_path, home);
    assert forall|i: int, j: int| 0 <= i < j < m.len() implies text::precedes(
        #[trigger] m[i],
        #[trigger] m[j],
    ) by {
        if text::precedes(data_path, data) {
            text::lemma_order_transitive(data_path, data, home);
        }
        if text::precedes(home, data_path) {
            text::lemma_order_transitive(data, home, data_path);
        }
    }
    let s = set![data_path, home, data];
    assert forall|k: Seq<char>| m.contains(k) <==> s.contains(k) by {
        if s.contains(k) {
            assert(m[0] == k || m[1] == k || (m.len() > 2 && m[2] == k));
        }
    }
    assert(m.to_set() =~= s);
}

/// A database exposes its port to other containers even where it is private, and then binds no
/// port of the host.
pub proof fn law_private_databases_expose_their_port(
    spec: CreateSpec,
    host_port: i32,
    taken: Seq<u16>,
)
    requires
        !spec.expose_public_port,
        named_port(text::views(spec.env@)) is Some,
    ensures
        ports_of(spec, host_port, taken) == Ok::<PortPlanView, Seq<char>>(
            PortPlanView {
                exposed: seq![port_key(named_port(text::views(spec.env@))->0 as nat, "tcp"@)],
                bindings: Seq::empty(),
            },
        ),
{
    let port = named_port(text::views(spec.env@))->0;
    law_ports_read_back(port, "tcp"@);
    let key = port_key(port as nat, "tcp"@);
    assert(Seq::<Seq<char>>::empty().push(key) =~= seq![key]);
}

/// A server that is no database runs its startup command in a shell, exactly as it was given;
/// without one it runs what the image says. A database is told its port, whatever its startup
/// command is.
pub proof fn law_the_startup_command_is_run(startup: Seq<char>, env: Seq<Seq<char>>)
    ensures
        named_port(env) is None && text::trimmed(startup).len() > 0 ==> command_of(startup, env)
            is Some && command_of(startup, env)->0.len() == 3 && command_of(startup, env)->0[0]
            == "/bin/sh"@ && command_of(startup, env)->0[1] == "-lc"@ && command_of(
            startup,
            env,
        )->0[2] == "exec "@ + startup,
        named_port(env) is None && text::trimmed(startup).len() == 0 ==> command_of(startup, env)
            is None,
        named_port(env) is Some ==> command_of(startup, env) == Some(
            seq!["--port="@ + text::decimal(named_port(env)->0 as nat)],
        ),
{
}

/// The value of a label.
pub open spec fn label_value(labels: Seq<(Seq<char>, Seq<char>)>, name: Seq<char>) -> Option<
    Seq<char>,
>
    decreases labels.len(),
{
    if labels.len() == 0 {
        None
    } else if labels.last().0 == name {
        Some(labels.last().1)
    } else {
        label_value(labels.drop_last(), name)
    }
}

proof fn lemma_label_at(labels: Seq<(Seq<char>, Seq<char>)>, i: int)
    requires
        0 <= i < labels.len(),
        forall|j: int| i < j < labels.len() ==> (#[trigger] labels[j]).0 != labels[i].0,
    ensures
        label_value(labels, labels[i].0) == Some(labels[i].1),
    decreases labels.len(),
{
    if i < labels.len() - 1 {
        let front = labels.drop_last();
        assert(front[i] == labels[i]);
        assert forall|j: int| i < j < front.len() implies (#[trigger] front[j]).0 != front[i].0 by {
            assert(front[j] == labels[j]);
        }
        lemma_label_at(front, i);
    }
}

/// A container carries by its labels what the agent has to know again later: whose it is, what it
/// may use, where its data lies, which network it is in, how it is stopped, and how it says that it
/// is up. The owner of its network is named exactly where there is one.
pub proof fn law_labels_tell_what_was_asked_for(
    spec: CreateSpec,
    network: Seq<char>,
    data_path: Seq<char>,
)
    ensures
        ({
            let l = labels_of(spec, network, data_path);
            &&& label_value(l, "agapornis.server_id"@) == Some(spec.server_id@)
            &&& label_value(l, "agapornis.disk_limit_bytes"@) == Some(
                text::signed_decimal(spec.disk_limit_bytes as int),
            )
            &&& label_value(l, "agapornis.cpu_cores"@) == Some(spec.cpu_cores@)
            &&& label_value(l, "agapornis.cpu_limit_percentage"@) == Some(
                text::signed_decimal(spec.cpu_limit_percentage as int),
            )
            &&& label_value(l, "agapornis.data_path"@) == Some(data_path)
            &&& label_value(l, "agapornis.network"@) == Some(network)
            &&& label_value(l, "agapornis.stop_command"@) == Some(spec.stop_command@)
            &&& label_value(l, "agapornis.startup_done"@) == Some(spec.startup_done@)
            &&& l.len() == 8 + (if text::trimmed(spec.network_owner_id@).len() > 0 {
                1int
            } else {
                0
            })
            &&& text::trimmed(spec.network_owner_id@).len() > 0 ==> label_value(
                l,
                "agapornis.network_owner_id"@,
            ) == Some(spec.network_owner_id@)
        }),
{
    reveal_strlit("agapornis.server_id");
    reveal_strlit("agapornis.disk_limit_bytes");
    reveal_strlit("agapornis.cpu_cores");
    reveal_strlit("agapornis.cpu_limit_percentage");
    reveal_strlit("agapornis.data_path");
    reveal_strlit("agapornis.network");
    reveal_strlit("agapornis.stop_command");
    reveal_strlit("agapornis.startup_done");
    reveal_strlit("agapornis.network_owner_id");
    let l = labels_of(spec, network, data_path);
    assert forall|i: int, j: int| 0 <= i < j < l.len() implies (#[trigger] l[j]).0 != (
    #[trigger] l[i]).0 by {
        assert(l[i].0.len() != l[j].0.len() || l[i].0[10] != l[j].0[10] || l[i].0[11]
            != l[j].0[11] || l[i].0[12] != l[j].0[12]);
    }
    assert forall|i: int| 0 <= i < l.len() implies label_value(l, (#[trigger] l[i]).0) == Some(
        l[i].1,
    ) by {
        lemma_label_at(l, i);
    }
    assert(l[0].0 == "agapornis.server_id"@ && l[1].0 == "agapornis.disk_limit_bytes"@);
    assert(l[2].0 == "agapornis.cpu_cores"@ && l[3].0 == "agapornis.cpu_limit_percentage"@);
    assert(l[4].0 == "agapornis.data_path"@ && l[5].0 == "agapornis.network"@);
    assert(l[6].0 == "agapornis.stop_command"@ && l[7].0 == "agapornis.startup_done"@);
    if text::trimmed(spec.network_owner_id@).len() > 0 {
        assert(l[8].0 == "agapornis.network_owner_id"@);
    }
}

/// A limit counts where it is positive, and then as it is.
pub proof fn law_only_positive_limits_count(n: i64)
    ensures
        n > 0 ==> positive(n) == Some(n),
        n <= 0 ==> positive(n) is None,
{
}

proof fn lemma_mapped(m: Seq<(Seq<char>, i32)>, taken: Seq<u16>, key: Seq<char>, host: u16)
    ensures
        mapped(m, taken) is Ok <==> forall|i: int|
            0 <= i < m.len() ==> normalized((#[trigger] m[i]).0) is Ok && 0 <= m[i].1 <= 65535
                && !taken.contains(m[i].1 as u16),
        mapped(m, taken) is Ok ==> (mapped(m, taken)->Ok_0.exposed.contains(key) <==> exists|
            i: int,
        |
            0 <= i < m.len() && normalized((#[trigger] m[i]).0) == Ok::<Seq<char>, Seq<char>>(key)),
        mapped(m, taken) is Ok ==> (binds_host(mapped(m, taken)->Ok_0.bindings, key, host)
            <==> exists|i: int|
            0 <= i < m.len() && normalized((#[trigger] m[i]).0) == Ok::<Seq<char>, Seq<char>>(key)
                && m[i].1 == host),
    decreases m.len(),
{
    if m.len() > 0 {
        let front = m.drop_last();
        let n = m.len() - 1;
        lemma_mapped(front, taken, key, host);
        assert forall|i: int| 0 <= i < front.len() implies front[i] == #[trigger] m[i] by {}
        if mapped(front, taken) is Ok {
            law_ports_are_exposed_and_bound(
                mapped(front, taken)->Ok_0,
                m[n].0,
                Some(m[n].1),
                taken,
                key,
                host,
            );
            assert forall|i: int| 0 <= i < front.len() implies normalized((#[trigger] m[i]).0) is Ok
                && 0 <= m[i].1 <= 65535 && !taken.contains(m[i].1 as u16) by {
                assert(front[i] == m[i]);
            }
        } else {
            let i = choose|i: int|
                0 <= i < front.len() && !(normalized((#[trigger] front[i]).0) is Ok && 0
                    <= front[i].1 <= 65535 && !taken.contains(front[i].1 as u16));
            assert(m[i] == front[i]);
        }
        if mapped(m, taken) is Ok {
            if exists|i: int|
                0 <= i < front.len() && normalized((#[trigger] front[i]).0) == Ok::<
                    Seq<char>,
                    Seq<char>,
                >(key) {
                let i = choose|i: int|
                    0 <= i < front.len() && normalized((#[trigger] front[i]).0) == Ok::<
                        Seq<char>,
                        Seq<char>,
                    >(key);
                assert(normalized(m[i].0) == Ok::<Seq<char>, Seq<char>>(key));
            }
            if exists|i: int|
                0 <= i < front.len() && normalized((#[trigger] front[i]).0) == Ok::<
                    Seq<char>,
                    Seq<char>,
                >(key) && front[i].1 == host {
                let i = choose|i: int|
                    0 <= i < front.len() && normalized((#[trigger] front[i]).0) == Ok::<
                        Seq<char>,
                        Seq<char>,
                    >(key) && front[i].1 == host;
                assert(normalized(m[i].0) == Ok::<Seq<char>, Seq<char>>(key) && m[i].1 == host);
            }
            if exists|i: int|
                0 <= i < m.len() && normalized((#[trigger] m[i]).0) == Ok::<Seq<char>, Seq<char>>(
                    key,
                ) {
                let i = choose|i: int|
                    0 <= i < m.len() && normalized((#[trigger] m[i]).0) == Ok::<
                        Seq<char>,
                        Seq<char>,
                    >(key);
                if i < n {
                    assert(normalized(front[i].0) == Ok::<Seq<char>, Seq<char>>(key));
                }
            }
            if exists|i: int|
                0 <= i < m.len() && normalized((#[trigger] m[i]).0) == Ok::<Seq<char>, Seq<char>>(
                    key,
                ) && m[i].1 == host {
                let i = choose|i: int|
                    0 <= i < m.len() && normalized((#[trigger] m[i]).0) == Ok::<
                        Seq<char>,
                        Seq<char>,
                    >(key) && m[i].1 == host;
                if i < n {
                    assert(normalized(front[i].0) == Ok::<Seq<char>, Seq<char>>(key)
                        && front[i].1 == host);
                }
            }
        }
    }
}

/// A public server with mappings gets exactly these: it is refused where one of them is no port or
/// its host port cannot be had; otherwise each internal port is exposed and bound to its host port,
/// and no other is.
pub proof fn law_every_mapping_is_bound(
    spec: CreateSpec,
    host_port: i32,
    taken: Seq<u16>,
    key: Seq<char>,
    host: u16,
)
    requires
        spec.expose_public_port,
        spec.port_mappings@.len() > 0,
    ensures
        ({
            let m = mappings_view(spec.port_mappings@);
            let ports = ports_of(spec, host_port, taken);
            &&& ports is Ok <==> forall|i: int|
                0 <= i < m.len() ==> normalized((#[trigger] m[i]).0) is Ok && 0 <= m[i].1 <= 65535
                    && !taken.contains(m[i].1 as u16)
            &&& ports is Ok ==> (ports->Ok_0.exposed.contains(key) <==> exists|i: int|
                0 <= i < m.len() && normalized((#[trigger] m[i]).0) == Ok::<Seq<char>, Seq<char>>(
                    key,
                ))
            &&& ports is Ok ==> (binds_host(ports->Ok_0.bindings, key, host) <==> exists|i: int|
                0 <= i < m.len() && normalized((#[trigger] m[i]).0) == Ok::<Seq<char>, Seq<char>>(
                    key,
                ) && m[i].1 == host)
        }),
{
    lemma_mapped(mappings_view(spec.port_mappings@), taken, key, host);
}

/// A server without mappings exposes the port that it listens on, if it listens on one, and binds it
/// to its host port exactly where it is public.
pub proof fn law_the_listening_port_is_bound(
    spec: CreateSpec,
    host_port: i32,
    taken: Seq<u16>,
    key: Seq<char>,
    host: u16,
)
    requires
        !spec.expose_public_port || spec.port_mappings@.len() == 0,
    ensures
        ({
            let port = listening_port(spec.internal_port@, text::views(spec.env@));
            let ports = ports_of(spec, host_port, taken);
            &&& port is Err ==> ports is Err
            &&& port is Ok && port->Ok_0 is None ==> ports is Ok && ports->Ok_0.exposed.len() == 0
                && ports->Ok_0.bindings.len() == 0
            &&& ports is Ok && port->Ok_0 is Some ==> {
                let own = normalized(port->Ok_0->0);
                &&& own is Ok
                &&& ports->Ok_0.exposed.contains(key) <==> own == Ok::<Seq<char>, Seq<char>>(key)
                &&& binds_host(ports->Ok_0.bindings, key, host) <==> own == Ok::<
                    Seq<char>,
                    Seq<char>,
                >(key) && spec.expose_public_port && host == host_port
            }
            &&& port is Ok && port->Ok_0 is Some && normalized(port->Ok_0->0) is Ok
                && !spec.expose_public_port ==> ports is Ok
        }),
{
    let port = listening_port(spec.internal_port@, text::views(spec.env@));
    if port is Ok && port->Ok_0 is Some {
        law_ports_are_exposed_and_bound(
            no_ports(),
            port->Ok_0->0,
            if spec.expose_public_port {
                Some(host_port)
            } else {
                None
            },
            taken,
            key,
            host,
        );
    }
}

/// An image is named exactly by a digest, or by a tag behind its last slash: a colon before that
/// belongs to the port of a registry.
pub proof fn law_tags_stand_behind_the_last_slash(path: Seq<char>, name: Seq<char>, tag: Seq<char>)
    requires
        !name.contains('/'),
        !name.contains(':'),
        !name.contains('@'),
        !path.contains('@'),
        !tag.contains('/'),
    ensures
        !is_tagged(path + "/"@ + name),
        !is_tagged(name),
        is_tagged(path + "/"@ + name + ":"@ + tag),
        is_tagged(name + ":"@ + tag),
        is_tagged(path + "/"@ + name + "@"@ + tag),
{
    reveal_strlit("/");
    reveal_strlit(":");
    reveal_strlit("@");
    let plain = path + "/"@ + name;
    let at = path.len() + 1;
    assert forall|s: Seq<char>, c: char| !(#[trigger] s.contains(c)) implies forall|k: int|
        0 <= k < s.len() ==> s[k] != c by {
        assert forall|k: int| 0 <= k < s.len() implies s[k] != c by {
            if s[k] == c {
                assert(s.contains(s[k]));
            }
        }
    }
    lemma_last_slash(plain, at as int);
    assert(plain.skip(at as int) =~= name);
    lemma_last_slash(name, 0);
    assert(name.skip(0) =~= name);
    let tagged = path + "/"@ + name + ":"@ + tag;
    lemma_last_slash(tagged, at as int);
    let rest = tagged.skip(at as int);
    assert(rest[name.len() as int] == ':');
    assert(rest.contains(':'));
    let short = name + ":"@ + tag;
    lemma_last_slash(short, 0);
    assert(short.skip(0)[name.len() as int] == ':');
    assert(short.skip(0).contains(':'));
    let exact = path + "/"@ + name + "@"@ + tag;
    assert(exact[at + name.len() as int] == '@');
    assert(exact.contains('@'));
}

proof fn lemma_last_slash(s: Seq<char>, at: int)
    requires
        0 <= at <= s.len(),
        at > 0 ==> s[at - 1] == '/',
        forall|k: int| at <= k < s.len() ==> s[k] != '/',
    ensures
        text::after_last(s, '/') == at,
    decreases s.len(),
{
    if s.len() > at {
        lemma_last_slash(s.drop_last(), at);
    }
}

} // verus!
