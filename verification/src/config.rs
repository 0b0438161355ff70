//! The agent's own configuration, and its first setup.

use crate::error::Failure;
use crate::json::{field_of, text_of, Json};
use crate::paths;
use crate::text;
use vstd::prelude::*;

verus! {

/// The agent's own configuration.
#[derive(Clone, Debug)]
pub struct DaemonConfig {
    pub node_id: String,
    pub agent_cert_path: String,
    pub agent_key_path: String,
    pub ca_cert_path: String,
    pub crowd_sec_telemetry: CrowdSecTelemetryConfig,
}

/// How alerts of CrowdSec are asked for.
#[derive(Clone, Debug)]
pub struct CrowdSecTelemetryConfig {
    pub enabled: bool,
    pub cscli_path: String,
    pub max_alerts: usize,
}

impl Default for CrowdSecTelemetryConfig {
    fn default() -> (r: CrowdSecTelemetryConfig)
        ensures
            !r.enabled,
            r.cscli_path@ == Seq::<char>::empty(),
            r.max_alerts == 0,
    {
        CrowdSecTelemetryConfig { enabled: false, cscli_path: String::new(), max_alerts: 0 }
    }
}

/// Where the agent's certificate lies where nothing is configured.
pub fn default_agent_cert() -> (r: String)
    ensures
        r@ == "certs/agent.crt"@,
{
    "certs/agent.crt".to_owned()
}

/// Where the agent's key lies where nothing is configured.
pub fn default_agent_key() -> (r: String)
    ensures
        r@ == "certs/agent.key"@,
{
    "certs/agent.key".to_owned()
}

/// Where the certificate of the authority lies where nothing is configured.
pub fn default_ca_cert() -> (r: String)
    ensures
        r@ == "certs/ca.crt"@,
{
    "certs/ca.crt".to_owned()
}

/// The program that is asked for alerts where nothing is configured.
pub fn default_cscli() -> (r: String)
    ensures
        r@ == "cscli"@,
{
    "cscli".to_owned()
}

/// How many alerts are asked for where nothing is configured.
pub fn default_max_alerts() -> (r: usize)
    ensures
        r == 100,
{
    100
}

/// A text or another.
pub open spec fn text_or(o: Option<String>, fallback: Seq<char>) -> Seq<char> {
    match o {
        Some(s) => s@,
        None => fallback,
    }
}

impl CrowdSecTelemetryConfig {
    /// What was configured, with what is usual in place of what was not.
    pub fn of(enabled: Option<bool>, cscli_path: Option<String>, max_alerts: Option<usize>) -> (r:
        CrowdSecTelemetryConfig)
        ensures
            r.enabled == (enabled == Some(true)),
            r.cscli_path@ == text_or(cscli_path, "cscli"@),
            r.max_alerts == match max_alerts {
                Some(n) => n,
                None => 100,
            },
    {
        let enabled = match enabled {
            Some(b) => b,
            None => false,
        };
        let cscli_path = match cscli_path {
            Some(s) => s,
            None => default_cscli(),
        };
        let max_alerts: usize = match max_alerts {
            Some(n) => n,
            None => default_max_alerts(),
        };
        CrowdSecTelemetryConfig { enabled, cscli_path, max_alerts }
    }
}

impl DaemonConfig {
    /// What was configured, with what is usual in place of what was not.
    pub fn of(
        node_id: Option<String>,
        cert: Option<String>,
        key: Option<String>,
        ca: Option<String>,
        telemetry: Option<CrowdSecTelemetryConfig>,
    ) -> (r: DaemonConfig)
        ensures
            r.node_id@ == text_or(node_id, Seq::empty()),
            r.agent_cert_path@ == text_or(cert, "certs/agent.crt"@),
            r.agent_key_path@ == text_or(key, "certs/agent.key"@),
            r.ca_cert_path@ == text_or(ca, "certs/ca.crt"@),
            match telemetry {
                Some(t) => r.crowd_sec_telemetry == t,
                None => !r.crowd_sec_telemetry.enabled && r.crowd_sec_telemetry.cscli_path@.len()
                    == 0 && r.crowd_sec_telemetry.max_alerts == 0,
            },
    {
        let node_id = match node_id {
            Some(s) => s,
            None => String::new(),
        };
        let agent_cert_path = match cert {
            Some(s) => s,
            None => default_agent_cert(),
        };
        let agent_key_path = match key {
            Some(s) => s,
            None => default_agent_key(),
        };
        let ca_cert_path = match ca {
            Some(s) => s,
            None => default_ca_cert(),
        };
        let crowd_sec_telemetry = match telemetry {
            Some(t) => t,
            None => CrowdSecTelemetryConfig::default(),
        };
        DaemonConfig { node_id, agent_cert_path, agent_key_path, ca_cert_path, crowd_sec_telemetry }
    }

    /// The configuration of a node that was just set up, in the given directory.
    pub fn provisioned(node_id: String, directory: &str) -> (r: DaemonConfig)
        ensures
            r.node_id@ == node_id@,
            r.agent_cert_path@ == paths::joined(directory@, "certs/agent.crt"@),
            r.agent_key_path@ == paths::joined(directory@, "certs/agent.key"@),
            r.ca_cert_path@ == paths::joined(directory@, "certs/ca.crt"@),
            !r.crowd_sec_telemetry.enabled,
            r.crowd_sec_telemetry.cscli_path@.len() == 0,
            r.crowd_sec_telemetry.max_alerts == 0,
    {
        DaemonConfig {
            node_id,
            agent_cert_path: paths::join_path(directory, "certs/agent.crt"),
            agent_key_path: paths::join_path(directory, "certs/agent.key"),
            ca_cert_path: paths::join_path(directory, "certs/ca.crt"),
            crowd_sec_telemetry: CrowdSecTelemetryConfig::default(),
        }
    }
}

/// What of an address names the host, the port and the user: everything before its path, its query
/// and its fragment.
pub open spec fn authority(rest: Seq<char>) -> Seq<char>
    decreases rest.len(),
{
    if rest.len() == 0 || rest[0] == '/' || rest[0] == '?' || rest[0] == '#' {
        Seq::empty()
    } else {
        seq![rest[0]] + authority(rest.drop_first())
    }
}

fn read_authority(rest: &str) -> (r: String)
    ensures
        r@ == authority(rest@),
{
    let cs = text::chars_of(rest);
    let mut end: usize = 0;
    assert(cs@.skip(0) =~= cs@);
    assert(cs@.take(0) + authority(cs@) =~= authority(cs@));
    while end < cs.len() && cs[end] != '/' && cs[end] != '?' && cs[end] != '#'
        invariant
            0 <= end <= cs@.len(),
            authority(cs@) == cs@.take(end as int) + authority(cs@.skip(end as int)),
        decreases cs.len() - end,
    {
        proof {
            let left = cs@.skip(end as int);
            assert(left.drop_first() =~= cs@.skip(end as int + 1));
            assert(cs@.take(end as int) + (seq![left[0]] + authority(left.drop_first()))
                =~= cs@.take(end as int + 1) + authority(cs@.skip(end as int + 1)));
        }
        end += 1;
    }
    assert(authority(cs@.skip(end as int)) =~= Seq::empty());
    assert(authority(cs@) =~= cs@.subrange(0, end as int));
    text::string_range(cs.as_slice(), 0, end)
}

/// The host of an address in plain HTTP, without its port. An address with a user has none.
pub open spec fn plain_host(master: Seq<char>) -> Option<Seq<char>> {
    match text::without_prefix(master, "http://"@) {
        Some(rest) => if authority(rest).contains('@') {
            None
        } else {
            match text::split_first(authority(rest), ':') {
                Some((host, _)) => Some(host),
                None => Some(authority(rest)),
            }
        },
        None => None,
    }
}

fn read_plain_host(master: &str) -> (r: Option<String>)
    ensures
        text::opt_view(r) == plain_host(master@),
{
    match text::strip_prefix(master, "http://") {
        Some(rest) => {
            let whole = read_authority(rest.as_str());
            if text::has_char(whole.as_str(), '@') {
                return None;
            }
            match text::split_once(whole.as_str(), ':') {
                Some((host, _)) => Some(host),
                None => Some(whole),
            }
        },
        None => None,
    }
}

/// An address that a node may be set up from: over HTTPS, or on the node itself.
pub open spec fn may_provision(master: Seq<char>) -> bool {
    text::begins(master, "https://"@) || plain_host(master) == Some("127.0.0.1"@) || plain_host(
        master,
    ) == Some("localhost"@)
}

/// The address that a node is set up from, without slashes at its end. Another host is reached
/// over HTTPS alone.
pub fn master_address(answer: &str) -> (r: Result<String, Failure>)
    ensures
        ({
            let master = paths::without_slashes(answer@);
            &&& r is Ok <==> may_provision(master)
            &&& r is Ok ==> r->Ok_0@ == master
            &&& r is Err ==> r->Err_0.message@
                == "remote provisioning requires HTTPS (plain HTTP is only allowed for loopback)"@
        }),
{
    let master = paths::trim_slashes(answer);
    let loopback = match read_plain_host(master.as_str()) {
        Some(host) => text::same(host.as_str(), "127.0.0.1") || text::same(
            host.as_str(),
            "localhost",
        ),
        None => false,
    };
    if loopback || text::starts_with(master.as_str(), "https://") {
        Ok(master)
    } else {
        Err(
            Failure::new(
                "remote provisioning requires HTTPS (plain HTTP is only allowed for loopback)",
            ),
        )
    }
}

/// Whether nothing but HTTPS is spoken with the address that a node is set up from.
pub fn https_only(master: &str) -> (r: bool)
    ensures
        r == text::begins(master@, "https://"@),
{
    text::starts_with(master, "https://")
}

/// Where a node is set up.
pub fn provisioning_url(master: &str) -> (r: String)
    ensures
        r@ == master@ + "/api/provision/agent"@,
{
    text::concat2(master, "/api/provision/agent")
}

/// Why a node could not be set up.
pub fn provisioning_failure(status: &str, body: &str) -> (r: Failure)
    ensures
        r.message@ == "provisioning failed ("@ + status@ + "): "@ + body@,
{
    Failure { message: text::concat4("provisioning failed (", status, "): ", body) }
}

/// A text that an answer to a setup has to hold.
pub fn required(payload: &Json, key: &str) -> (r: Result<String, Failure>)
    ensures
        match text_of(field_of(payload@, key@)) {
            Some(s) => r is Ok && r->Ok_0@ == s,
            None => r is Err && r->Err_0.message@ == "provisioning response omitted "@ + key@,
        },
{
    match payload.field_text(key) {
        Some(s) => Ok(s),
        None => Err(Failure { message: text::concat2("provisioning response omitted ", key) }),
    }
}

/// What was answered to a question of the setup. Something has to be.
pub fn prompt_answer(line: &str) -> (r: Result<String, Failure>)
    ensures
        r is Ok <==> text::trimmed(line@).len() > 0,
        r is Ok ==> r->Ok_0@ == text::trimmed(line@),
        r is Err ==> r->Err_0.message@ == "value cannot be empty"@,
{
    let value = text::trim(line);
    if text::is_empty(value.as_str()) {
        Err(Failure::new("value cannot be empty"))
    } else {
        Ok(value)
    }
}

// ---------------------------------------------------------------------------------------------
// Laws.

/// A node is set up in the clear only from itself: an address that is accepted and is not one of
/// HTTPS is one in plain HTTP whose host is exactly a name of the node itself.
pub proof fn law_remote_setup_is_over_https(master: Seq<char>)
    requires
        may_provision(master),
        !text::begins(master, "https://"@),
    ensures
        text::begins(master, "http://"@),
        plain_host(master) == Some("127.0.0.1"@) || plain_host(master) == Some("localhost"@),
{
}

proof fn lemma_authority(head: Seq<char>, rest: Seq<char>)
    requires
        forall|k: int| 0 <= k < head.len() ==> head[k] != '/' && head[k] != '?' && head[k] != '#',
        rest.len() == 0 || rest[0] == '/' || rest[0] == '?' || rest[0] == '#',
    ensures
        authority(head + rest) == head,
    decreases head.len(),
{
    let s = head + rest;
    if head.len() == 0 {
        assert(s =~= rest);
        assert(authority(s) =~= head);
    } else {
        assert(s[0] == head[0]);
        assert(s.drop_first() =~= head.drop_first() + rest);
        lemma_authority(head.drop_first(), rest);
        assert(seq![head[0]] + head.drop_first() =~= head);
    }
}

proof fn lemma_plain_host(rest: Seq<char>)
    ensures
        text::without_prefix("http://"@ + rest, "http://"@) == Some(rest),
        !text::begins("http://"@ + rest, "https://"@),
{
    reveal_strlit("http://");
    reveal_strlit("https://");
    text::law_prefixes_and_suffixes("http://"@, rest, rest);
    let t = "http://"@ + rest;
    if text::begins(t, "https://"@) {
        assert(t.subrange(0, 8)[4] == t[4]);
    }
}

/// The host of an address in plain HTTP is what stands between the slashes and the path, the query
/// or the fragment. So a node is set up in the clear exactly from `127.0.0.1` and `localhost`,
/// whatever follows them.
pub proof fn law_hosts_are_taken_whole(host: Seq<char>, rest: Seq<char>)
    requires
        forall|k: int|
            0 <= k < host.len() ==> host[k] != '/' && host[k] != '?' && host[k] != '#' && host[k]
                != ':' && host[k] != '@',
        rest.len() == 0 || rest[0] == '/' || rest[0] == '?' || rest[0] == '#',
    ensures
        plain_host("http://"@ + (host + rest)) == Some(host),
        may_provision("http://"@ + (host + rest)) <==> host == "127.0.0.1"@ || host
            == "localhost"@,
        may_provision("https://"@ + rest),
{
    lemma_authority(host, rest);
    lemma_plain_host(host + rest);
    text::law_prefixes_and_suffixes("https://"@, rest, rest);
    text::lemma_index_of_unique(host, ':', host.len() as int);
    assert(host.take(host.len() as int) =~= host);
    assert(!host.contains('@'));
}

/// A port is no part of the host that stands before it.
pub proof fn law_ports_are_no_part_of_the_host(host: Seq<char>, port: Seq<char>, rest: Seq<char>)
    requires
        forall|k: int|
            0 <= k < host.len() ==> host[k] != '/' && host[k] != '?' && host[k] != '#' && host[k]
                != ':' && host[k] != '@',
        forall|k: int|
            0 <= k < port.len() ==> port[k] != '/' && port[k] != '?' && port[k] != '#' && port[k]
                != '@',
        rest.len() == 0 || rest[0] == '/' || rest[0] == '?' || rest[0] == '#',
    ensures
        plain_host("http://"@ + (host + seq![':'] + port + rest)) == Some(host),
        may_provision("http://"@ + (host + seq![':'] + port + rest)) <==> host == "127.0.0.1"@
            || host == "localhost"@,
{
    let whole = host + seq![':'] + port;
    lemma_authority(whole, rest);
    lemma_plain_host(whole + rest);
    assert(whole[host.len() as int] == ':');
    text::lemma_index_of_unique(whole, ':', host.len() as int);
    assert(whole.take(host.len() as int) =~= host);
    assert(!whole.contains('@'));
}

/// An address in plain HTTP that names a user is taken from no one, whatever host it ends with.
pub proof fn law_users_are_not_hosts(user: Seq<char>, host: Seq<char>, rest: Seq<char>)
    requires
        forall|k: int|
            0 <= k < user.len() ==> user[k] != '/' && user[k] != '?' && user[k] != '#',
        forall|k: int|
            0 <= k < host.len() ==> host[k] != '/' && host[k] != '?' && host[k] != '#',
        rest.len() == 0 || rest[0] == '/' || rest[0] == '?' || rest[0] == '#',
    ensures
        !may_provision("http://"@ + (user + seq!['@'] + host + rest)),
{
    let whole = user + seq!['@'] + host;
    lemma_authority(whole, rest);
    lemma_plain_host(whole + rest);
    assert(whole[user.len() as int] == '@');
    assert(whole.contains('@'));
}

} // verus!
