//! Ports of containers and of the host.

use crate::error::Failure;
use crate::text;
use vstd::prelude::*;

verus! {

/// A port number and a protocol, as Docker writes them.
pub open spec fn port_key(port: nat, protocol: Seq<char>) -> Seq<char> {
    text::decimal(port) + "/"@ + protocol
}

fn make_port_key(port: u16, protocol: &str) -> (r: String)
    ensures
        r@ == port_key(port as nat, protocol@),
{
    let number = text::decimal_string(port as u64);
    text::concat3(number.as_str(), "/", protocol)
}

/// The number that a text spells, if it is a port number.
pub open spec fn port_number(s: Seq<char>) -> Option<u16> {
    match text::parsed(s) {
        Some(n) => if n <= u16::MAX {
            Some(n as u16)
        } else {
            None
        },
        None => None,
    }
}

/// The number that a text spells, if it is a port number.
pub fn parse_port(s: &str) -> (r: Option<u16>)
    ensures
        r == port_number(s@),
{
    match text::parse_number(s, 65535) {
        Some(n) => Some(n as u16),
        None => None,
    }
}

/// The protocols that a container port may have.
pub open spec fn is_protocol(s: Seq<char>) -> bool {
    s == "tcp"@ || s == "udp"@ || s == "sctp"@
}

fn protocol_known(s: &str) -> (r: bool)
    ensures
        r == is_protocol(s@),
{
    text::same(s, "tcp") || text::same(s, "udp") || text::same(s, "sctp")
}

/// The parts of a port text at its last slash; without one the protocol is `tcp`.
pub open spec fn port_parts(port: Seq<char>) -> (Seq<char>, Seq<char>) {
    match text::split_last(port, '/') {
        Some(p) => p,
        None => (port, "tcp"@),
    }
}

/// What a port text stands for, or why it is refused.
pub open spec fn normalized(port: Seq<char>) -> Result<Seq<char>, Seq<char>> {
    let p = text::trimmed(port);
    let (number, protocol) = port_parts(p);
    if p.len() == 0 {
        Err("container port cannot be empty"@)
    } else if port_number(number) is None {
        Err("invalid container port: "@ + p)
    } else if !is_protocol(text::lowered(protocol)) {
        Err("unsupported port protocol: "@ + text::lowered(protocol))
    } else {
        Ok(port_key(port_number(number)->0 as nat, text::lowered(protocol)))
    }
}

/// A result by its contents.
pub open spec fn text_result(r: Result<String, Failure>) -> Result<Seq<char>, Seq<char>> {
    match r {
        Ok(s) => Ok(s@),
        Err(e) => Err(e.message@),
    }
}

/// A container port in the form `number/protocol`.
pub fn normalize_container_port(port: &str) -> (r: Result<String, Failure>)
    ensures
        text_result(r) == normalized(port@),
{
    let port = text::trim(port);
    if text::is_empty(port.as_str()) {
        return Err(Failure::new("container port cannot be empty"));
    }
    let (number, protocol) = match text::rsplit_once(port.as_str(), '/') {
        Some(p) => p,
        None => (port.as_str().to_owned(), "tcp".to_owned()),
    };
    let number = match parse_port(number.as_str()) {
        Some(n) => n,
        None => {
            return Err(
                Failure { message: text::concat2("invalid container port: ", port.as_str()) },
            );
        },
    };
    let protocol = text::to_lower(protocol.as_str());
    if !protocol_known(protocol.as_str()) {
        return Err(
            Failure { message: text::concat2("unsupported port protocol: ", protocol.as_str()) },
        );
    }
    Ok(make_port_key(number, protocol.as_str()))
}

/// The ports of a container: those it exposes, and the host ports bound to each.
pub struct PortPlan {
    pub exposed: Vec<String>,
    pub bindings: Vec<(String, Vec<u16>)>,
}

/// `PortPlan` by its contents.
#[verifier::ext_equal]
pub struct PortPlanView {
    pub exposed: Seq<Seq<char>>,
    pub bindings: Seq<(Seq<char>, Seq<u16>)>,
}

/// Bindings by their contents.
pub open spec fn bindings_view(b: Seq<(String, Vec<u16>)>) -> Seq<(Seq<char>, Seq<u16>)> {
    b.map_values(|e: (String, Vec<u16>)| (e.0@, e.1@))
}

impl View for PortPlan {
    type V = PortPlanView;

    open spec fn view(&self) -> PortPlanView {
        PortPlanView {
            exposed: text::views(self.exposed@),
            bindings: bindings_view(self.bindings@),
        }
    }
}

/// The position of a port among the bindings, or their number.
pub open spec fn binding_at(b: Seq<(Seq<char>, Seq<u16>)>, key: Seq<char>) -> int
    decreases b.len(),
{
    if b.len() == 0 || b[0].0 == key {
        0
    } else {
        1 + binding_at(b.drop_first(), key)
    }
}

/// The bindings with one more host port for a container port.
pub open spec fn bound(b: Seq<(Seq<char>, Seq<u16>)>, key: Seq<char>, host: u16) -> Seq<
    (Seq<char>, Seq<u16>),
> {
    let i = binding_at(b, key);
    if i < b.len() {
        b.update(i, (b[i].0, b[i].1.push(host)))
    } else {
        b.push((key, seq![host]))
    }
}

/// The ports that are exposed with one more.
pub open spec fn exposing(exposed: Seq<Seq<char>>, key: Seq<char>) -> Seq<Seq<char>> {
    if exposed.contains(key) {
        exposed
    } else {
        exposed.push(key)
    }
}

/// The plan with one more port, or why the port is refused. `taken` are the host ports that
/// cannot be bound.
pub open spec fn with_port(
    plan: PortPlanView,
    internal: Seq<char>,
    host: Option<i32>,
    taken: Seq<u16>,
) -> Result<PortPlanView, Seq<char>> {
    match normalized(internal) {
        Err(m) => Err(m),
        Ok(key) => match host {
            None => Ok(PortPlanView { exposed: exposing(plan.exposed, key), ..plan }),
            Some(host) => if host < 0 || host > u16::MAX {
                Err("mapped host port is outside the valid range"@)
            } else if taken.contains(host as u16) {
                Err(in_use(host as nat))
            } else {
                Ok(
                    PortPlanView {
                        exposed: exposing(plan.exposed, key),
                        bindings: bound(plan.bindings, key, host as u16),
                    },
                )
            },
        },
    }
}

/// Why a host port cannot be had.
pub open spec fn in_use(port: nat) -> Seq<char> {
    "Requested host port "@ + text::decimal(port) + " is already in use."@
}

/// Whether the list holds the number.
pub fn holds(list: &Vec<u16>, n: u16) -> (r: bool)
    ensures
        r == list@.contains(n),
{
    let mut i: usize = 0;
    while i < list.len()
        invariant
            0 <= i <= list@.len(),
            forall|k: int| 0 <= k < i ==> list@[k] != n,
        decreases list.len() - i,
    {
        if list[i] == n {
            assert(list@[i as int] == n);
            return true;
        }
        i += 1;
    }
    false
}

/// Accepts a host port that can be bound. `taken` are the host ports that cannot.
pub fn ensure_port(port: u16, taken: &Vec<u16>) -> (r: Result<(), Failure>)
    ensures
        r is Ok <==> !taken@.contains(port),
        r is Err ==> r->Err_0.message@ == in_use(port as nat),
{
    if holds(taken, port) {
        let shown = text::decimal_string(port as u64);
        Err(
            Failure {
                message: text::concat3(
                    "Requested host port ",
                    shown.as_str(),
                    " is already in use.",
                ),
            },
        )
    } else {
        Ok(())
    }
}

proof fn lemma_binding_at(b: Seq<(Seq<char>, Seq<u16>)>, key: Seq<char>, i: int)
    requires
        0 <= i <= b.len(),
        i < b.len() ==> b[i].0 == key,
        forall|k: int| 0 <= k < i ==> (#[trigger] b[k]).0 != key,
    ensures
        binding_at(b, key) == i,
    decreases b.len(),
{
    if b.len() > 0 && b[0].0 != key {
        let rest = b.drop_first();
        assert(i > 0);
        assert forall|k: int| 0 <= k < i - 1 implies (#[trigger] rest[k]).0 != key by {
            assert(rest[k] == b[k + 1]);
        }
        lemma_binding_at(rest, key, i - 1);
    } else if b.len() > 0 {
        if i > 0 {
            assert(b[0].0 != key);
        }
    }
}

fn bind(bindings: &mut Vec<(String, Vec<u16>)>, key: &str, host: u16)
    ensures
        bindings_view(final(bindings)@) == bound(bindings_view(old(bindings)@), key@, host),
{
    let ghost all = bindings_view(bindings@);
    let mut i: usize = 0;
    while i < bindings.len()
        invariant
            all == bindings_view(bindings@),
            bindings@ == old(bindings)@,
            0 <= i <= bindings@.len(),
            forall|k: int| 0 <= k < i ==> (#[trigger] all[k]).0 != key@,
        decreases bindings.len() - i,
    {
        assert(all[i as int] == (bindings@[i as int].0@, bindings@[i as int].1@));
        if text::same(bindings[i].0.as_str(), key) {
            proof {
                lemma_binding_at(all, key@, i as int);
            }
            let mut hosts: Vec<u16> = Vec::new();
            core::mem::swap(&mut hosts, &mut bindings[i].1);
            hosts.push(host);
            core::mem::swap(&mut hosts, &mut bindings[i].1);
            assert(bindings_view(bindings@) =~= bound(all, key@, host));
            return ;
        }
        i += 1;
    }
    proof {
        lemma_binding_at(all, key@, i as int);
    }
    let mut hosts: Vec<u16> = Vec::new();
    hosts.push(host);
    bindings.push((key.to_owned(), hosts));
    assert(hosts@ =~= seq![host]);
    assert(bindings_view(bindings@) =~= bound(all, key@, host));
}

/// Adds one port to the plan: exposed in any case, bound where a host port is given.
pub fn add_port_mapping(
    plan: &mut PortPlan,
    internal_port: &str,
    host_port: Option<i32>,
    taken: &Vec<u16>,
) -> (r: Result<(), Failure>)
    ensures
        ({
            let after = with_port(old(plan)@, internal_port@, host_port, taken@);
            &&& r is Ok <==> after is Ok
            &&& r is Ok ==> final(plan)@ == after->Ok_0
            &&& r is Err ==> r->Err_0.message@ == after->Err_0
            &&& r is Err ==> final(plan)@.bindings == old(plan)@.bindings
            &&& r is Err ==> final(plan)@.exposed == match normalized(internal_port@) {
                Ok(key) => exposing(old(plan)@.exposed, key),
                Err(_) => old(plan)@.exposed,
            }
        }),
{
    let ghost was = plan@;
    let key = match normalize_container_port(internal_port) {
        Ok(key) => key,
        Err(e) => {
            return Err(e);
        },
    };
    if !text::list_has(plan.exposed.as_slice(), key.as_str()) {
        let ghost before = plan.exposed@;
        let copy = key.as_str().to_owned();
        plan.exposed.push(copy);
        proof {
            text::lemma_views_push(before, copy);
        }
    }
    assert(text::views(plan.exposed@) == exposing(was.exposed, key@));
    match host_port {
        None => {
            assert(plan@ =~= (PortPlanView { exposed: exposing(was.exposed, key@), ..was }));
            Ok(())
        },
        Some(host) => {
            if host < 0 || host > 65535 {
                return Err(Failure::new("mapped host port is outside the valid range"));
            }
            let host: u16 = host as u16;
            match ensure_port(host, taken) {
                Ok(()) => {},
                Err(e) => {
                    return Err(e);
                },
            }
            bind(&mut plan.bindings, key.as_str(), host);
            assert(plan@ =~= with_port(was, internal_port@, host_port, taken@)->Ok_0);
            Ok(())
        },
    }
}

// ---------------------------------------------------------------------------------------------
// Changing the ports of a server.

/// The parts of an internal port at its first slash; without one the protocol is `tcp`.
pub open spec fn internal_parts(internal: Seq<char>) -> (Seq<char>, Seq<char>) {
    match text::split_first(internal, '/') {
        Some(p) => p,
        None => (internal, "tcp"@),
    }
}

/// An internal port, or why it is refused.
pub open spec fn internal_key(internal: Seq<char>) -> Result<Seq<char>, Seq<char>> {
    let (port, protocol) = internal_parts(internal);
    if port_number(port) is None {
        Err("internal port is not a valid number"@)
    } else if port_number(port)->0 == 0 || !(protocol == "tcp"@ || protocol == "udp"@) {
        Err("internal ports must be between 1 and 65535 and use tcp or udp"@)
    } else {
        Ok(port_key(port_number(port)->0 as nat, protocol))
    }
}

/// Mappings by their contents.
pub open spec fn mappings_view(m: Seq<(String, i32)>) -> Seq<(Seq<char>, i32)> {
    m.map_values(|e: (String, i32)| (e.0@, e.1))
}

/// The host port occurs among the mappings.
pub open spec fn uses_host(m: Seq<(Seq<char>, i32)>, host: i32) -> bool {
    exists|i: int| 0 <= i < m.len() && (#[trigger] m[i]).1 == host
}

/// The host ports bound to the internal ports of the mappings, in order; or why the first mapping
/// to be refused is refused. Host ports are unique and between 1 and 65535, and so are internal
/// ports with their protocol.
pub open spec fn rebound(m: Seq<(Seq<char>, i32)>) -> Result<Seq<(Seq<char>, u16)>, Seq<char>>
    decreases m.len(),
{
    if m.len() == 0 {
        Ok(Seq::empty())
    } else {
        match rebound(m.drop_last()) {
            Err(e) => Err(e),
            Ok(before) => {
                let (internal, host) = m.last();
                if !(1 <= host <= 65535) || uses_host(m.drop_last(), host) {
                    Err("host ports must be unique numbers between 1 and 65535"@)
                } else {
                    match internal_key(internal) {
                        Err(e) => Err(e),
                        Ok(key) => if binds(before, key) {
                            Err("internal port mappings must be unique"@)
                        } else {
                            Ok(before.push((key, host as u16)))
                        },
                    }
                }
            },
        }
    }
}

/// The internal port is bound.
pub open spec fn binds(b: Seq<(Seq<char>, u16)>, key: Seq<char>) -> bool {
    exists|i: int| 0 <= i < b.len() && (#[trigger] b[i]).0 == key
}

/// Bound ports by their contents.
pub open spec fn pairs_view(b: Seq<(String, u16)>) -> Seq<(Seq<char>, u16)> {
    b.map_values(|e: (String, u16)| (e.0@, e.1))
}

/// The bindings that a server asks for, or why they are refused.
pub open spec fn requested(m: Seq<(Seq<char>, i32)>) -> Result<Seq<(Seq<char>, u16)>, Seq<char>> {
    if m.len() == 0 || m.len() > 32 {
        Err("a server must have between 1 and 32 port mappings"@)
    } else {
        rebound(m)
    }
}

fn parse_internal(internal: &str) -> (r: Result<String, Failure>)
    ensures
        text_result(r) == internal_key(internal@),
{
    let (port, protocol) = match text::split_once(internal, '/') {
        Some(p) => p,
        None => (internal.to_owned(), "tcp".to_owned()),
    };
    let port = match parse_port(port.as_str()) {
        Some(n) => n,
        None => {
            return Err(Failure::new("internal port is not a valid number"));
        },
    };
    if port == 0 || !(text::same(protocol.as_str(), "tcp") || text::same(
        protocol.as_str(),
        "udp",
    )) {
        return Err(
            Failure::new("internal ports must be between 1 and 65535 and use tcp or udp"),
        );
    }
    Ok(make_port_key(port, protocol.as_str()))
}

fn host_used(m: &Vec<(String, i32)>, before: usize, host: i32) -> (r: bool)
    requires
        before <= m@.len(),
    ensures
        r == uses_host(mappings_view(m@).take(before as int), host),
{
    let ghost part = mappings_view(m@).take(before as int);
    let mut i: usize = 0;
    while i < before
        invariant
            part == mappings_view(m@).take(before as int),
            before <= m@.len(),
            0 <= i <= before,
            forall|k: int| 0 <= k < i ==> (#[trigger] part[k]).1 != host,
        decreases before - i,
    {
        assert(part[i as int].1 == m@[i as int].1);
        if m[i].1 == host {
            return true;
        }
        i += 1;
    }
    false
}

fn key_bound(b: &Vec<(String, u16)>, key: &str) -> (r: bool)
    ensures
        r == binds(pairs_view(b@), key@),
{
    let ghost v = pairs_view(b@);
    let mut i: usize = 0;
    while i < b.len()
        invariant
            v == pairs_view(b@),
            0 <= i <= b@.len(),
            forall|k: int| 0 <= k < i ==> (#[trigger] v[k]).0 != key@,
        decreases b.len() - i,
    {
        assert(v[i as int].0 == b@[i as int].0@);
        if text::same(b[i].0.as_str(), key) {
            return true;
        }
        i += 1;
    }
    false
}

proof fn lemma_rebound_fails(m: Seq<(Seq<char>, i32)>, i: int)
    requires
        0 <= i <= m.len(),
        rebound(m.take(i)) is Err,
    ensures
        rebound(m) == rebound(m.take(i)),
    decreases m.len() - i,
{
    if i < m.len() {
        assert(m.take(i + 1).drop_last() =~= m.take(i));
        lemma_rebound_fails(m, i + 1);
    } else {
        assert(m.take(i) =~= m);
    }
}

/// The ports that a server asks for: those it exposes, and the host port bound to each.
pub fn validated_port_bindings(mappings: &Vec<(String, i32)>) -> (r: Result<
    (Vec<String>, Vec<(String, u16)>),
    Failure,
>)
    ensures
        ({
            let after = requested(mappings_view(mappings@));
            &&& r is Ok <==> after is Ok
            &&& r is Ok ==> pairs_view(r->Ok_0.1@) == after->Ok_0 && text::views(r->Ok_0.0@)
                == after->Ok_0.map_values(|e: (Seq<char>, u16)| e.0)
            &&& r is Err ==> r->Err_0.message@ == after->Err_0
        }),
{
    let ghost all = mappings_view(mappings@);
    if mappings.len() == 0 || mappings.len() > 32 {
        return Err(Failure::new("a server must have between 1 and 32 port mappings"));
    }
    let mut exposed: Vec<String> = Vec::new();
    let mut bindings: Vec<(String, u16)> = Vec::new();
    let mut i: usize = 0;
    assert(all.take(0) =~= Seq::<(Seq<char>, i32)>::empty());
    assert(pairs_view(bindings@) =~= Seq::<(Seq<char>, u16)>::empty());
    assert(text::views(exposed@) =~= pairs_view(bindings@).map_values(
        |e: (Seq<char>, u16)| e.0,
    ));
    while i < mappings.len()
        invariant
            all == mappings_view(mappings@),
            requested(all) == rebound(all),
            0 <= i <= mappings@.len(),
            rebound(all.take(i as int)) == Ok::<Seq<(Seq<char>, u16)>, Seq<char>>(
                pairs_view(bindings@),
            ),
            text::views(exposed@) == pairs_view(bindings@).map_values(
                |e: (Seq<char>, u16)| e.0,
            ),
        decreases mappings.len() - i,
    {
        let host = mappings[i].1;
        let ghost next = all.take(i as int + 1);
        proof {
            assert(next.drop_last() =~= all.take(i as int));
            assert(next.last() == (mappings@[i as int].0@, host));
        }
        if !(1 <= host && host <= 65535) || host_used(mappings, i, host) {
            proof {
                lemma_rebound_fails(all, i as int + 1);
            }
            return Err(Failure::new("host ports must be unique numbers between 1 and 65535"));
        }
        let key = match parse_internal(mappings[i].0.as_str()) {
            Ok(key) => key,
            Err(e) => {
                proof {
                    lemma_rebound_fails(all, i as int + 1);
                }
                return Err(e);
            },
        };
        if key_bound(&bindings, key.as_str()) {
            proof {
                lemma_rebound_fails(all, i as int + 1);
            }
            return Err(Failure::new("internal port mappings must be unique"));
        }
        let ghost had = bindings@;
        let ghost shown = exposed@;
        let copy = key.as_str().to_owned();
        exposed.push(copy);
        bindings.push((key, host as u16));
        proof {
            text::lemma_views_push(shown, copy);
            assert(pairs_view(bindings@) =~= pairs_view(had).push((key@, host as u16)));
            assert(text::views(exposed@) =~= pairs_view(bindings@).map_values(
                |e: (Seq<char>, u16)| e.0,
            ));
        }
        i += 1;
    }
    assert(all.take(all.len() as int) =~= all);
    Ok((exposed, bindings))
}

/// The host ports that a container's bindings name, as far as they are port numbers.
pub open spec fn host_ports(bindings: Seq<Option<Seq<char>>>) -> Set<u16> {
    Set::new(
        |p: u16|
            exists|i: int|
                0 <= i < bindings.len() && (#[trigger] bindings[i]) is Some && port_number(
                    bindings[i]->0,
                ) == Some(p),
    )
}

/// Optional texts by their contents.
pub open spec fn opt_views(list: Seq<Option<String>>) -> Seq<Option<Seq<char>>> {
    list.map_values(|o: Option<String>| text::opt_view(o))
}

/// The host ports that a container's bindings name, as far as they are port numbers.
pub fn bound_host_ports(bindings: &Vec<Option<String>>) -> (r: Vec<u16>)
    ensures
        r@.to_set() == host_ports(opt_views(bindings@)),
{
    let ghost all = opt_views(bindings@);
    let mut out: Vec<u16> = Vec::new();
    let mut i: usize = 0;
    while i < bindings.len()
        invariant
            all == opt_views(bindings@),
            0 <= i <= bindings@.len(),
            forall|p: u16| #[trigger]
                out@.contains(p) <==> exists|k: int|
                    0 <= k < i && (#[trigger] all[k]) is Some && port_number(all[k]->0) == Some(p),
        decreases bindings.len() - i,
    {
        let ghost before = out@;
        assert(all[i as int] == text::opt_view(bindings@[i as int]));
        if let Some(s) = &bindings[i] {
            if let Some(p) = parse_port(s.as_str()) {
                out.push(p);
                assert forall|q: u16| #[trigger]
                    out@.contains(q) <==> before.contains(q) || q == p by {
                    if before.contains(q) {
                        let j = choose|j: int| 0 <= j < before.len() && before[j] == q;
                        assert(out@[j] == q);
                    }
                    if q == p {
                        assert(out@[before.len() as int] == q);
                    }
                }
            }
        }
        i += 1;
    }
    assert(out@.to_set() =~= host_ports(all));
    out
}

/// Why the requested bindings cannot be had: the first host port that is neither bound by the
/// server already nor free.
pub open spec fn conflict(
    requested: Seq<(Seq<char>, u16)>,
    current: Seq<u16>,
    reserved: Seq<u16>,
    taken: Seq<u16>,
) -> Option<Seq<char>>
    decreases requested.len(),
{
    if requested.len() == 0 {
        None
    } else {
        let port = requested[0].1;
        if !current.contains(port) && (reserved.contains(port) || taken.contains(port)) {
            Some(
                "requested host port "@ + text::decimal(port as nat) + " is already in use"@,
            )
        } else {
            conflict(requested.drop_first(), current, reserved, taken)
        }
    }
}

/// Accepts bindings whose host ports are bound by the server already, or are neither reserved nor
/// taken by another program.
pub fn ensure_requested_ports_available(
    requested: &Vec<(String, u16)>,
    current: &Vec<u16>,
    reserved: &Vec<u16>,
    taken: &Vec<u16>,
) -> (r: Result<(), Failure>)
    ensures
        ({
            let c = conflict(pairs_view(requested@), current@, reserved@, taken@);
            &&& r is Ok <==> c is None
            &&& r is Err ==> r->Err_0.message@ == c->0
        }),
{
    let ghost all = pairs_view(requested@);
    let mut i: usize = 0;
    assert(all.skip(0) =~= all);
    while i < requested.len()
        invariant
            all == pairs_view(requested@),
            0 <= i <= requested@.len(),
            conflict(all, current@, reserved@, taken@) == conflict(
                all.skip(i as int),
                current@,
                reserved@,
                taken@,
            ),
        decreases requested.len() - i,
    {
        let port = requested[i].1;
        proof {
            assert(all.skip(i as int)[0].1 == port);
            assert(all.skip(i as int).drop_first() =~= all.skip(i as int + 1));
        }
        if !holds(current, port) && (holds(reserved, port) || holds(taken, port)) {
            let shown = text::decimal_string(port as u64);
            return Err(
                Failure {
                    message: text::concat3(
                        "requested host port ",
                        shown.as_str(),
                        " is already in use",
                    ),
                },
            );
        }
        i += 1;
    }
    Ok(())
}

// ---------------------------------------------------------------------------------------------
// Reserving host ports.

/// The first and the last host port that is handed out without being asked for.
pub const FIRST_AUTOMATIC_PORT: u16 = 25000;

pub const LAST_AUTOMATIC_PORT: u16 = 25999;

/// How often a free port is looked for.
pub const PORT_ATTEMPTS: usize = 50;

/// The host port that a server asks for.
#[derive(Clone, Copy, Debug, PartialEq, Eq, Structural)]
pub enum PortRequest {
    /// The server is not reachable from outside.
    Private,
    /// This one.
    Fixed(u16),
    /// Any free one.
    Automatic,
}

/// The host port that a server asks for.
pub fn port_request(expose_public_port: bool, host_port: i32) -> (r: Result<PortRequest, Failure>)
    ensures
        r is Ok <==> !(expose_public_port && host_port > 65535),
        r is Ok ==> r->Ok_0 == if !expose_public_port {
            PortRequest::Private
        } else if host_port > 0 {
            PortRequest::Fixed(host_port as u16)
        } else {
            PortRequest::Automatic
        },
        r is Err ==> r->Err_0.message@ == "host port is outside the valid range"@,
{
    if !expose_public_port {
        Ok(PortRequest::Private)
    } else if host_port > 65535 {
        Err(Failure::new("host port is outside the valid range"))
    } else if host_port > 0 {
        Ok(PortRequest::Fixed(host_port as u16))
    } else {
        Ok(PortRequest::Automatic)
    }
}

/// The host ports that are being allocated.
pub struct PortBook {
    pub ports: Vec<u16>,
}

impl PortBook {
    /// No port is reserved twice.
    pub open spec fn wf(&self) -> bool {
        self.ports@.no_duplicates()
    }

    /// No port is being allocated.
    pub fn new() -> (r: PortBook)
        ensures
            r.wf(),
            r.ports@.len() == 0,
    {
        PortBook { ports: Vec::new() }
    }

    fn insert(&mut self, port: u16) -> (r: bool)
        requires
            old(self).wf(),
        ensures
            final(self).wf(),
            r == !old(self).ports@.contains(port),
            final(self).ports@ == if r {
                old(self).ports@.push(port)
            } else {
                old(self).ports@
            },
    {
        if holds(&self.ports, port) {
            return false;
        }
        self.ports.push(port);
        true
    }

    /// Reserves a port that was asked for. `taken` are the host ports that cannot be bound.
    pub fn reserve(&mut self, port: u16, taken: &Vec<u16>) -> (r: Result<PortReservation, Failure>)
        requires
            old(self).wf(),
        ensures
            final(self).wf(),
            r is Ok <==> !taken@.contains(port) && !old(self).ports@.contains(port),
            r is Ok ==> final(self).ports@ == old(self).ports@.push(port) && r->Ok_0.port == (
            if port > 0 {
                Some(port)
            } else {
                None
            }),
            r is Err ==> final(self).ports@ == old(self).ports@,
            taken@.contains(port) ==> r->Err_0.message@ == in_use(port as nat),
            !taken@.contains(port) && r is Err ==> r->Err_0.message@ == "Requested host port "@
                + text::decimal(port as nat) + " is already being allocated."@,
    {
        match ensure_port(port, taken) {
            Ok(()) => {},
            Err(e) => {
                return Err(e);
            },
        }
        if !self.insert(port) {
            let shown = text::decimal_string(port as u64);
            return Err(
                Failure {
                    message: text::concat3(
                        "Requested host port ",
                        shown.as_str(),
                        " is already being allocated.",
                    ),
                },
            );
        }
        Ok(PortReservation::new(if port > 0 { Some(port) } else { None }))
    }

    /// Reserves the first of the candidates that can be bound and is not reserved; the first
    /// number of each candidate is a port, and the second says whether it can be bound. At most
    /// fifty candidates are looked at.
    pub fn find_port(&mut self, candidates: &Vec<(u16, bool)>) -> (r: Result<u16, Failure>)
        requires
            old(self).wf(),
        ensures
            final(self).wf(),
            match first_free(candidates@, old(self).ports@, 0) {
                Some(port) => r is Ok && r->Ok_0 == port && final(self).ports@ == old(
                    self,
                ).ports@.push(port),
                None => r is Err && r->Err_0.message@ == "No open ports found."@
                    && final(self).ports@ == old(self).ports@,
            },
    {
        let mut i: usize = 0;
        while i < candidates.len() && i < PORT_ATTEMPTS
            invariant
                self.wf(),
                self.ports@ == old(self).ports@,
                0 <= i <= candidates@.len(),
                first_free(candidates@, old(self).ports@, 0) == first_free(
                    candidates@,
                    old(self).ports@,
                    i as int,
                ),
            decreases candidates.len() - i,
        {
            let (port, free) = candidates[i];
            if free && self.insert(port) {
                return Ok(port);
            }
            i += 1;
        }
        Err(Failure::new("No open ports found."))
    }

    /// Ends a reservation.
    pub fn release(&mut self, reservation: PortReservation)
        requires
            old(self).wf(),
        ensures
            final(self).wf(),
            reservation.port is None ==> final(self).ports@ == old(self).ports@,
            reservation.port is Some ==> forall|p: u16| #[trigger]
                final(self).ports@.contains(p) <==> old(self).ports@.contains(p) && p
                    != reservation.port->0,
    {
        let port = match reservation.port {
            Some(port) => port,
            None => {
                return ;
            },
        };
        let mut i: usize = 0;
        while i < self.ports.len()
            invariant
                self.wf(),
                self.ports@ == old(self).ports@,
                reservation.port == Some(port),
                0 <= i <= self.ports@.len(),
                forall|k: int| 0 <= k < i ==> self.ports@[k] != port,
            decreases self.ports.len() - i,
        {
            if self.ports[i] == port {
                let ghost before = self.ports@;
                let _ = self.ports.remove(i);
                proof {
                    let now = self.ports@;
                    assert forall|a: int, b: int|
                        0 <= a < now.len() && 0 <= b < now.len() && a != b implies now[a]
                        != now[b] by {
                        let x = if a < i {
                            a
                        } else {
                            a + 1
                        };
                        let y = if b < i {
                            b
                        } else {
                            b + 1
                        };
                        assert(now[a] == before[x]);
                        assert(now[b] == before[y]);
                    }
                    assert forall|p: u16| #[trigger]
                        now.contains(p) <==> before.contains(p) && p != port by {
                        if now.contains(p) {
                            let a = choose|a: int| 0 <= a < now.len() && now[a] == p;
                            let x = if a < i {
                                a
                            } else {
                                a + 1
                            };
                            assert(before[x] == p);
                            assert(before[i as int] == port);
                        }
                        if before.contains(p) && p != port {
                            let x = choose|x: int| 0 <= x < before.len() && before[x] == p;
                            let a = if x < i {
                                x
                            } else {
                                x - 1
                            };
                            assert(x != i);
                            assert(now[a] == p);
                        }
                    }
                }
                return ;
            }
            i += 1;
        }
    }
}

/// The first candidate from `from` on that can be bound and is not reserved.
pub open spec fn first_free(candidates: Seq<(u16, bool)>, reserved: Seq<u16>, from: int) -> Option<
    u16,
>
    decreases candidates.len() - from,
{
    if from >= candidates.len() || from >= PORT_ATTEMPTS {
        None
    } else if candidates[from].1 && !reserved.contains(candidates[from].0) {
        Some(candidates[from].0)
    } else {
        first_free(candidates, reserved, from + 1)
    }
}

/// A host port that is kept from others while its server is created.
pub struct PortReservation {
    pub port: Option<u16>,
}

impl PortReservation {
    /// A reservation of the given port, or of none.
    pub fn new(port: Option<u16>) -> (r: PortReservation)
        ensures
            r.port == port,
    {
        PortReservation { port }
    }
}

// ---------------------------------------------------------------------------------------------
// Laws.

/// A port in the form `number/protocol` stands for itself.
pub proof fn law_ports_read_back(port: u16, protocol: Seq<char>)
    requires
        is_protocol(protocol),
    ensures
        normalized(port_key(port as nat, protocol)) == Ok::<Seq<char>, Seq<char>>(
            port_key(port as nat, protocol),
        ),
{
    reveal_strlit("/");
    reveal_strlit("tcp");
    reveal_strlit("udp");
    reveal_strlit("sctp");
    let number = text::decimal(port as nat);
    let key = port_key(port as nat, protocol);
    text::law_decimal_reads_back(port as nat);
    assert(text::is_digit(number[0]));
    assert(key[0] == number[0]);
    assert(key.last() == protocol.last());
    assert(text::trimmed(key) == key);
    let short = number + "/"@;
    assert(text::after_last(key, '/') == short.len()) by {
        reveal_with_fuel(text::after_last, 6);
        if protocol == "sctp"@ {
            assert(key.drop_last().drop_last().drop_last().drop_last() =~= short);
        } else {
            assert(key.drop_last().drop_last().drop_last() =~= short);
        }
        assert(short.last() == '/');
    }
    assert(key.take(short.len() - 1) =~= number);
    assert(key.skip(short.len() as int) =~= protocol);
    assert(text::lowered(protocol) =~= protocol);
}

/// Bindings that were accepted bind every internal port and every host port once.
pub proof fn law_bindings_are_unique(m: Seq<(Seq<char>, i32)>)
    requires
        requested(m) is Ok,
    ensures
        requested(m)->Ok_0.len() == m.len(),
        forall|i: int, j: int|
            0 <= i < j < m.len() ==> (#[trigger] requested(m)->Ok_0[i]).0 != (
            #[trigger] requested(m)->Ok_0[j]).0 && requested(m)->Ok_0[i].1
                != requested(m)->Ok_0[j].1,
        forall|i: int| 0 <= i < m.len() ==> (#[trigger] requested(m)->Ok_0[i]).1 == m[i].1,
{
    lemma_rebound_unique(m);
}

proof fn lemma_rebound_unique(m: Seq<(Seq<char>, i32)>)
    requires
        rebound(m) is Ok,
    ensures
        rebound(m)->Ok_0.len() == m.len(),
        forall|i: int, j: int|
            0 <= i < j < m.len() ==> (#[trigger] rebound(m)->Ok_0[i]).0 != (
            #[trigger] rebound(m)->Ok_0[j]).0 && rebound(m)->Ok_0[i].1 != rebound(m)->Ok_0[j].1,
        forall|i: int| 0 <= i < m.len() ==> (#[trigger] rebound(m)->Ok_0[i]).1 == m[i].1,
    decreases m.len(),
{
    if m.len() > 0 {
        let front = m.drop_last();
        lemma_rebound_unique(front);
        let before = rebound(front)->Ok_0;
        let all = rebound(m)->Ok_0;
        assert(all == before.push((internal_key(m.last().0)->Ok_0, m.last().1 as u16)));
        assert forall|i: int, j: int| 0 <= i < j < m.len() implies (#[trigger] all[i]).0 != (
        #[trigger] all[j]).0 && all[i].1 != all[j].1 by {
            assert(all[i] == before[i]);
            if j < front.len() {
                assert(all[j] == before[j]);
            } else {
                assert(before[i].1 == front[i].1);
                assert(front[i] == m[i]);
            }
        }
        assert forall|i: int| 0 <= i < m.len() implies (#[trigger] all[i]).1 == m[i].1 by {
            if i < front.len() {
                assert(all[i] == before[i]);
                assert(front[i] == m[i]);
            }
        }
    }
}

/// A host port is bound to a container port.
pub open spec fn binds_host(b: Seq<(Seq<char>, Seq<u16>)>, key: Seq<char>, host: u16) -> bool {
    exists|i: int| 0 <= i < b.len() && (#[trigger] b[i]).0 == key && b[i].1.contains(host)
}

proof fn lemma_binding_found(b: Seq<(Seq<char>, Seq<u16>)>, key: Seq<char>)
    ensures
        0 <= binding_at(b, key) <= b.len(),
        binding_at(b, key) < b.len() ==> b[binding_at(b, key)].0 == key,
        forall|k: int| 0 <= k < binding_at(b, key) ==> (#[trigger] b[k]).0 != key,
    decreases b.len(),
{
    if b.len() > 0 && b[0].0 != key {
        let rest = b.drop_first();
        lemma_binding_found(rest, key);
        assert forall|k: int| 0 <= k < binding_at(b, key) implies (#[trigger] b[k]).0 != key by {
            if k > 0 {
                assert(rest[k - 1] == b[k]);
            }
        }
    }
}

/// Binding a host port to a container port binds that one and changes no other binding.
pub proof fn law_binding_adds_one_port(
    b: Seq<(Seq<char>, Seq<u16>)>,
    key: Seq<char>,
    host: u16,
    other: Seq<char>,
    port: u16,
)
    ensures
        binds_host(bound(b, key, host), other, port) <==> binds_host(b, other, port) || (other
            == key && port == host),
{
    lemma_binding_found(b, key);
    let i = binding_at(b, key);
    let after = bound(b, key, host);
    if binds_host(after, other, port) {
        let k = choose|k: int|
            0 <= k < after.len() && (#[trigger] after[k]).0 == other && after[k].1.contains(port);
        if k == i {
            if i < b.len() && port != host {
                let p = choose|p: int| 0 <= p < after[k].1.len() && after[k].1[p] == port;
                assert(b[i].1[p] == port);
                assert(b[i].1.contains(port));
            } else if i == b.len() {
                assert(after[k].1 == seq![host]);
                let p = choose|p: int| 0 <= p < after[k].1.len() && after[k].1[p] == port;
            }
        } else {
            assert(after[k] == b[k]);
        }
    }
    if binds_host(b, other, port) {
        let k = choose|k: int|
            0 <= k < b.len() && (#[trigger] b[k]).0 == other && b[k].1.contains(port);
        if k == i {
            let p = choose|p: int| 0 <= p < b[k].1.len() && b[k].1[p] == port;
            assert(after[k].1[p] == port);
        } else {
            assert(after[k] == b[k]);
        }
        assert(after[k].0 == other && after[k].1.contains(port));
    }
    if other == key && port == host {
        let at = after[i].1;
        assert(at[at.len() - 1] == host);
        assert(after[i].0 == key && after[i].1.contains(host));
    }
}

/// A port is added to the plan exactly where it is a port and its host port, if it has one, is a
/// port number that can be bound. It is then exposed, and bound where it has a host port; what was
/// exposed and bound before stays, and nothing else is added.
pub proof fn law_ports_are_exposed_and_bound(
    plan: PortPlanView,
    internal: Seq<char>,
    host: Option<i32>,
    taken: Seq<u16>,
    other: Seq<char>,
    port: u16,
)
    ensures
        ({
            let after = with_port(plan, internal, host, taken);
            &&& after is Ok <==> normalized(internal) is Ok && (host is Some ==> 0 <= host->0
                <= 65535 && !taken.contains(host->0 as u16))
            &&& after is Ok ==> {
                let key = normalized(internal)->Ok_0;
                &&& after->Ok_0.exposed.contains(other) <==> plan.exposed.contains(other) || other
                    == key
                &&& binds_host(after->Ok_0.bindings, other, port) <==> binds_host(
                    plan.bindings,
                    other,
                    port,
                ) || (other == key && host is Some && port == host->0)
            }
        }),
{
    if normalized(internal) is Ok {
        let key = normalized(internal)->Ok_0;
        if host is Some {
            law_binding_adds_one_port(plan.bindings, key, host->0 as u16, other, port);
        }
        let e = plan.exposed;
        if !e.contains(key) {
            let n = e.push(key);
            assert(n[n.len() - 1] == key);
            if e.contains(other) {
                let k = choose|k: int| 0 <= k < e.len() && e[k] == other;
                assert(n[k] == other);
            }
            if n.contains(other) && other != key {
                let k = choose|k: int| 0 <= k < n.len() && n[k] == other;
                assert(e[k] == other);
            }
        }
    }
}

proof fn lemma_parsed_decimal(n: nat)
    ensures
        text::decimal(n).len() > 0,
        !text::decimal(n).contains('/'),
        text::parsed(text::decimal(n)) == Some(n),
        text::trimmed(text::decimal(n)) == text::decimal(n),
{
    text::law_decimal_reads_back(n);
    let s = text::decimal(n);
    assert forall|k: int| 0 <= k < s.len() implies s[k] != '/' && !text::is_space(s[k]) by {
        assert(text::is_digit(s[k]));
    }
    assert(!text::is_space(s[0]) && !text::is_space(s.last()));
}

/// A container port is a number of 16 bits, with a protocol or without one, and then it is one of
/// TCP; a larger number is none.
pub proof fn law_bare_ports_are_tcp(n: nat)
    ensures
        n <= 65535 ==> normalized(text::decimal(n)) == Ok::<Seq<char>, Seq<char>>(
            text::decimal(n) + "/tcp"@,
        ),
        n > 65535 ==> normalized(text::decimal(n)) is Err,
        1 <= n <= 65535 ==> internal_key(text::decimal(n)) == Ok::<Seq<char>, Seq<char>>(
            text::decimal(n) + "/tcp"@,
        ),
        n == 0 || n > 65535 ==> internal_key(text::decimal(n)) is Err,
{
    reveal_strlit("/");
    reveal_strlit("tcp");
    reveal_strlit("/tcp");
    lemma_parsed_decimal(n);
    let s = text::decimal(n);
    assert forall|k: int| 0 <= k < s.len() implies s[k] != '/' by {
        assert(s.contains(s[k]));
    }
    lemma_no_slash(s);
    text::lemma_index_of_unique(s, '/', s.len() as int);
    assert(text::lowered("tcp"@) =~= "tcp"@);
    assert(s + "/"@ + "tcp"@ =~= s + "/tcp"@);
}

proof fn lemma_no_slash(s: Seq<char>)
    requires
        forall|k: int| 0 <= k < s.len() ==> s[k] != '/',
    ensures
        text::after_last(s, '/') == 0,
    decreases s.len(),
{
    if s.len() > 0 {
        lemma_no_slash(s.drop_last());
    }
}

/// The ports of a running server are changed to a number from 1 on with TCP or UDP, and to no other.
pub proof fn law_changed_ports_are_tcp_or_udp(n: nat, protocol: Seq<char>)
    ensures
        internal_key(text::decimal(n) + "/"@ + protocol) is Ok <==> 1 <= n <= 65535 && (protocol
            == "tcp"@ || protocol == "udp"@),
        internal_key(text::decimal(n) + "/"@ + protocol) is Ok ==> internal_key(
            text::decimal(n) + "/"@ + protocol,
        )->Ok_0 == text::decimal(n) + "/"@ + protocol,
{
    reveal_strlit("/");
    lemma_parsed_decimal(n);
    let s = text::decimal(n);
    let key = s + "/"@ + protocol;
    assert forall|k: int| 0 <= k < s.len() implies s[k] != '/' by {
        assert(s.contains(s[k]));
    }
    assert(key[s.len() as int] == '/');
    text::lemma_index_of_unique(key, '/', s.len() as int);
    assert(key.take(s.len() as int) =~= s);
    assert(key.skip(s.len() as int + 1) =~= protocol);
}

/// Up to 32 mappings of different internal ports to different host ports are all accepted, and each
/// is bound as it was asked for.
pub proof fn law_proper_mappings_are_accepted(m: Seq<(Seq<char>, i32)>)
    requires
        1 <= m.len() <= 32,
        forall|i: int|
            0 <= i < m.len() ==> 1 <= (#[trigger] m[i]).1 <= 65535 && internal_key(m[i].0) is Ok,
        forall|i: int, j: int|
            0 <= i < j < m.len() ==> (#[trigger] m[i]).1 != (#[trigger] m[j]).1 && internal_key(
                m[i].0,
            ) != internal_key(m[j].0),
    ensures
        requested(m) is Ok,
        requested(m)->Ok_0.len() == m.len(),
        forall|i: int|
            0 <= i < m.len() ==> (#[trigger] requested(m)->Ok_0[i]).0 == internal_key(
                m[i].0,
            )->Ok_0 && requested(m)->Ok_0[i].1 == m[i].1,
{
    lemma_rebound_accepts(m);
}

proof fn lemma_rebound_accepts(m: Seq<(Seq<char>, i32)>)
    requires
        forall|i: int|
            0 <= i < m.len() ==> 1 <= (#[trigger] m[i]).1 <= 65535 && internal_key(m[i].0) is Ok,
        forall|i: int, j: int|
            0 <= i < j < m.len() ==> (#[trigger] m[i]).1 != (#[trigger] m[j]).1 && internal_key(
                m[i].0,
            ) != internal_key(m[j].0),
    ensures
        rebound(m) is Ok,
        rebound(m)->Ok_0.len() == m.len(),
        forall|i: int|
            0 <= i < m.len() ==> (#[trigger] rebound(m)->Ok_0[i]).0 == internal_key(m[i].0)->Ok_0
                && rebound(m)->Ok_0[i].1 == m[i].1,
    decreases m.len(),
{
    if m.len() > 0 {
        let front = m.drop_last();
        assert forall|i: int| 0 <= i < front.len() implies 1 <= (#[trigger] front[i]).1 <= 65535
            && internal_key(front[i].0) is Ok by {
            assert(front[i] == m[i]);
        }
        assert forall|i: int, j: int| 0 <= i < j < front.len() implies (#[trigger] front[i]).1 != (
        #[trigger] front[j]).1 && internal_key(front[i].0) != internal_key(front[j].0) by {
            assert(front[i] == m[i] && front[j] == m[j]);
        }
        lemma_rebound_accepts(front);
        let before = rebound(front)->Ok_0;
        let last = m[m.len() - 1];
        assert(1 <= last.1 <= 65535);
        assert(!uses_host(front, last.1)) by {
            if uses_host(front, last.1) {
                let k = choose|k: int| 0 <= k < front.len() && (#[trigger] front[k]).1 == last.1;
                assert(front[k] == m[k]);
            }
        }
        assert(!binds(before, internal_key(last.0)->Ok_0)) by {
            if binds(before, internal_key(last.0)->Ok_0) {
                let k = choose|k: int|
                    0 <= k < before.len() && (#[trigger] before[k]).0 == internal_key(last.0)->Ok_0;
                assert(front[k] == m[k]);
                assert(internal_key(m[k].0) == internal_key(last.0));
            }
        }
        assert forall|i: int| 0 <= i < m.len() implies (#[trigger] rebound(m)->Ok_0[i]).0
            == internal_key(m[i].0)->Ok_0 && rebound(m)->Ok_0[i].1 == m[i].1 by {
            if i < front.len() {
                assert(rebound(m)->Ok_0[i] == before[i]);
                assert(front[i] == m[i]);
            }
        }
    }
}

/// Other ports are granted exactly where each of them is the server's already, or is free: neither
/// reserved nor in use.
pub proof fn law_ports_of_others_are_refused(
    requested: Seq<(Seq<char>, u16)>,
    current: Seq<u16>,
    reserved: Seq<u16>,
    taken: Seq<u16>,
)
    ensures
        conflict(requested, current, reserved, taken) is None <==> forall|i: int|
            0 <= i < requested.len() ==> current.contains((#[trigger] requested[i]).1)
                || !reserved.contains(requested[i].1) && !taken.contains(requested[i].1),
    decreases requested.len(),
{
    if requested.len() > 0 {
        let rest = requested.drop_first();
        law_ports_of_others_are_refused(rest, current, reserved, taken);
        if conflict(requested, current, reserved, taken) is None {
            assert forall|i: int| 0 <= i < requested.len() implies current.contains(
                (#[trigger] requested[i]).1,
            ) || !reserved.contains(requested[i].1) && !taken.contains(requested[i].1) by {
                if i > 0 {
                    assert(rest[i - 1] == requested[i]);
                }
            }
        }
        if forall|i: int|
            0 <= i < requested.len() ==> current.contains((#[trigger] requested[i]).1)
                || !reserved.contains(requested[i].1) && !taken.contains(requested[i].1) {
            assert forall|i: int| 0 <= i < rest.len() implies current.contains(
                (#[trigger] rest[i]).1,
            ) || !reserved.contains(rest[i].1) && !taken.contains(rest[i].1) by {
                assert(rest[i] == requested[i + 1]);
            }
            assert(current.contains(requested[0].1) || !reserved.contains(requested[0].1)
                && !taken.contains(requested[0].1));
        }
    }
}

/// The port that is found is one of the first fifty that were tried, it can be bound and nobody has
/// it, and none before it was so; where none is found, none of them was so.
pub proof fn law_the_first_free_port_is_found(
    candidates: Seq<(u16, bool)>,
    reserved: Seq<u16>,
    from: int,
)
    requires
        0 <= from,
    ensures
        match first_free(candidates, reserved, from) {
            Some(port) => exists|i: int|
                from <= i < candidates.len() && i < 50 && #[trigger] candidates[i] == (port, true)
                    && !reserved.contains(port) && forall|j: int|
                    from <= j < i ==> !(#[trigger] candidates[j]).1 || reserved.contains(
                        candidates[j].0,
                    ),
            None => forall|j: int|
                from <= j < candidates.len() && j < 50 ==> !(#[trigger] candidates[j]).1
                    || reserved.contains(candidates[j].0),
        },
    decreases candidates.len() - from,
{
    if from < candidates.len() && from < 50 {
        if candidates[from].1 && !reserved.contains(candidates[from].0) {
            assert(candidates[from] == (candidates[from].0, true));
        } else {
            law_the_first_free_port_is_found(candidates, reserved, from + 1);
            match first_free(candidates, reserved, from) {
                Some(port) => {
                    let i = choose|i: int|
                        from + 1 <= i < candidates.len() && i < 50 && #[trigger] candidates[i] == (
                            port,
                            true,
                        ) && !reserved.contains(port) && forall|j: int|
                            from + 1 <= j < i ==> !(#[trigger] candidates[j]).1
                                || reserved.contains(candidates[j].0);
                    assert(candidates[i] == (port, true));
                    assert forall|j: int| from <= j < i implies !(#[trigger] candidates[j]).1
                        || reserved.contains(candidates[j].0) by {}
                },
                None => {},
            }
        }
    }
}

} // verus!
