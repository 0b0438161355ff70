//! Replacing a container by one with the same configuration.

use crate::error::Failure;
use crate::json::{
    field_in, field_of, fields_view, inner_of, items_view, label_of, law_set_fields_are_found,
    lemma_json_view, set_field, text_of, with_field, Json, JsonView,
};
use crate::docker::ports::{bound_host_ports, host_ports, opt_views, pairs_view, port_number};
use crate::paths::{
    joined, server_dir, valid_id, DATA_CONTAINER_PATH, HOME_CONTAINER_PATH,
};
use crate::text;
use vstd::prelude::*;

verus! {

/// What a container is replaced for.
#[derive(Clone, Copy, PartialEq, Eq, Structural)]
pub enum Purpose {
    UpdatePorts,
    RepairMounts,
}

/// Why a container is not replaced: it is not one of the given server.
pub open spec fn ownership_refusal(inspect: JsonView, id: Seq<char>, purpose: Purpose) -> Option<
    Seq<char>,
> {
    let config = field_of(inspect, "Config"@);
    let labels = inner_of(inspect, "Config"@, "Labels"@);
    let repair = purpose == Purpose::RepairMounts;
    if !(config is Some && config->0 is Object) {
        Some(
            if repair {
                "stale Docker container has no reusable configuration"@
            } else {
                "Docker container has no reusable configuration"@
            },
        )
    } else if !(labels is Some && labels->0 is Object) {
        Some(
            if repair {
                "refusing to recreate a container without Agapornis ownership labels"@
            } else {
                "refusing to update ports without Agapornis ownership labels"@
            },
        )
    } else if label_of(inspect, "agapornis.server_id"@) != Some(id) {
        Some(
            if repair {
                "refusing to recreate a container not owned by this Agapornis server"@
            } else {
                "refusing to update ports on a container not owned by this Agapornis server"@
            },
        )
    } else {
        None
    }
}

/// Accepts a container that is labelled as the given server's.
pub fn check_ownership(inspect: &Json, id: &str, purpose: Purpose) -> (r: Result<(), Failure>)
    ensures
        r is Ok <==> ownership_refusal(inspect@, id@, purpose) is None,
        r is Err ==> Some(r->Err_0.message@) == ownership_refusal(inspect@, id@, purpose),
{
    let repair = purpose == Purpose::RepairMounts;
    let configured = match inspect.field("Config") {
        Some(config) => config.is_object(),
        None => false,
    };
    if !configured {
        return Err(
            Failure::new(
                if repair {
                    "stale Docker container has no reusable configuration"
                } else {
                    "Docker container has no reusable configuration"
                },
            ),
        );
    }
    let labelled = match inspect.inner("Config", "Labels") {
        Some(labels) => labels.is_object(),
        None => false,
    };
    if !labelled {
        return Err(
            Failure::new(
                if repair {
                    "refusing to recreate a container without Agapornis ownership labels"
                } else {
                    "refusing to update ports without Agapornis ownership labels"
                },
            ),
        );
    }
    let own = match inspect.label("agapornis.server_id") {
        Some(label) => text::same(label.as_str(), id),
        None => false,
    };
    if !own {
        return Err(
            Failure::new(
                if repair {
                    "refusing to recreate a container not owned by this Agapornis server"
                } else {
                    "refusing to update ports on a container not owned by this Agapornis server"
                },
            ),
        );
    }
    Ok(())
}

/// A mount is a bind mount to one of the given targets.
pub open spec fn is_managed(mount: JsonView, targets: Seq<Seq<char>>) -> bool {
    let target = text_of(field_of(mount, "Target"@));
    &&& text_of(field_of(mount, "Type"@)) == Some("bind"@)
    &&& target is Some
    &&& targets.contains(target->0)
}

/// A mount with its source set, if it is a managed one.
pub open spec fn repaired(mount: JsonView, targets: Seq<Seq<char>>, source: Seq<char>) -> JsonView {
    if is_managed(mount, targets) {
        JsonView::Object(with_field(mount->Object_0, "Source"@, JsonView::Text(source)))
    } else {
        mount
    }
}

/// The number of managed mounts.
pub open spec fn managed_count(mounts: Seq<JsonView>, targets: Seq<Seq<char>>) -> nat
    decreases mounts.len(),
{
    if mounts.len() == 0 {
        0
    } else {
        managed_count(mounts.drop_last(), targets) + (if is_managed(mounts.last(), targets) {
            1nat
        } else {
            0nat
        })
    }
}

/// Sets the source of every managed mount, and counts them.
pub fn repair_managed_mounts(mounts: &mut Vec<Json>, targets: &Vec<String>, source: &str) -> (r:
    usize)
    ensures
        r == managed_count(items_view(old(mounts)@), text::views(targets@)),
        items_view(final(mounts)@) == items_view(old(mounts)@).map_values(
            |m: JsonView| repaired(m, text::views(targets@), source@),
        ),
{
    broadcast use lemma_json_view;
    let ghost all = items_view(mounts@);
    let ghost wanted = text::views(targets@);
    let mut count: usize = 0;
    let mut i: usize = 0;
    assert(all.take(0) =~= Seq::<JsonView>::empty());
    while i < mounts.len()
        invariant
            wanted == text::views(targets@),
            0 <= i <= mounts@.len(),
            mounts@.len() == all.len(),
            count <= i,
            count == managed_count(all.take(i as int), wanted),
            forall|k: int|
                0 <= k < i ==> (#[trigger] mounts@[k])@ == repaired(all[k], wanted, source@),
            forall|k: int| i <= k < mounts@.len() ==> (#[trigger] mounts@[k])@ == all[k],
        decreases mounts.len() - i,
    {
        broadcast use lemma_json_view;
        proof {
            assert(all.take(i as int + 1).drop_last() =~= all.take(i as int));
            assert(all.take(i as int + 1).last() == mounts@[i as int]@);
        }
        let bind = match mounts[i].field_text("Type") {
            Some(t) => text::same(t.as_str(), "bind"),
            None => false,
        };
        let meant = match mounts[i].field_text("Target") {
            Some(t) => text::list_has(targets.as_slice(), t.as_str()),
            None => false,
        };
        if bind && meant {
            let mut mount = Json::Null;
            core::mem::swap(&mut mount, &mut mounts[i]);
            if let Json::Object(fields) = mount {
                let mut fields = fields;
                set_field(&mut fields, "Source", Json::Text(source.to_owned()));
                mounts.set(i, Json::Object(fields));
            }
            count += 1;
        }
        i += 1;
    }
    assert(all.take(all.len() as int) =~= all);
    assert(items_view(mounts@) =~= all.map_values(|m: JsonView| repaired(m, wanted, source@)));
    count
}

/// Where the server's directory is mounted in a container: the data directory that it is labelled
/// with, and the two usual ones.
pub open spec fn managed_targets(inspect: JsonView) -> Seq<Seq<char>> {
    seq![
        match label_of(inspect, "agapornis.data_path"@) {
            Some(s) => s,
            None => HOME_CONTAINER_PATH@,
        },
        HOME_CONTAINER_PATH@,
        DATA_CONTAINER_PATH@,
    ]
}

fn list_targets(inspect: &Json) -> (r: Vec<String>)
    ensures
        text::views(r@) == managed_targets(inspect@),
{
    let data = match inspect.label("agapornis.data_path") {
        Some(s) => s,
        None => HOME_CONTAINER_PATH.to_owned(),
    };
    let out = text::owned(vec![data.as_str(), HOME_CONTAINER_PATH, DATA_CONTAINER_PATH]);
    assert(text::views(out@) =~= managed_targets(inspect@));
    out
}

/// The mounts of a host configuration; none where it lists none.
pub open spec fn mounts_of(host_config: JsonView) -> Seq<JsonView> {
    match field_of(host_config, "Mounts"@) {
        Some(JsonView::Array(mounts)) => mounts,
        _ => Seq::empty(),
    }
}

/// A host configuration whose managed mounts come from the given directory.
pub open spec fn repaired_host(host_config: JsonView, targets: Seq<Seq<char>>, source: Seq<char>) -> JsonView {
    JsonView::Object(
        with_field(
            host_config->Object_0,
            "Mounts"@,
            JsonView::Array(
                mounts_of(host_config).map_values(|m: JsonView| repaired(m, targets, source)),
            ),
        ),
    )
}

/// Why the mounts of a container are not repaired.
pub open spec fn repair_refusal(inspect: JsonView, id: Seq<char>) -> Option<Seq<char>> {
    let host = field_of(inspect, "HostConfig"@);
    match ownership_refusal(inspect, id, Purpose::RepairMounts) {
        Some(m) => Some(m),
        None => if !valid_id(id) {
            Some("invalid server id"@)
        } else if !(host is Some && host->0 is Object) {
            Some("stale Docker container has no reusable host configuration"@)
        } else if managed_count(mounts_of(host->0), managed_targets(inspect)) == 0 {
            Some("stale Docker container has no managed bind mounts to repair"@)
        } else {
            None
        },
    }
}

/// The host configuration of a container with its managed mounts repaired; `base` is the directory
/// that holds every server.
pub fn repaired_host_config(inspect: &Json, base: &str, id: &str) -> (r: Result<Json, Failure>)
    ensures
        r is Ok <==> repair_refusal(inspect@, id@) is None,
        r is Ok ==> r->Ok_0@ == repaired_host(
            field_of(inspect@, "HostConfig"@)->0,
            managed_targets(inspect@),
            joined(base@, id@),
        ),
        r is Err ==> Some(r->Err_0.message@) == repair_refusal(inspect@, id@),
{
    broadcast use lemma_json_view;
    match check_ownership(inspect, id, Purpose::RepairMounts) {
        Ok(()) => {},
        Err(e) => {
            return Err(e);
        },
    }
    let source = match server_dir(base, id) {
        Ok(source) => source,
        Err(e) => {
            return Err(e);
        },
    };
    let host = match inspect.field("HostConfig") {
        Some(host) => host.copy(),
        None => {
            return Err(
                Failure::new("stale Docker container has no reusable host configuration"),
            );
        },
    };
    let ghost before = host@;
    let mut mounts = match host.field("Mounts") {
        Some(Json::Array(_)) => match host.field("Mounts") {
            Some(found) => match found.copy() {
                Json::Array(mounts) => mounts,
                _ => Vec::new(),
            },
            None => Vec::new(),
        },
        _ => {
            let none: Vec<Json> = Vec::new();
            assert(items_view(none@) =~= Seq::<JsonView>::empty());
            none
        },
    };
    assert(items_view(mounts@) == mounts_of(before));
    match host {
        Json::Object(fields) => {
            let mut fields = fields;
            let targets = list_targets(inspect);
            let count = repair_managed_mounts(&mut mounts, &targets, source.as_str());
            if count == 0 {
                return Err(
                    Failure::new("stale Docker container has no managed bind mounts to repair"),
                );
            }
            set_field(&mut fields, "Mounts", Json::Array(mounts));
            Ok(Json::Object(fields))
        },
        _ => Err(Failure::new("stale Docker container has no reusable host configuration")),
    }
}

/// The networks of a container that is replaced: each by its name, with the server's identifier as
/// alias.
pub open spec fn endpoints(networks: Seq<Seq<char>>, id: Seq<char>) -> Seq<(Seq<char>, JsonView)> {
    networks.map_values(
        |n: Seq<char>|
            (
                n,
                JsonView::Object(
                    seq![("Aliases"@, JsonView::Array(seq![JsonView::Text(id)]))],
                ),
            ),
    )
}

/// The networking configuration of a container that is replaced.
pub open spec fn networking(networks: Option<Seq<Seq<char>>>, id: Seq<char>) -> JsonView {
    JsonView::Object(
        match networks {
            Some(list) => seq![("EndpointsConfig"@, JsonView::Object(endpoints(list, id)))],
            None => Seq::empty(),
        },
    )
}

/// The names of the networks that an inspected container is in.
pub open spec fn networks_in(inspect: JsonView) -> Option<Seq<Seq<char>>> {
    match inner_of(inspect, "NetworkSettings"@, "Networks"@) {
        Some(JsonView::Object(fields)) => Some(
            fields.map_values(|f: (Seq<char>, JsonView)| f.0),
        ),
        _ => None,
    }
}

/// The names of the networks that an inspected container is in.
pub fn networks_of(inspect: &Json) -> (r: Option<Vec<String>>)
    ensures
        text::list_view(r) == networks_in(inspect@),
{
    broadcast use lemma_json_view;

    match inspect.inner("NetworkSettings", "Networks") {
        Some(Json::Object(fields)) => {
            let ghost all = fields_view(fields@).map_values(|f: (Seq<char>, JsonView)| f.0);
            let mut names: Vec<String> = Vec::new();
            let mut i: usize = 0;
            assert(text::views(names@) =~= all.take(0));
            while i < fields.len()
                invariant
                    all == fields_view(fields@).map_values(|f: (Seq<char>, JsonView)| f.0),
                    0 <= i <= fields@.len(),
                    text::views(names@) == all.take(i as int),
                decreases fields.len() - i,
            {
                let ghost before = names@;
                let name = fields[i].0.as_str().to_owned();
                names.push(name);
                proof {
                    text::lemma_views_push(before, name);
                    assert(all[i as int] == name@);
                    assert(text::views(names@) =~= all.take(i as int + 1));
                }
                i += 1;
            }
            assert(all.take(all.len() as int) =~= all);
            Some(names)
        },
        _ => None,
    }
}

/// The host ports in one list of bindings, as Docker writes them.
pub open spec fn texts_in(list: JsonView) -> Seq<Option<Seq<char>>> {
    match list {
        JsonView::Array(items) => items.map_values(
            |binding: JsonView| text_of(field_of(binding, "HostPort"@)),
        ),
        _ => Seq::empty(),
    }
}

/// The host ports in the lists of bindings of a container's ports, as Docker writes them.
pub open spec fn all_texts_in(fields: Seq<(Seq<char>, JsonView)>) -> Seq<Option<Seq<char>>>
    decreases fields.len(),
{
    if fields.len() == 0 {
        Seq::empty()
    } else {
        all_texts_in(fields.drop_last()) + texts_in(fields.last().1)
    }
}

/// The host ports that an inspected container binds.
pub open spec fn ports_in(inspect: JsonView) -> Set<u16> {
    match inner_of(inspect, "HostConfig"@, "PortBindings"@) {
        Some(JsonView::Object(fields)) => host_ports(all_texts_in(fields)),
        _ => Set::empty(),
    }
}

fn add_texts(list: &Json, out: &mut Vec<Option<String>>)
    ensures
        opt_views(final(out)@) == opt_views(old(out)@) + texts_in(list@),
{
    broadcast use lemma_json_view;

    let ghost start = opt_views(out@);
    if let Json::Array(items) = list {
        let ghost all = texts_in(list@);
        let mut i: usize = 0;
        assert(start + all.take(0) =~= start);
        while i < items.len()
            invariant
                list@ == JsonView::Array(items_view(items@)),
                all == texts_in(list@),
                0 <= i <= items@.len(),
                opt_views(out@) == start + all.take(i as int),
            decreases items.len() - i,
        {
            let ghost before = opt_views(out@);
            let port = items[i].field_text("HostPort");
            out.push(port);
            proof {
                assert(items_view(items@)[i as int] == items@[i as int]@);
                assert(all[i as int] == text::opt_view(port));
                assert(opt_views(out@) =~= before.push(text::opt_view(port)));
                assert(start + all.take(i as int + 1) =~= (start + all.take(i as int)).push(
                    all[i as int],
                ));
            }
            i += 1;
        }
        assert(all.take(all.len() as int) =~= all);
    } else {
        assert(start + texts_in(list@) =~= start);
    }
}

/// The host ports that an inspected container binds.
pub fn ports_of(inspect: &Json) -> (r: Vec<u16>)
    ensures
        r@.to_set() == ports_in(inspect@),
{
    broadcast use lemma_json_view;

    let mut texts: Vec<Option<String>> = Vec::new();
    match inspect.inner("HostConfig", "PortBindings") {
        Some(Json::Object(fields)) => {
            let ghost all = fields_view(fields@);
            let mut i: usize = 0;
            assert(all.take(0) =~= Seq::<(Seq<char>, JsonView)>::empty());
            assert(opt_views(texts@) =~= all_texts_in(all.take(0)));
            while i < fields.len()
                invariant
                    all == fields_view(fields@),
                    0 <= i <= fields@.len(),
                    opt_views(texts@) == all_texts_in(all.take(i as int)),
                decreases fields.len() - i,
            {
                add_texts(&fields[i].1, &mut texts);
                proof {
                    assert(all.take(i as int + 1).drop_last() =~= all.take(i as int));
                    assert(all.take(i as int + 1).last() == all[i as int]);
                    assert(all[i as int].1 == fields@[i as int].1@);
                }
                i += 1;
            }
            assert(all.take(all.len() as int) =~= all);
            bound_host_ports(&texts)
        },
        _ => {
            let none: Vec<u16> = Vec::new();
            assert(none@.to_set() =~= Set::<u16>::empty());
            none
        },
    }
}

/// The networking configuration of a container that is replaced: the networks that it was in.
pub fn reusable_networks(networks: &Option<Vec<String>>, id: &str) -> (r: Json)
    ensures
        r@ == networking(text::list_view(*networks), id@),
{
    broadcast use lemma_json_view;
    let mut top: Vec<(String, Json)> = Vec::new();
    assert(fields_view(top@) =~= Seq::<(Seq<char>, JsonView)>::empty());
    if let Some(list) = networks {
        let ghost all = endpoints(text::views(list@), id@);
        let mut out: Vec<(String, Json)> = Vec::new();
        let mut i: usize = 0;
        assert(fields_view(out@) =~= all.take(0));
        while i < list.len()
            invariant
                all == endpoints(text::views(list@), id@),
                0 <= i <= list@.len(),
                fields_view(out@) == all.take(i as int),
            decreases list.len() - i,
        {
            broadcast use lemma_json_view;
            let mut names: Vec<Json> = Vec::new();
            names.push(Json::Text(id.to_owned()));
            assert(items_view(names@) =~= seq![JsonView::Text(id@)]);
            let mut endpoint: Vec<(String, Json)> = Vec::new();
            endpoint.push(("Aliases".to_owned(), Json::Array(names)));
            assert(fields_view(endpoint@) =~= seq![
                ("Aliases"@, JsonView::Array(seq![JsonView::Text(id@)])),
            ]);
            let ghost before = fields_view(out@);
            out.push((list[i].as_str().to_owned(), Json::Object(endpoint)));
            proof {
                assert(text::views(list@)[i as int] == list@[i as int]@);
                assert(fields_view(out@) =~= before.push(all[i as int]));
                assert(fields_view(out@) =~= all.take(i as int + 1));
            }
            i += 1;
        }
        assert(all.take(all.len() as int) =~= all);
        top.push(("EndpointsConfig".to_owned(), Json::Object(out)));
        assert(fields_view(top@) =~= seq![("EndpointsConfig"@, JsonView::Object(all))]);
    }
    Json::Object(top)
}

/// What Docker is given to create the container that replaces another: its configuration, with the
/// host and network configuration in it.
pub fn create_body(config: &Json, host_config: Json, networking_config: Json) -> (r: Result<
    Json,
    Failure,
>)
    ensures
        r is Ok <==> config@ is Object,
        r is Ok ==> r->Ok_0@ == JsonView::Object(
            with_field(
                with_field(config@->Object_0, "HostConfig"@, host_config@),
                "NetworkingConfig"@,
                networking_config@,
            ),
        ),
        r is Err ==> r->Err_0.message@ == "stale container configuration was not an object"@,
{
    broadcast use lemma_json_view;
    match config.copy() {
        Json::Object(fields) => {
            let mut fields = fields;
            set_field(&mut fields, "HostConfig", host_config);
            set_field(&mut fields, "NetworkingConfig", networking_config);
            Ok(Json::Object(fields))
        },
        _ => Err(Failure::new("stale container configuration was not an object")),
    }
}

/// The ports that a container exposes, as Docker writes them.
pub open spec fn exposed_view(exposed: Seq<Seq<char>>) -> JsonView {
    JsonView::Object(exposed.map_values(|p: Seq<char>| (p, JsonView::Object(Seq::empty()))))
}

/// One port of the host that a port of a container is bound to, as Docker writes it.
pub open spec fn binding_view(port: u16) -> JsonView {
    JsonView::Array(
        seq![
            JsonView::Object(
                seq![
                    ("HostIp"@, JsonView::Text("0.0.0.0"@)),
                    ("HostPort"@, JsonView::Text(text::decimal(port as nat))),
                ],
            ),
        ],
    )
}

/// The ports of the host that the ports of a container are bound to, as Docker writes them.
pub open spec fn bindings_view(bindings: Seq<(Seq<char>, u16)>) -> JsonView {
    JsonView::Object(bindings.map_values(|b: (Seq<char>, u16)| (b.0, binding_view(b.1))))
}

fn exposed_json(exposed: &Vec<String>) -> (r: Json)
    ensures
        r@ == exposed_view(text::views(exposed@)),
{
    broadcast use lemma_json_view;

    let ghost all = exposed_view(text::views(exposed@))->Object_0;
    let mut out: Vec<(String, Json)> = Vec::new();
    let mut i: usize = 0;
    assert(fields_view(out@) =~= all.take(0));
    while i < exposed.len()
        invariant
            all == exposed_view(text::views(exposed@))->Object_0,
            0 <= i <= exposed@.len(),
            fields_view(out@) == all.take(i as int),
        decreases exposed.len() - i,
    {
        broadcast use lemma_json_view;

        let none: Vec<(String, Json)> = Vec::new();
        assert(fields_view(none@) =~= Seq::<(Seq<char>, JsonView)>::empty());
        let ghost before = fields_view(out@);
        out.push((exposed[i].as_str().to_owned(), Json::Object(none)));
        proof {
            assert(text::views(exposed@)[i as int] == exposed@[i as int]@);
            assert(fields_view(out@) =~= before.push(all[i as int]));
            assert(fields_view(out@) =~= all.take(i as int + 1));
        }
        i += 1;
    }
    assert(all.take(all.len() as int) =~= all);
    Json::Object(out)
}

fn binding_json(port: u16) -> (r: Json)
    ensures
        r@ == binding_view(port),
{
    broadcast use lemma_json_view;

    let number = text::decimal_string(port as u64);
    let fields: Vec<(String, Json)> = vec![
        ("HostIp".to_owned(), Json::Text("0.0.0.0".to_owned())),
        ("HostPort".to_owned(), Json::Text(number)),
    ];
    assert(fields_view(fields@) =~= seq![
        ("HostIp"@, JsonView::Text("0.0.0.0"@)),
        ("HostPort"@, JsonView::Text(text::decimal(port as nat))),
    ]);
    let items: Vec<Json> = vec![Json::Object(fields)];
    assert(items_view(items@) =~= binding_view(port)->Array_0);
    Json::Array(items)
}

fn bindings_json(bindings: &Vec<(String, u16)>) -> (r: Json)
    ensures
        r@ == bindings_view(pairs_view(bindings@)),
{
    broadcast use lemma_json_view;

    let ghost all = bindings_view(pairs_view(bindings@))->Object_0;
    let mut out: Vec<(String, Json)> = Vec::new();
    let mut i: usize = 0;
    assert(fields_view(out@) =~= all.take(0));
    while i < bindings.len()
        invariant
            all == bindings_view(pairs_view(bindings@))->Object_0,
            0 <= i <= bindings@.len(),
            fields_view(out@) == all.take(i as int),
        decreases bindings.len() - i,
    {
        broadcast use lemma_json_view;

        let ghost before = fields_view(out@);
        let value = binding_json(bindings[i].1);
        out.push((bindings[i].0.as_str().to_owned(), value));
        proof {
            assert(pairs_view(bindings@)[i as int].0 == bindings@[i as int].0@);
            assert(fields_view(out@) =~= before.push(all[i as int]));
            assert(fields_view(out@) =~= all.take(i as int + 1));
        }
        i += 1;
    }
    assert(all.take(all.len() as int) =~= all);
    Json::Object(out)
}

/// Why the ports of a container are not changed; none where they are.
pub open spec fn ports_refusal(inspect: JsonView, id: Seq<char>) -> Option<Seq<char>> {
    let host = field_of(inspect, "HostConfig"@);
    match ownership_refusal(inspect, id, Purpose::UpdatePorts) {
        Some(m) => Some(m),
        None => if !(host is Some && host->0 is Object) {
            Some("Docker container has no reusable host configuration"@)
        } else {
            None
        },
    }
}

/// What Docker is given to create the container that replaces another with other ports: its
/// configuration, with the new ports in it, in the networks that it was in.
pub fn ports_body(
    inspect: &Json,
    id: &str,
    exposed: &Vec<String>,
    bindings: &Vec<(String, u16)>,
) -> (r: Result<Json, Failure>)
    ensures
        r is Ok <==> ports_refusal(inspect@, id@) is None,
        r is Err ==> Some(r->Err_0.message@) == ports_refusal(inspect@, id@),
        r is Ok ==> r->Ok_0@ == JsonView::Object(
            with_field(
                with_field(
                    with_field(
                        field_of(inspect@, "Config"@)->0->Object_0,
                        "ExposedPorts"@,
                        exposed_view(text::views(exposed@)),
                    ),
                    "HostConfig"@,
                    JsonView::Object(
                        with_field(
                            field_of(inspect@, "HostConfig"@)->0->Object_0,
                            "PortBindings"@,
                            bindings_view(pairs_view(bindings@)),
                        ),
                    ),
                ),
                "NetworkingConfig"@,
                networking(networks_in(inspect@), id@),
            ),
        ),
{
    broadcast use lemma_json_view;

    if let Err(e) = check_ownership(inspect, id, Purpose::UpdatePorts) {
        return Err(e);
    }
    let found = match inspect.field("HostConfig") {
        Some(value) => value.copy(),
        None => Json::Null,
    };
    let host = match found {
        Json::Object(fields) => {
            let mut fields = fields;
            set_field(&mut fields, "PortBindings", bindings_json(bindings));
            Json::Object(fields)
        },
        _ => {
            return Err(Failure::new("Docker container has no reusable host configuration"));
        },
    };
    let config = match inspect.field("Config") {
        Some(value) => match value.copy() {
            Json::Object(fields) => {
                let mut fields = fields;
                set_field(&mut fields, "ExposedPorts", exposed_json(exposed));
                Json::Object(fields)
            },
            other => other,
        },
        None => Json::Null,
    };
    create_body(&config, host, reusable_networks(&networks_of(inspect), id))
}

/// What is done next in replacing a container.
#[derive(Clone, Copy, PartialEq, Eq, Structural)]
pub enum ReplaceStep {
    /// Give the old container another name.
    RenameOld,
    CreateNew,
    /// Give the old container its name back.
    RestoreName,
    /// Remove the old container; that it stays is no failure.
    RemoveOld,
    Done,
    Fail,
}

/// What follows a step of replacing a container.
pub open spec fn replaced_by(step: ReplaceStep, succeeded: bool) -> ReplaceStep {
    match step {
        ReplaceStep::RenameOld => if succeeded {
            ReplaceStep::CreateNew
        } else {
            ReplaceStep::Fail
        },
        ReplaceStep::CreateNew => if succeeded {
            ReplaceStep::RemoveOld
        } else {
            ReplaceStep::RestoreName
        },
        ReplaceStep::RestoreName => ReplaceStep::Fail,
        ReplaceStep::RemoveOld => ReplaceStep::Done,
        ReplaceStep::Done => ReplaceStep::Done,
        ReplaceStep::Fail => ReplaceStep::Fail,
    }
}

/// What follows a step of replacing a container: where the new one cannot be created, the old one
/// gets its name back.
pub fn after_replace_step(step: ReplaceStep, succeeded: bool) -> (r: ReplaceStep)
    ensures
        r == replaced_by(step, succeeded),
{
    match step {
        ReplaceStep::RenameOld => if succeeded {
            ReplaceStep::CreateNew
        } else {
            ReplaceStep::Fail
        },
        ReplaceStep::CreateNew => if succeeded {
            ReplaceStep::RemoveOld
        } else {
            ReplaceStep::RestoreName
        },
        ReplaceStep::RestoreName => ReplaceStep::Fail,
        ReplaceStep::RemoveOld => ReplaceStep::Done,
        ReplaceStep::Done => ReplaceStep::Done,
        ReplaceStep::Fail => ReplaceStep::Fail,
    }
}

/// The name that the old container gets; `unique` tells it from others.
pub fn stale_name(id: &str, unique: &str) -> (r: String)
    ensures
        r@ == id@ + "-stale-"@ + unique@,
{
    text::concat3(id, "-stale-", unique)
}

// ---------------------------------------------------------------------------------------------
// Laws.

/// The steps of replacing a container, from the first one on, given how each of them went.
pub open spec fn replacement(outcomes: Seq<bool>) -> Seq<ReplaceStep>
    decreases outcomes.len(),
{
    if outcomes.len() == 0 {
        seq![ReplaceStep::RenameOld]
    } else {
        let before = replacement(outcomes.drop_last());
        before.push(replaced_by(before.last(), outcomes.last()))
    }
}

/// However the steps go, a replacement is over after four of them, and it has removed the old
/// container only if the new one was created.
pub proof fn law_replacement_ends(outcomes: Seq<bool>)
    requires
        outcomes.len() == 4,
    ensures
        replacement(outcomes).last() == ReplaceStep::Done || replacement(outcomes).last()
            == ReplaceStep::Fail,
        replacement(outcomes).contains(ReplaceStep::RemoveOld) ==> outcomes[0] && outcomes[1],
        replacement(outcomes).last() == ReplaceStep::Done <==> outcomes[0] && outcomes[1],
        replacement(outcomes).contains(ReplaceStep::RestoreName) <==> outcomes[0] && !outcomes[1],
{
    reveal_with_fuel(replacement, 5);
    let o3 = outcomes.drop_last();
    let o2 = o3.drop_last();
    let o1 = o2.drop_last();
    let s = replacement(outcomes);
    assert(s.len() == 5);
    assert(s[0] == ReplaceStep::RenameOld);
    assert(s[1] == replaced_by(s[0], outcomes[0]));
    assert(s[2] == replaced_by(s[1], outcomes[1]));
    assert(s[3] == replaced_by(s[2], outcomes[2]));
    assert(s[4] == replaced_by(s[3], outcomes[3]));
    if outcomes[0] && !outcomes[1] {
        assert(s[2] == ReplaceStep::RestoreName);
    }
}

/// Repairing mounts leaves every mount that is not managed as it was.
pub proof fn law_other_mounts_stay(
    mounts: Seq<JsonView>,
    targets: Seq<Seq<char>>,
    source: Seq<char>,
    i: int,
)
    requires
        0 <= i < mounts.len(),
        !is_managed(mounts[i], targets),
    ensures
        mounts.map_values(|m: JsonView| repaired(m, targets, source))[i] == mounts[i],
{
}

/// A container is replaced exactly where it is labelled as that of the server, for either purpose.
pub proof fn law_only_own_containers_are_replaced(inspect: JsonView, id: Seq<char>, purpose: Purpose)
    ensures
        ownership_refusal(inspect, id, purpose) is None ==> label_of(
            inspect,
            "agapornis.server_id"@,
        ) == Some(id),
        label_of(inspect, "agapornis.server_id"@) == Some(id) ==> ownership_refusal(
            inspect,
            id,
            purpose,
        ) is None,
{
    if label_of(inspect, "agapornis.server_id"@) == Some(id) {
        assert(field_of(inspect, "Config"@) is Some);
        assert(inner_of(inspect, "Config"@, "Labels"@) is Some);
    }
}

/// A bind mount to one of the targets gets its new source and keeps everything else; there is
/// something to repair exactly where there is such a mount.
pub proof fn law_managed_mounts_get_their_source(
    fields: Seq<(Seq<char>, JsonView)>,
    targets: Seq<Seq<char>>,
    source: Seq<char>,
    target: Seq<char>,
    other: Seq<char>,
)
    requires
        field_in(fields, "Type"@) == Some(JsonView::Text("bind"@)),
        field_in(fields, "Target"@) == Some(JsonView::Text(target)),
        other != "Source"@,
    ensures
        targets.contains(target) ==> field_of(
            repaired(JsonView::Object(fields), targets, source),
            "Source"@,
        ) == Some(JsonView::Text(source)),
        field_of(repaired(JsonView::Object(fields), targets, source), other) == field_in(
            fields,
            other,
        ),
        !targets.contains(target) ==> repaired(JsonView::Object(fields), targets, source)
            == JsonView::Object(fields),
{
    law_set_fields_are_found(fields, "Source"@, JsonView::Text(source), other);
}

/// Mounts of a container are counted where they are bind mounts to one of the targets.
pub proof fn law_managed_mounts_are_counted(mounts: Seq<JsonView>, targets: Seq<Seq<char>>)
    ensures
        managed_count(mounts, targets) > 0 <==> exists|i: int|
            0 <= i < mounts.len() && is_managed(#[trigger] mounts[i], targets),
    decreases mounts.len(),
{
    if mounts.len() > 0 {
        let before = mounts.drop_last();
        law_managed_mounts_are_counted(before, targets);
        assert(mounts[mounts.len() - 1] == mounts.last());
        if exists|i: int| 0 <= i < mounts.len() && is_managed(#[trigger] mounts[i], targets) {
            let i = choose|i: int| 0 <= i < mounts.len() && is_managed(#[trigger] mounts[i], targets);
            if i < before.len() {
                assert(before[i] == mounts[i]);
            }
        }
        if exists|i: int| 0 <= i < before.len() && is_managed(#[trigger] before[i], targets) {
            let i = choose|i: int| 0 <= i < before.len() && is_managed(#[trigger] before[i], targets);
            assert(before[i] == mounts[i]);
        }
    }
}

/// The directory of a server is mounted where its container is labelled to hold its data, and at
/// the two usual places.
pub proof fn law_data_is_mounted_where_labelled(inspect: JsonView)
    ensures
        managed_targets(inspect).contains("/home/container"@),
        managed_targets(inspect).contains("/data"@),
        label_of(inspect, "agapornis.data_path"@) is Some ==> managed_targets(inspect).contains(
            label_of(inspect, "agapornis.data_path"@)->0,
        ),
{
    let t = managed_targets(inspect);
    assert(HOME_CONTAINER_PATH@ == "/home/container"@);
    assert(DATA_CONTAINER_PATH@ == "/data"@);
    assert(t[0] == t[0] && t[1] == "/home/container"@ && t[2] == "/data"@);
}

/// Repairing a host configuration repairs each of its mounts in its place, and changes nothing else.
pub proof fn law_repairs_change_mounts_only(
    fields: Seq<(Seq<char>, JsonView)>,
    mounts: Seq<JsonView>,
    targets: Seq<Seq<char>>,
    source: Seq<char>,
    other: Seq<char>,
    i: int,
)
    requires
        field_in(fields, "Mounts"@) == Some(JsonView::Array(mounts)),
        other != "Mounts"@,
    ensures
        ({
            let host = repaired_host(JsonView::Object(fields), targets, source);
            &&& field_of(host, other) == field_in(fields, other)
            &&& mounts_of(host).len() == mounts.len()
            &&& 0 <= i < mounts.len() ==> mounts_of(host)[i] == repaired(
                mounts[i],
                targets,
                source,
            )
        }),
{
    law_set_fields_are_found(
        fields,
        "Mounts"@,
        JsonView::Array(mounts.map_values(|m: JsonView| repaired(m, targets, source))),
        other,
    );
}

/// The mounts of a server's own container are repaired exactly where there is one to repair.
pub proof fn law_own_mounts_are_repaired(inspect: JsonView, id: Seq<char>, host: JsonView)
    requires
        label_of(inspect, "agapornis.server_id"@) == Some(id),
        valid_id(id),
        field_of(inspect, "HostConfig"@) == Some(host),
        host is Object,
    ensures
        repair_refusal(inspect, id) is None <==> exists|i: int|
            0 <= i < mounts_of(host).len() && is_managed(
                #[trigger] mounts_of(host)[i],
                managed_targets(inspect),
            ),
        ports_refusal(inspect, id) is None,
{
    law_only_own_containers_are_replaced(inspect, id, Purpose::RepairMounts);
    law_only_own_containers_are_replaced(inspect, id, Purpose::UpdatePorts);
    law_managed_mounts_are_counted(mounts_of(host), managed_targets(inspect));
}

/// A container of another server, or of none, is neither repaired nor given other ports.
pub proof fn law_other_containers_are_left_alone(inspect: JsonView, id: Seq<char>)
    requires
        label_of(inspect, "agapornis.server_id"@) != Some(id),
    ensures
        repair_refusal(inspect, id) is Some,
        ports_refusal(inspect, id) is Some,
{
    law_only_own_containers_are_replaced(inspect, id, Purpose::RepairMounts);
    law_only_own_containers_are_replaced(inspect, id, Purpose::UpdatePorts);
}

/// A container stays in the networks it was in, and is found in each under the server's identifier.
pub proof fn law_networks_are_kept(
    inspect: JsonView,
    networks: Seq<(Seq<char>, JsonView)>,
    id: Seq<char>,
    i: int,
)
    requires
        inner_of(inspect, "NetworkSettings"@, "Networks"@) == Some(JsonView::Object(networks)),
        0 <= i < networks.len(),
    ensures
        networks_in(inspect) is Some,
        networks_in(inspect)->0.len() == networks.len(),
        networks_in(inspect)->0[i] == networks[i].0,
        ({
            let all = field_of(networking(networks_in(inspect), id), "EndpointsConfig"@);
            &&& all is Some
            &&& all->0 is Object
            &&& all->0->Object_0.len() == networks.len()
            &&& all->0->Object_0[i].0 == networks[i].0
            &&& field_of(all->0->Object_0[i].1, "Aliases"@) == Some(
                JsonView::Array(seq![JsonView::Text(id)]),
            )
        }),
        networking(None, id) == JsonView::Object(Seq::empty()),
{
}

/// A port of the host counts as bound where some binding of some port of the container names it.
pub proof fn law_bound_ports_are_seen(
    inspect: JsonView,
    fields: Seq<(Seq<char>, JsonView)>,
    bindings: Seq<JsonView>,
    i: int,
    j: int,
    port: u16,
)
    requires
        inner_of(inspect, "HostConfig"@, "PortBindings"@) == Some(JsonView::Object(fields)),
        0 <= i < fields.len(),
        fields[i].1 == JsonView::Array(bindings),
        0 <= j < bindings.len(),
        field_of(bindings[j], "HostPort"@) == Some(JsonView::Text(text::decimal(port as nat))),
    ensures
        ports_in(inspect).contains(port),
{
    text::law_decimal_reads_back(port as nat);
    lemma_text_is_seen(fields, i, j, bindings);
    let all = all_texts_in(fields);
    let k = choose|k: int| 0 <= k < all.len() && all[k] == Some(text::decimal(port as nat));
    assert(all[k] is Some && port_number(all[k]->0) == Some(port));
}

proof fn lemma_text_is_seen(
    fields: Seq<(Seq<char>, JsonView)>,
    i: int,
    j: int,
    bindings: Seq<JsonView>,
)
    requires
        0 <= i < fields.len(),
        fields[i].1 == JsonView::Array(bindings),
        0 <= j < bindings.len(),
    ensures
        all_texts_in(fields).contains(text_of(field_of(bindings[j], "HostPort"@))),
    decreases fields.len(),
{
    let before = all_texts_in(fields.drop_last());
    let last = texts_in(fields.last().1);
    let wanted = text_of(field_of(bindings[j], "HostPort"@));
    if i < fields.len() - 1 {
        lemma_text_is_seen(fields.drop_last(), i, j, bindings);
        let k = choose|k: int| 0 <= k < before.len() && before[k] == wanted;
        assert((before + last)[k] == wanted);
    } else {
        assert(last[j] == wanted);
        assert((before + last)[before.len() + j] == wanted);
    }
}

/// Ports are written so that they are read back: what a plan exposes and binds is what Docker is
/// told, each port bound to the one of the host, on every address.
pub proof fn law_ports_are_written_as_planned(
    exposed: Seq<Seq<char>>,
    bindings: Seq<(Seq<char>, u16)>,
    i: int,
)
    ensures
        exposed_view(exposed)->Object_0.len() == exposed.len(),
        0 <= i < exposed.len() ==> exposed_view(exposed)->Object_0[i] == (
            exposed[i],
            JsonView::Object(Seq::empty()),
        ),
        bindings_view(bindings)->Object_0.len() == bindings.len(),
        0 <= i < bindings.len() ==> bindings_view(bindings)->Object_0[i].0 == bindings[i].0,
        0 <= i < bindings.len() ==> texts_in(bindings_view(bindings)->Object_0[i].1) == seq![
            Some(text::decimal(bindings[i].1 as nat)),
        ],
        0 <= i < bindings.len() ==> bindings_view(bindings)->Object_0[i].1 is Array && field_of(
            bindings_view(bindings)->Object_0[i].1->Array_0[0],
            "HostIp"@,
        ) == Some(JsonView::Text("0.0.0.0"@)),
{
    if 0 <= i < bindings.len() {
        let list = binding_view(bindings[i].1);
        reveal_strlit("HostIp");
        reveal_strlit("HostPort");
        assert("HostIp"@.len() != "HostPort"@.len());
        let fields = list->Array_0[0]->Object_0;
        assert(fields.drop_first()[0] == fields[1]);
        assert(field_in(fields, "HostPort"@) == field_in(fields.drop_first(), "HostPort"@));
        assert(field_in(fields.drop_first(), "HostPort"@) == Some(fields[1].1));
        assert(texts_in(list) =~= seq![Some(text::decimal(bindings[i].1 as nat))]);
    }
}

/// A replacement that goes well renames the old container, creates the new one, removes the old one
/// and is done; the old one gets its name back where no new one could be created.
pub proof fn law_the_old_container_makes_room(succeeded: bool)
    ensures
        replaced_by(ReplaceStep::RenameOld, true) == ReplaceStep::CreateNew,
        replaced_by(ReplaceStep::CreateNew, true) == ReplaceStep::RemoveOld,
        replaced_by(ReplaceStep::RemoveOld, succeeded) == ReplaceStep::Done,
        replaced_by(ReplaceStep::RenameOld, false) == ReplaceStep::Fail,
        replaced_by(ReplaceStep::CreateNew, false) == ReplaceStep::RestoreName,
        replaced_by(ReplaceStep::RestoreName, succeeded) == ReplaceStep::Fail,
{
}

} // verus!
