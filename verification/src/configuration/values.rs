//! What a descriptor puts in place of a current value.

use crate::json::{
    exported, field_in, fields_view, items_view, json_compact, json_opt, lemma_json_view,
    lemma_position_in, number_text, position, text_of, Json, JsonView,
};
use crate::text;
use vstd::prelude::*;

verus! {

/// A value as the text that stands in a file.
pub open spec fn scalar(v: JsonView) -> Seq<char> {
    match v {
        JsonView::Null => Seq::empty(),
        JsonView::Bool(b) => if b {
            "true"@
        } else {
            "false"@
        },
        JsonView::Number(n) => number_text(n),
        JsonView::Text(s) => s,
        _ => json_compact(exported(v)),
    }
}

/// A value as the text that stands in a file.
pub fn scalar_text(value: &Json) -> (r: String)
    ensures
        r@ == scalar(value@),
{
    match value {
        Json::Null => String::new(),
        Json::Bool(b) => if *b {
            "true".to_owned()
        } else {
            "false".to_owned()
        },
        Json::Number(_) => match value.number() {
            Some(n) => n,
            None => String::new(),
        },
        Json::Text(s) => s.as_str().to_owned(),
        _ => value.compact(),
    }
}

/// What replaces the current value: an object gives a replacement for each value it names, any
/// other value replaces all.
pub open spec fn replacement_of(replacement: JsonView, current: Seq<char>) -> Option<JsonView> {
    match replacement {
        JsonView::Object(options) => field_in(options, current),
        _ => Some(replacement),
    }
}

/// What replaces the current value.
pub fn replacement_for_current(replacement: &Json, current: &str) -> (r: Option<Json>)
    ensures
        json_opt(r) == replacement_of(replacement@, current@),
{
    broadcast use lemma_json_view;
    match replacement {
        Json::Object(_) => match replacement.field(current) {
            Some(v) => Some(v.copy()),
            None => None,
        },
        _ => Some(replacement.copy()),
    }
}

/// The first text that is not empty under the given name, looking into an object before its
/// fields.
pub open spec fn named_text(v: JsonView, name: Seq<char>) -> Option<Seq<char>>
    decreases v, 0nat,
{
    match v {
        JsonView::Object(fields) => match text_of(field_in(fields, name)) {
            Some(s) => if s.len() > 0 {
                Some(s)
            } else {
                named_in_fields(fields, 0, name)
            },
            None => named_in_fields(fields, 0, name),
        },
        JsonView::Array(items) => named_in_items(items, 0, name),
        _ => None,
    }
}

/// The first such text in the fields from the given one on.
pub open spec fn named_in_fields(
    fields: Seq<(Seq<char>, JsonView)>,
    from: int,
    name: Seq<char>,
) -> Option<Seq<char>>
    decreases fields, (fields.len() - from) as nat,
{
    if from < 0 || from >= fields.len() {
        None
    } else {
        match named_text(fields[from].1, name) {
            Some(s) => Some(s),
            None => named_in_fields(fields, from + 1, name),
        }
    }
}

/// The first such text in the items from the given one on.
pub open spec fn named_in_items(items: Seq<JsonView>, from: int, name: Seq<char>) -> Option<
    Seq<char>,
>
    decreases items, (items.len() - from) as nat,
{
    if from < 0 || from >= items.len() {
        None
    } else {
        match named_text(items[from], name) {
            Some(s) => Some(s),
            None => named_in_items(items, from + 1, name),
        }
    }
}

/// The first text that is not empty under the given name.
pub fn find_named_string(value: &Json, name: &str) -> (r: Option<String>)
    ensures
        text::opt_view(r) == named_text(value@, name@),
    decreases value@,
{
    broadcast use lemma_json_view;
    match value {
        Json::Object(fields) => {
            let at = position(fields, name);
            proof {
                lemma_position_in(fields_view(fields@), name@);
            }
            if at < fields.len() {
                if let Json::Text(s) = &fields[at].1 {
                    if !text::is_empty(s.as_str()) {
                        return Some(s.as_str().to_owned());
                    }
                }
            }
            let mut i: usize = 0;
            while i < fields.len()
                invariant
                    value@ == JsonView::Object(fields_view(fields@)),
                    0 <= i <= fields@.len(),
                    named_text(value@, name@) == named_in_fields(
                        fields_view(fields@),
                        i as int,
                        name@,
                    ),
                decreases fields.len() - i,
            {
                proof {
                    assert(decreases_to!(value@ => value@->Object_0));
                    assert(decreases_to!(value@->Object_0 => value@->Object_0[i as int]));
                    assert(decreases_to!(value@->Object_0[i as int] => value@->Object_0[i as int].1));
                    assert(value@->Object_0[i as int].1 == fields@[i as int].1@);
                }
                if let Some(found) = find_named_string(&fields[i].1, name) {
                    return Some(found);
                }
                i += 1;
            }
            None
        },
        Json::Array(items) => {
            let mut i: usize = 0;
            while i < items.len()
                invariant
                    value@ == JsonView::Array(items_view(items@)),
                    0 <= i <= items@.len(),
                    named_text(value@, name@) == named_in_items(
                        items_view(items@),
                        i as int,
                        name@,
                    ),
                decreases items.len() - i,
            {
                proof {
                    assert(decreases_to!(value@ => value@->Array_0));
                    assert(value@->Array_0[i as int] == items@[i as int]@);
                }
                if let Some(found) = find_named_string(&items[i], name) {
                    return Some(found);
                }
                i += 1;
            }
            None
        },
        _ => None,
    }
}

/// The gateway that a Docker network names.
pub fn network_gateway(document: &Json) -> (r: Option<String>)
    ensures
        text::opt_view(r) == match named_text(document@, "Gateway"@) {
            Some(s) => Some(s),
            None => named_text(document@, "gateway"@),
        },
{
    match find_named_string(document, "Gateway") {
        Some(s) => Some(s),
        None => find_named_string(document, "gateway"),
    }
}

/// A text with the placeholders for the Docker interface filled in.
pub open spec fn filled_text(s: Seq<char>, interface: Seq<char>) -> Seq<char> {
    text::replaced(
        text::replaced(s, "{{config.docker.interface}}"@, interface),
        "{{config.docker.network.interface}}"@,
        interface,
    )
}

/// A document with the placeholders for the Docker interface filled in, in every text but the
/// names of fields.
pub open spec fn filled(v: JsonView, interface: Seq<char>) -> JsonView
    decreases v,
{
    match v {
        JsonView::Text(s) => JsonView::Text(filled_text(s, interface)),
        JsonView::Array(items) => JsonView::Array(
            Seq::new(
                items.len(),
                |i: int|
                    if 0 <= i < items.len() {
                        filled(items[i], interface)
                    } else {
                        JsonView::Null
                    },
            ),
        ),
        JsonView::Object(fields) => JsonView::Object(
            Seq::new(
                fields.len(),
                |i: int|
                    if 0 <= i < fields.len() {
                        (fields[i].0, filled(fields[i].1, interface))
                    } else {
                        (Seq::empty(), JsonView::Null)
                    },
            ),
        ),
        _ => v,
    }
}

/// Fills in the placeholders for the Docker interface.
pub fn resolve_daemon_placeholders(value: &mut Json, docker_interface: &str)
    ensures
        final(value)@ == filled(old(value)@, docker_interface@),
    decreases old(value)@,
{
    broadcast use lemma_json_view;
    let ghost start = value@;
    let mut taken = Json::Null;
    core::mem::swap(&mut taken, value);
    match taken {
        Json::Text(s) => {
            proof {
                reveal_strlit("{{config.docker.interface}}");
                reveal_strlit("{{config.docker.network.interface}}");
            }
            let once = text::replace(s.as_str(), "{{config.docker.interface}}", docker_interface);
            let twice = text::replace(
                once.as_str(),
                "{{config.docker.network.interface}}",
                docker_interface,
            );
            *value = Json::Text(twice);
        },
        Json::Array(items) => {
            let ghost all = items_view(items@);
            let mut items = items;
            let mut i: usize = 0;
            while i < items.len()
                invariant
                    start == old(value)@,
                    start == JsonView::Array(all),
                    0 <= i <= items@.len(),
                    items@.len() == all.len(),
                    forall|k: int|
                        0 <= k < i ==> (#[trigger] items@[k])@ == filled(all[k], docker_interface@),
                    forall|k: int| i <= k < items@.len() ==> (#[trigger] items@[k])@ == all[k],
                decreases items.len() - i,
            {
                proof {
                    assert(decreases_to!(start => start->Array_0));
                    assert(start->Array_0[i as int] == items@[i as int]@);
                }
                let mut item = Json::Null;
                core::mem::swap(&mut item, &mut items[i]);
                resolve_daemon_placeholders(&mut item, docker_interface);
                core::mem::swap(&mut item, &mut items[i]);
                i += 1;
            }
            assert(items_view(items@) =~= filled(start, docker_interface@)->Array_0);
            *value = Json::Array(items);
        },
        Json::Object(fields) => {
            let ghost all = fields_view(fields@);
            let mut fields = fields;
            let mut i: usize = 0;
            while i < fields.len()
                invariant
                    start == old(value)@,
                    start == JsonView::Object(all),
                    0 <= i <= fields@.len(),
                    fields@.len() == all.len(),
                    forall|k: int|
                        0 <= k < i ==> (#[trigger] fields@[k]).0@ == all[k].0 && fields@[k].1@
                            == filled(all[k].1, docker_interface@),
                    forall|k: int|
                        i <= k < fields@.len() ==> (#[trigger] fields@[k]).0@ == all[k].0
                            && fields@[k].1@ == all[k].1,
                decreases fields.len() - i,
            {
                proof {
                    assert(decreases_to!(start => start->Object_0));
                    assert(decreases_to!(start->Object_0 => start->Object_0[i as int]));
                    assert(decreases_to!(start->Object_0[i as int] => start->Object_0[i as int].1));
                    assert(start->Object_0[i as int].1 == fields@[i as int].1@);
                }
                let mut item = Json::Null;
                core::mem::swap(&mut item, &mut fields[i].1);
                resolve_daemon_placeholders(&mut item, docker_interface);
                core::mem::swap(&mut item, &mut fields[i].1);
                i += 1;
            }
            assert(fields_view(fields@) =~= filled(start, docker_interface@)->Object_0);
            *value = Json::Object(fields);
        },
        other => {
            *value = other;
        },
    }
}

// ---------------------------------------------------------------------------------------------
// Laws.

/// A value stands in a file as it is: a text without quotes, a truth value by its name, nothing for
/// null.
pub proof fn law_values_stand_as_they_are(s: Seq<char>)
    ensures
        scalar(JsonView::Text(s)) == s,
        scalar(JsonView::Bool(true)) == "true"@,
        scalar(JsonView::Bool(false)) == "false"@,
        scalar(JsonView::Null).len() == 0,
{
}

/// A value that is no object replaces every current one; an object replaces the current ones that it
/// names, each by what it gives for it, and no other.
pub proof fn law_objects_choose_by_the_current_value(
    options: Seq<(Seq<char>, JsonView)>,
    current: Seq<char>,
    s: Seq<char>,
    i: int,
)
    ensures
        replacement_of(JsonView::Text(s), current) == Some(JsonView::Text(s)),
        replacement_of(JsonView::Bool(true), current) == Some(JsonView::Bool(true)),
        0 <= i < options.len() && options[i].0 == current && (forall|k: int|
            0 <= k < i ==> (#[trigger] options[k]).0 != current) ==> replacement_of(
            JsonView::Object(options),
            current,
        ) == Some(options[i].1),
        (forall|k: int| 0 <= k < options.len() ==> (#[trigger] options[k]).0 != current)
            ==> replacement_of(JsonView::Object(options), current) is None,
{
    crate::json::law_the_first_field_is_found(options, current);
}

/// The placeholder of the Docker interface is filled in wherever it stands in a text, and what holds
/// no placeholder stays as it is; so do numbers, truth values and the names of fields.
pub proof fn law_placeholders_are_filled_in(
    before: Seq<char>,
    rest: Seq<char>,
    interface: Seq<char>,
    fields: Seq<(Seq<char>, JsonView)>,
    items: Seq<JsonView>,
    i: int,
)
    requires
        !before.contains('{'),
        !rest.contains('{'),
        !interface.contains('{'),
    ensures
        filled(JsonView::Text(rest), interface) == JsonView::Text(rest),
        filled(JsonView::Text(before + "{{config.docker.interface}}"@ + rest), interface)
            == JsonView::Text(before + interface + rest),
        filled(JsonView::Text(before + "{{config.docker.network.interface}}"@ + rest), interface)
            == JsonView::Text(before + interface + rest),
        filled(JsonView::Null, interface) == JsonView::Null,
        filled(JsonView::Bool(true), interface) == JsonView::Bool(true),
        filled(JsonView::Object(fields), interface) is Object,
        filled(JsonView::Object(fields), interface)->Object_0.len() == fields.len(),
        0 <= i < fields.len() ==> filled(JsonView::Object(fields), interface)->Object_0[i] == (
            fields[i].0,
            filled(fields[i].1, interface),
        ),
        filled(JsonView::Array(items), interface) is Array,
        filled(JsonView::Array(items), interface)->Array_0.len() == items.len(),
        0 <= i < items.len() ==> filled(JsonView::Array(items), interface)->Array_0[i] == filled(
            items[i],
            interface,
        ),
{
    reveal_strlit("{{config.docker.interface}}");
    reveal_strlit("{{config.docker.network.interface}}");
    let a = "{{config.docker.interface}}"@;
    let b = "{{config.docker.network.interface}}"@;
    lemma_no_braces(before);
    lemma_no_braces(rest);
    lemma_no_braces(interface);
    lemma_absent(rest, a);
    lemma_absent(rest, b);
    lemma_first_brace(before, a, rest);
    lemma_first_brace(before, b, rest);
    text::law_occurrences_are_replaced(Seq::empty(), a, interface, rest);
    text::law_occurrences_are_replaced(before, a, interface, rest);
    text::law_occurrences_are_replaced(before, b, interface, rest);
    text::law_occurrences_are_replaced(Seq::empty(), b, interface, rest);
    let done = before + interface + rest;
    assert forall|k: int| 0 <= k < done.len() implies done[k] != '{' by {}
    lemma_absent(done, b);
    text::law_occurrences_are_replaced(Seq::empty(), b, interface, done);
    let other = before + b + rest;
    assert(!text::contains(other, a)) by {
        if text::contains(other, a) {
            let p = choose|p: int| text::occurs_at(other, a, p);
            let part = other.subrange(p, p + a.len());
            assert(part[0] == '{' && part[1] == '{' && part[16] == 'i' && part[9] == 'd');
            assert(other[p] == '{' && other[p + 1] == '{' && other[p + 16] == 'i');
            assert(p == before.len()) by {
                if p < before.len() {
                    assert(other[p] == before[p]);
                } else if p >= before.len() + b.len() {
                    assert(other[p] == rest[p - before.len() - b.len()]);
                } else {
                    assert(other[p] == b[p - before.len()]);
                    assert(other[p + 1] == if p + 1 < before.len() + b.len() {
                        b[p + 1 - before.len()]
                    } else {
                        rest[p + 1 - before.len() - b.len()]
                    });
                }
            }
            assert(other[p + 16] == b[16]);
            assert(b[16] == 'n');
        }
    }
    text::law_occurrences_are_replaced(Seq::empty(), a, interface, other);
}

proof fn lemma_no_braces(s: Seq<char>)
    requires
        !s.contains('{'),
    ensures
        forall|k: int| 0 <= k < s.len() ==> s[k] != '{',
{
    assert forall|k: int| 0 <= k < s.len() implies s[k] != '{' by {
        assert(s.contains(s[k]));
    }
}

proof fn lemma_absent(s: Seq<char>, p: Seq<char>)
    requires
        p.len() > 0,
        p[0] == '{',
        forall|k: int| 0 <= k < s.len() ==> s[k] != '{',
    ensures
        !text::contains(s, p),
{
    if text::contains(s, p) {
        let i = choose|i: int| text::occurs_at(s, p, i);
        assert(s.subrange(i, i + p.len())[0] == s[i]);
    }
}

proof fn lemma_first_brace(before: Seq<char>, p: Seq<char>, rest: Seq<char>)
    requires
        p.len() > 0,
        p[0] == '{',
        forall|k: int| 0 <= k < before.len() ==> before[k] != '{',
    ensures
        forall|i: int| 0 <= i < before.len() ==> !text::occurs_at(before + p + rest, p, i),
{
    let s = before + p + rest;
    assert forall|i: int| 0 <= i < before.len() implies !text::occurs_at(s, p, i) by {
        if text::occurs_at(s, p, i) {
            assert(s.subrange(i, i + p.len())[0] == s[i]);
            assert(s[i] == before[i]);
        }
    }
}

} // verus!
