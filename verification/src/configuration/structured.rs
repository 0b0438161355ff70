//! Setting values in JSON and YAML documents by path.

use crate::configuration::values::{replacement_for_current, replacement_of, scalar, scalar_text};
use crate::error::Failure;
use crate::json::{
    exported, fields_view, float_number, items_view, json_pretty, json_text, lemma_json_view,
    lemma_position_in, position, position_in, signed_number, unsigned_number, yaml_form, yaml_text,
    Json, JsonView,
};
use crate::text;
use vstd::prelude::*;

verus! {

/// One step of a path.
#[derive(Debug, PartialEq)]
pub enum PathSegment {
    Key(String),
    Index(usize),
    Wildcard,
}

/// One step of a path, by its contents.
pub enum SegmentView {
    Key(Seq<char>),
    Index(usize),
    Wildcard,
}

impl View for PathSegment {
    type V = SegmentView;

    open spec fn view(&self) -> SegmentView {
        match self {
            PathSegment::Key(k) => SegmentView::Key(k@),
            PathSegment::Index(i) => SegmentView::Index(*i),
            PathSegment::Wildcard => SegmentView::Wildcard,
        }
    }
}

/// The contents of a path.
pub open spec fn path_view(path: Seq<PathSegment>) -> Seq<SegmentView> {
    path.map_values(|s: PathSegment| s@)
}

/// The steps that a row of bracketed numbers stands for: `[1][2]`. What is not a number between
/// its brackets is passed over, and what is not in brackets ends the row.
pub open spec fn bracketed(s: Seq<char>) -> Seq<SegmentView>
    decreases s.len(),
{
    if s.len() == 0 || s[0] != '[' {
        Seq::empty()
    } else {
        let tail = s.drop_first();
        let end = text::index_of(tail, ']');
        if end < 0 || end >= tail.len() {
            Seq::empty()
        } else {
            let rest = bracketed(tail.skip(end + 1));
            match text::parsed(tail.take(end)) {
                Some(n) => if n <= usize::MAX {
                    seq![SegmentView::Index(n as usize)] + rest
                } else {
                    rest
                },
                None => rest,
            }
        }
    }
}

/// The steps that one part of a path, between dots, stands for.
pub open spec fn part_steps(part: Seq<char>) -> Seq<SegmentView> {
    let open = text::index_of(part, '[');
    if part.len() == 0 {
        Seq::empty()
    } else if part == "*"@ {
        seq![SegmentView::Wildcard]
    } else if open < part.len() {
        (if open > 0 {
            seq![SegmentView::Key(part.take(open))]
        } else {
            Seq::empty()
        }) + bracketed(part.skip(open))
    } else {
        seq![SegmentView::Key(part)]
    }
}

/// The steps of the given parts.
pub open spec fn steps_of(parts: Seq<Seq<char>>) -> Seq<SegmentView>
    decreases parts.len(),
{
    if parts.len() == 0 {
        Seq::empty()
    } else {
        steps_of(parts.drop_last()) + part_steps(parts.last())
    }
}

/// The steps that a path stands for.
pub open spec fn steps(path: Seq<char>) -> Seq<SegmentView> {
    steps_of(text::split_on(path, '.'))
}

fn push_segment(out: &mut Vec<PathSegment>, segment: PathSegment)
    ensures
        path_view(final(out)@) == path_view(old(out)@).push(segment@),
{
    out.push(segment);
    assert(path_view(out@) =~= path_view(old(out)@).push(segment@));
}

/// The steps that a path stands for.
pub fn parse_path(path: &str) -> (r: Vec<PathSegment>)
    ensures
        path_view(r@) == steps(path@),
{
    let parts = text::split(path, '.');
    let ghost all = text::views(parts@);
    let mut output: Vec<PathSegment> = Vec::new();
    let mut i: usize = 0;
    assert(all.take(0) =~= Seq::<Seq<char>>::empty());
    assert(path_view(output@) =~= Seq::<SegmentView>::empty());
    while i < parts.len()
        invariant
            all == text::views(parts@),
            0 <= i <= parts@.len(),
            path_view(output@) == steps_of(all.take(i as int)),
        decreases parts.len() - i,
    {
        let ghost before = path_view(output@);
        let part = chars_part(&parts[i]);
        proof {
            assert(all.take(i as int + 1).drop_last() =~= all.take(i as int));
            assert(all.take(i as int + 1).last() == part@);
        }
        if part.len() == 0 {
            assert(before + Seq::<SegmentView>::empty() =~= before);
        } else if text::same(parts[i].as_str(), "*") {
            push_segment(&mut output, PathSegment::Wildcard);
            assert(path_view(output@) =~= before + seq![SegmentView::Wildcard]);
        } else {
            let open = text::find_char(part.as_slice(), 0, '[');
            assert(part@.skip(0) =~= part@);
            if open < part.len() {
                if open > 0 {
                    let key = text::string_range(part.as_slice(), 0, open);
                    assert(key@ =~= part@.take(open as int));
                    push_segment(&mut output, PathSegment::Key(key));
                }
                let ghost head = if open > 0 {
                    seq![SegmentView::Key(part@.take(open as int))]
                } else {
                    Seq::empty()
                };
                assert(path_view(output@) =~= before + head);
                parse_brackets(&mut output, &part, open);
                assert(path_view(output@) =~= before + (head + bracketed(part@.skip(open as int))));
            } else {
                push_segment(&mut output, PathSegment::Key(parts[i].as_str().to_owned()));
                assert(path_view(output@) =~= before + seq![SegmentView::Key(part@)]);
            }
        }
        i += 1;
    }
    assert(all.take(all.len() as int) =~= all);
    output
}

fn chars_part(part: &String) -> (r: Vec<char>)
    ensures
        r@ == part@,
{
    text::chars_of(part.as_str())
}

fn parse_brackets(output: &mut Vec<PathSegment>, part: &Vec<char>, open: usize)
    requires
        open <= part@.len(),
    ensures
        path_view(final(output)@) == path_view(old(output)@) + bracketed(part@.skip(open as int)),
{
    let ghost start = path_view(output@);
    let ghost goal = start + bracketed(part@.skip(open as int));
    let mut pos: usize = open;
    while pos < part.len() && part[pos] == '['
        invariant_except_break
            pos <= part@.len(),
            goal == path_view(output@) + bracketed(part@.skip(pos as int)),
        ensures
            path_view(output@) == goal,
        decreases part.len() - pos,
    {
        let ghost rest = part@.skip(pos as int);
        let ghost tail = rest.drop_first();
        let ghost before = path_view(output@);
        let end = text::find_char(part.as_slice(), pos + 1, ']');
        proof {
            assert(part@.skip(pos as int + 1) =~= tail);
            text::lemma_index_of(tail, ']');
        }
        if end >= part.len() {
            assert(path_view(output@) + Seq::<SegmentView>::empty() =~= path_view(output@));
            break ;
        }
        let digits = text::string_range(part.as_slice(), pos + 1, end);
        proof {
            assert(digits@ =~= tail.take(end - pos - 1));
            assert(tail.skip(end - pos) =~= part@.skip(end as int + 1));
        }
        if let Some(n) = text::parse_number(digits.as_str(), usize::MAX as u64) {
            push_segment(output, PathSegment::Index(n as usize));
            proof {
                let after = bracketed(part@.skip(end as int + 1));
                assert(before + (seq![SegmentView::Index(n as usize)] + after) =~= path_view(
                    output@,
                ) + after);
            }
        }
        pos = end + 1;
    }
    proof {
        if path_view(output@) != goal {
            assert(path_view(output@) + Seq::<SegmentView>::empty() =~= path_view(output@));
        }
    }
}

/// A container for what the next step needs.
pub open spec fn initial(rest: Seq<SegmentView>) -> JsonView {
    if rest.len() > 0 && rest[0] is Index {
        JsonView::Array(Seq::empty())
    } else {
        JsonView::Object(Seq::empty())
    }
}

/// Items, filled up to the given number.
pub open spec fn padded(items: Seq<JsonView>, n: int, fill: JsonView) -> Seq<JsonView>
    decreases n - items.len(),
{
    if items.len() >= n {
        items
    } else {
        padded(items.push(fill), n, fill)
    }
}

/// A text that spells a number stands for the number.
pub open spec fn typed(v: JsonView) -> JsonView {
    match v {
        JsonView::Text(s) => {
            let n = text::signed_parsed(s);
            if n is Some && i64::MIN <= n->0 <= i64::MAX {
                JsonView::Number(signed_number(n->0 as i64))
            } else if text::parsed(s) is Some && text::parsed(s)->0 <= u64::MAX {
                JsonView::Number(unsigned_number(text::parsed(s)->0 as u64))
            } else {
                match float_number(s) {
                    Some(f) => JsonView::Number(f),
                    None => v,
                }
            }
        },
        _ => v,
    }
}

/// The document with the replacement at the path. Objects and arrays are made where the path
/// needs them; a wildcard stands for every field or item.
pub open spec fn set_at(node: JsonView, path: Seq<SegmentView>, replacement: JsonView) -> JsonView
    decreases path.len(),
{
    if path.len() == 0 {
        match replacement_of(replacement, scalar(node)) {
            Some(v) => typed(v),
            None => node,
        }
    } else {
        let rest = path.drop_first();
        match path[0] {
            SegmentView::Wildcard => match node {
                JsonView::Object(fields) => JsonView::Object(
                    fields.map_values(
                        |f: (Seq<char>, JsonView)| (f.0, set_at(f.1, rest, replacement)),
                    ),
                ),
                JsonView::Array(items) => JsonView::Array(
                    items.map_values(|j: JsonView| set_at(j, rest, replacement)),
                ),
                _ => node,
            },
            SegmentView::Key(key) => {
                let fields = match node {
                    JsonView::Object(fields) => fields,
                    _ => Seq::empty(),
                };
                let i = position_in(fields, key);
                if i < fields.len() {
                    JsonView::Object(
                        fields.update(i, (fields[i].0, set_at(fields[i].1, rest, replacement))),
                    )
                } else {
                    JsonView::Object(fields.push((key, set_at(initial(rest), rest, replacement))))
                }
            },
            SegmentView::Index(index) => {
                let items = match node {
                    JsonView::Array(items) => items,
                    _ => Seq::empty(),
                };
                let all = padded(items, index + 1, initial(rest));
                JsonView::Array(all.update(index as int, set_at(all[index as int], rest, replacement)))
            },
        }
    }
}

fn initial_value(path: &Vec<PathSegment>, from: usize) -> (r: Json)
    requires
        from <= path@.len(),
    ensures
        r@ == initial(path_view(path@).skip(from as int)),
{
    broadcast use lemma_json_view;
    if from < path.len() {
        assert(path_view(path@).skip(from as int)[0] == path@[from as int]@);
        if let PathSegment::Index(_) = path[from] {
            let none: Vec<Json> = Vec::new();
            assert(items_view(none@) =~= Seq::<JsonView>::empty());
            return Json::Array(none);
        }
    }
    let none: Vec<(String, Json)> = Vec::new();
    assert(fields_view(none@) =~= Seq::<(Seq<char>, JsonView)>::empty());
    Json::Object(none)
}

/// A text that spells a number stands for the number.
pub fn structured_value(value: Json) -> (r: Json)
    ensures
        r@ == typed(value@),
{
    match value {
        Json::Text(s) => {
            if let Some(n) = text::parse_signed(s.as_str()) {
                return Json::from_i64(n);
            }
            if let Some(n) = text::parse_number(s.as_str(), u64::MAX) {
                return Json::from_u64(n);
            }
            match Json::from_float(s.as_str()) {
                Some(n) => n,
                None => Json::Text(s),
            }
        },
        other => other,
    }
}

proof fn lemma_padded(items: Seq<JsonView>, n: int, fill: JsonView)
    requires
        n >= 0,
    ensures
        padded(items, n, fill).len() >= n,
        padded(items, n, fill).len() >= items.len(),
    decreases n - items.len(),
{
    if items.len() < n {
        lemma_padded(items.push(fill), n, fill);
    }
}

/// Sets the replacement at the path from its step `from` on.
pub fn set_structured_path(node: &mut Json, path: &Vec<PathSegment>, from: usize, replacement: &Json)
    requires
        from <= path@.len(),
    ensures
        final(node)@ == set_at(
            old(node)@,
            path_view(path@).skip(from as int),
            replacement@,
        ),
    decreases path@.len() - from,
{
    broadcast use lemma_json_view;
    let ghost start = node@;
    let ghost here = path_view(path@).skip(from as int);
    if from >= path.len() {
        let current = scalar_text(node);
        if let Some(value) = replacement_for_current(replacement, current.as_str()) {
            *node = structured_value(value);
        }
        return ;
    }
    let next: usize = from + 1;
    let ghost rest = path_view(path@).skip(from as int + 1);
    assert(here.drop_first() =~= rest);
    assert(here[0] == path@[from as int]@);
    let mut taken = Json::Null;
    core::mem::swap(&mut taken, node);
    match &path[from] {
        PathSegment::Wildcard => {
            match taken {
                Json::Object(fields) => {
                    let ghost all = fields_view(fields@);
                    let mut fields = fields;
                    let mut i: usize = 0;
                    while i < fields.len()
                        invariant
                            next == from + 1,
                            next <= path@.len(),
                            rest == path_view(path@).skip(from as int + 1),
                            0 <= i <= fields@.len(),
                            fields@.len() == all.len(),
                            forall|k: int|
                                0 <= k < i ==> (#[trigger] fields@[k]).0@ == all[k].0
                                    && fields@[k].1@ == set_at(all[k].1, rest, replacement@),
                            forall|k: int|
                                i <= k < fields@.len() ==> (#[trigger] fields@[k]).0@ == all[k].0
                                    && fields@[k].1@ == all[k].1,
                        decreases fields.len() - i,
                    {
                        let mut child = Json::Null;
                        core::mem::swap(&mut child, &mut fields[i].1);
                        set_structured_path(&mut child, path, next, replacement);
                        core::mem::swap(&mut child, &mut fields[i].1);
                        i += 1;
                    }
                    *node = Json::Object(fields);
                    assert(fields_view(fields@) =~= set_at(start, here, replacement@)->Object_0);
                },
                Json::Array(items) => {
                    let ghost all = items_view(items@);
                    let mut items = items;
                    let mut i: usize = 0;
                    while i < items.len()
                        invariant
                            next == from + 1,
                            next <= path@.len(),
                            rest == path_view(path@).skip(from as int + 1),
                            0 <= i <= items@.len(),
                            items@.len() == all.len(),
                            forall|k: int|
                                0 <= k < i ==> (#[trigger] items@[k])@ == set_at(
                                    all[k],
                                    rest,
                                    replacement@,
                                ),
                            forall|k: int|
                                i <= k < items@.len() ==> (#[trigger] items@[k])@ == all[k],
                        decreases items.len() - i,
                    {
                        let mut child = Json::Null;
                        core::mem::swap(&mut child, &mut items[i]);
                        set_structured_path(&mut child, path, next, replacement);
                        core::mem::swap(&mut child, &mut items[i]);
                        i += 1;
                    }
                    *node = Json::Array(items);
                    assert(items_view(items@) =~= set_at(start, here, replacement@)->Array_0);
                },
                other => {
                    *node = other;
                },
            }
        },
        PathSegment::Key(key) => {
            let mut fields: Vec<(String, Json)> = match taken {
                Json::Object(fields) => fields,
                _ => {
                    let none: Vec<(String, Json)> = Vec::new();
                    assert(fields_view(none@) =~= Seq::<(Seq<char>, JsonView)>::empty());
                    none
                },
            };
            let ghost all = fields_view(fields@);
            let i = position(&fields, key.as_str());
            proof {
                lemma_position_in(all, key@);
            }
            if i < fields.len() {
                let mut child = Json::Null;
                core::mem::swap(&mut child, &mut fields[i].1);
                set_structured_path(&mut child, path, next, replacement);
                core::mem::swap(&mut child, &mut fields[i].1);
                assert(fields_view(fields@) =~= all.update(
                    i as int,
                    (all[i as int].0, set_at(all[i as int].1, rest, replacement@)),
                ));
            } else {
                let mut child = initial_value(path, next);
                set_structured_path(&mut child, path, next, replacement);
                fields.push((key.as_str().to_owned(), child));
                assert(fields_view(fields@) =~= all.push(
                    (key@, set_at(initial(rest), rest, replacement@)),
                ));
            }
            *node = Json::Object(fields);
        },
        PathSegment::Index(index) => {
            let mut items: Vec<Json> = match taken {
                Json::Array(items) => items,
                _ => {
                    let none: Vec<Json> = Vec::new();
                    assert(items_view(none@) =~= Seq::<JsonView>::empty());
                    none
                },
            };
            let ghost first = items_view(items@);
            while items.len() <= *index
                invariant
                    next == from + 1,
                            next <= path@.len(),
                    rest == path_view(path@).skip(from as int + 1),
                    padded(first, *index + 1, initial(rest)) == padded(
                        items_view(items@),
                        *index + 1,
                        initial(rest),
                    ),
                decreases *index + 1 - items@.len(),
            {
                let ghost before = items_view(items@);
                let fill = initial_value(path, next);
                items.push(fill);
                assert(items_view(items@) =~= before.push(initial(rest)));
            }
            let ghost all = items_view(items@);
            assert(all == padded(first, *index + 1, initial(rest)));
            let at: usize = *index;
            let mut child = Json::Null;
            core::mem::swap(&mut child, &mut items[at]);
            set_structured_path(&mut child, path, next, replacement);
            core::mem::swap(&mut child, &mut items[at]);
            assert(items_view(items@) =~= all.update(
                at as int,
                set_at(all[at as int], rest, replacement@),
            ));
            *node = Json::Array(items);
        },
    }
}

/// The document with every replacement set at its path, in order.
pub open spec fn all_set(document: JsonView, find: Seq<(Seq<char>, JsonView)>) -> JsonView
    decreases find.len(),
{
    if find.len() == 0 {
        document
    } else {
        set_at(all_set(document, find.drop_last()), steps(find.last().0), find.last().1)
    }
}

/// Sets every replacement at its path, in order.
pub fn apply_structured_replacements(document: &mut Json, find: &Vec<(String, Json)>)
    ensures
        final(document)@ == all_set(old(document)@, fields_view(find@)),
{
    let ghost all = fields_view(find@);
    let ghost start = document@;
    let mut i: usize = 0;
    assert(all.take(0) =~= Seq::<(Seq<char>, JsonView)>::empty());
    while i < find.len()
        invariant
            all == fields_view(find@),
            0 <= i <= find@.len(),
            document@ == all_set(start, all.take(i as int)),
        decreases find.len() - i,
    {
        let segments = parse_path(find[i].0.as_str());
        proof {
            assert(all.take(i as int + 1).drop_last() =~= all.take(i as int));
            assert(all.take(i as int + 1).last() == (find@[i as int].0@, find@[i as int].1@));
            assert(path_view(segments@).skip(0) =~= path_view(segments@));
        }
        set_structured_path(document, &segments, 0, &find[i].1);
        i += 1;
    }
    assert(all.take(all.len() as int) =~= all);
}

/// A JSON file with every replacement set.
pub fn apply_json_parser(bytes: &[u8], find: &Vec<(String, Json)>) -> (r: Result<Vec<u8>, Failure>)
    ensures
        ({
            let before = json_text(bytes@);
            let after = json_pretty(exported(all_set(before->0, fields_view(find@))));
            &&& r is Ok <==> before is Some && after is Some
            &&& r is Ok ==> Some(r->Ok_0@) == after
            &&& before is None ==> r->Err_0.message@ == "parse JSON configuration"@
            &&& before is Some && after is None ==> r->Err_0.message@
                == "write JSON configuration"@
        }),
{
    match Json::parse(bytes) {
        Some(document) => {
            let mut document = document;
            apply_structured_replacements(&mut document, find);
            match document.pretty() {
                Some(out) => Ok(out),
                None => Err(Failure::new("write JSON configuration")),
            }
        },
        None => Err(Failure::new("parse JSON configuration")),
    }
}

/// A YAML file with every replacement set.
pub fn apply_yaml_parser(bytes: &[u8], find: &Vec<(String, Json)>) -> (r: Result<Vec<u8>, Failure>)
    ensures
        ({
            let before = yaml_text(bytes@);
            let after = yaml_form(exported(all_set(before->0, fields_view(find@))));
            &&& r is Ok <==> before is Some && after is Some
            &&& r is Ok ==> r->Ok_0@ == vstd::utf8::encode_utf8(after->0)
            &&& before is None ==> r->Err_0.message@ == "parse YAML configuration"@
            &&& before is Some && after is None ==> r->Err_0.message@
                == "write YAML configuration"@
        }),
{
    match Json::parse_yaml(bytes) {
        Some(document) => {
            let mut document = document;
            apply_structured_replacements(&mut document, find);
            match document.yaml() {
                Some(out) => Ok(text::bytes_of(out.as_str())),
                None => Err(Failure::new("write YAML configuration")),
            }
        },
        None => Err(Failure::new("parse YAML configuration")),
    }
}

// ---------------------------------------------------------------------------------------------
// Laws.

/// The value at a path of keys and indices.
pub open spec fn value_at(node: JsonView, path: Seq<SegmentView>) -> Option<JsonView>
    decreases path.len(),
{
    if path.len() == 0 {
        Some(node)
    } else {
        match path[0] {
            SegmentView::Key(key) => match node {
                JsonView::Object(fields) => if position_in(fields, key) < fields.len() {
                    value_at(fields[position_in(fields, key)].1, path.drop_first())
                } else {
                    None
                },
                _ => None,
            },
            SegmentView::Index(i) => match node {
                JsonView::Array(items) => if i < items.len() {
                    value_at(items[i as int], path.drop_first())
                } else {
                    None
                },
                _ => None,
            },
            SegmentView::Wildcard => None,
        }
    }
}

/// What was set at a path without wildcards is found there: the replacement, typed, whatever the
/// document held before.
pub proof fn law_what_is_set_is_found(
    node: JsonView,
    path: Seq<SegmentView>,
    replacement: JsonView,
)
    requires
        forall|i: int| 0 <= i < path.len() ==> !((#[trigger] path[i]) is Wildcard),
        !(replacement is Object),
    ensures
        value_at(set_at(node, path, replacement), path) == Some(typed(replacement)),
    decreases path.len(),
{
    if path.len() > 0 {
        let rest = path.drop_first();
        assert(!(path[0] is Wildcard));
        assert forall|i: int| 0 <= i < rest.len() implies !((#[trigger] rest[i]) is Wildcard) by {
            assert(!(path[i + 1] is Wildcard));
        }
        match path[0] {
            SegmentView::Key(key) => {
                let fields = match node {
                    JsonView::Object(fields) => fields,
                    _ => Seq::empty(),
                };
                lemma_position_in(fields, key);
                let p = position_in(fields, key);
                let after = set_at(node, path, replacement)->Object_0;
                if p < fields.len() {
                    law_what_is_set_is_found(fields[p].1, rest, replacement);
                    assert forall|k: int| 0 <= k < p implies (#[trigger] after[k]).0 != key by {
                        assert(after[k] == fields[k]);
                    }
                } else {
                    law_what_is_set_is_found(initial(rest), rest, replacement);
                    assert forall|k: int| 0 <= k < p implies (#[trigger] after[k]).0 != key by {
                        assert(after[k] == fields[k]);
                    }
                }
                crate::json::lemma_position_unique(after, key, p);
            },
            SegmentView::Index(index) => {
                let items = match node {
                    JsonView::Array(items) => items,
                    _ => Seq::empty(),
                };
                lemma_padded(items, index + 1, initial(rest));
                let all = padded(items, index + 1, initial(rest));
                law_what_is_set_is_found(all[index as int], rest, replacement);
            },
            SegmentView::Wildcard => {},
        }
    }
}

/// Setting a key leaves every other field of the object alone.
pub proof fn law_other_fields_stay(
    fields: Seq<(Seq<char>, JsonView)>,
    key: Seq<char>,
    path: Seq<SegmentView>,
    replacement: JsonView,
    other: Seq<char>,
)
    requires
        path.len() > 0,
        path[0] == SegmentView::Key(key),
        other != key,
    ensures
        crate::json::field_of(set_at(JsonView::Object(fields), path, replacement), other)
            == crate::json::field_in(fields, other),
{
    lemma_position_in(fields, key);
    let after = set_at(JsonView::Object(fields), path, replacement)->Object_0;
    lemma_position_in(fields, other);
    let q = position_in(fields, other);
    let p = position_in(fields, key);
    if q < fields.len() {
        assert(q != p);
        assert(after[q] == fields[q]);
        assert forall|k: int| 0 <= k < q implies (#[trigger] after[k]).0 != other by {
            assert(fields[k].0 != other);
            if k != p {
                assert(after[k] == fields[k]);
            }
        }
        crate::json::lemma_position_unique(after, other, q);
    } else {
        assert forall|k: int| 0 <= k < after.len() implies (#[trigger] after[k]).0 != other by {
            if k < fields.len() {
                assert(fields[k].0 != other);
            }
        }
        crate::json::lemma_position_unique(after, other, after.len() as int);
    }
    lemma_position_in(after, other);
}

proof fn lemma_steps_first(parts: Seq<Seq<char>>, rest: Seq<Seq<char>>)
    ensures
        steps_of(parts + rest) == steps_of(parts) + steps_of(rest),
    decreases rest.len(),
{
    let all = parts + rest;
    if rest.len() == 0 {
        assert(all =~= parts);
        assert(steps_of(parts) + steps_of(rest) =~= steps_of(parts));
    } else {
        assert(all.drop_last() =~= parts + rest.drop_last());
        assert(all.last() == rest.last());
        lemma_steps_first(parts, rest.drop_last());
        assert(steps_of(all) =~= steps_of(parts) + steps_of(rest));
    }
}

proof fn lemma_one_part(part: Seq<char>)
    ensures
        steps_of(seq![part]) == part_steps(part),
{
    let parts = seq![part];
    assert(parts.drop_last() =~= Seq::<Seq<char>>::empty());
    assert(steps_of(parts.drop_last()) =~= Seq::<SegmentView>::empty());
    assert(steps_of(parts) =~= part_steps(part));
}

/// A path is read step by step, from dot to dot: a name is the key of a field, a star means every
/// field or item, and a number in brackets is the place of an item.
pub proof fn law_paths_are_read_step_by_step(name: Seq<char>, index: usize, rest: Seq<char>)
    requires
        name.len() > 0,
        !name.contains('.'),
        !name.contains('['),
        name != "*"@,
    ensures
        steps(name) == seq![SegmentView::Key(name)],
        steps(name + "."@ + rest) == seq![SegmentView::Key(name)] + steps(rest),
        steps("*."@ + rest) == seq![SegmentView::Wildcard] + steps(rest),
        steps(name + "["@ + text::decimal(index as nat) + "]"@) == seq![
            SegmentView::Key(name),
            SegmentView::Index(index),
        ],
        steps(name + "["@ + text::decimal(index as nat) + "]."@ + rest) == seq![
            SegmentView::Key(name),
            SegmentView::Index(index),
        ] + steps(rest),
{
    reveal_strlit(".");
    reveal_strlit("*.");
    reveal_strlit("*");
    reveal_strlit("[");
    reveal_strlit("]");
    reveal_strlit("].");
    let number = text::decimal(index as nat);
    assert forall|k: int| 0 <= k < name.len() implies name[k] != '.' && name[k] != '[' by {
        assert(name.contains(name[k]));
    }
    text::law_decimal_reads_back(index as nat);
    assert forall|k: int| 0 <= k < number.len() implies number[k] != '.' && number[k] != ']' by {
        assert(text::is_digit(number[k]));
    }
    lemma_plain(name);
    lemma_dot(name, rest);
    lemma_dot("*"@, rest);
    assert("*."@ + rest =~= "*"@ + "."@ + rest);
    assert(part_steps("*"@) == seq![SegmentView::Wildcard]);
    let n = name.len() as int;
    let indexed = name + "["@ + number + "]"@;
    assert(indexed[n] == '[');
    text::lemma_index_of_unique(indexed, '[', n);
    text::lemma_index_of_unique(name, '[', n);
    assert(indexed.take(n) =~= name);
    let brackets = "["@ + number + "]"@;
    assert(indexed.skip(n) =~= brackets);
    let tail = number + "]"@;
    assert(brackets.drop_first() =~= tail);
    assert(tail[number.len() as int] == ']');
    text::lemma_index_of_unique(tail, ']', number.len() as int);
    assert(tail.take(number.len() as int) =~= number);
    assert(tail.skip(number.len() as int + 1) =~= Seq::<char>::empty());
    assert(bracketed(Seq::empty()) =~= Seq::<SegmentView>::empty());
    assert(bracketed(brackets) =~= seq![SegmentView::Index(index)]);
    assert(part_steps(indexed) =~= seq![SegmentView::Key(name), SegmentView::Index(index)]);
    assert(indexed != "*"@) by {
        assert(indexed.len() > 1);
    }
    assert forall|k: int| 0 <= k < indexed.len() implies indexed[k] != '.' by {}
    lemma_plain(indexed);
    lemma_dot(indexed, rest);
    assert(name + "["@ + number + "]."@ + rest =~= indexed + "."@ + rest);
}

proof fn lemma_plain(part: Seq<char>)
    requires
        forall|k: int| 0 <= k < part.len() ==> part[k] != '.',
    ensures
        steps(part) == part_steps(part),
{
    text::lemma_index_of_unique(part, '.', part.len() as int);
    lemma_one_part(part);
}

proof fn lemma_dot(part: Seq<char>, rest: Seq<char>)
    requires
        forall|k: int| 0 <= k < part.len() ==> part[k] != '.',
    ensures
        steps(part + "."@ + rest) == part_steps(part) + steps(rest),
{
    reveal_strlit(".");
    let path = part + "."@ + rest;
    let n = part.len() as int;
    assert(path[n] == '.');
    text::lemma_index_of_unique(path, '.', n);
    assert(path.take(n) =~= part);
    assert(path.skip(n + 1) =~= rest);
    lemma_steps_first(seq![part], text::split_on(rest, '.'));
    lemma_one_part(part);
}

/// A star sets the value in every field of an object and in every item of a list, and changes
/// nothing else.
pub proof fn law_a_star_means_every_field(
    fields: Seq<(Seq<char>, JsonView)>,
    items: Seq<JsonView>,
    replacement: JsonView,
    i: int,
)
    requires
        !(replacement is Object),
    ensures
        ({
            let star = seq![SegmentView::Wildcard];
            let o = set_at(JsonView::Object(fields), star, replacement);
            let a = set_at(JsonView::Array(items), star, replacement);
            &&& o is Object && o->Object_0.len() == fields.len()
            &&& 0 <= i < fields.len() ==> o->Object_0[i] == (fields[i].0, typed(replacement))
            &&& a is Array && a->Array_0.len() == items.len()
            &&& 0 <= i < items.len() ==> a->Array_0[i] == typed(replacement)
            &&& set_at(JsonView::Null, star, replacement) == JsonView::Null
        }),
{
    let star = seq![SegmentView::Wildcard];
    let none = star.drop_first();
    assert(none =~= Seq::<SegmentView>::empty());
    assert forall|j: JsonView| #[trigger] set_at(j, none, replacement) == typed(replacement) by {}
    let o = set_at(JsonView::Object(fields), star, replacement);
    let a = set_at(JsonView::Array(items), star, replacement);
    assert(star[0] == SegmentView::Wildcard);
    if 0 <= i < fields.len() {
        assert(o->Object_0[i] == (fields[i].0, set_at(fields[i].1, none, replacement)));
    }
    if 0 <= i < items.len() {
        assert(a->Array_0[i] == set_at(items[i], none, replacement));
    }
}

/// Setting an item of a list leaves the others as they are; a list that is too short is filled up,
/// with lists or objects as the path goes on, and no further than to that item.
pub proof fn law_other_items_stay(
    items: Seq<JsonView>,
    index: usize,
    path: Seq<SegmentView>,
    replacement: JsonView,
    i: int,
)
    requires
        path.len() > 0,
        path[0] == SegmentView::Index(index),
    ensures
        ({
            let out = set_at(JsonView::Array(items), path, replacement);
            &&& out is Array
            &&& out->Array_0.len() == if items.len() > index {
                items.len() as int
            } else {
                index + 1
            }
            &&& 0 <= i < items.len() && i != index ==> out->Array_0[i] == items[i]
            &&& items.len() <= i < index ==> out->Array_0[i] == if path.len() > 1 && path[1]
                is Index {
                JsonView::Array(Seq::empty())
            } else {
                JsonView::Object(Seq::empty())
            }
        }),
{
    let rest = path.drop_first();
    if path.len() > 1 {
        assert(rest[0] == path[1]);
    }
    lemma_filled_up(items, index + 1, initial(rest));
}

proof fn lemma_filled_up(items: Seq<JsonView>, n: int, fill: JsonView)
    ensures
        padded(items, n, fill).len() == if items.len() >= n {
            items.len() as int
        } else {
            n
        },
        forall|i: int| 0 <= i < items.len() ==> padded(items, n, fill)[i] == items[i],
        forall|i: int| items.len() <= i < n ==> padded(items, n, fill)[i] == fill,
    decreases n - items.len(),
{
    if items.len() < n {
        lemma_filled_up(items.push(fill), n, fill);
        let out = padded(items, n, fill);
        assert forall|i: int| 0 <= i < items.len() implies out[i] == items[i] by {
            assert(items.push(fill)[i] == items[i]);
        }
        assert forall|i: int| items.len() <= i < n implies out[i] == fill by {
            if i == items.len() {
                assert(items.push(fill)[i] == fill);
            }
        }
    }
}

/// A text that spells a whole number is set as that number, and any other value as it is; a text
/// that spells no number stays a text.
pub proof fn law_numbers_are_set_as_numbers(n: i64, s: Seq<char>, v: JsonView)
    ensures
        typed(JsonView::Text(text::signed_decimal(n as int))) == JsonView::Number(
            signed_number(n),
        ),
        !(v is Text) ==> typed(v) == v,
        text::signed_parsed(s) is None && float_number(s) is None ==> typed(JsonView::Text(s))
            == JsonView::Text(s),
{
    text::law_signed_decimal_reads_back(n as int, s);
    if text::signed_parsed(s) is None && text::parsed(s) is Some {
        assert(s[0] == '-');
        text::law_signed_decimal_reads_back(0, s);
        let t = s;
        assert(text::all_digits(t));
        assert(text::is_digit(t[0]));
    }
}

/// A value that depends on the current one is set exactly where the current one is named, and then
/// to what is given for it.
pub proof fn law_conditional_values_depend_on_the_current(
    node: JsonView,
    options: Seq<(Seq<char>, JsonView)>,
)
    ensures
        set_at(node, Seq::empty(), JsonView::Object(options)) == match crate::json::field_in(
            options,
            scalar(node),
        ) {
            Some(v) => typed(v),
            None => node,
        },
{
}

/// The values are set one after the other, in the order in which they are given.
pub proof fn law_replacements_follow_each_other(
    document: JsonView,
    first: Seq<(Seq<char>, JsonView)>,
    last: (Seq<char>, JsonView),
)
    ensures
        all_set(document, first.push(last)) == set_at(
            all_set(document, first),
            steps(last.0),
            last.1,
        ),
        all_set(document, Seq::empty()) == document,
{
    assert(first.push(last).drop_last() =~= first);
}

/// A field that is set at the top is found there, whatever the document was.
pub proof fn law_set_keys_are_fields(node: JsonView, key: Seq<char>, replacement: JsonView)
    requires
        !(replacement is Object),
    ensures
        crate::json::field_of(
            set_at(node, seq![SegmentView::Key(key)], replacement),
            key,
        ) == Some(typed(replacement)),
{
    let path = seq![SegmentView::Key(key)];
    let fields = match node {
        JsonView::Object(fields) => fields,
        _ => Seq::empty(),
    };
    let rest = path.drop_first();
    assert(rest =~= Seq::<SegmentView>::empty());
    lemma_position_in(fields, key);
    let p = position_in(fields, key);
    let after = set_at(node, path, replacement)->Object_0;
    assert(path[0] == SegmentView::Key(key));
    assert forall|j: JsonView| #[trigger] set_at(j, rest, replacement) == typed(replacement) by {}
    if p < fields.len() {
        assert(after[p] == (fields[p].0, set_at(fields[p].1, rest, replacement)));
    } else {
        assert(after[p] == (key, set_at(initial(rest), rest, replacement)));
    }
    assert forall|k: int| 0 <= k < p implies (#[trigger] after[k]).0 != key by {
        assert(after[k] == fields[k]);
    }
    crate::json::lemma_position_unique(after, key, p);
    lemma_position_in(after, key);
}

} // verus!
