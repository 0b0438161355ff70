//! JSON documents: reading and writing them through `serde_json` and `serde_yaml`, and looking
//! into them.

use crate::text;
use vstd::prelude::*;

verus! {

/// `serde_json::Value`.
#[verifier::external_type_specification]
#[verifier::external_body]
pub struct ExValue(serde_json::Value);

/// `serde_json::Number`.
#[verifier::external_type_specification]
#[verifier::external_body]
pub struct ExNumber(serde_json::Number);

/// A JSON document.
#[derive(Debug, PartialEq)]
pub enum Json {
    Null,
    Bool(bool),
    Number(serde_json::Number),
    Text(String),
    Array(Vec<Json>),
    /// Fields with distinct names.
    Object(Vec<(String, Json)>),
}

/// A JSON document by its contents.
pub enum JsonView {
    Null,
    Bool(bool),
    Number(serde_json::Number),
    Text(Seq<char>),
    Array(Seq<JsonView>),
    Object(Seq<(Seq<char>, JsonView)>),
}

/// A JSON document by its contents.
pub open spec fn json_view(j: Json) -> JsonView
    decreases j,
{
    match j {
        Json::Null => JsonView::Null,
        Json::Bool(b) => JsonView::Bool(b),
        Json::Number(n) => JsonView::Number(n),
        Json::Text(s) => JsonView::Text(s@),
        Json::Array(items) => JsonView::Array(
            Seq::new(
                items@.len(),
                |i: int|
                    if 0 <= i < items@.len() {
                        json_view(items@[i])
                    } else {
                        JsonView::Null
                    },
            ),
        ),
        Json::Object(fields) => JsonView::Object(
            Seq::new(
                fields@.len(),
                |i: int|
                    if 0 <= i < fields@.len() {
                        (fields@[i].0@, json_view(fields@[i].1))
                    } else {
                        (Seq::empty(), JsonView::Null)
                    },
            ),
        ),
    }
}

impl View for Json {
    type V = JsonView;

    open spec fn view(&self) -> JsonView {
        json_view(*self)
    }
}

/// The contents of a list of documents.
pub open spec fn items_view(items: Seq<Json>) -> Seq<JsonView> {
    items.map_values(|j: Json| j@)
}

/// The contents of a list of fields.
pub open spec fn fields_view(fields: Seq<(String, Json)>) -> Seq<(Seq<char>, JsonView)> {
    fields.map_values(|f: (String, Json)| (f.0@, f.1@))
}

/// The contents of an array and of an object.
pub broadcast proof fn lemma_json_view(j: Json)
    ensures
        #[trigger] json_view(j) == (match j {
            Json::Array(items) => JsonView::Array(items_view(items@)),
            Json::Object(fields) => JsonView::Object(fields_view(fields@)),
            _ => json_view(j),
        }),
{
    match j {
        Json::Array(items) => {
            assert(json_view(j)->Array_0 =~= items_view(items@));
        },
        Json::Object(fields) => {
            assert(json_view(j)->Object_0 =~= fields_view(fields@));
        },
        _ => {},
    }
}

/// The text of a number, as `serde_json::Number` displays it.
pub uninterp spec fn number_text(n: serde_json::Number) -> Seq<char>;

/// The contents of a `serde_json::Value`: what variant it is, the value, text or number that it
/// holds, its items in order, or its fields in the order in which `serde_json` walks them.
pub uninterp spec fn value_view(v: serde_json::Value) -> JsonView;

/// `serde_json::Number` as text, by its `Display`.
#[verifier::external_body]
fn number_string(n: &serde_json::Number) -> (r: String)
    ensures
        r@ == number_text(*n),
{
    n.to_string()
}

/// The number that `serde_json::Number::from` makes of a signed number.
pub uninterp spec fn signed_number(v: i64) -> serde_json::Number;

/// The number that `serde_json::Number::from` makes of an unsigned number.
pub uninterp spec fn unsigned_number(v: u64) -> serde_json::Number;

/// `serde_json::Number::from` of a signed number, which displays as its decimal form.
#[verifier::external_body]
fn number_of_i64(v: i64) -> (r: serde_json::Number)
    ensures
        r == signed_number(v),
        number_text(r) == text::signed_decimal(v as int),
{
    serde_json::Number::from(v)
}

/// `serde_json::Number::from` of an unsigned number, which displays as its decimal form.
#[verifier::external_body]
fn number_of_u64(v: u64) -> (r: serde_json::Number)
    ensures
        r == unsigned_number(v),
        number_text(r) == text::decimal(v as nat),
{
    serde_json::Number::from(v)
}

/// The same number once more, by `serde_json::Number::clone`.
#[verifier::external_body]
fn number_copy(n: &serde_json::Number) -> (r: serde_json::Number)
    ensures
        r == *n,
{
    n.clone()
}

/// One level of a document that is held by `serde_json`.
enum JsonStep {
    Null,
    Bool(bool),
    Number(serde_json::Number),
    Text(String),
    Array(Vec<serde_json::Value>),
    Object(Vec<(String, serde_json::Value)>),
}

/// The contents of a list of values.
spec fn values_view(items: Seq<serde_json::Value>) -> Seq<JsonView> {
    items.map_values(|v: serde_json::Value| value_view(v))
}

/// The contents of a list of named values.
spec fn entries_view(items: Seq<(String, serde_json::Value)>) -> Seq<(Seq<char>, JsonView)> {
    items.map_values(|f: (String, serde_json::Value)| (f.0@, value_view(f.1)))
}

/// The contents of one level.
spec fn step_view(s: JsonStep) -> JsonView {
    match s {
        JsonStep::Null => JsonView::Null,
        JsonStep::Bool(b) => JsonView::Bool(b),
        JsonStep::Number(n) => JsonView::Number(n),
        JsonStep::Text(s) => JsonView::Text(s@),
        JsonStep::Array(items) => JsonView::Array(values_view(items@)),
        JsonStep::Object(fields) => JsonView::Object(entries_view(fields@)),
    }
}

/// The variants of `serde_json::Value`, one for one.
#[verifier::external_body]
fn open_value(value: serde_json::Value) -> (r: JsonStep)
    ensures
        step_view(r) == value_view(value),
{
    match value {
        serde_json::Value::Null => JsonStep::Null,
        serde_json::Value::Bool(b) => JsonStep::Bool(b),
        serde_json::Value::Number(n) => JsonStep::Number(n),
        serde_json::Value::String(s) => JsonStep::Text(s),
        serde_json::Value::Array(items) => JsonStep::Array(items),
        serde_json::Value::Object(fields) => JsonStep::Object(fields.into_iter().collect()),
    }
}

fn import(value: serde_json::Value) -> (r: Json)
    ensures
        r@ == value_view(value),
    decreases value_view(value),
{
    broadcast use lemma_json_view;
    match open_value(value) {
        JsonStep::Null => Json::Null,
        JsonStep::Bool(b) => Json::Bool(b),
        JsonStep::Number(n) => Json::Number(n),
        JsonStep::Text(s) => Json::Text(s),
        JsonStep::Array(items) => {
            let ghost all = values_view(items@);
            let ghost source = items@;
            let mut out: Vec<Json> = Vec::new();
            for v in it: items
                invariant
                    value_view(value) == JsonView::Array(all),
                    all == values_view(source),
                    it.seq() == source,
                    items_view(out@) == all.take(it.index() as int),
            {
                proof {
                    assert(all[it.index() as int] == value_view(v));
                    assert(decreases_to!(value_view(value) => value_view(value)->Array_0));
                }
                let j = import(v);
                let ghost done = items_view(out@);
                out.push(j);
                assert(items_view(out@) =~= done.push(j@));
                assert(items_view(out@) =~= all.take(it.index() as int + 1));
            }
            assert(items_view(out@) =~= all);
            Json::Array(out)
        },
        JsonStep::Object(fields) => {
            let ghost all = entries_view(fields@);
            let ghost source = fields@;
            let mut out: Vec<(String, Json)> = Vec::new();
            for field in it: fields
                invariant
                    value_view(value) == JsonView::Object(all),
                    all == entries_view(source),
                    it.seq() == source,
                    fields_view(out@) == all.take(it.index() as int),
            {
                let (k, v) = field;
                proof {
                    assert(all[it.index() as int] == (k@, value_view(v)));
                    assert(decreases_to!(value_view(value) => value_view(value)->Object_0));
                    assert(decreases_to!(all => all[it.index() as int]));
                    assert(decreases_to!(all[it.index() as int] => all[it.index() as int].1));
                }
                let j = import(v);
                let ghost done = fields_view(out@);
                out.push((k, j));
                assert(fields_view(out@) =~= done.push((k@, j@)));
                assert(fields_view(out@) =~= all.take(it.index() as int + 1));
            }
            assert(fields_view(out@) =~= all);
            Json::Object(out)
        },
    }
}

/// Fields in the order of their names, with one more: it takes the place of a field with its name.
pub open spec fn placed(sorted: Seq<(Seq<char>, JsonView)>, field: (Seq<char>, JsonView)) -> Seq<
    (Seq<char>, JsonView),
>
    decreases sorted.len(),
{
    if sorted.len() == 0 || text::precedes(field.0, sorted[0].0) {
        seq![field] + sorted
    } else if sorted[0].0 == field.0 {
        sorted.update(0, field)
    } else {
        seq![sorted[0]] + placed(sorted.drop_first(), field)
    }
}

/// The fields of an object that `serde_json` built from the given fields, as it walks them: in the
/// order of their names, and of several fields with one name the last one.
pub open spec fn walked(fields: Seq<(Seq<char>, JsonView)>) -> Seq<(Seq<char>, JsonView)>
    decreases fields.len(),
{
    if fields.len() == 0 {
        Seq::empty()
    } else {
        placed(walked(fields.drop_last()), fields.last())
    }
}

/// The contents of one level, as `serde_json` holds it.
spec fn closed_view(s: JsonStep) -> JsonView {
    match s {
        JsonStep::Object(fields) => JsonView::Object(walked(entries_view(fields@))),
        _ => step_view(s),
    }
}

/// The variants of `serde_json::Value`, one for one. An object built by `serde_json::Map::from_iter`,
/// which without the feature `preserve_order` is a `BTreeMap` by the names of the fields, keeps the
/// last of several fields with one name and walks them in the order of their names.
#[verifier::external_body]
fn close_value(step: JsonStep) -> (r: serde_json::Value)
    ensures
        value_view(r) == closed_view(step),
{
    match step {
        JsonStep::Null => serde_json::Value::Null,
        JsonStep::Bool(b) => serde_json::Value::Bool(b),
        JsonStep::Number(n) => serde_json::Value::Number(n),
        JsonStep::Text(s) => serde_json::Value::String(s),
        JsonStep::Array(items) => serde_json::Value::Array(items),
        JsonStep::Object(fields) => serde_json::Value::Object(fields.into_iter().collect()),
    }
}

/// A document as `serde_json` holds it.
pub open spec fn exported(j: JsonView) -> JsonView
    decreases j,
{
    match j {
        JsonView::Array(items) => JsonView::Array(
            Seq::new(
                items.len(),
                |i: int|
                    if 0 <= i < items.len() {
                        exported(items[i])
                    } else {
                        JsonView::Null
                    },
            ),
        ),
        JsonView::Object(fields) => JsonView::Object(walked(exported_fields(fields))),
        _ => j,
    }
}

/// Fields as `serde_json` holds them, in the order in which they are handed over.
pub open spec fn exported_fields(fields: Seq<(Seq<char>, JsonView)>) -> Seq<(Seq<char>, JsonView)>
    decreases fields,
{
    Seq::new(
        fields.len(),
        |i: int|
            if 0 <= i < fields.len() {
                (fields[i].0, exported(fields[i].1))
            } else {
                (Seq::empty(), JsonView::Null)
            },
    )
}

fn export(j: &Json) -> (r: serde_json::Value)
    ensures
        value_view(r) == exported(j@),
    decreases j@,
{
    broadcast use lemma_json_view;
    match j {
        Json::Null => close_value(JsonStep::Null),
        Json::Bool(b) => close_value(JsonStep::Bool(*b)),
        Json::Number(n) => close_value(JsonStep::Number(number_copy(n))),
        Json::Text(s) => close_value(JsonStep::Text(s.as_str().to_owned())),
        Json::Array(items) => {
            let mut out: Vec<serde_json::Value> = Vec::new();
            let mut i: usize = 0;
            while i < items.len()
                invariant
                    j@ == JsonView::Array(items_view(items@)),
                    0 <= i <= items@.len(),
                    out@.len() == i,
                    forall|k: int|
                        0 <= k < i ==> value_view(#[trigger] out@[k]) == exported(items@[k]@),
                decreases items.len() - i,
            {
                proof {
                    assert(decreases_to!(j@ => j@->Array_0));
                    assert(j@->Array_0[i as int] == items@[i as int]@);
                }
                out.push(export(&items[i]));
                i += 1;
            }
            assert(values_view(out@) =~= exported(j@)->Array_0);
            close_value(JsonStep::Array(out))
        },
        Json::Object(fields) => {
            let mut out: Vec<(String, serde_json::Value)> = Vec::new();
            let mut i: usize = 0;
            while i < fields.len()
                invariant
                    j@ == JsonView::Object(fields_view(fields@)),
                    0 <= i <= fields@.len(),
                    out@.len() == i,
                    forall|k: int|
                        0 <= k < i ==> (#[trigger] out@[k]).0@ == fields@[k].0@ && value_view(
                            out@[k].1,
                        ) == exported(fields@[k].1@),
                decreases fields.len() - i,
            {
                proof {
                    assert(decreases_to!(j@ => j@->Object_0));
                    assert(decreases_to!(j@->Object_0 => j@->Object_0[i as int]));
                    assert(decreases_to!(j@->Object_0[i as int] => j@->Object_0[i as int].1));
                    assert(j@->Object_0[i as int].1 == fields@[i as int].1@);
                }
                out.push((fields[i].0.as_str().to_owned(), export(&fields[i].1)));
                i += 1;
            }
            proof {
                assert(entries_view(out@) =~= exported_fields(fields_view(fields@)));
            }
            close_value(JsonStep::Object(out))
        },
    }
}

/// The document that `serde_json::from_slice` reads out of bytes, if it is one.
pub uninterp spec fn json_text(bytes: Seq<u8>) -> Option<JsonView>;

/// `serde_json::from_slice`. Which bytes are a document, and which one, is named here and not
/// spelled out.
#[verifier::external_body]
fn read_json(bytes: &[u8]) -> (r: Option<serde_json::Value>)
    ensures
        json_text(bytes@) == (match r {
            Some(v) => Some(value_view(v)),
            None => None,
        }),
{
    serde_json::from_slice(bytes).ok()
}

/// The document that `serde_yaml::from_slice` reads out of bytes, if it is one.
pub uninterp spec fn yaml_text(bytes: Seq<u8>) -> Option<JsonView>;

/// `serde_yaml::from_slice`, into a JSON document. Which bytes are a document, and which one, is
/// named here and not spelled out.
#[verifier::external_body]
fn read_yaml(bytes: &[u8]) -> (r: Option<serde_json::Value>)
    ensures
        yaml_text(bytes@) == (match r {
            Some(v) => Some(value_view(v)),
            None => None,
        }),
{
    serde_yaml::from_slice(bytes).ok()
}

/// The bytes that `serde_json::to_vec_pretty` writes for a document.
pub uninterp spec fn json_pretty(v: JsonView) -> Option<Seq<u8>>;

/// The contents of optional bytes.
pub open spec fn bytes_view(o: Option<Vec<u8>>) -> Option<Seq<u8>> {
    match o {
        Some(b) => Some(b@),
        None => None,
    }
}

/// `serde_json::to_vec_pretty`. What it writes is named here and not spelled out.
#[verifier::external_body]
fn write_json_pretty(v: &serde_json::Value) -> (r: Option<Vec<u8>>)
    ensures
        bytes_view(r) == json_pretty(value_view(*v)),
{
    serde_json::to_vec_pretty(v).ok()
}

/// The text that the `Display` of `serde_json::Value` gives a document.
pub uninterp spec fn json_compact(v: JsonView) -> Seq<char>;

/// `serde_json::Value` as text, by its `Display`. What it writes is named here and not spelled
/// out.
#[verifier::external_body]
fn write_json_compact(v: &serde_json::Value) -> (r: String)
    ensures
        r@ == json_compact(value_view(*v)),
{
    v.to_string()
}

/// The text that `serde_yaml::to_string` writes for a document.
pub uninterp spec fn yaml_form(v: JsonView) -> Option<Seq<char>>;

/// `serde_yaml::to_string`. What it writes is named here and not spelled out.
#[verifier::external_body]
fn write_yaml(v: &serde_json::Value) -> (r: Option<String>)
    ensures
        text::opt_view(r) == yaml_form(value_view(*v)),
{
    serde_yaml::to_string(v).ok()
}

/// The number that a text spells in decimal or scientific notation, as `str::parse` reads it into
/// the double that `serde_json::Number` can hold.
pub uninterp spec fn float_number(text: Seq<char>) -> Option<serde_json::Number>;

/// `str::parse` followed by `serde_json::Number::from_f64`. Which texts are numbers, and which
/// ones, is named here and not spelled out.
#[verifier::external_body]
fn read_float(text: &str) -> (r: Option<serde_json::Number>)
    ensures
        r == float_number(text@),
{
    text.parse().ok().and_then(serde_json::Number::from_f64)
}

/// An optional document by its contents.
pub open spec fn json_opt(o: Option<Json>) -> Option<JsonView> {
    match o {
        Some(j) => Some(j@),
        None => None,
    }
}

/// A reference to a part of a document, by its contents.
pub open spec fn json_ref(o: Option<&Json>) -> Option<JsonView> {
    match o {
        Some(j) => Some(j@),
        None => None,
    }
}

/// The first field with the given name.
pub open spec fn field_in(fields: Seq<(Seq<char>, JsonView)>, name: Seq<char>) -> Option<JsonView>
    decreases fields.len(),
{
    if fields.len() == 0 {
        None
    } else if fields[0].0 == name {
        Some(fields[0].1)
    } else {
        field_in(fields.drop_first(), name)
    }
}

/// The field of an object.
pub open spec fn field_of(v: JsonView, name: Seq<char>) -> Option<JsonView> {
    match v {
        JsonView::Object(fields) => field_in(fields, name),
        _ => None,
    }
}

/// The field of a field of an object.
pub open spec fn inner_of(v: JsonView, outer: Seq<char>, name: Seq<char>) -> Option<JsonView> {
    match field_of(v, outer) {
        Some(o) => field_of(o, name),
        None => None,
    }
}

/// The text of a text.
pub open spec fn text_of(v: Option<JsonView>) -> Option<Seq<char>> {
    match v {
        Some(JsonView::Text(s)) => Some(s),
        _ => None,
    }
}

/// The truth value of a truth value.
pub open spec fn bool_of(v: Option<JsonView>) -> Option<bool> {
    match v {
        Some(JsonView::Bool(b)) => Some(b),
        _ => None,
    }
}

/// The texts among some documents, in order.
pub open spec fn texts_of(items: Seq<JsonView>) -> Seq<Seq<char>>
    decreases items.len(),
{
    if items.len() == 0 {
        Seq::empty()
    } else {
        match items.last() {
            JsonView::Text(s) => texts_of(items.drop_last()).push(s),
            _ => texts_of(items.drop_last()),
        }
    }
}

/// The position of the first field with a name, or the number of fields.
pub open spec fn position_in(fields: Seq<(Seq<char>, JsonView)>, name: Seq<char>) -> int
    decreases fields.len(),
{
    if fields.len() == 0 || fields[0].0 == name {
        0
    } else {
        1 + position_in(fields.drop_first(), name)
    }
}

/// What `position_in` finds, and that it is where `field_in` looks.
pub proof fn lemma_position_in(fields: Seq<(Seq<char>, JsonView)>, name: Seq<char>)
    ensures
        0 <= position_in(fields, name) <= fields.len(),
        position_in(fields, name) < fields.len() ==> fields[position_in(fields, name)].0 == name
            && field_in(fields, name) == Some(fields[position_in(fields, name)].1),
        position_in(fields, name) >= fields.len() ==> field_in(fields, name) is None,
        forall|k: int| 0 <= k < position_in(fields, name) ==> (#[trigger] fields[k]).0 != name,
    decreases fields.len(),
{
    if fields.len() > 0 && fields[0].0 != name {
        let rest = fields.drop_first();
        lemma_position_in(rest, name);
        assert forall|k: int| 0 <= k < position_in(fields, name) implies (
        #[trigger] fields[k]).0 != name by {
            if k > 0 {
                assert(fields[k] == rest[k - 1]);
            }
        }
    }
}

/// A position with the properties of `position_in` is `position_in`.
pub proof fn lemma_position_unique(fields: Seq<(Seq<char>, JsonView)>, name: Seq<char>, i: int)
    requires
        0 <= i <= fields.len(),
        i < fields.len() ==> fields[i].0 == name,
        forall|k: int| 0 <= k < i ==> (#[trigger] fields[k]).0 != name,
    ensures
        position_in(fields, name) == i,
{
    lemma_position_in(fields, name);
    let p = position_in(fields, name);
    if p < i {
        assert(fields[p].0 != name);
    }
    if i < p {
        assert(fields[i].0 != name);
    }
}

/// The position of the first field with a name, or the number of fields.
pub fn position(fields: &Vec<(String, Json)>, name: &str) -> (r: usize)
    ensures
        r == position_in(fields_view(fields@), name@),
        r <= fields@.len(),
{
    let ghost v = fields_view(fields@);
    let mut i: usize = 0;
    while i < fields.len()
        invariant
            v == fields_view(fields@),
            0 <= i <= fields@.len(),
            forall|k: int| 0 <= k < i ==> (#[trigger] v[k]).0 != name@,
        decreases fields.len() - i,
    {
        if text::same(fields[i].0.as_str(), name) {
            proof {
                lemma_position_unique(v, name@, i as int);
            }
            return i;
        }
        i += 1;
    }
    proof {
        lemma_position_unique(v, name@, i as int);
    }
    i
}

impl Json {
    /// The same document once more.
    pub fn copy(&self) -> (r: Json)
        ensures
            r@ == self@,
        decreases self@,
    {
        broadcast use lemma_json_view;
        match self {
            Json::Null => Json::Null,
            Json::Bool(b) => Json::Bool(*b),
            Json::Number(n) => Json::Number(number_copy(n)),
            Json::Text(s) => Json::Text(s.as_str().to_owned()),
            Json::Array(items) => {
                let mut out: Vec<Json> = Vec::new();
                let mut i: usize = 0;
                while i < items.len()
                    invariant
                        self@ == JsonView::Array(items_view(items@)),
                        0 <= i <= items@.len(),
                        out@.len() == i,
                        forall|k: int| 0 <= k < i ==> (#[trigger] out@[k])@ == items@[k]@,
                    decreases items.len() - i,
                {
                    proof {
                        assert(decreases_to!(self@ => self@->Array_0));
                        assert(self@->Array_0[i as int] == items@[i as int]@);
                    }
                    out.push(items[i].copy());
                    i += 1;
                }
                assert(items_view(out@) =~= items_view(items@));
                Json::Array(out)
            },
            Json::Object(fields) => {
                let mut out: Vec<(String, Json)> = Vec::new();
                let mut i: usize = 0;
                while i < fields.len()
                    invariant
                        self@ == JsonView::Object(fields_view(fields@)),
                        0 <= i <= fields@.len(),
                        out@.len() == i,
                        forall|k: int|
                            0 <= k < i ==> (#[trigger] out@[k]).0@ == fields@[k].0@ && out@[k].1@
                                == fields@[k].1@,
                    decreases fields.len() - i,
                {
                    proof {
                        assert(decreases_to!(self@ => self@->Object_0));
                        assert(decreases_to!(self@->Object_0 => self@->Object_0[i as int]));
                        assert(decreases_to!(self@->Object_0[i as int] => self@->Object_0[i as int].1));
                        assert(self@->Object_0[i as int].1 == fields@[i as int].1@);
                    }
                    out.push((fields[i].0.as_str().to_owned(), fields[i].1.copy()));
                    i += 1;
                }
                assert(fields_view(out@) =~= fields_view(fields@));
                Json::Object(out)
            },
        }
    }

    /// The document that the bytes spell in JSON.
    pub fn parse(bytes: &[u8]) -> (r: Option<Json>)
        ensures
            json_opt(r) == json_text(bytes@),
    {
        match read_json(bytes) {
            Some(v) => Some(import(v)),
            None => None,
        }
    }

    /// The document that the bytes spell in YAML.
    pub fn parse_yaml(bytes: &[u8]) -> (r: Option<Json>)
        ensures
            json_opt(r) == yaml_text(bytes@),
    {
        match read_yaml(bytes) {
            Some(v) => Some(import(v)),
            None => None,
        }
    }

    /// The document in JSON, over several lines.
    pub fn pretty(&self) -> (r: Option<Vec<u8>>)
        ensures
            bytes_view(r) == json_pretty(exported(self@)),
    {
        write_json_pretty(&export(self))
    }

    /// The document in JSON, on one line.
    pub fn compact(&self) -> (r: String)
        ensures
            r@ == json_compact(exported(self@)),
    {
        write_json_compact(&export(self))
    }

    /// The document in YAML.
    pub fn yaml(&self) -> (r: Option<String>)
        ensures
            text::opt_view(r) == yaml_form(exported(self@)),
    {
        write_yaml(&export(self))
    }

    /// The number that a text spells in decimal or scientific notation.
    pub fn from_float(text: &str) -> (r: Option<Json>)
        ensures
            json_opt(r) == match float_number(text@) {
                Some(n) => Some(JsonView::Number(n)),
                None => None,
            },
    {
        match read_float(text) {
            Some(n) => Some(Json::Number(n)),
            None => None,
        }
    }

    /// A signed number.
    pub fn from_i64(v: i64) -> (r: Json)
        ensures
            r@ == JsonView::Number(signed_number(v)),
            number_text(signed_number(v)) == text::signed_decimal(v as int),
    {
        Json::Number(number_of_i64(v))
    }

    /// An unsigned number.
    pub fn from_u64(v: u64) -> (r: Json)
        ensures
            r@ == JsonView::Number(unsigned_number(v)),
            number_text(unsigned_number(v)) == text::decimal(v as nat),
    {
        Json::Number(number_of_u64(v))
    }

    /// The field of an object.
    pub fn field(&self, name: &str) -> (r: Option<&Json>)
        ensures
            json_ref(r) == field_of(self@, name@),
    {
        broadcast use lemma_json_view;
        match self {
            Json::Object(fields) => {
                let i = position(fields, name);
                proof {
                    lemma_position_in(fields_view(fields@), name@);
                }
                if i < fields.len() {
                    Some(&fields[i].1)
                } else {
                    None
                }
            },
            _ => None,
        }
    }

    /// The field of a field of an object.
    pub fn inner(&self, outer: &str, name: &str) -> (r: Option<&Json>)
        ensures
            json_ref(r) == inner_of(self@, outer@, name@),
    {
        match self.field(outer) {
            Some(o) => o.field(name),
            None => None,
        }
    }

    /// The item of an array.
    pub fn item(&self, index: usize) -> (r: Option<&Json>)
        ensures
            json_ref(r) == match self@ {
                JsonView::Array(items) => if index < items.len() {
                    Some(items[index as int])
                } else {
                    None
                },
                _ => None,
            },
    {
        broadcast use lemma_json_view;
        match self {
            Json::Array(items) => if index < items.len() {
                Some(&items[index])
            } else {
                None
            },
            _ => None,
        }
    }

    /// The text of a text.
    pub fn as_text(&self) -> (r: Option<&str>)
        ensures
            crate::protection::str_view(r) == text_of(Some(self@)),
    {
        match self {
            Json::Text(s) => Some(s.as_str()),
            _ => None,
        }
    }

    /// The truth value of a truth value.
    pub fn as_bool(&self) -> (r: Option<bool>)
        ensures
            r == bool_of(Some(self@)),
    {
        match self {
            Json::Bool(b) => Some(*b),
            _ => None,
        }
    }

    /// The text of a number.
    pub fn number(&self) -> (r: Option<String>)
        ensures
            text::opt_view(r) == match self@ {
                JsonView::Number(n) => Some(number_text(n)),
                _ => None,
            },
    {
        match self {
            Json::Number(n) => Some(number_string(n)),
            _ => None,
        }
    }

    /// Whether the document is an object.
    pub fn is_object(&self) -> (r: bool)
        ensures
            r == (self@ is Object),
    {
        match self {
            Json::Object(_) => true,
            _ => false,
        }
    }

    /// The texts among the items of an array, in order.
    pub fn texts(&self) -> (r: Option<Vec<String>>)
        ensures
            r is Some <==> self@ is Array,
            r is Some ==> text::views(r->0@) == texts_of(self@->Array_0),
    {
        broadcast use lemma_json_view;
        match self {
            Json::Array(items) => {
                let ghost all = items_view(items@);
                let mut out: Vec<String> = Vec::new();
                let mut i: usize = 0;
                assert(all.take(0) =~= Seq::<JsonView>::empty());
                assert(text::views(out@) =~= Seq::<Seq<char>>::empty());
                while i < items.len()
                    invariant
                        all == items_view(items@),
                        0 <= i <= items@.len(),
                        text::views(out@) == texts_of(all.take(i as int)),
                    decreases items.len() - i,
                {
                    proof {
                        let next = all.take(i as int + 1);
                        assert(next.drop_last() =~= all.take(i as int));
                        assert(next.last() == items@[i as int]@);
                    }
                    if let Json::Text(s) = &items[i] {
                        let ghost before = out@;
                        let copy = s.as_str().to_owned();
                        out.push(copy);
                        proof {
                            text::lemma_views_push(before, copy);
                        }
                    }
                    i += 1;
                }
                assert(all.take(all.len() as int) =~= all);
                Some(out)
            },
            _ => None,
        }
    }
}

/// The number in the given place, if it is a whole number that fits.
pub open spec fn signed_of(v: Option<JsonView>) -> Option<i64> {
    match v {
        Some(JsonView::Number(n)) => match text::signed_parsed(number_text(n)) {
            Some(m) => if i64::MIN <= m <= i64::MAX {
                Some(m as i64)
            } else {
                None
            },
            None => None,
        },
        _ => None,
    }
}

/// The label of an inspected container.
pub open spec fn label_of(inspect: JsonView, name: Seq<char>) -> Option<Seq<char>> {
    match inner_of(inspect, "Config"@, "Labels"@) {
        Some(labels) => text_of(field_of(labels, name)),
        None => None,
    }
}

/// Fields of which one was set.
pub open spec fn with_field(fields: Seq<(Seq<char>, JsonView)>, name: Seq<char>, v: JsonView) -> Seq<
    (Seq<char>, JsonView),
> {
    let i = position_in(fields, name);
    if i < fields.len() {
        fields.update(i, (name, v))
    } else {
        fields.push((name, v))
    }
}

/// Sets a field.
pub fn set_field(fields: &mut Vec<(String, Json)>, name: &str, value: Json)
    ensures
        fields_view(final(fields)@) == with_field(fields_view(old(fields)@), name@, value@),
{
    let ghost was = fields_view(fields@);
    let i = position(fields, name);
    if i < fields.len() {
        fields.set(i, (name.to_owned(), value));
    } else {
        fields.push((name.to_owned(), value));
    }
    assert(fields_view(fields@) =~= with_field(was, name@, value@));
}

impl Json {
    /// The value of a whole number that fits.
    pub fn as_signed(&self) -> (r: Option<i64>)
        ensures
            r == signed_of(Some(self@)),
    {
        match self {
            Json::Number(n) => text::parse_signed(number_string(n).as_str()),
            _ => None,
        }
    }

    /// The label of an inspected container.
    pub fn label(&self, name: &str) -> (r: Option<String>)
        ensures
            text::opt_view(r) == label_of(self@, name@),
    {
        match self.inner("Config", "Labels") {
            Some(labels) => match labels.field(name) {
                Some(Json::Text(s)) => Some(s.as_str().to_owned()),
                _ => None,
            },
            None => None,
        }
    }

    /// The text in a field of a field of an object.
    pub fn inner_text(&self, outer: &str, name: &str) -> (r: Option<String>)
        ensures
            text::opt_view(r) == text_of(inner_of(self@, outer@, name@)),
    {
        match self.inner(outer, name) {
            Some(Json::Text(s)) => Some(s.as_str().to_owned()),
            _ => None,
        }
    }

    /// The truth value in a field of a field of an object.
    pub fn inner_bool(&self, outer: &str, name: &str) -> (r: Option<bool>)
        ensures
            r == bool_of(inner_of(self@, outer@, name@)),
    {
        match self.inner(outer, name) {
            Some(v) => v.as_bool(),
            None => None,
        }
    }

    /// The whole number in a field of a field of an object.
    pub fn inner_signed(&self, outer: &str, name: &str) -> (r: Option<i64>)
        ensures
            r == signed_of(inner_of(self@, outer@, name@)),
    {
        match self.inner(outer, name) {
            Some(v) => v.as_signed(),
            None => None,
        }
    }

    /// The text in a field of an object.
    pub fn field_text(&self, name: &str) -> (r: Option<String>)
        ensures
            text::opt_view(r) == text_of(field_of(self@, name@)),
    {
        match self.field(name) {
            Some(Json::Text(s)) => Some(s.as_str().to_owned()),
            _ => None,
        }
    }
}

// ---------------------------------------------------------------------------------------------
// Laws.

/// A field is found exactly where there is one with its name, and then it is the first of them.
pub proof fn law_the_first_field_is_found(fields: Seq<(Seq<char>, JsonView)>, name: Seq<char>)
    ensures
        match field_in(fields, name) {
            Some(v) => exists|i: int|
                0 <= i < fields.len() && #[trigger] fields[i] == (name, v) && forall|k: int|
                    0 <= k < i ==> (#[trigger] fields[k]).0 != name,
            None => forall|k: int| 0 <= k < fields.len() ==> (#[trigger] fields[k]).0 != name,
        },
        field_of(JsonView::Object(fields), name) == field_in(fields, name),
    decreases fields.len(),
{
    if fields.len() > 0 && fields[0].0 != name {
        let rest = fields.drop_first();
        law_the_first_field_is_found(rest, name);
        match field_in(fields, name) {
            Some(v) => {
                let i = choose|i: int|
                    0 <= i < rest.len() && #[trigger] rest[i] == (name, v) && forall|k: int|
                        0 <= k < i ==> (#[trigger] rest[k]).0 != name;
                assert(fields[i + 1] == (name, v));
                assert forall|k: int| 0 <= k < i + 1 implies (#[trigger] fields[k]).0 != name by {
                    if k > 0 {
                        assert(rest[k - 1] == fields[k]);
                    }
                }
            },
            None => {
                assert forall|k: int| 0 <= k < fields.len() implies (#[trigger] fields[k]).0
                    != name by {
                    if k > 0 {
                        assert(rest[k - 1] == fields[k]);
                    }
                }
            },
        }
    } else if fields.len() > 0 {
        assert(fields[0] == (name, fields[0].1));
    }
}

proof fn lemma_field_at(fields: Seq<(Seq<char>, JsonView)>, name: Seq<char>, i: int)
    requires
        0 <= i < fields.len(),
        fields[i].0 == name,
        forall|k: int| 0 <= k < i ==> (#[trigger] fields[k]).0 != name,
    ensures
        field_in(fields, name) == Some(fields[i].1),
    decreases i,
{
    if i > 0 {
        assert(fields[0].0 != name);
        let rest = fields.drop_first();
        assert forall|k: int| 0 <= k < i - 1 implies (#[trigger] rest[k]).0 != name by {
            assert(rest[k] == fields[k + 1]);
        }
        lemma_field_at(rest, name, i - 1);
    }
}

/// A field that was set is found, and every other field is as it was. No field is lost, and one is
/// added exactly where there was none with the name.
pub proof fn law_set_fields_are_found(
    fields: Seq<(Seq<char>, JsonView)>,
    name: Seq<char>,
    v: JsonView,
    other: Seq<char>,
)
    ensures
        field_in(with_field(fields, name, v), name) == Some(v),
        other != name ==> field_in(with_field(fields, name, v), other) == field_in(fields, other),
        with_field(fields, name, v).len() == fields.len() + (if field_in(fields, name) is Some {
            0int
        } else {
            1int
        }),
{
    let out = with_field(fields, name, v);
    lemma_position_in(fields, name);
    let p = position_in(fields, name);
    assert forall|k: int| 0 <= k < p implies (#[trigger] out[k]).0 != name by {
        assert(out[k] == fields[k]);
    }
    lemma_field_at(out, name, p);
    law_the_first_field_is_found(fields, name);
    if p < fields.len() {
        lemma_field_at(fields, name, p);
    }
    if other != name {
        law_the_first_field_is_found(fields, other);
        law_the_first_field_is_found(out, other);
        match field_in(fields, other) {
            Some(w) => {
                let i = choose|i: int|
                    0 <= i < fields.len() && #[trigger] fields[i] == (other, w) && forall|k: int|
                        0 <= k < i ==> (#[trigger] fields[k]).0 != other;
                assert(out[i] == fields[i]);
                assert forall|k: int| 0 <= k < i implies (#[trigger] out[k]).0 != other by {
                    if k != p {
                        assert(out[k] == fields[k]);
                    }
                }
                lemma_field_at(out, other, i);
            },
            None => {
                if field_in(out, other) is Some {
                    let i = choose|i: int|
                        0 <= i < out.len() && #[trigger] out[i] == (other, field_in(out, other)->0)
                            && forall|k: int| 0 <= k < i ==> (#[trigger] out[k]).0 != other;
                    assert(i != p);
                    assert(fields[i] == out[i]);
                }
            },
        }
    }
}

/// The names of fields come in order, each once.
pub open spec fn names_in_order(fields: Seq<(Seq<char>, JsonView)>) -> bool {
    forall|i: int, j: int|
        0 <= i < j < fields.len() ==> text::precedes(
            (#[trigger] fields[i]).0,
            (#[trigger] fields[j]).0,
        )
}

proof fn lemma_placed(sorted: Seq<(Seq<char>, JsonView)>, field: (Seq<char>, JsonView), name: Seq<char>)
    requires
        names_in_order(sorted),
    ensures
        names_in_order(placed(sorted, field)),
        field_in(placed(sorted, field), name) == if name == field.0 {
            Some(field.1)
        } else {
            field_in(sorted, name)
        },
        forall|i: int|
            0 <= i < placed(sorted, field).len() ==> (#[trigger] placed(sorted, field)[i]).0
                == field.0 || exists|k: int|
                0 <= k < sorted.len() && (#[trigger] sorted[k]).0 == placed(sorted, field)[i].0,
    decreases sorted.len(),
{
    let out = placed(sorted, field);
    if sorted.len() == 0 || text::precedes(field.0, sorted[0].0) {
        assert(out.drop_first() =~= sorted);
        assert forall|i: int, j: int| 0 <= i < j < out.len() implies text::precedes(
            (#[trigger] out[i]).0,
            (#[trigger] out[j]).0,
        ) by {
            assert(out[j] == sorted[j - 1]);
            if i > 0 {
                assert(out[i] == sorted[i - 1]);
            } else if j > 1 {
                assert(text::precedes(sorted[0].0, sorted[j - 1].0));
                text::lemma_order_transitive(field.0, sorted[0].0, sorted[j - 1].0);
            }
        }
        assert forall|i: int| 0 <= i < out.len() implies (#[trigger] out[i]).0 == field.0 || exists|
            k: int,
        |
            0 <= k < sorted.len() && (#[trigger] sorted[k]).0 == out[i].0 by {
            if i > 0 {
                assert(sorted[i - 1].0 == out[i].0);
            }
        }
    } else if sorted[0].0 == field.0 {
        assert(out.drop_first() =~= sorted.drop_first());
        assert forall|i: int, j: int| 0 <= i < j < out.len() implies text::precedes(
            (#[trigger] out[i]).0,
            (#[trigger] out[j]).0,
        ) by {
            assert(text::precedes(sorted[i].0, sorted[j].0));
        }
        assert forall|i: int| 0 <= i < out.len() implies (#[trigger] out[i]).0 == field.0 || exists|
            k: int,
        |
            0 <= k < sorted.len() && (#[trigger] sorted[k]).0 == out[i].0 by {
            assert(sorted[i].0 == out[i].0);
        }
    } else {
        let rest = sorted.drop_first();
        let tail = placed(rest, field);
        assert(names_in_order(rest)) by {
            assert forall|i: int, j: int| 0 <= i < j < rest.len() implies text::precedes(
                (#[trigger] rest[i]).0,
                (#[trigger] rest[j]).0,
            ) by {
                assert(rest[i] == sorted[i + 1] && rest[j] == sorted[j + 1]);
            }
        }
        lemma_placed(rest, field, name);
        assert(out.drop_first() =~= tail);
        text::lemma_order(field.0, sorted[0].0);
        assert forall|i: int, j: int| 0 <= i < j < out.len() implies text::precedes(
            (#[trigger] out[i]).0,
            (#[trigger] out[j]).0,
        ) by {
            assert(out[j] == tail[j - 1]);
            if i > 0 {
                assert(out[i] == tail[i - 1]);
            } else if tail[j - 1].0 != field.0 {
                let k = choose|k: int|
                    0 <= k < rest.len() && (#[trigger] rest[k]).0 == tail[j - 1].0;
                assert(rest[k] == sorted[k + 1]);
                assert(text::precedes(sorted[0].0, sorted[k + 1].0));
            }
        }
        assert forall|i: int| 0 <= i < out.len() implies (#[trigger] out[i]).0 == field.0 || exists|
            k: int,
        |
            0 <= k < sorted.len() && (#[trigger] sorted[k]).0 == out[i].0 by {
            if i > 0 {
                assert(out[i] == tail[i - 1]);
                if tail[i - 1].0 != field.0 {
                    let k = choose|k: int|
                        0 <= k < rest.len() && (#[trigger] rest[k]).0 == tail[i - 1].0;
                    assert(sorted[k + 1].0 == out[i].0);
                }
            } else {
                assert(sorted[0].0 == out[i].0);
            }
        }
    }
}

/// A document is written with its fields in the order of their names, each once; of several fields
/// with one name the last one counts, and none is lost.
pub proof fn law_written_fields_are_in_order(fields: Seq<(Seq<char>, JsonView)>, i: int)
    requires
        0 <= i < fields.len(),
        forall|k: int| i < k < fields.len() ==> (#[trigger] fields[k]).0 != fields[i].0,
    ensures
        names_in_order(walked(fields)),
        field_in(walked(fields), fields[i].0) == Some(fields[i].1),
{
    lemma_walked(fields, fields[i].0);
    lemma_last_counts(fields, i);
}

/// The value of the last field with a name.
pub open spec fn last_field(fields: Seq<(Seq<char>, JsonView)>, name: Seq<char>) -> Option<JsonView>
    decreases fields.len(),
{
    if fields.len() == 0 {
        None
    } else if fields.last().0 == name {
        Some(fields.last().1)
    } else {
        last_field(fields.drop_last(), name)
    }
}

proof fn lemma_last_counts(fields: Seq<(Seq<char>, JsonView)>, i: int)
    requires
        0 <= i < fields.len(),
        forall|k: int| i < k < fields.len() ==> (#[trigger] fields[k]).0 != fields[i].0,
    ensures
        last_field(fields, fields[i].0) == Some(fields[i].1),
    decreases fields.len(),
{
    if i < fields.len() - 1 {
        assert(fields[fields.len() - 1].0 != fields[i].0);
        let front = fields.drop_last();
        assert forall|k: int| i < k < front.len() implies (#[trigger] front[k]).0 != front[i].0 by {
            assert(front[k] == fields[k]);
        }
        lemma_last_counts(front, i);
    }
}

proof fn lemma_walked(fields: Seq<(Seq<char>, JsonView)>, name: Seq<char>)
    ensures
        names_in_order(walked(fields)),
        field_in(walked(fields), name) == last_field(fields, name),
    decreases fields.len(),
{
    if fields.len() > 0 {
        lemma_walked(fields.drop_last(), name);
        lemma_placed(walked(fields.drop_last()), fields.last(), name);
    }
}

/// The texts of a list are those of its items that are texts, in their order.
pub proof fn law_texts_are_those_of_the_items(items: Seq<JsonView>, more: Seq<JsonView>, s: Seq<char>)
    ensures
        texts_of(items.push(JsonView::Text(s))) == texts_of(items).push(s),
        texts_of(items.push(JsonView::Null)) == texts_of(items),
        texts_of(items.push(JsonView::Array(more))) == texts_of(items),
        texts_of(Seq::empty()) == Seq::<Seq<char>>::empty(),
        text_of(Some(JsonView::Text(s))) == Some(s),
        text_of(Some(JsonView::Null)) is None,
        text_of(None) is None,
        bool_of(Some(JsonView::Bool(true))) == Some(true),
        bool_of(Some(JsonView::Bool(false))) == Some(false),
        bool_of(Some(JsonView::Text(s))) is None,
        bool_of(None) is None,
{
    assert(items.push(JsonView::Text(s)).drop_last() =~= items);
    assert(items.push(JsonView::Null).drop_last() =~= items);
    assert(items.push(JsonView::Array(more)).drop_last() =~= items);
}

/// What lies deeper is found step by step: a field of a field, and a label of a container.
pub proof fn law_inner_fields_are_found(
    fields: Seq<(Seq<char>, JsonView)>,
    outer: Seq<char>,
    name: Seq<char>,
    v: JsonView,
)
    ensures
        inner_of(
            JsonView::Object(
                with_field(fields, outer, JsonView::Object(seq![(name, v)])),
            ),
            outer,
            name,
        ) == Some(v),
        field_in(fields, outer) is None ==> inner_of(JsonView::Object(fields), outer, name) is None,
        v is Text ==> label_of(
            JsonView::Object(
                with_field(
                    fields,
                    "Config"@,
                    JsonView::Object(
                        seq![("Labels"@, JsonView::Object(seq![(name, v)]))],
                    ),
                ),
            ),
            name,
        ) == Some(v->Text_0),
{
    law_set_fields_are_found(fields, outer, JsonView::Object(seq![(name, v)]), outer);
    let labels = JsonView::Object(seq![(name, v)]);
    let config = JsonView::Object(seq![("Labels"@, labels)]);
    law_set_fields_are_found(fields, "Config"@, config, name);
    assert(field_in(seq![(name, v)], name) == Some(v));
    assert(field_in(seq![("Labels"@, labels)], "Labels"@) == Some(labels));
}

/// A document is written item by item and field by field: nothing but the order of fields changes.
pub proof fn law_documents_are_written_whole(
    items: Seq<JsonView>,
    fields: Seq<(Seq<char>, JsonView)>,
    i: int,
)
    ensures
        exported(JsonView::Array(items)) is Array,
        exported(JsonView::Array(items))->Array_0.len() == items.len(),
        0 <= i < items.len() ==> exported(JsonView::Array(items))->Array_0[i] == exported(items[i]),
        exported(JsonView::Object(fields)) is Object,
        0 <= i < fields.len() && (forall|k: int|
            i < k < fields.len() ==> (#[trigger] fields[k]).0 != fields[i].0) ==> field_of(
            exported(JsonView::Object(fields)),
            fields[i].0,
        ) == Some(exported(fields[i].1)),
        exported(JsonView::Null) == JsonView::Null,
        exported(JsonView::Bool(true)) == JsonView::Bool(true),
        exported(JsonView::Bool(false)) == JsonView::Bool(false),
{
    if 0 <= i < fields.len() && (forall|k: int|
        i < k < fields.len() ==> (#[trigger] fields[k]).0 != fields[i].0) {
        let out = exported_fields(fields);
        assert forall|k: int| i < k < out.len() implies (#[trigger] out[k]).0 != out[i].0 by {
            assert(fields[k].0 != fields[i].0);
        }
        law_written_fields_are_in_order(out, i);
    }
}

} // verus!
