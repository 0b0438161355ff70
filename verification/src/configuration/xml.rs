//! Setting values in XML documents by path.

use crate::configuration::values::{replacement_for_current, replacement_of, scalar, scalar_text};
use crate::error::Failure;
use crate::json::{bytes_view, fields_view, Json, JsonView};
use crate::table::{keys_of, lemma_map_of, map_of, Table};
use crate::text;
use vstd::prelude::*;

verus! {

/// `xmltree::Element`.
#[verifier::external_type_specification]
#[verifier::external_body]
pub struct ExElement(xmltree::Element);

/// `xmltree::Namespace`.
#[verifier::external_type_specification]
#[verifier::external_body]
pub struct ExNamespace(xmltree::Namespace);

/// An XML element.
pub struct XmlElement {
    pub prefix: Option<String>,
    pub namespace: Option<String>,
    pub namespaces: Option<xmltree::Namespace>,
    pub name: String,
    pub attributes: Table<String>,
    pub children: Vec<XmlNode>,
}

/// A child of an XML element.
pub enum XmlNode {
    Element(XmlElement),
    Comment(String),
    CData(String),
    Text(String),
    Instruction(String, Option<String>),
}

/// An XML element by its contents.
#[verifier::ext_equal]
pub struct XmlView {
    pub prefix: Option<Seq<char>>,
    pub namespace: Option<Seq<char>>,
    pub namespaces: Option<xmltree::Namespace>,
    pub name: Seq<char>,
    pub attributes: Map<Seq<char>, Seq<char>>,
    pub children: Seq<XmlNodeView>,
}

/// A child of an XML element, by its contents.
#[verifier::ext_equal]
pub enum XmlNodeView {
    Element(XmlView),
    Comment(Seq<char>),
    CData(Seq<char>),
    Text(Seq<char>),
    Instruction(Seq<char>, Option<Seq<char>>),
}

/// The contents of a table of strings.
pub open spec fn strings(m: Map<Seq<char>, String>) -> Map<Seq<char>, Seq<char>> {
    m.map_values(|s: String| s@)
}

/// An XML element by its contents.
pub open spec fn xml_view(e: XmlElement) -> XmlView
    decreases e,
{
    XmlView {
        prefix: text::opt_view(e.prefix),
        namespace: text::opt_view(e.namespace),
        namespaces: e.namespaces,
        name: e.name@,
        attributes: strings(e.attributes@),
        children: Seq::new(
            e.children@.len(),
            |i: int|
                if 0 <= i < e.children@.len() {
                    node_view(e.children@[i])
                } else {
                    XmlNodeView::Text(Seq::empty())
                },
        ),
    }
}

/// A child of an XML element, by its contents.
pub open spec fn node_view(n: XmlNode) -> XmlNodeView
    decreases n,
{
    match n {
        XmlNode::Element(e) => XmlNodeView::Element(xml_view(e)),
        XmlNode::Comment(s) => XmlNodeView::Comment(s@),
        XmlNode::CData(s) => XmlNodeView::CData(s@),
        XmlNode::Text(s) => XmlNodeView::Text(s@),
        XmlNode::Instruction(s, o) => XmlNodeView::Instruction(s@, text::opt_view(o)),
    }
}

/// The contents of a list of children.
pub open spec fn nodes_view(list: Seq<XmlNode>) -> Seq<XmlNodeView> {
    list.map_values(|n: XmlNode| node_view(n))
}

/// The children of an element, by their contents.
pub broadcast proof fn lemma_xml_view(e: XmlElement)
    ensures
        (#[trigger] xml_view(e)).children == nodes_view(e.children@),
{
    assert(xml_view(e).children =~= nodes_view(e.children@));
}

impl View for XmlElement {
    type V = XmlView;

    open spec fn view(&self) -> XmlView {
        xml_view(*self)
    }
}

/// The contents of an `xmltree::Element`: its fields, the attributes as a map, and its children in
/// order.
pub uninterp spec fn element_view(e: xmltree::Element) -> XmlView;

/// One level of an element that is held by `xmltree`.
struct XmlParts {
    prefix: Option<String>,
    namespace: Option<String>,
    namespaces: Option<xmltree::Namespace>,
    name: String,
    attributes: Vec<(String, String)>,
    children: Vec<XmlStep>,
}

/// A child of an element that is held by `xmltree`.
enum XmlStep {
    Element(xmltree::Element),
    Comment(String),
    CData(String),
    Text(String),
    Instruction(String, Option<String>),
}

spec fn step_view(s: XmlStep) -> XmlNodeView {
    match s {
        XmlStep::Element(e) => XmlNodeView::Element(element_view(e)),
        XmlStep::Comment(s) => XmlNodeView::Comment(s@),
        XmlStep::CData(s) => XmlNodeView::CData(s@),
        XmlStep::Text(s) => XmlNodeView::Text(s@),
        XmlStep::Instruction(s, o) => XmlNodeView::Instruction(s@, text::opt_view(o)),
    }
}

spec fn steps_view(list: Seq<XmlStep>) -> Seq<XmlNodeView> {
    list.map_values(|s: XmlStep| step_view(s))
}

spec fn parts_view(p: XmlParts) -> XmlView {
    XmlView {
        prefix: text::opt_view(p.prefix),
        namespace: text::opt_view(p.namespace),
        namespaces: p.namespaces,
        name: p.name@,
        attributes: strings(map_of(p.attributes@)),
        children: steps_view(p.children@),
    }
}

/// The fields of an `xmltree::Element`, and the variants of its `xmltree::XMLNode` children, one
/// for one.
#[verifier::external_body]
fn open_element(e: xmltree::Element) -> (r: XmlParts)
    ensures
        parts_view(r) == element_view(e),
{
    let (prefix, namespace, namespaces, name) = (e.prefix, e.namespace, e.namespaces, e.name);
    let attributes = e.attributes.into_iter().collect();
    let children = e.children.into_iter().map(|node| match node {
        xmltree::XMLNode::Element(e) => XmlStep::Element(e),
        xmltree::XMLNode::Comment(s) => XmlStep::Comment(s),
        xmltree::XMLNode::CData(s) => XmlStep::CData(s),
        xmltree::XMLNode::Text(s) => XmlStep::Text(s),
        xmltree::XMLNode::ProcessingInstruction(s, o) => XmlStep::Instruction(s, o),
    }).collect();
    XmlParts { prefix, namespace, namespaces, name, attributes, children }
}

/// The fields of an `xmltree::Element`, and the variants of its `xmltree::XMLNode` children, one
/// for one. Of attributes with one name the last one stays.
#[verifier::external_body]
fn close_element(p: XmlParts) -> (r: xmltree::Element)
    ensures
        element_view(r) == parts_view(p),
{
    let (prefix, namespace, namespaces, name) = (p.prefix, p.namespace, p.namespaces, p.name);
    let attributes = p.attributes.into_iter().collect();
    let children = p.children.into_iter().map(|step| match step {
        XmlStep::Element(e) => xmltree::XMLNode::Element(e),
        XmlStep::Comment(s) => xmltree::XMLNode::Comment(s),
        XmlStep::CData(s) => xmltree::XMLNode::CData(s),
        XmlStep::Text(s) => xmltree::XMLNode::Text(s),
        XmlStep::Instruction(s, o) => xmltree::XMLNode::ProcessingInstruction(s, o),
    }).collect();
    xmltree::Element { prefix, namespace, namespaces, name, attributes, children }
}

/// The root element that `xmltree::Element::parse` reads out of bytes, if they are a document.
pub uninterp spec fn xml_text(bytes: Seq<u8>) -> Option<XmlView>;

/// `xmltree::Element::parse`. Which bytes are a document, and which one, is named here and not
/// spelled out.
#[verifier::external_body]
fn read_xml(bytes: &[u8]) -> (r: Option<xmltree::Element>)
    ensures
        xml_text(bytes@) == (match r {
            Some(e) => Some(element_view(e)),
            None => None,
        }),
{
    xmltree::Element::parse(bytes).ok()
}

/// The bytes that `xmltree::Element::write_with_config` writes for a root element, indented and
/// with a document declaration.
pub uninterp spec fn xml_form(e: XmlView) -> Option<Seq<u8>>;

/// `xmltree::Element::write_with_config`, indented and with a document declaration; attributes
/// are kept sorted by name. What it writes is named here and not spelled out.
#[verifier::external_body]
fn write_xml(e: &xmltree::Element) -> (r: Option<Vec<u8>>)
    ensures
        bytes_view(r) == xml_form(element_view(*e)),
{
    let mut out = Vec::new();
    let config = xmltree::EmitterConfig::new().perform_indent(true).write_document_declaration(true);
    match e.write_with_config(&mut out, config) {
        Ok(()) => Some(out),
        Err(_) => None,
    }
}

/// The same namespace once more, by `xmltree::Namespace::clone`.
#[verifier::external_body]
fn namespace_copy(n: &xmltree::Namespace) -> (r: xmltree::Namespace)
    ensures
        r == *n,
{
    n.clone()
}

fn copy_opt(o: &Option<String>) -> (r: Option<String>)
    ensures
        text::opt_view(r) == text::opt_view(*o),
{
    match o {
        Some(s) => Some(s.as_str().to_owned()),
        None => None,
    }
}

fn import_element(e: xmltree::Element) -> (r: XmlElement)
    ensures
        r@ == element_view(e),
    decreases element_view(e),
{
    broadcast use lemma_xml_view;
    let ghost whole = element_view(e);
    let XmlParts { prefix, namespace, namespaces, name, attributes, children } = open_element(e);
    let ghost source = attributes@;
    let mut table: Table<String> = Table::new();
    assert(source.take(0) =~= Seq::<(String, String)>::empty());
    for pair in it: attributes
        invariant
            it.seq() == source,
            table@ == map_of(source.take(it.index() as int)),
    {
        let (k, v) = pair;
        table.insert(k, v);
        proof {
            let next = source.take(it.index() as int + 1);
            assert(next.drop_last() =~= source.take(it.index() as int));
        }
    }
    assert(source.take(source.len() as int) =~= source);
    let ghost all = steps_view(children@);
    let ghost steps = children@;
    let mut nodes: Vec<XmlNode> = Vec::new();
    for step in it: children
        invariant
            whole == element_view(e),
            whole.children == all,
            all == steps_view(steps),
            it.seq() == steps,
            nodes_view(nodes@) == all.take(it.index() as int),
    {
        let ghost at = it.index() as int;
        assert(all[at] == step_view(step));
        let node = match step {
            XmlStep::Element(child) => {
                proof {
                    assert(decreases_to!(whole => whole.children));
                    assert(decreases_to!(whole.children => whole.children[at]));
                    assert(decreases_to!(whole.children[at] => whole.children[at]->Element_0));
                }
                XmlNode::Element(import_element(child))
            },
            XmlStep::Comment(s) => XmlNode::Comment(s),
            XmlStep::CData(s) => XmlNode::CData(s),
            XmlStep::Text(s) => XmlNode::Text(s),
            XmlStep::Instruction(s, o) => XmlNode::Instruction(s, o),
        };
        let ghost before = nodes_view(nodes@);
        nodes.push(node);
        assert(nodes_view(nodes@) =~= before.push(node_view(node)));
        assert(nodes_view(nodes@) =~= all.take(at + 1));
    }
    assert(all.take(all.len() as int) =~= all);
    let r = XmlElement { prefix, namespace, namespaces, name, attributes: table, children: nodes };
    assert(r@ =~= whole);
    r
}

fn list_attributes(table: &Table<String>) -> (r: Vec<(String, String)>)
    ensures
        strings(map_of(r@)) == strings(table@),
{
    let keys = table.keys();
    let ghost names = text::views(keys@);
    let mut out: Vec<(String, String)> = Vec::new();
    let mut i: usize = 0;
    while i < keys.len()
        invariant
            names == text::views(keys@),
            names.no_duplicates(),
            names.to_set() =~= table@.dom(),
            0 <= i <= keys@.len(),
            out@.len() == i,
            forall|k: int|
                0 <= k < i ==> (#[trigger] out@[k]).0@ == names[k] && out@[k].1@
                    == table@[names[k]]@,
        decreases keys.len() - i,
    {
        let key = keys[i].as_str();
        assert(names[i as int] == key@);
        assert(names.to_set().contains(key@));
        match table.get(key) {
            Some(value) => {
                out.push((key.to_owned(), value.as_str().to_owned()));
            },
            None => {
                out.push((key.to_owned(), String::new()));
            },
        }
        i += 1;
    }
    proof {
        assert(keys_of(out@) =~= names);
        lemma_map_of(out@);
        assert forall|k: Seq<char>| #[trigger]
            map_of(out@).contains_key(k) <==> table@.contains_key(k) by {
            assert(names.to_set().contains(k) <==> table@.dom().contains(k));
        }
        assert forall|k: Seq<char>| #[trigger]
            map_of(out@).contains_key(k) implies map_of(out@)[k]@ == table@[k]@ by {
            let j = choose|j: int| 0 <= j < names.len() && names[j] == k;
            assert(out@[j].0@ == k);
        }
        assert(strings(map_of(out@)) =~= strings(table@));
    }
    out
}

fn export_element(e: &XmlElement) -> (r: xmltree::Element)
    ensures
        element_view(r) == e@,
    decreases e@,
{
    broadcast use lemma_xml_view;
    let mut children: Vec<XmlStep> = Vec::new();
    let ghost all = nodes_view(e.children@);
    let mut i: usize = 0;
    while i < e.children.len()
        invariant
            all == nodes_view(e.children@),
            e@.children == all,
            0 <= i <= e.children@.len(),
            steps_view(children@) == all.take(i as int),
        decreases e.children.len() - i,
    {
        assert(all[i as int] == node_view(e.children@[i as int]));
        let step = match &e.children[i] {
            XmlNode::Element(child) => {
                proof {
                    assert(decreases_to!(e@ => e@.children));
                    assert(decreases_to!(e@.children => e@.children[i as int]));
                    assert(decreases_to!(e@.children[i as int] => e@.children[i as int]->Element_0));
                }
                XmlStep::Element(export_element(child))
            },
            XmlNode::Comment(s) => XmlStep::Comment(s.as_str().to_owned()),
            XmlNode::CData(s) => XmlStep::CData(s.as_str().to_owned()),
            XmlNode::Text(s) => XmlStep::Text(s.as_str().to_owned()),
            XmlNode::Instruction(s, o) => XmlStep::Instruction(s.as_str().to_owned(), copy_opt(o)),
        };
        let ghost before = steps_view(children@);
        children.push(step);
        assert(steps_view(children@) =~= before.push(step_view(step)));
        assert(steps_view(children@) =~= all.take(i as int + 1));
        i += 1;
    }
    assert(all.take(all.len() as int) =~= all);
    let parts = XmlParts {
        prefix: copy_opt(&e.prefix),
        namespace: copy_opt(&e.namespace),
        namespaces: match &e.namespaces {
            Some(n) => Some(namespace_copy(n)),
            None => None,
        },
        name: e.name.as_str().to_owned(),
        attributes: list_attributes(&e.attributes),
        children,
    };
    assert(parts_view(parts) =~= e@);
    close_element(parts)
}

// ---------------------------------------------------------------------------------------------
// Editing.

/// The text of an element: that of its text children, in a row.
pub open spec fn own_text(children: Seq<XmlNodeView>) -> Seq<char>
    decreases children.len(),
{
    if children.len() == 0 {
        Seq::empty()
    } else {
        let before = own_text(children.drop_last());
        match children.last() {
            XmlNodeView::Text(s) => before + s,
            XmlNodeView::CData(s) => before + s,
            _ => before,
        }
    }
}

/// The children but for those that are text.
pub open spec fn without_text(children: Seq<XmlNodeView>) -> Seq<XmlNodeView>
    decreases children.len(),
{
    if children.len() == 0 {
        Seq::empty()
    } else {
        let before = without_text(children.drop_last());
        match children.last() {
            XmlNodeView::Text(_) => before,
            XmlNodeView::CData(_) => before,
            other => before.push(other),
        }
    }
}

/// A replacement of the form `[name='value']` sets an attribute.
pub open spec fn attribute_of(value: Seq<char>) -> Option<(Seq<char>, Seq<char>)> {
    match text::without_prefix(value, "["@) {
        Some(open) => match text::without_suffix(open, "]"@) {
            Some(inner) => match text::split_first(inner, '=') {
                Some((key, quoted)) => match text::without_prefix(quoted, "'"@) {
                    Some(started) => match text::without_suffix(started, "'"@) {
                        Some(value) => Some((key, value)),
                        None => None,
                    },
                    None => None,
                },
                None => None,
            },
            None => None,
        },
        None => None,
    }
}

/// A replacement of the form `[name='value']` sets an attribute.
pub fn xml_attribute_replacement(value: &str) -> (r: Option<(String, String)>)
    ensures
        text::pair_view(r) == attribute_of(value@),
{
    let open = text::strip_prefix(value, "[");
    if let Some(open) = open {
        let inner = text::strip_suffix(open.as_str(), "]");
        if let Some(inner) = inner {
            if let Some((key, quoted)) = text::split_once(inner.as_str(), '=') {
                if let Some(started) = text::strip_prefix(quoted.as_str(), "'") {
                    if let Some(value) = text::strip_suffix(started.as_str(), "'") {
                        return Some((key, value));
                    }
                }
            }
        }
    }
    None
}

/// The element with its text, or an attribute, replaced.
pub open spec fn valued(e: XmlView, replacement: JsonView) -> XmlView {
    match replacement_of(replacement, own_text(e.children)) {
        Some(v) => match attribute_of(scalar(v)) {
            Some((name, value)) => XmlView { attributes: e.attributes.insert(name, value), ..e },
            None => XmlView {
                children: without_text(e.children).push(XmlNodeView::Text(scalar(v))),
                ..e
            },
        },
        None => e,
    }
}

/// An element without anything in it.
pub open spec fn bare(name: Seq<char>) -> XmlView {
    XmlView {
        prefix: None,
        namespace: None,
        namespaces: None,
        name,
        attributes: Map::empty(),
        children: Seq::empty(),
    }
}

/// A child element that a step of a path means.
pub open spec fn is_meant(node: XmlNodeView, part: Seq<char>) -> bool {
    match node {
        XmlNodeView::Element(e) => part == "*"@ || e.name == part,
        _ => false,
    }
}

/// Some child is meant by a step of a path.
pub open spec fn any_meant(children: Seq<XmlNodeView>, part: Seq<char>) -> bool {
    exists|i: int| 0 <= i < children.len() && is_meant(#[trigger] children[i], part)
}

/// The element with the replacement at the path: in every child that a step means, or in a new
/// child where no child has its name. A wildcard means every child element.
pub open spec fn set_xml(e: XmlView, path: Seq<Seq<char>>, replacement: JsonView) -> XmlView
    decreases path.len(),
{
    if path.len() == 0 {
        valued(e, replacement)
    } else {
        let part = path[0];
        let rest = path.drop_first();
        if part == "*"@ || any_meant(e.children, part) {
            XmlView {
                children: e.children.map_values(
                    |node: XmlNodeView|
                        if is_meant(node, part) {
                            XmlNodeView::Element(set_xml(node->Element_0, rest, replacement))
                        } else {
                            node
                        },
                ),
                ..e
            }
        } else {
            XmlView {
                children: e.children.push(
                    XmlNodeView::Element(set_xml(bare(part), rest, replacement)),
                ),
                ..e
            }
        }
    }
}

fn collect_text(e: &XmlElement) -> (r: String)
    ensures
        r@ == own_text(e@.children),
{
    broadcast use lemma_xml_view;
    let ghost all = nodes_view(e.children@);
    let mut out = String::new();
    let mut i: usize = 0;
    assert(out@ =~= Seq::<char>::empty());
    assert(all.take(0) =~= Seq::<XmlNodeView>::empty());
    while i < e.children.len()
        invariant
            all == nodes_view(e.children@),
            0 <= i <= e.children@.len(),
            out@ == own_text(all.take(i as int)),
        decreases e.children.len() - i,
    {
        proof {
            assert(all.take(i as int + 1).drop_last() =~= all.take(i as int));
            assert(all.take(i as int + 1).last() == node_view(e.children@[i as int]));
        }
        match &e.children[i] {
            XmlNode::Text(s) => {
                out.append(s.as_str());
            },
            XmlNode::CData(s) => {
                out.append(s.as_str());
            },
            _ => {},
        }
        i += 1;
    }
    assert(all.take(all.len() as int) =~= all);
    out
}

fn drop_text(children: Vec<XmlNode>) -> (r: Vec<XmlNode>)
    ensures
        nodes_view(r@) == without_text(nodes_view(children@)),
{
    let ghost source = children@;
    let ghost all = nodes_view(children@);
    let mut out: Vec<XmlNode> = Vec::new();
    assert(all.take(0) =~= Seq::<XmlNodeView>::empty());
    assert(nodes_view(out@) =~= Seq::<XmlNodeView>::empty());
    for node in it: children
        invariant
            it.seq() == source,
            all == nodes_view(source),
            nodes_view(out@) == without_text(all.take(it.index() as int)),
    {
        let ghost at = it.index() as int;
        proof {
            assert(all.take(at + 1).drop_last() =~= all.take(at));
            assert(all.take(at + 1).last() == node_view(node));
        }
        let keep = match &node {
            XmlNode::Text(_) => false,
            XmlNode::CData(_) => false,
            _ => true,
        };
        if keep {
            let ghost before = nodes_view(out@);
            out.push(node);
            assert(nodes_view(out@) =~= before.push(node_view(node)));
        }
    }
    assert(all.take(all.len() as int) =~= all);
    out
}

fn set_xml_value(e: &mut XmlElement, replacement: &Json)
    ensures
        final(e)@ == valued(old(e)@, replacement@),
{
    broadcast use lemma_xml_view;
    let ghost start = e@;
    let current = collect_text(e);
    if let Some(value) = replacement_for_current(replacement, current.as_str()) {
        let shown = scalar_text(&value);
        if let Some((name, value)) = xml_attribute_replacement(shown.as_str()) {
            let ghost before = e.attributes@;
            e.attributes.insert(name, value);
            proof {
                assert(strings(e.attributes@) =~= strings(before).insert(name@, value@));
                assert(e@ =~= valued(start, replacement@));
            }
        } else {
            let mut children: Vec<XmlNode> = Vec::new();
            core::mem::swap(&mut children, &mut e.children);
            let mut kept = drop_text(children);
            let ghost before = nodes_view(kept@);
            kept.push(XmlNode::Text(shown));
            assert(nodes_view(kept@) =~= before.push(XmlNodeView::Text(shown@)));
            e.children = kept;
            assert(e@ =~= valued(start, replacement@));
        }
    }
}

fn new_element(name: &str) -> (r: XmlElement)
    ensures
        r@ == bare(name@),
{
    broadcast use lemma_xml_view;
    let r = XmlElement {
        prefix: None,
        namespace: None,
        namespaces: None,
        name: name.to_owned(),
        attributes: Table::new(),
        children: Vec::new(),
    };
    assert(strings(r.attributes@) =~= Map::empty());
    assert(nodes_view(r.children@) =~= Seq::<XmlNodeView>::empty());
    assert(r@ =~= bare(name@));
    r
}

/// Sets the replacement at the path from its step `from` on.
#[verifier::rlimit(30)]
pub fn set_xml_path(e: &mut XmlElement, path: &Vec<String>, from: usize, replacement: &Json)
    requires
        from <= path@.len(),
    ensures
        final(e)@ == set_xml(old(e)@, text::views(path@).skip(from as int), replacement@),
    decreases path@.len() - from,
{
    broadcast use lemma_xml_view;
    let ghost start = e@;
    let ghost here = text::views(path@).skip(from as int);
    if from >= path.len() {
        set_xml_value(e, replacement);
        return ;
    }
    let next: usize = from + 1;
    let ghost rest = text::views(path@).skip(next as int);
    let part = path[from].as_str();
    proof {
        assert(here.drop_first() =~= rest);
        assert(here[0] == part@);
    }
    let every = text::same(part, "*");
    let mut children: Vec<XmlNode> = Vec::new();
    core::mem::swap(&mut children, &mut e.children);
    let ghost all = nodes_view(children@);
    let mut found = false;
    let mut i: usize = 0;
    while i < children.len()
        invariant
            next == from + 1,
            next <= path@.len(),
            rest == text::views(path@).skip(next as int),
            every == (part@ == "*"@),
            0 <= i <= children@.len(),
            children@.len() == all.len(),
            found <==> exists|k: int| 0 <= k < i && is_meant(#[trigger] all[k], part@),
            forall|k: int|
                0 <= k < i ==> node_view(#[trigger] children@[k]) == if is_meant(all[k], part@) {
                    XmlNodeView::Element(set_xml(all[k]->Element_0, rest, replacement@))
                } else {
                    all[k]
                },
            forall|k: int|
                i <= k < children@.len() ==> node_view(#[trigger] children@[k]) == all[k],
        decreases children.len() - i,
    {
        assert(node_view(children@[i as int]) == all[i as int]);
        let meant = match &children[i] {
            XmlNode::Element(child) => every || text::same(child.name.as_str(), part),
            _ => false,
        };
        if meant {
            found = true;
            let mut node = XmlNode::Text(String::new());
            core::mem::swap(&mut node, &mut children[i]);
            if let XmlNode::Element(child) = node {
                let mut child = child;
                set_xml_path(&mut child, path, next, replacement);
                children.set(i, XmlNode::Element(child));
            }
        }
        i += 1;
    }
    if !found && !every {
        let mut child = new_element(part);
        set_xml_path(&mut child, path, next, replacement);
        proof {
            assert(nodes_view(children@) =~= all);
        }
        children.push(XmlNode::Element(child));
        assert(nodes_view(children@) =~= all.push(
            XmlNodeView::Element(set_xml(bare(part@), rest, replacement@)),
        ));
    } else {
        assert(nodes_view(children@) =~= set_xml(start, here, replacement@).children);
    }
    e.children = children;
    assert(e@ =~= set_xml(start, here, replacement@));
}

/// The parts of a path that are not empty.
pub open spec fn path_parts(parts: Seq<Seq<char>>) -> Seq<Seq<char>>
    decreases parts.len(),
{
    if parts.len() == 0 {
        Seq::empty()
    } else if parts.last().len() > 0 {
        path_parts(parts.drop_last()).push(parts.last())
    } else {
        path_parts(parts.drop_last())
    }
}

fn split_path(path: &str) -> (r: Vec<String>)
    ensures
        text::views(r@) == path_parts(text::split_on(path@, '.')),
{
    let parts = text::split(path, '.');
    let ghost all = text::views(parts@);
    let mut out: Vec<String> = Vec::new();
    let mut i: usize = 0;
    assert(all.take(0) =~= Seq::<Seq<char>>::empty());
    assert(text::views(out@) =~= Seq::<Seq<char>>::empty());
    while i < parts.len()
        invariant
            all == text::views(parts@),
            0 <= i <= parts@.len(),
            text::views(out@) == path_parts(all.take(i as int)),
        decreases parts.len() - i,
    {
        proof {
            assert(all.take(i as int + 1).drop_last() =~= all.take(i as int));
            assert(all.take(i as int + 1).last() == parts@[i as int]@);
        }
        if !text::is_empty(parts[i].as_str()) {
            let ghost before = out@;
            let part = parts[i].as_str().to_owned();
            out.push(part);
            proof {
                text::lemma_views_push(before, part);
            }
        }
        i += 1;
    }
    assert(all.take(all.len() as int) =~= all);
    out
}

/// The root with the replacement at the path, which may begin with the root's own name.
pub open spec fn root_set(root: XmlView, path: Seq<char>, replacement: JsonView) -> XmlView {
    let parts = path_parts(text::split_on(path, '.'));
    if parts.len() == 0 {
        root
    } else if parts[0] == root.name {
        set_xml(root, parts.skip(1), replacement)
    } else {
        set_xml(root, parts, replacement)
    }
}

/// The root with every replacement at its path, in order.
pub open spec fn all_xml(root: XmlView, find: Seq<(Seq<char>, JsonView)>) -> XmlView
    decreases find.len(),
{
    if find.len() == 0 {
        root
    } else {
        root_set(all_xml(root, find.drop_last()), find.last().0, find.last().1)
    }
}

/// The bytes of an XML file after every replacement.
pub open spec fn xml_edited(bytes: Seq<u8>, find: Seq<(Seq<char>, JsonView)>) -> Option<Seq<u8>> {
    match xml_text(bytes) {
        Some(root) => xml_form(all_xml(root, find)),
        None => None,
    }
}

/// An XML file with every replacement set.
pub fn apply_xml_parser(bytes: &[u8], find: &Vec<(String, Json)>) -> (r: Result<Vec<u8>, Failure>)
    ensures
        r is Ok <==> xml_edited(bytes@, fields_view(find@)) is Some,
        r is Ok ==> Some(r->Ok_0@) == xml_edited(bytes@, fields_view(find@)),
        xml_text(bytes@) is None ==> r->Err_0.message@ == "parse XML configuration"@,
        xml_text(bytes@) is Some && r is Err ==> r->Err_0.message@ == "write XML configuration"@,
{
    let mut root = match read_xml(bytes) {
        Some(e) => import_element(e),
        None => {
            return Err(Failure::new("parse XML configuration"));
        },
    };
    let ghost first = root@;
    let ghost all = fields_view(find@);
    let mut i: usize = 0;
    assert(all.take(0) =~= Seq::<(Seq<char>, JsonView)>::empty());
    while i < find.len()
        invariant
            all == fields_view(find@),
            0 <= i <= find@.len(),
            root@ == all_xml(first, all.take(i as int)),
        decreases find.len() - i,
    {
        proof {
            assert(all.take(i as int + 1).drop_last() =~= all.take(i as int));
            assert(all.take(i as int + 1).last() == (find@[i as int].0@, find@[i as int].1@));
        }
        let parts = split_path(find[i].0.as_str());
        let ghost names = text::views(parts@);
        assert(names.skip(0) =~= names);
        if parts.len() > 0 {
            assert(names[0] == parts@[0]@);
            let start: usize = if text::same(parts[0].as_str(), root.name.as_str()) {
                1
            } else {
                0
            };
            set_xml_path(&mut root, &parts, start, &find[i].1);
        }
        i += 1;
    }
    assert(all.take(all.len() as int) =~= all);
    match write_xml(&export_element(&root)) {
        Some(out) => Ok(out),
        None => Err(Failure::new("write XML configuration")),
    }
}

// ---------------------------------------------------------------------------------------------
// Laws.

/// Setting a value by name leaves every child that is not meant as it was, in its place.
pub proof fn law_other_children_stay(
    e: XmlView,
    path: Seq<Seq<char>>,
    replacement: JsonView,
    i: int,
)
    requires
        path.len() > 0,
        0 <= i < e.children.len(),
        !is_meant(e.children[i], path[0]),
    ensures
        i < set_xml(e, path, replacement).children.len(),
        set_xml(e, path, replacement).children[i] == e.children[i],
        set_xml(e, path, replacement).name == e.name,
        set_xml(e, path, replacement).attributes == e.attributes,
{
}

/// Every element that a path of names leads to has the text.
pub open spec fn every_text(e: XmlView, path: Seq<Seq<char>>, value: Seq<char>) -> bool
    decreases path.len(),
{
    if path.len() == 0 {
        own_text(e.children) == value
    } else {
        forall|i: int|
            0 <= i < e.children.len() && (#[trigger] e.children[i]) is Element
                && e.children[i]->Element_0.name == path[0] ==> every_text(
                e.children[i]->Element_0,
                path.drop_first(),
                value,
            )
    }
}

/// A path of names leads to an element.
pub open spec fn leads_somewhere(e: XmlView, path: Seq<Seq<char>>) -> bool
    decreases path.len(),
{
    path.len() == 0 || exists|i: int|
        0 <= i < e.children.len() && (#[trigger] e.children[i]) is Element
            && e.children[i]->Element_0.name == path[0] && leads_somewhere(
            e.children[i]->Element_0,
            path.drop_first(),
        )
}

proof fn lemma_text_alone(children: Seq<XmlNodeView>, s: Seq<char>)
    ensures
        own_text(without_text(children)) == Seq::<char>::empty(),
        own_text(without_text(children).push(XmlNodeView::Text(s))) == s,
    decreases children.len(),
{
    if children.len() > 0 {
        let front = children.drop_last();
        lemma_text_alone(front, s);
        let kept = without_text(front);
        if !(children.last() is Text) && !(children.last() is CData) {
            assert(kept.push(children.last()).drop_last() =~= kept);
        }
    }
    let rest = without_text(children);
    assert(rest.push(XmlNodeView::Text(s)).drop_last() =~= rest);
    assert(Seq::<char>::empty() + s =~= s);
}

/// What is set in an XML file is found there: after a text that does not depend on the current one
/// was set at a path of names, the path leads to an element, and every element that it leads to has
/// that text and the name that the path ends in.
pub proof fn law_xml_texts_are_set(e: XmlView, path: Seq<Seq<char>>, replacement: JsonView)
    requires
        !(replacement is Object),
        attribute_of(scalar(replacement)) is None,
        forall|i: int| 0 <= i < path.len() ==> #[trigger] path[i] != "*"@,
    ensures
        leads_somewhere(set_xml(e, path, replacement), path),
        every_text(set_xml(e, path, replacement), path, scalar(replacement)),
        set_xml(e, path, replacement).name == e.name,
    decreases path.len(),
{
    let out = set_xml(e, path, replacement);
    if path.len() == 0 {
        lemma_text_alone(e.children, scalar(replacement));
    } else {
        let part = path[0];
        let rest = path.drop_first();
        assert(part != "*"@);
        assert forall|i: int| 0 <= i < rest.len() implies #[trigger] rest[i] != "*"@ by {
            assert(path[i + 1] != "*"@);
        }
        assert forall|i: int|
            0 <= i < out.children.len() && (#[trigger] out.children[i]) is Element
                && out.children[i]->Element_0.name == part implies every_text(
            out.children[i]->Element_0,
            rest,
            scalar(replacement),
        ) && leads_somewhere(out.children[i]->Element_0, rest) by {
            if any_meant(e.children, part) {
                let c = e.children[i];
                if is_meant(c, part) {
                    law_xml_texts_are_set(c->Element_0, rest, replacement);
                } else {
                    assert(out.children[i] == c);
                }
            } else if i < e.children.len() {
                assert(out.children[i] == e.children[i]);
                assert(is_meant(e.children[i], part));
            } else {
                law_xml_texts_are_set(bare(part), rest, replacement);
            }
        }
        if any_meant(e.children, part) {
            let j = choose|j: int|
                0 <= j < e.children.len() && is_meant(#[trigger] e.children[j], part);
            law_xml_texts_are_set(e.children[j]->Element_0, rest, replacement);
            assert(out.children[j] is Element);
            assert(out.children[j]->Element_0.name == part);
        } else {
            law_xml_texts_are_set(bare(part), rest, replacement);
            let j = e.children.len() as int;
            assert(out.children[j] is Element);
            assert(out.children[j]->Element_0.name == part);
        }
    }
}

/// A replacement of a name and a value in quotes, within brackets, sets that attribute of the element
/// and leaves its children and its other attributes; any other replaces the text and leaves the
/// attributes and the children that are no text, in their order.
pub proof fn law_attributes_are_set(
    e: XmlView,
    name: Seq<char>,
    value: Seq<char>,
    other: Seq<char>,
    plain: Seq<char>,
)
    requires
        !name.contains('='),
        other != name,
        plain.len() == 0 || plain[0] != '[',
    ensures
        ({
            let out = valued(e, JsonView::Text("["@ + name + "='"@ + value + "']"@));
            &&& out.attributes.contains_key(name) && out.attributes[name] == value
            &&& out.children == e.children && out.name == e.name
            &&& out.attributes.contains_key(other) == e.attributes.contains_key(other)
            &&& e.attributes.contains_key(other) ==> out.attributes[other] == e.attributes[other]
        }),
        ({
            let out = valued(e, JsonView::Text(plain));
            &&& out.attributes == e.attributes && out.name == e.name
            &&& out.children.last() == XmlNodeView::Text(plain)
            &&& out.children.drop_last() == e.children.filter(
                |c: XmlNodeView| !(c is Text) && !(c is CData),
            )
        }),
{
    reveal_strlit("[");
    reveal_strlit("]");
    reveal_strlit("'");
    reveal_strlit("='");
    reveal_strlit("']");
    let whole = "["@ + name + "='"@ + value + "']"@;
    let open = name + "='"@ + value + "']"@;
    let inner = name + "='"@ + value + "'"@;
    let quoted = "'"@ + value + "'"@;
    let started = value + "'"@;
    assert(whole =~= "["@ + open);
    assert(open =~= inner + "]"@);
    assert(inner =~= name.push('=') + quoted);
    assert(quoted =~= "'"@ + started);
    text::law_prefixes_and_suffixes("["@, open, whole);
    text::law_prefixes_and_suffixes("]"@, inner, open);
    text::law_prefixes_and_suffixes("'"@, started, quoted);
    text::law_prefixes_and_suffixes("'"@, value, started);
    let n = name.len() as int;
    assert forall|k: int| 0 <= k < n implies name[k] != '=' by {
        assert(name.contains(name[k]));
    }
    assert(inner[n] == '=');
    text::lemma_index_of_unique(inner, '=', n);
    assert(inner.take(n) =~= name);
    assert(inner.skip(n + 1) =~= quoted);
    assert(attribute_of(whole) == Some((name, value)));
    assert(text::without_prefix(plain, "["@) is None) by {
        if text::begins(plain, "["@) {
            assert(plain.subrange(0, 1)[0] == plain[0]);
        }
    }
    lemma_without_text(e.children);
    let out = valued(e, JsonView::Text(plain));
    assert(out.children.drop_last() =~= without_text(e.children));
}

proof fn lemma_without_text(children: Seq<XmlNodeView>)
    ensures
        without_text(children) == children.filter(|c: XmlNodeView| !(c is Text) && !(c is CData)),
    decreases children.len(),
{
    reveal(Seq::filter);
    if children.len() > 0 {
        lemma_without_text(children.drop_last());
    }
}

/// A path may begin with the name of the root or leave it out: either way it leads to the same
/// element. A star means every child element.
pub proof fn law_paths_may_name_the_root(
    root: XmlView,
    child: Seq<char>,
    replacement: JsonView,
    i: int,
)
    requires
        root.name.len() > 0,
        !root.name.contains('.'),
        child.len() > 0,
        !child.contains('.'),
        child != root.name,
    ensures
        root_set(root, child, replacement) == set_xml(root, seq![child], replacement),
        root_set(root, root.name + "."@ + child, replacement) == set_xml(
            root,
            seq![child],
            replacement,
        ),
        root_set(root, root.name, replacement) == valued(root, replacement),
        0 <= i < root.children.len() && root.children[i] is Element ==> set_xml(
            root,
            seq!["*"@],
            replacement,
        ).children[i] == XmlNodeView::Element(valued(root.children[i]->Element_0, replacement)),
{
    reveal_strlit(".");
    reveal_strlit("*");
    let name = root.name;
    assert forall|k: int| 0 <= k < name.len() implies name[k] != '.' by {
        assert(name.contains(name[k]));
    }
    assert forall|k: int| 0 <= k < child.len() implies child[k] != '.' by {
        assert(child.contains(child[k]));
    }
    text::lemma_index_of_unique(child, '.', child.len() as int);
    text::lemma_index_of_unique(name, '.', name.len() as int);
    assert(text::split_on(child, '.') =~= seq![child]);
    assert(text::split_on(name, '.') =~= seq![name]);
    let none = Seq::<Seq<char>>::empty();
    assert(seq![child].drop_last() =~= none);
    assert(seq![name].drop_last() =~= none);
    assert(path_parts(none) =~= none);
    assert(path_parts(seq![child]) =~= seq![child]);
    assert(path_parts(seq![name]) =~= seq![name]);
    assert(seq![name].skip(1) =~= none);
    let path = name + "."@ + child;
    assert(path[name.len() as int] == '.');
    text::lemma_index_of_unique(path, '.', name.len() as int);
    assert(path.take(name.len() as int) =~= name);
    assert(path.skip(name.len() as int + 1) =~= child);
    let both = seq![name, child];
    assert(text::split_on(path, '.') =~= both);
    assert(both.drop_last() =~= seq![name]);
    assert(path_parts(both) =~= both);
    assert(both.skip(1) =~= seq![child]);
    let star = seq!["*"@];
    assert(star.drop_first() =~= none);
    assert(star[0] == "*"@);
    if 0 <= i < root.children.len() && root.children[i] is Element {
        assert(is_meant(root.children[i], "*"@));
        assert(set_xml(root.children[i]->Element_0, none, replacement) == valued(
            root.children[i]->Element_0,
            replacement,
        ));
    }
}

/// The values are set one after the other, in the order in which they are given.
pub proof fn law_xml_values_follow_each_other(
    root: XmlView,
    first: Seq<(Seq<char>, JsonView)>,
    last: (Seq<char>, JsonView),
)
    ensures
        all_xml(root, first.push(last)) == root_set(all_xml(root, first), last.0, last.1),
        all_xml(root, Seq::empty()) == root,
{
    assert(first.push(last).drop_last() =~= first);
}

} // verus!
