//! Reading a configuration descriptor, and editing one file as it says.

use crate::configuration::line::{
    apply_file_parser, apply_ini_parser, apply_properties_parser, file_edits, file_text, finished,
    ini_edits, properties_edits,
};
use crate::configuration::structured::{apply_json_parser, apply_yaml_parser, all_set};
use crate::configuration::values::{filled, resolve_daemon_placeholders};
use crate::configuration::xml::{apply_xml_parser, xml_edited, xml_text};
use crate::error::Failure;
use crate::json::{
    exported, field_of, fields_view, json_pretty, json_text, lemma_json_view, text_of, yaml_form,
    yaml_text, Json, JsonView,
};
use crate::text;
use vstd::prelude::*;

verus! {

/// The largest configuration file that is edited, in bytes.
pub const MAX_CONFIG_FILE_SIZE: u64 = 8_388_608;

/// The descriptor says nothing.
pub open spec fn is_empty_descriptor(descriptor: Seq<char>) -> bool {
    text::is_blank(descriptor) || text::trimmed(descriptor) == "{}"@
}

/// Whether a descriptor says anything.
pub fn says_something(descriptor: &str) -> (r: bool)
    ensures
        r == !is_empty_descriptor(descriptor@),
{
    let trimmed = text::trim(descriptor);
    !(text::blank(descriptor) || text::same(trimmed.as_str(), "{}"))
}

/// The files that a descriptor names, each with what is to be done to it, in the order of the
/// descriptor and with the Docker interface filled in.
pub fn descriptor_files(descriptor: &str, docker_interface: &str) -> (r: Result<
    Vec<(String, Json)>,
    Failure,
>)
    ensures
        ({
            let document = json_text(vstd::utf8::encode_utf8(descriptor@));
            let after = filled(document->0, docker_interface@);
            if is_empty_descriptor(descriptor@) {
                r is Ok && r->Ok_0@.len() == 0
            } else {
                &&& r is Ok <==> document is Some && after is Object
                &&& r is Ok ==> fields_view(r->Ok_0@) == after->Object_0
                &&& document is None ==> r->Err_0.message@
                    == "parse configuration-files descriptor"@
                &&& document is Some && !(after is Object) ==> r->Err_0.message@
                    == "configuration-files descriptor must be an object"@
            }
        }),
{
    broadcast use lemma_json_view;
    if !says_something(descriptor) {
        return Ok(Vec::new());
    }
    match Json::parse(text::bytes_of(descriptor).as_slice()) {
        Some(document) => {
            let mut document = document;
            resolve_daemon_placeholders(&mut document, docker_interface);
            match document {
                Json::Object(fields) => Ok(fields),
                _ => Err(Failure::new("configuration-files descriptor must be an object")),
            }
        },
        None => Err(Failure::new("parse configuration-files descriptor")),
    }
}

/// The parsers for configuration files.
#[derive(Clone, Copy, PartialEq, Eq, Structural)]
pub enum Parser {
    File,
    Properties,
    Ini,
    Json,
    Yaml,
    Xml,
}

/// The parser with the given name, in any case.
pub open spec fn parser_named(name: Seq<char>) -> Option<Parser> {
    let n = text::lowered(name);
    if n == "file"@ {
        Some(Parser::File)
    } else if n == "properties"@ {
        Some(Parser::Properties)
    } else if n == "ini"@ {
        Some(Parser::Ini)
    } else if n == "json"@ {
        Some(Parser::Json)
    } else if n == "yaml"@ || n == "yml"@ {
        Some(Parser::Yaml)
    } else if n == "xml"@ {
        Some(Parser::Xml)
    } else {
        None
    }
}

/// Why a parser name is refused.
pub open spec fn parser_refusal(name: Seq<char>) -> Seq<char> {
    if name.len() == 0 {
        "configuration parser is required"@
    } else {
        "unsupported configuration parser '"@ + text::lowered(name) + "'"@
    }
}

/// The parser with the given name, in any case.
pub fn choose_parser(name: &str) -> (r: Result<Parser, Failure>)
    ensures
        r is Ok <==> parser_named(name@) is Some,
        r is Ok ==> Some(r->Ok_0) == parser_named(name@),
        r is Err ==> r->Err_0.message@ == parser_refusal(name@),
{
    let lower = text::to_lower(name);
    let n = lower.as_str();
    if text::same(n, "file") {
        Ok(Parser::File)
    } else if text::same(n, "properties") {
        Ok(Parser::Properties)
    } else if text::same(n, "ini") {
        Ok(Parser::Ini)
    } else if text::same(n, "json") {
        Ok(Parser::Json)
    } else if text::same(n, "yaml") || text::same(n, "yml") {
        Ok(Parser::Yaml)
    } else if text::same(n, "xml") {
        Ok(Parser::Xml)
    } else if text::is_empty(name) {
        Err(Failure::new("configuration parser is required"))
    } else {
        Err(
            Failure {
                message: text::concat3("unsupported configuration parser '", n, "'"),
            },
        )
    }
}

/// The name of the parser that a file's description asks for.
pub open spec fn parser_name(config: JsonView) -> Seq<char> {
    match text_of(field_of(config, "parser"@)) {
        Some(s) => s,
        None => Seq::empty(),
    }
}

/// A file of the given bytes after the edits `find` by the given parser; `None` where the parser
/// cannot read or write it.
pub open spec fn edited(parser: Parser, bytes: Seq<u8>, find: Seq<(Seq<char>, JsonView)>) -> Option<
    Seq<u8>,
> {
    let lines = text::lines_of(file_text(bytes));
    let trailing = text::ends(file_text(bytes), "\n"@);
    match parser {
        Parser::File => Some(finished(file_edits(lines, find), trailing)),
        Parser::Properties => Some(finished(properties_edits(lines, find), trailing)),
        Parser::Ini => Some(finished(ini_edits(lines, find), trailing)),
        Parser::Json => match json_text(bytes) {
            Some(document) => json_pretty(exported(all_set(document, find))),
            None => None,
        },
        Parser::Yaml => match yaml_text(bytes) {
            Some(document) => match yaml_form(exported(all_set(document, find))) {
                Some(s) => Some(vstd::utf8::encode_utf8(s)),
                None => None,
            },
            None => None,
        },
        Parser::Xml => xml_edited(bytes, find),
    }
}

/// Why a file cannot be edited, where it cannot: it does not read as what it should be, or what it
/// becomes cannot be written.
pub open spec fn edit_refusal(parser: Parser, bytes: Seq<u8>) -> Seq<char> {
    match parser {
        Parser::Json => if json_text(bytes) is None {
            "parse JSON configuration"@
        } else {
            "write JSON configuration"@
        },
        Parser::Yaml => if yaml_text(bytes) is None {
            "parse YAML configuration"@
        } else {
            "write YAML configuration"@
        },
        _ => if xml_text(bytes) is None {
            "parse XML configuration"@
        } else {
            "write XML configuration"@
        },
    }
}

/// The bytes that a configuration file gets, or none where its description asks for no change. A
/// file that is too large is refused, and so is a parser that is not known.
pub fn apply_config_file(size: u64, bytes: &[u8], config: &Json) -> (r: Result<
    Option<Vec<u8>>,
    Failure,
>)
    ensures
        ({
            let find = field_of(config@, "find"@);
            let parser = parser_named(parser_name(config@));
            if size > MAX_CONFIG_FILE_SIZE {
                &&& r is Err
                &&& r->Err_0.message@ == "configuration file is "@ + text::decimal(size as nat)
                    + " bytes; maximum is "@ + text::decimal(MAX_CONFIG_FILE_SIZE as nat)
                    + " bytes"@
            } else if !(find is Some && find->0 is Object) {
                r is Ok && r->Ok_0 is None
            } else if parser is None {
                r is Err && r->Err_0.message@ == parser_refusal(parser_name(config@))
            } else {
                let after = edited(parser->0, bytes@, find->0->Object_0);
                &&& r is Ok <==> after is Some
                &&& r is Ok ==> r->Ok_0 is Some && Some(r->Ok_0->0@) == after
                &&& r is Err ==> r->Err_0.message@ == edit_refusal(parser->0, bytes@)
            }
        }),
{
    broadcast use lemma_json_view;
    if size > MAX_CONFIG_FILE_SIZE {
        let shown = text::decimal_string(size);
        let limit = text::decimal_string(MAX_CONFIG_FILE_SIZE);
        return Err(
            Failure {
                message: text::concat5(
                    "configuration file is ",
                    shown.as_str(),
                    " bytes; maximum is ",
                    limit.as_str(),
                    " bytes",
                ),
            },
        );
    }
    let name = match config.field("parser") {
        Some(Json::Text(s)) => s.as_str().to_owned(),
        _ => {
            let none = String::new();
            assert(none@ =~= Seq::<char>::empty());
            none
        },
    };
    assert(name@ == parser_name(config@));
    let find = match config.field("find") {
        Some(Json::Object(find)) => find,
        _ => {
            return Ok(None);
        },
    };
    let parser = match choose_parser(name.as_str()) {
        Ok(parser) => parser,
        Err(e) => {
            return Err(e);
        },
    };
    match parser {
        Parser::File => Ok(Some(apply_file_parser(bytes, find))),
        Parser::Properties => Ok(Some(apply_properties_parser(bytes, find))),
        Parser::Ini => Ok(Some(apply_ini_parser(bytes, find))),
        Parser::Json => match apply_json_parser(bytes, find) {
            Ok(out) => Ok(Some(out)),
            Err(e) => Err(e),
        },
        Parser::Yaml => match apply_yaml_parser(bytes, find) {
            Ok(out) => Ok(Some(out)),
            Err(e) => Err(e),
        },
        Parser::Xml => match apply_xml_parser(bytes, find) {
            Ok(out) => Ok(Some(out)),
            Err(e) => Err(e),
        },
    }
}

// ---------------------------------------------------------------------------------------------
// Laws.

/// A parser is chosen by its name, in capital letters or in small ones; each has its own, and a name
/// that belongs to none is refused.
pub proof fn law_parsers_are_chosen_by_name(name: Seq<char>)
    ensures
        parser_named(name) == parser_named(text::lowered(name)),
        parser_named("file"@) == Some(Parser::File),
        parser_named("properties"@) == Some(Parser::Properties),
        parser_named("ini"@) == Some(Parser::Ini),
        parser_named("json"@) == Some(Parser::Json),
        parser_named("yaml"@) == Some(Parser::Yaml),
        parser_named("yml"@) == Some(Parser::Yaml),
        parser_named("xml"@) == Some(Parser::Xml),
        parser_named(name) is Some ==> {
            let n = text::lowered(name);
            n == "file"@ || n == "properties"@ || n == "ini"@ || n == "json"@ || n == "yaml"@ || n
                == "yml"@ || n == "xml"@
        },
{
    reveal_strlit("file");
    reveal_strlit("properties");
    reveal_strlit("ini");
    reveal_strlit("json");
    reveal_strlit("yaml");
    reveal_strlit("yml");
    reveal_strlit("xml");
    if name.len() > 0 {
        text::law_only_letters_become_small(name, 0);
    } else {
        assert(text::lowered(text::lowered(name)) =~= text::lowered(name));
    }
    assert(text::lowered("file"@) =~= "file"@);
    assert(text::lowered("properties"@) =~= "properties"@);
    assert(text::lowered("ini"@) =~= "ini"@);
    assert(text::lowered("json"@) =~= "json"@);
    assert(text::lowered("yaml"@) =~= "yaml"@);
    assert(text::lowered("yml"@) =~= "yml"@);
    assert(text::lowered("xml"@) =~= "xml"@);
    assert("ini"@[0] == 'i' && "yml"@[0] == 'y' && "xml"@[0] == 'x');
    assert("file"@[0] == 'f' && "json"@[0] == 'j' && "yaml"@[0] == 'y');
}

/// Each parser edits a file in its own way: one value is set as that kind of file has it. A file of
/// lines can always be edited; any other exactly where it reads as what it is, and what it becomes
/// can be written.
pub proof fn law_files_are_edited_by_their_parser(
    bytes: Seq<u8>,
    key: Seq<char>,
    value: JsonView,
    find: Seq<(Seq<char>, JsonView)>,
)
    ensures
        ({
            let lines = text::lines_of(file_text(bytes));
            let trailing = text::ends(file_text(bytes), "\n"@);
            let one = seq![(key, value)];
            &&& edited(Parser::Properties, bytes, one) == Some(
                finished(
                    crate::configuration::line::properties_edit(lines, key, value),
                    trailing,
                ),
            )
            &&& edited(Parser::Ini, bytes, one) == Some(
                finished(crate::configuration::line::ini_edit(lines, key, value), trailing),
            )
            &&& edited(Parser::File, bytes, one) == Some(
                finished(
                    crate::configuration::line::file_edit(
                        lines,
                        key,
                        crate::configuration::values::scalar(value),
                    ),
                    trailing,
                ),
            )
        }),
        edited(Parser::Properties, bytes, find) is Some,
        edited(Parser::Ini, bytes, find) is Some,
        edited(Parser::File, bytes, find) is Some,
        json_text(bytes) is None ==> edited(Parser::Json, bytes, find) is None,
        yaml_text(bytes) is None ==> edited(Parser::Yaml, bytes, find) is None,
        xml_text(bytes) is None ==> edited(Parser::Xml, bytes, find) is None,
        json_text(bytes) is Some ==> edited(Parser::Json, bytes, find) == json_pretty(
            exported(all_set(json_text(bytes)->0, find)),
        ),
{
    let lines = text::lines_of(file_text(bytes));
    let one = seq![(key, value)];
    crate::configuration::line::law_edits_follow_each_other(lines, one, Seq::empty());
}

/// A descriptor that is blank or an empty object names no files; any other says something.
pub proof fn law_empty_descriptors_say_nothing(s: Seq<char>)
    requires
        text::trimmed(s) == s,
    ensures
        is_empty_descriptor(s) <==> s.len() == 0 || s == "{}"@,
        is_empty_descriptor(" "@ + s + "\n"@) == is_empty_descriptor(s),
{
    reveal_strlit(" ");
    reveal_strlit("\n");
    reveal_strlit("{}");
    let t = " "@ + s + "\n"@;
    text::lemma_trimmed_ends(s);
    assert(text::trimmed(t) == s) by {
        let inner = s + "\n"@;
        assert(t.drop_first() =~= inner);
        assert(inner.drop_last() =~= s);
        if s.len() > 0 {
            assert(inner[0] == s[0]);
            assert(t[0] == ' ');
            assert(text::left_trimmed(inner) == inner);
            assert(text::left_trimmed(t) == text::left_trimmed(t.drop_first()));
            assert(text::right_trimmed(inner) == text::right_trimmed(s));
        } else {
            assert(inner =~= seq!['\n']);
            assert(inner.drop_first() =~= Seq::<char>::empty());
            assert(text::left_trimmed(inner) == text::left_trimmed(inner.drop_first()));
            assert(text::left_trimmed(t) == text::left_trimmed(inner));
            assert(text::left_trimmed(inner).len() == 0);
            assert(s =~= Seq::<char>::empty());
            assert(text::trimmed(t) =~= s);
        }
    }
}

} // verus!
