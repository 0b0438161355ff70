use agapornis_agent::configuration::descriptor::{
    apply_config_file, choose_parser, descriptor_files, Parser,
};
use agapornis_agent::configuration::line::{
    apply_file_parser, apply_ini_parser, apply_properties_parser,
};
use agapornis_agent::configuration::structured::{
    apply_json_parser, apply_structured_replacements, apply_yaml_parser,
};
use agapornis_agent::configuration::values::{network_gateway, scalar_text};
use agapornis_agent::configuration::xml::apply_xml_parser;
use agapornis_agent::json::Json;

fn json(text: &str) -> Json {
    Json::parse(text.as_bytes()).unwrap()
}

fn replacements(text: &str) -> Vec<(String, Json)> {
    match json(text) {
        Json::Object(fields) => fields,
        _ => panic!("an object is wanted"),
    }
}

fn at<'a>(value: &'a Json, path: &[&str]) -> &'a Json {
    let mut current = value;
    for part in path {
        current = match part.parse::<usize>() {
            Ok(index) => current.item(index).unwrap(),
            Err(_) => current.field(part).unwrap(),
        };
    }
    current
}

#[test]
fn file_parser_matches_line_prefix_only() {
    let output = apply_file_parser(
        b"port=1\nother-port=1\n",
        &replacements(r#"{"port": "port=25565"}"#),
    );
    assert_eq!(String::from_utf8(output).unwrap(), "port=25565\nother-port=1\n");
}

#[test]
fn properties_and_ini_update_exact_keys() {
    let properties = apply_properties_parser(
        b"# generated\nserver-port = 1\nmotd=hello\n",
        &replacements(r#"{"server-port": "25565", "enable-query": "true"}"#),
    );
    assert_eq!(
        String::from_utf8(properties).unwrap(),
        "# generated\nserver-port=25565\nmotd=hello\nenable-query=true\n"
    );

    let ini = apply_ini_parser(
        b"root=yes\n[network]\nport=1\n",
        &replacements(r#"{"network.port": 25565, "network.host": "0.0.0.0"}"#),
    );
    let ini = String::from_utf8(ini).unwrap();
    assert!(ini.contains("[network]\nport=25565"));
    assert!(ini.contains("host=0.0.0.0"));
    assert_eq!(ini.matches("[network]").count(), 1);
}

#[test]
fn structured_paths_support_arrays_wildcards_and_value_maps() {
    let mut document = json(
        r#"{"listeners": [{"query_enabled": false, "query_port": 1}],
            "servers": {"lobby": {"address": "127.0.0.1"}, "game": {"address": "localhost"}}}"#,
    );
    apply_structured_replacements(
        &mut document,
        &replacements(
            r#"{"listeners[0].query_enabled": true,
                "listeners[0].query_port": "25565",
                "servers.*.address": {"127.0.0.1": "172.18.0.1", "localhost": "172.18.0.1"}}"#,
        ),
    );

    assert_eq!(at(&document, &["listeners", "0", "query_enabled"]), &json("true"));
    assert_eq!(at(&document, &["listeners", "0", "query_port"]), &json("25565"));
    assert_eq!(at(&document, &["servers", "lobby", "address"]), &json("\"172.18.0.1\""));
    assert_eq!(at(&document, &["servers", "game", "address"]), &json("\"172.18.0.1\""));
}

#[test]
fn json_yaml_and_xml_parsers_write_valid_documents() {
    let find = replacements(r#"{"listeners[0].port": "25565"}"#);
    let json_output = apply_json_parser(br#"{"listeners":[{"port":1}]}"#, &find).unwrap();
    let json_document = Json::parse(&json_output).unwrap();
    assert_eq!(at(&json_document, &["listeners", "0", "port"]), &json("25565"));

    let yaml_output = apply_yaml_parser(b"listeners:\n  - port: 1\n", &find).unwrap();
    let yaml_document = Json::parse_yaml(&yaml_output).unwrap();
    assert_eq!(at(&yaml_document, &["listeners", "0", "port"]), &json("25565"));

    let xml_output = apply_xml_parser(
        b"<configuration><server><port>1</port></server></configuration>",
        &replacements(
            r#"{"configuration.server.port": "25565",
                "configuration.server.bind": "[address='0.0.0.0']"}"#,
        ),
    )
    .unwrap();
    let xml = String::from_utf8(xml_output).unwrap();
    assert!(xml.contains("<port>25565</port>"));
    assert!(xml.contains(r#"<bind address="0.0.0.0" />"#));
}

#[test]
fn descriptor_applies_multiple_files() {
    let files = descriptor_files(
        r#"{"server.properties": {"parser": "properties", "find": {"server-port": "25565"}},
            "config.json": {"parser": "json", "find": {
                "Server.ListenPort": "25565",
                "Server.Host": "{{config.docker.interface}}"}}}"#,
        "172.18.0.1",
    )
    .unwrap();
    assert_eq!(files.len(), 2);
    for (name, config) in &files {
        if name == "server.properties" {
            let output = apply_config_file(14, b"server-port=1\n", config).unwrap().unwrap();
            assert_eq!(String::from_utf8(output).unwrap(), "server-port=25565\n");
        } else {
            assert_eq!(name, "config.json");
            let output = apply_config_file(27, br#"{"Server":{"ListenPort":1}}"#, config)
                .unwrap()
                .unwrap();
            let document = Json::parse(&output).unwrap();
            assert_eq!(at(&document, &["Server", "ListenPort"]), &json("25565"));
            assert_eq!(at(&document, &["Server", "Host"]), &json("\"172.18.0.1\""));
        }
    }
}

#[test]
fn parsers_are_chosen_by_name() {
    assert!(matches!(choose_parser("yaml").unwrap(), Parser::Yaml));
    assert!(matches!(choose_parser("file").unwrap(), Parser::File));
    assert!(choose_parser("toml").is_err());
}

#[test]
fn malformed_documents_are_refused() {
    let find = replacements(r#"{"a": "1"}"#);
    assert!(apply_json_parser(b"{", &find).is_err());
    assert!(apply_yaml_parser(b"a: [", &find).is_err());
    assert!(apply_xml_parser(b"<a>", &find).is_err());
    assert!(descriptor_files("[", "x").is_err());
}

#[test]
fn other_lines_and_fields_stay() {
    let output = apply_properties_parser(
        b"a=1\n# note\nb = 2\n",
        &replacements(r#"{"a": "3"}"#),
    );
    assert_eq!(String::from_utf8(output).unwrap(), "a=3\n# note\nb = 2\n");
    let output = apply_json_parser(br#"{"a":1,"b":{"c":[true,null]}}"#, &replacements(r#"{"a": "7"}"#));
    assert_eq!(
        Json::parse(&output.unwrap()).unwrap(),
        json(r#"{"a":7,"b":{"c":[true,null]}}"#)
    );
}

#[test]
fn values_are_written_as_text() {
    assert_eq!(scalar_text(&json("\"a b\"")), "a b");
    assert_eq!(scalar_text(&json("1.5")), "1.5");
    assert_eq!(scalar_text(&json("true")), "true");
    assert_eq!(scalar_text(&json("null")), "");
    assert_eq!(scalar_text(&json("[1,2]")), "[1,2]");
}

#[test]
fn the_gateway_of_a_network_is_found() {
    let network = json(r#"{"IPAM": {"Config": [{"Gateway": "172.18.0.1"}]}}"#);
    assert_eq!(network_gateway(&network).unwrap(), "172.18.0.1");
    assert!(network_gateway(&json("{}")).is_none());
}

#[test]
fn documents_are_written_as_they_are_read() {
    let document = json("{\"a\":[1,true,null],\"b\":\"x\"}");
    assert_eq!(document.compact(), "{\"a\":[1,true,null],\"b\":\"x\"}");
    assert_eq!(
        String::from_utf8(document.pretty().unwrap()).unwrap(),
        "{\n  \"a\": [\n    1,\n    true,\n    null\n  ],\n  \"b\": \"x\"\n}"
    );
    assert_eq!(document.yaml().unwrap(), "a:\n- 1\n- true\n- null\nb: x\n");
    assert_eq!(Json::parse_yaml(b"a: [1, true, null]\nb: x\n").unwrap().compact(), document.compact());
    assert!(Json::parse(b"{").is_none());
    assert_eq!(Json::from_float("1.50").unwrap().compact(), "1.5");
    assert_eq!(Json::from_float("2e3").unwrap().compact(), "2000.0");
    assert!(Json::from_float("x").is_none());
    assert!(Json::from_float("inf").is_none());
}
