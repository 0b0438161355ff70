use agapornis_agent::docker::ports::normalize_container_port;
use agapornis_agent::json::Json;
use agapornis_agent::table::{NameSet, Table};
use agapornis_agent::text;

#[test]
fn numbers_read_back() {
    for n in [0u64, 7, 10, 65535, u64::MAX] {
        assert_eq!(text::parse_number(&text::decimal_string(n), u64::MAX), Some(n));
    }
    assert_eq!(text::parse_number("+5", 10), Some(5));
    assert_eq!(text::parse_number("11", 10), None);
    assert_eq!(text::parse_number("", 10), None);
    assert_eq!(text::parse_number("1x", 10), None);
    assert_eq!(text::parse_signed("-9223372036854775808"), Some(i64::MIN));
    assert_eq!(text::parse_signed("9223372036854775808"), None);
    assert_eq!(text::signed_decimal_string(i64::MIN), "-9223372036854775808");
}

#[test]
fn ports_in_their_form_stand_for_themselves() {
    for port in ["1/tcp", "65535/udp", "25565/sctp"] {
        assert_eq!(normalize_container_port(port).unwrap(), port);
    }
}

#[test]
fn texts_are_taken_apart() {
    assert_eq!(text::words(" a\tb \u{a0}c\n"), ["a", "b", "c"]);
    assert_eq!(text::lines("a\r\nb\n\nc"), ["a", "b", "", "c"]);
    assert_eq!(text::split("a//b", '/'), ["a", "", "b"]);
    assert_eq!(text::split_once("a=b=c", '='), Some(("a".into(), "b=c".into())));
    assert_eq!(text::rsplit_once("a=b=c", '='), Some(("a=b".into(), "c".into())));
    assert_eq!(text::strip_prefix("exec a", "exec "), Some("a".into()));
    assert_eq!(text::strip_suffix("a.tar.gz", ".tar.gz"), Some("a".into()));
    assert_eq!(text::trim("\u{3000} a \u{85}"), "a");
    assert_eq!(text::replace("aaa", "aa", "b"), "ba");
    assert_eq!(text::to_lower("\u{c9}AZ"), "\u{c9}az");
    assert_eq!(text::fit("a\u{e9}b", 2), "a");
    assert_eq!(text::join(&["a".to_string(), "b".to_string()], "; "), "a; b");
    assert!(text::is_before("a", "ab") && text::is_before("Z", "a") && !text::is_before("a", "a"));
    assert_eq!(text::shorten("a\u{e9}b", 2), "a\u{e9}");
    assert_eq!(text::printable_prefix("a\u{7}b\u{85}c", 2), "ab");
}

#[test]
fn tables_hold_each_name_once() {
    let mut table = Table::new();
    table.insert("a".into(), 1);
    table.insert("b".into(), 2);
    table.insert("a".into(), 3);
    assert_eq!((table.len(), table.get("a"), table.get("c")), (2, Some(&3), None));
    assert_eq!(table.remove("a"), Some(3));
    assert!(!table.contains_key("a") && table.contains_key("b"));
    let mut names = NameSet::new();
    names.insert("x".into());
    names.insert("x".into());
    assert_eq!((names.len(), names.contains("x")), (1, true));
    names.remove("x");
    assert!(names.is_empty());
}

#[test]
fn documents_are_written_in_the_order_of_their_names() {
    let json = Json::Object(vec![
        ("b".into(), Json::Bool(true)),
        ("\u{e9}".into(), Json::Null),
        ("a".into(), Json::Null),
        ("b".into(), Json::Bool(false)),
    ]);
    assert_eq!(json.compact(), "{\"a\":null,\"b\":false,\"\u{e9}\":null}");
}
