use agapornis_agent::console::decoder::{ConsoleOutputDecoder, LineBuffer, OutputStream};
use agapornis_agent::console::history::{
    entry_charge, ConsoleEntry, HistoryCache, CONSOLE_HISTORY_BYTES,
};
use agapornis_agent::console::lifecycle::{
    configured_max_active_readers, configured_reader_idle, ConsoleHub, ReaderChange, Retirement,
};
use agapornis_agent::console::reader::{split_docker_timestamp, ReaderLoop, ReaderStep};
use agapornis_agent::protection::ProtectionState;

fn memory_hub() -> ConsoleHub {
    ConsoleHub::with_optional_docker(
        false,
        ProtectionState::configured(None, None, None, None),
        None,
        None,
    )
}

fn desired(hub: &ConsoleHub) -> Vec<String> {
    let mut names = hub.lifecycle.desired.names();
    names.sort();
    names
}

fn names(list: &[&str]) -> Vec<String> {
    list.iter().map(|s| s.to_string()).collect()
}

#[test]
fn console_startup_inventory_is_authoritative_and_deduplicated() {
    let mut hub = memory_hub();
    let first = hub.synchronize_servers(names(&["one", "two", "two"])).unwrap();
    assert_eq!(first.accepted_count, 2);
    assert_eq!(first.removed_count, 0);
    assert!(hub.inventory_initialized());
    assert_eq!(desired(&hub), names(&["one", "two"]));
}

#[test]
fn tests_startup_inventory_is_authoritative_and_deduplicated() {
    let mut hub = memory_hub();
    let first = hub.synchronize_servers(names(&["one", "two", "two"])).unwrap();
    assert_eq!(first.accepted_count, 2);
    assert_eq!(first.active_reader_count, 0);
    assert!(hub.inventory_initialized());
    assert_eq!(desired(&hub), names(&["one", "two"]));
}

#[test]
fn large_inventory_allocates_no_reader_or_history_state() {
    let mut hub = memory_hub();
    let servers = (0..10_000).map(|index| format!("server-{index}")).collect::<Vec<_>>();
    let result = hub.synchronize_servers(servers).unwrap();

    assert_eq!(result.accepted_count, 10_000);
    assert_eq!(result.active_reader_count, 0);
    assert_eq!(hub.lifecycle.readers.len(), 0);
    assert_eq!(hub.channels.len(), 0);
    assert!(hub.history.is_empty());
}

#[test]
fn console_delayed_startup_snapshot_keeps_a_concurrent_create() {
    let mut hub = memory_hub();
    hub.track_server("created-after-read").unwrap();

    let result = hub.synchronize_servers(names(&["existing"])).unwrap();
    assert_eq!(result.accepted_count, 2);
    assert_eq!(desired(&hub), names(&["created-after-read", "existing"]));
}

#[test]
fn tests_delayed_startup_snapshot_keeps_a_concurrent_create() {
    let mut hub = memory_hub();
    hub.track_server("created-after-read").unwrap();
    let result = hub.synchronize_servers(names(&["existing"])).unwrap();
    assert_eq!(result.accepted_count, 2);
    assert_eq!(desired(&hub), names(&["created-after-read", "existing"]));
}

#[test]
fn console_delayed_startup_snapshot_cannot_resurrect_a_concurrent_delete() {
    let mut hub = memory_hub();
    hub.remove("deleted-after-read");

    let result = hub.synchronize_servers(names(&["kept", "deleted-after-read"])).unwrap();
    assert_eq!(result.accepted_count, 1);
    assert_eq!(desired(&hub), names(&["kept"]));
}

#[test]
fn tests_delayed_startup_snapshot_cannot_resurrect_a_concurrent_delete() {
    let mut hub = memory_hub();
    hub.remove("deleted-after-read");
    let result = hub.synchronize_servers(names(&["kept", "deleted-after-read"])).unwrap();
    assert_eq!(result.accepted_count, 1);
    assert_eq!(desired(&hub), names(&["kept"]));
}

#[test]
fn console_delete_then_same_id_create_wins_over_startup_snapshot() {
    let mut hub = memory_hub();
    hub.remove("server");
    hub.track_server("server").unwrap();

    hub.synchronize_servers(Vec::new()).unwrap();
    assert_eq!(desired(&hub), names(&["server"]));
}

#[test]
fn tests_delete_then_same_id_create_wins_over_startup_snapshot() {
    let mut hub = memory_hub();
    hub.remove("server");
    hub.track_server("server").unwrap();
    hub.synchronize_servers(Vec::new()).unwrap();
    assert!(hub.lifecycle.desired.contains("server"));
}

#[test]
fn console_create_then_delete_wins_over_startup_snapshot() {
    let mut hub = memory_hub();
    hub.track_server("server").unwrap();
    hub.remove("server");

    hub.synchronize_servers(names(&["server"])).unwrap();
    assert!(!hub.lifecycle.desired.contains("server"));
}

#[test]
fn tests_create_then_delete_wins_over_startup_snapshot() {
    let mut hub = memory_hub();
    hub.track_server("server").unwrap();
    hub.remove("server");
    hub.synchronize_servers(names(&["server"])).unwrap();
    assert!(!hub.lifecycle.desired.contains("server"));
}

#[test]
fn duplicate_startup_inventory_is_a_noop_after_direct_mutation() {
    let mut hub = memory_hub();
    hub.synchronize_servers(names(&["existing"])).unwrap();
    hub.track_server("created-later").unwrap();

    let duplicate = hub.synchronize_servers(Vec::new()).unwrap();
    assert_eq!(duplicate.removed_count, 0);
    assert_eq!(duplicate.accepted_count, 2);
    assert_eq!(desired(&hub), names(&["created-later", "existing"]));
}

#[test]
fn duplicate_inventory_is_a_noop_after_direct_mutation() {
    let mut hub = memory_hub();
    hub.synchronize_servers(names(&["existing"])).unwrap();
    hub.track_server("created-later").unwrap();
    let duplicate = hub.synchronize_servers(Vec::new()).unwrap();
    assert_eq!(duplicate.removed_count, 0);
    assert_eq!(duplicate.accepted_count, 2);
}

#[test]
fn malformed_first_inventory_does_not_initialize_or_discard_deltas() {
    let mut hub = memory_hub();
    hub.track_server("created-during-bootstrap").unwrap();

    assert!(hub.synchronize_servers(names(&["../invalid"])).is_err());
    assert!(!hub.inventory_initialized());

    hub.synchronize_servers(names(&["valid-server"])).unwrap();
    assert_eq!(desired(&hub), names(&["created-during-bootstrap", "valid-server"]));
}

#[test]
fn malformed_inventory_does_not_initialize_or_discard_deltas() {
    let mut hub = memory_hub();
    hub.track_server("created-during-bootstrap").unwrap();
    assert!(hub.synchronize_servers(names(&["../invalid"])).is_err());
    assert!(!hub.inventory_initialized());
    hub.synchronize_servers(names(&["valid-server"])).unwrap();
    assert_eq!(hub.lifecycle.desired.len(), 2);
}

#[test]
fn subscription_cannot_resurrect_a_server_removed_by_inventory() {
    let mut hub = memory_hub();
    hub.synchronize_servers(Vec::new()).unwrap();

    assert!(hub.attach_requires_inspection("server").is_err());
    assert!(hub.subscribe("server", 1, 1).is_err());
    assert!(!hub.lifecycle.desired.contains("server"));
}

#[test]
fn subscription_cannot_resurrect_a_removed_server() {
    let mut hub = memory_hub();
    hub.synchronize_servers(Vec::new()).unwrap();
    assert!(hub.attach_requires_inspection("server").is_err());
    assert!(hub.subscribe("server", 1, 1).is_err());
    assert!(!hub.lifecycle.desired.contains("server"));
}

#[test]
fn console_pre_bootstrap_subscription_cannot_override_delete_tombstone() {
    let mut hub = memory_hub();
    hub.remove("server");

    assert!(hub.attach_requires_inspection("server").is_err());
    assert!(hub.subscribe("server", 1, 1).is_err());
    hub.publish("server", "late supervisor message".into(), 0);
    assert!(!hub.history.contains_key("server"));
    hub.synchronize_servers(names(&["server"])).unwrap();
    assert!(!hub.lifecycle.desired.contains("server"));
}

#[test]
fn tests_pre_bootstrap_subscription_cannot_override_delete_tombstone() {
    let mut hub = memory_hub();
    hub.remove("server");
    assert!(hub.subscribe("server", 1, 1).is_err());
    hub.publish("server", "late supervisor message".into(), 0);
    assert!(!hub.history.contains_key("server"));
    hub.synchronize_servers(names(&["server"])).unwrap();
    assert!(!hub.lifecycle.desired.contains("server"));
}

#[test]
fn tracked_console_attach_does_not_require_docker_inspection() {
    let mut hub = memory_hub();
    hub.track_server("server").unwrap();

    assert!(!hub.attach_requires_inspection("server").unwrap());

    hub.synchronize_servers(names(&["inventory-server"])).unwrap();
    assert!(!hub.attach_requires_inspection("inventory-server").unwrap());
}

#[test]
fn tracked_attach_skips_redundant_docker_inspection() {
    let mut hub = memory_hub();
    hub.track_server("server").unwrap();
    assert!(!hub.attach_requires_inspection("server").unwrap());
    hub.synchronize_servers(names(&["inventory-server"])).unwrap();
    assert!(!hub.attach_requires_inspection("inventory-server").unwrap());
}

#[test]
fn warm_attach_eligibility_does_not_bypass_a_later_delete() {
    let mut hub = memory_hub();
    hub.synchronize_servers(names(&["server"])).unwrap();

    assert!(!hub.attach_requires_inspection("server").unwrap());
    hub.remove("server");

    assert!(hub.subscribe("server", 1, 1).is_err());
    assert!(!hub.lifecycle.desired.contains("server"));
}

#[test]
fn later_delete_revokes_warm_attach_eligibility() {
    let mut hub = memory_hub();
    hub.synchronize_servers(names(&["server"])).unwrap();
    hub.remove("server");
    assert!(hub.subscribe("server", 1, 1).is_err());
}

#[test]
fn recreated_same_id_is_warm_and_can_subscribe() {
    let mut hub = memory_hub();
    hub.synchronize_servers(names(&["server"])).unwrap();
    hub.publish("server", "old generation".into(), 0);
    let old = hub.subscribe("server", 1, 1).unwrap();
    assert_eq!(old.history, ["old generation"]);

    hub.remove("server");
    hub.track_server("server").unwrap();

    assert!(!hub.attach_requires_inspection("server").unwrap());
    let new = hub.subscribe("server", 2, 2).unwrap();
    assert!(new.history.is_empty());

    let delivery = hub.publish("server", "new generation".into(), 0).unwrap();
    assert_eq!(delivery.entry.line, "new generation");
    assert_eq!(delivery.channel, Some(new.channel));
    assert_ne!(old.channel, new.channel);
}

#[test]
fn recreated_same_id_has_fresh_history_and_channel() {
    let mut hub = memory_hub();
    hub.synchronize_servers(names(&["server"])).unwrap();
    hub.publish("server", "old generation".into(), 0);
    let old = hub.subscribe("server", 1, 1).unwrap();
    assert_eq!(old.history, ["old generation"]);

    hub.remove("server");
    hub.track_server("server").unwrap();
    let new = hub.subscribe("server", 2, 2).unwrap();
    assert!(new.history.is_empty());
    let delivery = hub.publish("server", "new generation".into(), 0).unwrap();
    assert_eq!(delivery.entry.line, "new generation");
    assert_eq!(delivery.channel, Some(2));
    assert_eq!(old.channel, 1);
}

#[test]
fn unknown_pre_bootstrap_inspection_check_does_not_allocate_state() {
    let hub = memory_hub();

    assert!(hub.attach_requires_inspection("not-yet-in-inventory").unwrap());
    assert!(hub.lifecycle.desired.is_empty());
    assert_eq!(hub.lifecycle.readers.len(), 0);
    assert!(hub.history.is_empty());
}

#[test]
fn unknown_inspection_check_allocates_no_state() {
    let hub = memory_hub();
    assert!(hub.attach_requires_inspection("not-yet-in-inventory").unwrap());
    assert!(hub.lifecycle.desired.is_empty());
    assert!(hub.history.is_empty());
}

#[test]
fn inactive_reader_cannot_publish_into_recreated_server_state() {
    let mut hub = memory_hub();
    hub.synchronize_servers(names(&["server"])).unwrap();
    hub.subscribe("server", 1, 1).unwrap();
    let stale_reader = 99;

    let (published, delivery) =
        hub.publish_line_when_active("server", "stale".into(), stale_reader, 0);
    assert!(!published);
    assert!(hub.history.get("server").is_none());
    assert!(delivery.is_none());
}

#[test]
fn inactive_reader_cannot_publish_into_recreated_state() {
    let mut hub = memory_hub();
    hub.synchronize_servers(names(&["server"])).unwrap();
    hub.subscribe("server", 1, 1).unwrap();
    let stale_reader = 99;
    let (published, delivery) =
        hub.publish_line_when_active("server", "stale".into(), stale_reader, 0);
    assert!(!published);
    assert!(!hub.history.contains_key("server"));
    assert!(delivery.is_none());
}

#[test]
fn console_history_is_bounded_to_64_kib_per_server() {
    let mut hub = memory_hub();
    hub.synchronize_servers(names(&["server"])).unwrap();

    for index in 0..5 {
        hub.publish("server", format!("{index}:{}", "x".repeat(15_998)), 0);
    }

    let history = hub.history.get("server").unwrap();
    assert!(history.content_bytes <= CONSOLE_HISTORY_BYTES);
    assert_eq!(history.lines.len(), 4);
    assert!(history.lines.front().unwrap().line.starts_with("1:"));
}

#[test]
fn history_is_bounded_per_server() {
    let mut hub = memory_hub();
    hub.synchronize_servers(names(&["server"])).unwrap();
    for index in 0..5 {
        hub.publish("server", format!("{index}:{}", "x".repeat(15_998)), 0);
    }
    let history = hub.history.get("server").unwrap();
    assert!(history.content_bytes <= CONSOLE_HISTORY_BYTES);
    assert_eq!(history.lines.len(), 4);
    assert!(history.lines.front().unwrap().line.starts_with("1:"));
}

#[test]
fn global_history_budget_evicts_whole_idle_servers() {
    let maximum = 128 * 1024;
    let mut cache = HistoryCache::with_maximum(maximum);
    for server in 0..100 {
        for line in 0..4 {
            cache.push(
                &format!("server-{server}"),
                format!("{line}:{}", "x".repeat(15_000)),
            );
        }
    }
    assert!(cache.charged_bytes() <= maximum);
    assert!(cache.len() < 100);
    assert!(cache.contains_key("server-99"));
}

#[test]
fn console_decoder_handles_fragmented_crlf_and_bounds_large_lines() {
    let mut decoder = LineBuffer::default();
    assert!(decoder.push(b"first\r", 8).eq(&["first"]));
    assert!(decoder.push(b"\nsecond\rthird\n", 8).eq(&["second", "third"]));
    assert!(decoder.push(b"0123456789\n", 4)[0].ends_with("[truncated]"));
}

#[test]
fn tests_decoder_handles_fragmented_crlf_and_bounds_large_lines() {
    let mut decoder = LineBuffer::default();
    assert!(decoder.push(b"first\r", 8).eq(&["first"]));
    assert!(decoder.push(b"\nsecond\rthird\n", 8).eq(&["second", "third"]));
    assert!(decoder.push(b"0123456789\n", 4)[0].ends_with("[truncated]"));
}

#[test]
fn console_docker_timestamp_is_removed_and_preserved_as_a_cursor() {
    let (timestamp, line) =
        split_docker_timestamp("2026-07-20T04:12:13.123456789Z server ready".to_owned());
    assert_eq!(line, "server ready");
    assert_eq!(timestamp.unwrap().timestamp(), 1_784_520_733);

    let original = "not-a-timestamp server ready".to_owned();
    let (none, line) = split_docker_timestamp(original.clone());
    assert!(none.is_none());
    assert_eq!(line, original);
}

#[test]
fn tests_docker_timestamp_is_removed_and_preserved_as_a_cursor() {
    let (timestamp, line) =
        split_docker_timestamp("2026-07-20T04:12:13.123456789Z server ready".to_owned());
    assert_eq!(line, "server ready");
    assert_eq!(timestamp.unwrap().timestamp(), 1_784_520_733);
    let original = "not-a-timestamp server ready".to_owned();
    let (none, line) = split_docker_timestamp(original.clone());
    assert!(none.is_none());
    assert_eq!(line, original);
}

#[test]
fn decoding_does_not_depend_on_how_output_is_cut() {
    let output = b"one\r\ntwo\rthree\nfour";
    let mut whole = LineBuffer::default();
    let mut expected = whole.push(output, 100);
    expected.extend(whole.finish());
    for cut in 0..output.len() {
        let mut parts = LineBuffer::default();
        let mut lines = parts.push(&output[..cut], 100);
        lines.extend(parts.push(&output[cut..], 100));
        lines.extend(parts.finish());
        assert_eq!(lines, expected);
    }
    assert_eq!(expected, ["one", "two", "three", "four"]);
}

#[test]
fn invalid_utf8_is_shown_with_replacements() {
    let mut decoder = LineBuffer::default();
    assert_eq!(decoder.push(b"a\xffb\n", 100), ["a\u{fffd}b"]);
}

#[test]
fn streams_are_decoded_apart() {
    let mut decoder = ConsoleOutputDecoder::default();
    assert!(decoder.push(OutputStream::StdOut, b"out", 100).is_empty());
    assert_eq!(decoder.push(OutputStream::StdErr, b"err\n", 100), ["err"]);
    assert_eq!(decoder.push(OutputStream::StdOut, b"put\n", 100), ["output"]);
}

#[test]
fn a_line_is_followed_once_over_a_reconnect() {
    let mut reader = ReaderLoop::new(1000);
    assert!(matches!(reader.begin(true, false), ReaderStep::Follow(None)));
    let line = "2026-07-20T04:12:13.000000001Z hello".to_owned();
    assert_eq!(reader.accept(line.clone()).unwrap(), "hello");
    reader.published();
    reader.ended(false);
    assert!(matches!(reader.begin(true, false), ReaderStep::Follow(Some(_))));
    assert!(reader.accept(line).is_none());
    assert_eq!(
        reader.accept("2026-07-20T04:12:14Z next".to_owned()).unwrap(),
        "next"
    );
    assert!(matches!(reader.begin(false, false), ReaderStep::Stop));
}

#[test]
fn limits_follow_the_settings() {
    assert_eq!(configured_reader_idle(None), 120);
    assert_eq!(configured_reader_idle(Some("999999")), 3600);
    assert_eq!(configured_max_active_readers(None), 256);
    assert_eq!(configured_max_active_readers(Some("0")), 256);
}

#[test]
fn subscribing_starts_a_reader_that_retires_when_idle() {
    let mut hub = ConsoleHub::with_optional_docker(
        true,
        ProtectionState::configured(None, None, None, None),
        None,
        None,
    );
    hub.track_server("server").unwrap();
    let first = hub.subscribe("server", 1, 10).unwrap();
    assert!(matches!(first.reader, ReaderChange::Start(None, 10)));
    assert!(hub.reader_is_active("server", 10));
    let (published, delivery) = hub.publish_line_when_active("server", "line".into(), 10, 0);
    assert!(published);
    assert_eq!(delivery.unwrap().channel, Some(1));
    assert!(matches!(
        hub.retire_idle_reader("server", 10, 1, 0, 11),
        Retirement::Retired
    ));
    assert!(!hub.reader_is_active("server", 10));
}

#[test]
fn history_is_replayed_in_order() {
    let mut hub = memory_hub();
    hub.publish("self-test", "first".into(), 0);
    hub.publish("self-test", "second".into(), 0);
    let replay = hub.subscribe("self-test", 1, 1).unwrap();
    assert_eq!(replay.history, ["first", "second"]);
}

#[test]
fn a_refreshed_reader_is_woken() {
    let mut hub = ConsoleHub::with_optional_docker(
        true,
        ProtectionState::configured(None, None, None, None),
        None,
        None,
    );
    hub.synchronize_servers(names(&["server"])).unwrap();
    hub.subscribe("server", 1, 7).unwrap();
    assert_eq!(hub.detach_reader("server"), Some(7));
    assert_eq!(hub.detach_reader("other"), None);
    assert_eq!(hub.wake_reader("server"), Some(7));
    assert_eq!(hub.wake_reader("server"), None);
    hub.note_reader("server", 7, true, false);
    assert_eq!(hub.wake_reader("server"), Some(7));
    hub.note_reader("server", 8, false, false);
    assert_eq!(hub.wake_reader("server"), Some(7));
    assert_eq!(hub.refresh_server("server").unwrap(), Some(7));
    assert_eq!(hub.refresh_server("new").unwrap(), None);
    assert_eq!(hub.refresh_server("..").unwrap_err().message, "invalid server id");
}

#[test]
fn a_reader_waits_longer_while_nothing_comes() {
    let mut reader = ReaderLoop::new(16384);
    assert!(reader.after_stream(false, false) == ReaderStep::Stop);
    assert!(reader.after_stream(true, true) == ReaderStep::Restart);
    assert!(reader.after_stream(true, false) == ReaderStep::Inspect);
    assert!(reader.after_inspect(false) == ReaderStep::Park);
    let mut pauses = Vec::new();
    for _ in 0..7 {
        if let ReaderStep::Pause(seconds) = reader.after_inspect(true) {
            pauses.push(seconds);
        }
    }
    assert_eq!(pauses, [1, 2, 4, 8, 16, 30, 30]);
}

#[test]
fn an_entry_is_charged_for_its_text_and_its_place() {
    let entry = |line: &str| ConsoleEntry {
        sequence: 1,
        line: line.into(),
    };
    assert_eq!(entry_charge(&entry("abc")) - entry_charge(&entry("")), 3);
    assert_eq!(entry_charge(&entry("\u{e9}")) - entry_charge(&entry("")), 2);
}

#[test]
fn a_viewer_is_shown_each_line_once() {
    let mut hub = memory_hub();
    hub.synchronize_servers(names(&["server"])).unwrap();
    let mut numbers = Vec::new();
    for line in ["one", "two", "three"] {
        numbers.push(hub.publish("server", line.into(), 0).unwrap().entry.sequence);
    }
    assert_eq!(numbers, [1, 2, 3]);
    let view = hub.subscribe("server", 1, 1).unwrap();
    assert_eq!(view.history, ["one", "two", "three"]);
    assert_eq!(view.replayed_through, 3);
    let next = hub.publish("server", "four".into(), 0).unwrap();
    assert_eq!((next.entry.sequence, next.channel), (4, Some(1)));
}
