use agapornis_agent::error::Failure;
use agapornis_agent::json::Json;
use agapornis_agent::node::crowdsec::{
    alert_arguments, alerts_response, candidate_outcome, crowdsec_enabled, cscli_candidates,
    first_text, map_alerts, maximum_alerts, parse_alerts, unasked, QueryStep,
};
use agapornis_agent::node::linux_packages::{
    after_phase, between, command_line, command_outcome, ensure_linux, first_phase,
    manager_for_release, manager_from_installed_binary, parse_apk, parse_apt, parse_dnf, parse_pacman, platform,
    reboots_host, release_value, result, Installed, Manager, PackagePhase, PackageUpgrade, Platform,
};
use agapornis_agent::node::telemetry::{
    bounded_stats_sample_interval, stats_sample_interval, NodeTelemetry,
    DEFAULT_STATS_SAMPLE_INTERVAL, MAX_STATS_SAMPLE_INTERVAL,
};
use agapornis_agent::node::usage::{memory_bytes, memory_used, processor_times, uptime_seconds};
use agapornis_agent::protection::SECOND;

struct Stats {
    cpu: f64,
    memory_total: i64,
    disk_total: i64,
}

fn telemetry_with_age(age: u64, maximum_age: u64) -> (NodeTelemetry<Stats>, u64) {
    let now = 1_000 * SECOND;
    (
        NodeTelemetry {
            stats: Stats { cpu: 12.5, memory_total: 20, disk_total: 40 },
            sampled_at: now - age * SECOND,
            maximum_age: maximum_age * SECOND,
        },
        now,
    )
}

#[test]
fn telemetry_sample_interval_is_bounded() {
    assert_eq!(bounded_stats_sample_interval(None), DEFAULT_STATS_SAMPLE_INTERVAL);
    assert_eq!(bounded_stats_sample_interval(Some(0)), DEFAULT_STATS_SAMPLE_INTERVAL);
    assert_eq!(bounded_stats_sample_interval(Some(600)), MAX_STATS_SAMPLE_INTERVAL);
}

#[test]
fn telemetry_returns_the_last_fresh_complete_snapshot() {
    let (telemetry, now) = telemetry_with_age(1, 5);
    let snapshot = telemetry.snapshot(now).expect("fresh telemetry snapshot");

    assert_eq!(snapshot.cpu, 12.5);
    assert_eq!(snapshot.memory_total, 20);
    assert_eq!(snapshot.disk_total, 40);
}

#[test]
fn telemetry_rejects_a_stale_snapshot() {
    let (telemetry, now) = telemetry_with_age(6, 5);

    assert!(telemetry.snapshot(now).is_err());
    assert_eq!(
        telemetry.snapshot(now).err().unwrap().message,
        "host telemetry snapshot is stale (6000 ms old)"
    );
}

#[test]
fn a_failed_refresh_keeps_the_last_snapshot() {
    let mut telemetry = NodeTelemetry::start(1, 0, 2);
    assert_eq!(telemetry.maximum_age, 6 * SECOND);
    telemetry.refresh(None, 4 * SECOND);
    assert_eq!(telemetry.snapshot(4 * SECOND).unwrap(), &1);
    assert!(telemetry.snapshot(6 * SECOND + 1).is_err());
    telemetry.refresh(Some(2), 6 * SECOND);
    assert_eq!(telemetry.snapshot(6 * SECOND + 1).unwrap(), &2);
    assert_eq!(stats_sample_interval(Some("7")), 7);
    assert_eq!(stats_sample_interval(Some("x")), 1);
}

#[test]
fn parses_top_level_alert_array() {
    let alerts = parse_alerts(r#"[{"id":"1"}]"#, 100).unwrap();
    assert_eq!(alerts.len(), 1);
    assert_eq!(alerts[0].field("id").and_then(Json::as_text), Some("1"));
}

#[test]
fn parses_nested_alert_array() {
    let alerts = parse_alerts(r#"{"alerts":[{"id":"2"}]}"#, 100).unwrap();
    assert_eq!(alerts.len(), 1);
    assert_eq!(alerts[0].field("id").and_then(Json::as_text), Some("2"));
}

#[test]
fn rejects_invalid_json() {
    assert!(parse_alerts("not json", 100).is_err());
}

#[test]
fn limits_crowdsec_json_before_mapping() {
    let alerts = parse_alerts(r#"[{"id":"1"},{"id":"2"},{"id":"3"}]"#, 2).unwrap();

    assert_eq!(alerts.len(), 2);
    assert_eq!(alerts[1].field("id").and_then(Json::as_text), Some("2"));
}

#[test]
fn expands_capi_decisions_and_uses_their_sources() {
    let values = parse_alerts(
        r#"[{"id":10,"scenario":"crowdsecurity/community-blocklist","message":"update : +2/-0 IPs","decisions":[{"id":21,"origin":"CAPI","scope":"Ip","value":"192.0.2.1","type":"ban","duration":"24h"},{"id":22,"origin":"CAPI","scope":"Ip","value":"198.51.100.2","type":"ban","duration":"24h"}]}]"#,
        100,
    )
    .unwrap();
    let alerts = map_alerts(values, 100);

    assert_eq!(alerts.len(), 2);
    assert_eq!(alerts[0].id, "21");
    assert_eq!(alerts[0].source_scope, "Ip");
    assert_eq!(alerts[0].source_value, "192.0.2.1");
    assert_eq!(alerts[0].source_ip, "192.0.2.1");
    assert_eq!(alerts[0].events_count, 1);
    assert_eq!(alerts[0].decision_type, "ban");
    assert_eq!(alerts[1].id, "22");
    assert_eq!(alerts[1].source_ip, "198.51.100.2");
}

#[test]
fn cuts_off_expanded_capi_decisions_at_the_configured_limit() {
    let values = parse_alerts(
        r#"[{"decisions":[{"scope":"Ip","value":"192.0.2.1"},{"scope":"Ip","value":"198.51.100.2"}]}]"#,
        100,
    )
    .unwrap();

    assert_eq!(map_alerts(values, 1).len(), 1);
}

#[test]
fn expands_default_cscli_candidates() {
    let candidates = cscli_candidates("cscli");
    assert!(candidates.contains(&"cscli".to_owned()));
    assert!(candidates.contains(&"/usr/bin/cscli".to_owned()));
}

#[test]
fn preserves_explicit_cscli_path() {
    assert_eq!(cscli_candidates("/opt/crowdsec/bin/cscli"), vec!["/opt/crowdsec/bin/cscli"]);
}

#[test]
fn alerts_without_decisions_are_mapped() {
    let values = parse_alerts(
        r#"[{"id":7,"source":{"ip":"192.0.2.9","cn":"CZ","as_name":"AS"},"events_count":4,"simulated":true}]"#,
        10,
    )
    .unwrap();
    let alerts = map_alerts(values, 10);
    assert_eq!(alerts.len(), 1);
    assert_eq!(alerts[0].id, "7");
    assert_eq!(alerts[0].source_ip, "192.0.2.9");
    assert_eq!(alerts[0].source_country, "CZ");
    assert_eq!(alerts[0].events_count, 4);
    assert!(alerts[0].simulated);
    assert!(!alerts[0].remediation);
    assert_eq!(first_text(String::new(), "b".into()), "b");
    assert_eq!(first_text("a".into(), "b".into()), "a");
}

#[test]
fn alerts_are_asked_for_as_configured() {
    assert!(crowdsec_enabled(Some("true"), false));
    assert!(!crowdsec_enabled(Some("false"), true));
    assert!(crowdsec_enabled(Some("yes"), true));
    assert_eq!(maximum_alerts(None, 100), 100);
    assert_eq!(maximum_alerts(Some("0"), 100), 1);
    assert_eq!(maximum_alerts(Some("9999"), 100), 500);
    assert_eq!(alert_arguments(25), ["alerts", "list", "-o", "json", "--limit", "25"]);
    assert!(cscli_candidates("  ").is_empty());
    assert_eq!(unasked(false, true, "now").unwrap().status, "disabled");
    assert_eq!(unasked(true, false, "now").unwrap().status, "unsupported");
    assert!(unasked(true, true, "now").is_none());
    assert_eq!(candidate_outcome("cscli", true, Some(0), b"[]", b"").unwrap(), "[]");
    assert_eq!(
        candidate_outcome("cscli", false, None, b"", b" denied \n").unwrap_err().message,
        "cscli exited with -1: denied"
    );
    assert!(matches!(QueryStep::first(" "),
        QueryStep::Failed(e) if e.message == "cscli path is empty"));
    assert_eq!(alerts_response(Ok(String::new()), 5, "now").status, "active");
    let failed = alerts_response(Ok("{".into()), 5, "now");
    assert_eq!((failed.status.as_str(), failed.error_message.as_str()), ("unavailable", "parse CrowdSec JSON"));
}

#[test]
fn detects_supported_distribution_families() {
    assert_eq!(manager_for_release("ubuntu", "debian"), Some(Manager::Apt));
    assert_eq!(manager_for_release("endeavouros", "arch"), Some(Manager::Pacman));
    assert_eq!(manager_for_release("rocky", "rhel centos fedora"), Some(Manager::Dnf));
    assert_eq!(manager_for_release("alpine", ""), Some(Manager::Apk));
    assert_eq!(manager_for_release("gentoo", ""), None);
}

#[test]
fn parses_package_manager_previews() {
    let apt = parse_apt("Inst bash [5.2-1] (5.2-2 Debian [amd64])");
    let pacman = parse_pacman("bash 5.2-1 -> 5.2-2");
    let dnf = parse_dnf("bash.x86_64 5.2-2 updates");
    let apk = parse_apk("(1/1) Upgrading bash (5.2-r0 -> 5.2-r1)");
    for packages in [&apt, &pacman, &dnf, &apk] {
        assert_eq!(packages.len(), 1);
    }
    assert_eq!((&apt[0].current, &apt[0].candidate), (&"5.2-1".into(), &"5.2-2".into()));
    assert_eq!((&pacman[0].current, &pacman[0].candidate), (&"5.2-1".into(), &"5.2-2".into()));
    assert_eq!(dnf[0].candidate, "5.2-2");
    assert_eq!((&apk[0].current, &apk[0].candidate), (&"5.2-r0".into(), &"5.2-r1".into()));
}

#[test]
fn commands_are_fixed_for_every_adapter() {
    for manager in [Manager::Apt, Manager::Pacman, Manager::Dnf, Manager::Apk] {
        assert!(!manager.preview_command().is_empty());
        assert!(!manager.apply_command().is_empty());
    }
}

#[test]
fn lines_that_name_no_package_are_left_out() {
    assert!(parse_apt("Conf bash\nInst \nInst bash 5").is_empty());
    assert!(parse_pacman("bash 5.2-1 ->").is_empty());
    assert!(parse_dnf("Last metadata expiration check").is_empty());
    assert!(parse_apk("OK: 7 MiB").is_empty());
    let new = parse_apk("(1/2) Installing musl (1.2-r0)");
    assert_eq!((new[0].current.as_str(), new[0].candidate.as_str()), ("", "1.2-r0"));
    assert_eq!(parse_pacman(&"a 1 -> 2\n".repeat(2_500)).len(), 2_000);
    assert_eq!(between("x[y]z", '[', ']').unwrap(), "y");
}

#[test]
fn systems_are_described() {
    let release = "NAME=\"X\"\nID=Debian\nPRETTY_NAME=\"Debian \\\"GNU\\\" 13\"\n";
    assert_eq!(release_value(release, "PRETTY_NAME").unwrap(), "Debian \"GNU\" 13");
    assert!(release_value(release, "ID_LIKE").is_none());
    let none = Installed { apt: false, pacman: false, dnf: false, apk: false };
    let found = platform(release, &none).ok().unwrap();
    assert_eq!(found.distribution, "Debian \"GNU\" 13");
    assert_eq!(found.manager, Manager::Apt);
    let dnf = Installed { apt: false, pacman: false, dnf: true, apk: true };
    let other = platform("ID=Unknown\n", &dnf).ok().unwrap();
    assert_eq!((other.distribution.as_str(), other.manager), ("unknown", Manager::Dnf));
    assert_eq!(manager_from_installed_binary(&none), None);
    assert_eq!(
        platform("ID=Unknown\n", &none).err().unwrap().message,
        "unsupported Linux distribution; expected apt-get, pacman, dnf, or apk"
    );
    assert!(ensure_linux(true).is_ok());
    assert!(ensure_linux(false).is_err());
}

#[test]
fn package_commands_are_run_with_the_rights_they_need() {
    let refresh = Manager::Apt.refresh_step().unwrap();
    assert_eq!(
        command_line(&refresh, true),
        ("/usr/bin/sudo".to_string(), vec!["-n".to_string(), "/usr/bin/apt-get".into(), "update".into()])
    );
    let preview = Manager::Pacman.preview_step(true).ok().unwrap();
    assert_eq!(
        command_line(&preview, true),
        ("/usr/bin/checkupdates".to_string(), vec!["--nocolor".to_string()])
    );
    assert!(Manager::Pacman.preview_step(false).is_err());
    assert_eq!(command_outcome(&preview, Some(2), b"out", b"").unwrap(), "out");
    assert_eq!(
        command_outcome(&preview, Some(1), b"", b" broken ").unwrap_err().message,
        "checkupdates failed: broken"
    );
    assert_eq!(Manager::Apk.apply_step().arguments, ["upgrade"]);
    assert_eq!(Manager::Dnf.parse("kernel.x86_64 6.1 updates").len(), 1);
}

#[test]
fn new_kernels_ask_for_a_restart() {
    let package = |name: &str| PackageUpgrade {
        name: name.into(),
        current: String::new(),
        candidate: "2".into(),
    };
    for name in ["linux", "linux-image-amd64", "kernel", "kernel.x86_64"] {
        assert!(reboots_host(&package(name)));
    }
    for name in ["linuxdoc", "kernels", "bash"] {
        assert!(!reboots_host(&package(name)));
    }
    let system = || Platform { distribution: "Debian".into(), manager: Manager::Apt };
    let applied = result(system(), vec![package("linux-image")], true, false);
    assert_eq!(applied.message, "Updated 1 packages with apt.");
    assert!(applied.reboot_required);
    let previewed = result(system(), vec![package("linux-image")], false, true);
    assert_eq!(previewed.message, "1 packages can be updated with apt.");
    assert!(!previewed.reboot_required);
    assert_eq!(previewed.manager, "apt");
}

#[test]
fn updates_are_installed_only_where_some_were_found() {
    assert_eq!(first_phase(Manager::Apt), PackagePhase::Refresh);
    assert_eq!(first_phase(Manager::Dnf), PackagePhase::Preview);
    let found = Manager::Apk.parse("(1/1) Upgrading musl (1.2.4-r0 -> 1.2.5-r0)\n");
    assert_eq!(found.len(), 1);
    assert_eq!(after_phase(PackagePhase::Refresh, true, &Vec::new()), PackagePhase::Preview);
    assert_eq!(after_phase(PackagePhase::Preview, true, &found), PackagePhase::Apply);
    assert_eq!(after_phase(PackagePhase::Preview, true, &Vec::new()), PackagePhase::Report);
    assert_eq!(after_phase(PackagePhase::Preview, false, &found), PackagePhase::Report);
    assert_eq!(after_phase(PackagePhase::Apply, true, &found), PackagePhase::Report);
}

#[test]
fn a_maximum_of_zero_reads_no_alerts() {
    let raw = r#"[{"id": 1}, {"id": 2}]"#;
    assert_eq!(alerts_response(Ok(raw.into()), 0, "now").alerts.len(), 0);
    let values = parse_alerts(raw, 5).unwrap();
    assert_eq!(map_alerts(values, 0).len(), 2);
}

#[test]
fn the_use_of_the_node_is_read() {
    let memory = "MemFree: 1 kB\nMemTotal:  x\nMemTotal:       2048 kB\nMemAvailable: 1024 kB\n";
    assert_eq!(memory_bytes(memory, "MemTotal:"), 2_097_152);
    assert_eq!(memory_bytes(memory, "MemAvailable:"), 1_048_576);
    assert_eq!(memory_bytes(memory, "SwapTotal:"), 0);
    assert_eq!(memory_used(2_097_152, 1_048_576), 1_048_576);
    assert_eq!(memory_used(i64::MAX, -1), i64::MAX);
    assert_eq!(uptime_seconds("12345.67 890.1\n"), 12345);
    assert_eq!(uptime_seconds("soon"), 0);
    let times = "cpu  1 2 3 4 5 6 7 8 9 10\ncpu0 1 2 3 4\n";
    assert_eq!(processor_times(times), Some((36, 9)));
    assert_eq!(processor_times("cpu 1 2"), Some((3, 0)));
    assert_eq!(processor_times(""), None);
}

#[test]
fn programs_are_asked_until_one_answers() {
    let failed = |m: &str| Err(Failure::new(m));
    let step = QueryStep::first("cscli");
    assert!(matches!(&step, QueryStep::Ask(p, left) if p == "cscli" && left.len() == 3));
    let step = step.after(failed("first"));
    assert!(matches!(&step, QueryStep::Ask(p, _) if p == "/usr/bin/cscli"));
    assert!(matches!(step.after(Ok("[]".into())), QueryStep::Answered(raw) if raw == "[]"));
    let step = QueryStep::first("/opt/cscli").after(failed("denied"));
    assert!(matches!(step, QueryStep::Failed(e) if e.message == "denied"));
}
