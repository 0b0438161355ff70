use agapornis_agent::json::Json;
use agapornis_agent::protection::{LineDecision, ProtectionState, SECOND};
use agapornis_agent::supervisor::{
    cleans_images, disk_notice, env_secs, image_cleanup_arguments, list_arguments, listed_servers,
    no_restart_arguments, observed_state, stop_arguments, Supervisor, DEFAULT_SCAN_SECONDS,
};

#[test]
fn dangling_image_cleanup_is_scoped_and_age_gated() {
    assert_eq!(
        image_cleanup_arguments(24),
        ["image", "prune", "--force", "--filter", "dangling=true", "--filter", "until=24h"]
    );
}

#[test]
fn three_failures_in_five_minutes_stop_a_server() {
    let mut supervisor = Supervisor::new();
    assert!(!supervisor.observe("one", 0, true, 0, 0, false));
    assert!(!supervisor.observe("one", 1, true, 0, 10 * SECOND, false));
    assert!(!supervisor.observe("one", 2, true, 0, 20 * SECOND, false));
    assert!(supervisor.observe("one", 3, true, 0, 30 * SECOND, false));
    assert!(!supervisor.observe("one", 4, true, 0, 40 * SECOND, false));
    assert!(supervisor.observations.get("one").unwrap().quarantined);
}

#[test]
fn old_failures_and_stable_servers_are_forgiven() {
    let mut supervisor = Supervisor::new();
    supervisor.observe("one", 0, false, 0, 0, false);
    supervisor.observe("one", 2, false, 0, SECOND, false);
    assert_eq!(supervisor.observations.get("one").unwrap().failures.len(), 2);
    assert!(!supervisor.observe("one", 3, false, 0, 302 * SECOND, false));
    assert_eq!(supervisor.observations.get("one").unwrap().failures.len(), 1);
    supervisor.observe("one", 3, true, 0, 310 * SECOND, false);
    supervisor.observe("one", 3, true, 0, 430 * SECOND, false);
    assert!(supervisor.observations.get("one").unwrap().failures.is_empty());
}

#[test]
fn crashes_count_and_clean_exits_do_not() {
    let mut supervisor = Supervisor::new();
    supervisor.observe("one", 0, true, 0, 0, false);
    supervisor.observe("one", 0, false, 0, SECOND, false);
    assert!(supervisor.observations.get("one").unwrap().failures.is_empty());
    supervisor.observe("one", 0, true, 0, 2 * SECOND, false);
    supervisor.observe("one", 0, false, 1, 3 * SECOND, false);
    assert_eq!(supervisor.observations.get("one").unwrap().failures.len(), 1);
    supervisor.observe("one", 9, false, 1, 4 * SECOND, true);
    assert!(supervisor.observations.get("one").unwrap().failures.is_empty());
}

#[test]
fn disks_are_measured_now_and_then() {
    let mut supervisor = Supervisor::new();
    assert!(supervisor.disk_is_due("one", 0, 150 * SECOND));
    assert!(!supervisor.disk_is_due("one", 149 * SECOND, 150 * SECOND));
    assert!(supervisor.disk_is_due("one", 150 * SECOND, 150 * SECOND));
    assert_eq!(
        disk_notice(11, 10).unwrap(),
        "[agent] Disk limit exceeded (11 / 10 bytes). The server was stopped and cannot start until files are deleted."
    );
    assert!(disk_notice(10, 10).is_none());
    assert!(disk_notice(11, 0).is_none());
}

#[test]
fn servers_are_listed_and_looked_at() {
    assert_eq!(listed_servers("one\n\n two \n"), ["one", " two "]);
    assert_eq!(list_arguments()[5], "{{.Names}}");
    assert_eq!(no_restart_arguments("one"), ["update", "--restart", "no", "one"]);
    assert_eq!(stop_arguments("one"), ["stop", "--time", "5", "one"]);
    let inspect = Json::parse(
        br#"{"RestartCount": 4, "State": {"Running": false, "ExitCode": 137}}"#,
    )
    .unwrap();
    assert_eq!(observed_state(&inspect), (4, false, 137));
    assert_eq!(observed_state(&Json::Null), (0, false, 0));
    assert_eq!(DEFAULT_SCAN_SECONDS, 10);
    assert_eq!(env_secs(Some("7"), 10), 7);
    assert_eq!(env_secs(Some("0"), 10), 10);
    assert!(cleans_images(None));
    assert!(!cleans_images(Some("FALSE")));
    assert!(!cleans_images(Some("0")));
}

#[test]
fn commands_are_limited_in_five_seconds() {
    let mut state = ProtectionState::configured(None, None, None, Some("2"));
    assert!(state.accept_command("one", 0));
    assert!(state.accept_command("one", SECOND));
    assert!(!state.accept_command("one", 2 * SECOND));
    assert!(state.accept_command("two", 2 * SECOND));
    assert!(state.accept_command("one", 5 * SECOND));
}

#[test]
fn lines_are_limited_in_a_second() {
    let mut state = ProtectionState::configured(Some("2"), Some("3"), None, None);
    assert!(matches!(state.observe_line("one", 0), LineDecision::Allow));
    assert!(matches!(state.observe_line("one", 1), LineDecision::Allow));
    assert!(matches!(state.observe_line("one", 2), LineDecision::Notify));
    assert!(matches!(state.observe_line("one", 3), LineDecision::Suppress));
    assert!(matches!(state.observe_line("one", SECOND), LineDecision::Allow));
}

#[test]
fn statuses_are_kept_until_they_are_cleared() {
    let mut state = ProtectionState::configured(None, None, None, None);
    state.mark("one", "disk-limit-exceeded");
    assert_eq!(state.status("one").unwrap(), "disk-limit-exceeded");
    state.clear_disk("one");
    assert!(state.status("one").is_none());
    state.mark("one", "crash-loop-protected");
    state.clear_disk("one");
    assert_eq!(state.status("one").unwrap(), "crash-loop-protected");
    state.manual_recovery("one", 0);
    assert!(state.in_manual_recovery("one", 1));
    assert!(!state.in_manual_recovery("two", 1));
    assert_eq!(state.status("one"), None);
    assert!(state.in_manual_recovery("one", 120 * SECOND - 1));
    assert!(!state.in_manual_recovery("one", 120 * SECOND));
    state.manual_recovery("one", 120 * SECOND);
    assert!(state.in_manual_recovery("one", 121 * SECOND));
    state.remove("one");
    assert!(!state.in_manual_recovery("one", 121 * SECOND));
}
