use agapornis_agent::console::decoder::OutputStream;
use agapornis_agent::docker::database::{
    database_health_command, database_port, effective_internal_port, probe_result,
    validate_database_spec, DatabaseConnectionSpec, DatabaseProbe,
};
use agapornis_agent::docker::disk::{disk_limit, CacheState, DiskCache, DiskCalculation};
use agapornis_agent::docker::exec::{append_exec_output, console_line, ExecCapture};
use agapornis_agent::docker::inspection::{
    inactive_metrics, log_has_marker, resource_metrics, root, server_status, StatsSample,
};
use agapornis_agent::docker::installer::{
    append_tail, installer_exit_status, installer_postcondition,
    provisioned_payload_disk_limit_exceeded, InstallerAction, InstallerEvent,
    InstallerPostcondition, InstallerSession, WaitOutcome,
};
use agapornis_agent::docker::lifecycle::{
    after_start, stale_docker_desktop_bind_error, stop_plan, StartStep, StopPlan,
};
use agapornis_agent::docker::ports::{
    normalize_container_port, port_request, validated_port_bindings, PortBook, PortRequest,
    PortReservation,
};
use agapornis_agent::docker::provisioning::DOCKER_CONNECT_RETRY_SECONDS;
use agapornis_agent::docker::recreation::{after_replace_step, ReplaceStep};
use agapornis_agent::docker::runtime::{
    check_startup_target, effective_cpus, effective_disk_limit, ensure_runtime_tmpfs,
    pinned_cpu_set, runtime_configuration_ready, runtime_environment, runtime_tmpfs_ready,
    startup_target, MissingStartupTarget, TargetCheck, TargetState,
};
use agapornis_agent::error::Failure;
use agapornis_agent::json::Json;
use agapornis_agent::table::Table;

fn json(text: &str) -> Json {
    Json::parse(text.as_bytes()).unwrap()
}

fn list(items: &[&str]) -> Vec<String> {
    items.iter().map(|s| s.to_string()).collect()
}

#[test]
fn docker_connection_retry_interval_is_thirty_seconds() {
    assert_eq!(DOCKER_CONNECT_RETRY_SECONDS, 30);
}

#[test]
fn treats_nonzero_installer_wait_as_process_exit() {
    let (code, error) =
        installer_exit_status(WaitOutcome::Errored("script failed".into(), 17)).unwrap();

    assert_eq!(code, 17);
    assert_eq!(error.as_deref(), Some("script failed"));
}

#[test]
fn accepts_successful_installer_wait() {
    let (code, error) = installer_exit_status(WaitOutcome::Exited(0, None)).unwrap();

    assert_eq!(code, 0);
    assert_eq!(error, None);
}

#[test]
fn installer_log_keeps_only_the_tail() {
    let mut output = b"1234".to_vec();
    append_tail(&mut output, b"567890", 6);
    assert_eq!(output, b"567890");
}

#[test]
fn recognizes_only_missing_docker_desktop_bind_mounts_for_self_repair() {
    let stale = Failure::new(
        "error mounting /run/desktop/mnt/host/wsl/docker-desktop-bind-mounts/Ubuntu/hash to /data: no such file or directory",
    );
    assert!(stale_docker_desktop_bind_error(&stale));

    let unrelated = Failure::new("start failed: no such file or directory");
    assert!(!stale_docker_desktop_bind_error(&unrelated));
}

#[test]
fn exec_output_stops_at_its_capture_budget() {
    let mut output = Vec::new();
    assert!(append_exec_output(&mut output, b"abcdef", 4));
    assert_eq!(output, b"abcd");
}

#[test]
fn temporary_port_reservation_releases_on_drop() {
    let mut ports = PortBook { ports: vec![25565] };
    {
        let reservation = PortReservation::new(Some(25565));
        ports.release(reservation);
    }
    assert!(!ports.ports.contains(&25565));
}

#[test]
fn prefers_explicit_cpu_cores() {
    assert_eq!(effective_cpus(50, 2_000_000_000), 2_000_000_000);
    assert_eq!(effective_cpus(50, 0), 500_000_000);
}

#[test]
fn private_database_port_is_exposed_without_host_publish() {
    let port = effective_internal_port("", &list(&["AGAPORNIS_DATABASE_PORT=33062"]))
        .unwrap()
        .unwrap();
    assert_eq!(port, "33062/tcp");
    assert_eq!(database_port(&list(&["AGAPORNIS_DATABASE_PORT=33062"])), Some(33062));
}

#[test]
fn validates_and_normalizes_internal_ports() {
    assert_eq!(
        effective_internal_port("25565", &Vec::new()).unwrap(),
        Some("25565/tcp".into())
    );
    assert!(effective_internal_port("not-a-port", &Vec::new()).is_err());
}

#[test]
fn validates_multiple_port_bindings() {
    let (exposed, bindings) =
        validated_port_bindings(&vec![("25565/tcp".into(), 30000), ("19132/udp".into(), 30001)])
            .expect("valid mappings");
    assert_eq!(exposed, vec!["25565/tcp", "19132/udp"]);
    assert_eq!(bindings.len(), 2);
}

#[test]
fn rejects_duplicate_host_ports() {
    assert!(validated_port_bindings(&vec![
        ("25565/tcp".into(), 30000),
        ("19132/udp".into(), 30000),
    ])
    .is_err());
}

#[test]
fn completed_payload_check_is_disabled_only_for_unlimited_servers() {
    assert!(provisioned_payload_disk_limit_exceeded(1_024, 0).is_none());
    assert!(provisioned_payload_disk_limit_exceeded(1_024, 1_024).is_none());
    let exceeded = provisioned_payload_disk_limit_exceeded(1_025, 1_024).unwrap();
    assert_eq!((exceeded.usage, exceeded.limit), (1_025, 1_024));
}

fn missing(command: &str) -> Option<MissingStartupTarget> {
    let target = startup_target(command).unwrap();
    match check_startup_target("/srv/one", &target, 10, TargetState::Missing) {
        TargetCheck::Missing(found) => Some(found),
        _ => None,
    }
}

#[test]
fn missing_startup_target_retries_once_before_failing() {
    let first = installer_postcondition(missing("compat-runtime ./bin/dedicated-server"), 1);
    assert!(matches!(first, InstallerPostcondition::Retry(_)));

    let exhausted = installer_postcondition(missing("compat-runtime ./bin/missing-server"), 2);
    assert!(matches!(exhausted, InstallerPostcondition::Failed(_)));

    let target = startup_target("compat-runtime ./bin/dedicated-server").unwrap();
    let found = check_startup_target("/srv/one", &target, 0, TargetState::File);
    assert!(matches!(found, TargetCheck::Ready));
    let second = installer_postcondition(None, 2);
    assert!(matches!(second, InstallerPostcondition::Ready));
}

#[test]
fn startup_validation_waits_for_a_delayed_installer_target() {
    let target = startup_target("compat-runtime ./bin/dedicated-server --port 25565").unwrap();
    let early = check_startup_target("/srv/one", &target, 0, TargetState::Missing);
    assert!(matches!(early, TargetCheck::Again));
    let later = check_startup_target("/srv/one", &target, 1, TargetState::File);
    assert!(matches!(later, TargetCheck::Ready));
}

#[test]
fn running_startup_state_still_collects_live_resources() {
    assert!(inactive_metrics(true, "starting".into(), 10, 20, 30).is_none());
    let stopped = inactive_metrics(false, "exited".into(), 10, 20, 0).unwrap();
    assert_eq!(stopped.status, "exited");
    assert_eq!(stopped.disk_usage, 10);
}

#[test]
fn docker_sample_maps_cpu_memory_and_all_network_interfaces() {
    let sample = StatsSample {
        has_memory: true,
        memory_usage: Some(1000),
        memory_limit: Some(2000),
        total_inactive_file: None,
        inactive_file: Some(100),
        networks: vec![(Some(400), Some(500)), (Some(40), Some(50))],
        has_cpu: true,
        cpu_total: Some(300),
        system_cpu: Some(2000),
        online_cpus: Some(2),
        listed_cpus: None,
        has_previous_cpu: true,
        previous_cpu_total: Some(100),
        previous_system_cpu: Some(1000),
    };
    let metrics = resource_metrics(&sample);
    assert_eq!(metrics.memory_usage, 900);
    assert_eq!(metrics.memory_limit, 2000);
    assert_eq!(metrics.network_read, 440);
    assert_eq!(metrics.network_write, 550);
    let percent =
        metrics.cpu_delta as f64 / metrics.system_delta as f64 * metrics.online_cpus as f64 * 100.0;
    assert_eq!(percent, 40.0);
}

#[test]
fn runtime_environment_gets_a_private_managed_xdg_directory() {
    let environment = runtime_environment(&list(&["SERVER_PORT=25565", "XDG_RUNTIME_DIR="]));
    assert_eq!(
        environment,
        ["SERVER_PORT=25565", "XDG_RUNTIME_DIR=/tmp/agapornis-runtime"]
    );

    let mut tmpfs: Option<Table<String>> = None;
    ensure_runtime_tmpfs(&mut tmpfs, &environment);
    assert!(runtime_tmpfs_ready(tmpfs.as_ref(), &environment));
    assert_eq!(
        tmpfs
            .as_ref()
            .and_then(|tmpfs| tmpfs.get("/tmp/agapornis-runtime"))
            .map(String::as_str),
        Some("rw,nosuid,nodev,noexec,size=16m,mode=0700,uid=999,gid=999")
    );
}

#[test]
fn explicit_xdg_runtime_directory_is_preserved() {
    let environment = runtime_environment(&list(&["XDG_RUNTIME_DIR=/run/custom-runtime"]));
    assert_eq!(environment, ["XDG_RUNTIME_DIR=/run/custom-runtime"]);

    let mut tmpfs: Option<Table<String>> = None;
    ensure_runtime_tmpfs(&mut tmpfs, &environment);
    assert!(tmpfs.is_none());
    assert!(runtime_tmpfs_ready(tmpfs.as_ref(), &environment));
}

#[test]
fn legacy_container_configuration_is_marked_for_runtime_repair() {
    let legacy = json(
        r#"{"Config": {"Env": ["SERVER_PORT=25565"]}, "HostConfig": {"Tmpfs": {}}}"#,
    );
    assert!(!runtime_configuration_ready(&legacy));

    let managed = json(
        r#"{"Config": {"Env": ["XDG_RUNTIME_DIR=/tmp/agapornis-runtime"]},
            "HostConfig": {"Tmpfs": {"/tmp/agapornis-runtime":
                "rw,nosuid,nodev,noexec,size=16m,mode=0700,uid=999,gid=999"}}}"#,
    );
    assert!(runtime_configuration_ready(&managed));
}

#[test]
fn ports_are_normalized() {
    assert_eq!(normalize_container_port("25565").unwrap(), "25565/tcp");
    assert_eq!(normalize_container_port("19132/udp").unwrap(), "19132/udp");
    assert_eq!(normalize_container_port(" 80/SCTP ").unwrap(), "80/sctp");
    assert_eq!(
        normalize_container_port("70000").unwrap_err().message,
        "invalid container port: 70000"
    );
    assert_eq!(
        normalize_container_port("80/icmp").unwrap_err().message,
        "unsupported port protocol: icmp"
    );
    assert_eq!(
        normalize_container_port(" ").unwrap_err().message,
        "container port cannot be empty"
    );
}

#[test]
fn ports_are_reserved_once() {
    let mut book = PortBook::new();
    let first = book.reserve(25565, &Vec::new()).unwrap();
    assert!(book.reserve(25565, &Vec::new()).is_err());
    assert!(book.reserve(25566, &vec![25566]).is_err());
    book.release(first);
    assert!(book.reserve(25565, &Vec::new()).is_ok());
    assert!(matches!(port_request(false, 0).unwrap(), PortRequest::Private));
    assert!(matches!(port_request(true, 0).unwrap(), PortRequest::Automatic));
    assert!(matches!(port_request(true, 30000).unwrap(), PortRequest::Fixed(30000)));
    assert!(port_request(true, 70000).is_err());
}

#[test]
fn a_disk_is_measured_once_at_a_time() {
    let mut cache = DiskCache::new();
    assert!(matches!(
        cache.begin_disk_calculation("one", false, 10, 0, 1),
        DiskCalculation::Calculate(1)
    ));
    assert!(matches!(
        cache.begin_disk_calculation("one", false, 10, 0, 2),
        DiskCalculation::Wait(1)
    ));
    cache.complete("one", 1, 5, 70, 100);
    assert_eq!(cache.peek("one"), Some((70, 100)));
    assert!(matches!(
        cache.begin_disk_calculation("one", false, 10, 6, 3),
        DiskCalculation::Cached(70, 100)
    ));
    assert!(matches!(cache.entries.get("one"), Some(CacheState::Ready(_, 70, 100))));
    assert_eq!(disk_limit(Some("123"), None), 123);
    assert_eq!(disk_limit(None, None), 10_737_418_240);
}

#[test]
fn exec_results_carry_what_was_printed() {
    let mut capture = ExecCapture::new();
    capture.take(OutputStream::StdOut, b"done\n");
    assert_eq!(capture.result(Some(0)).unwrap(), "done\n");
    let mut capture = ExecCapture::new();
    capture.take(OutputStream::StdErr, b"broken\n");
    assert!(capture.result(Some(2)).unwrap_err().message.contains("broken"));
    let mut capture = ExecCapture::new();
    let chunk = vec![b'x'; 5_000_000];
    capture.take(OutputStream::StdOut, &chunk);
    capture.take(OutputStream::StdOut, &chunk);
    assert_eq!(capture.stdout.len(), 10_000_000);
    assert!(!capture.truncated);
    capture.take(OutputStream::StdErr, b"x");
    assert_eq!(capture.stderr.len(), 0);
    assert!(capture.truncated);
    assert_eq!(
        capture.result(Some(0)).unwrap_err().message,
        "command output exceeded the 8388608 byte capture limit"
    );
}

#[test]
fn an_installer_is_done_when_output_and_exit_came() {
    let mut session = InstallerSession::new();
    assert!(matches!(
        session.on_event(InstallerEvent::Output(b"hello".to_vec())),
        InstallerAction::Write(5)
    ));
    session.on_event(InstallerEvent::Ended(WaitOutcome::Exited(0, None)));
    assert!(matches!(
        session.on_event(InstallerEvent::OutputClosed),
        InstallerAction::Finish(Ok(()))
    ));
}

#[test]
fn a_stale_bind_is_repaired_once() {
    let stale = Failure::new("error mounting docker-desktop-bind-mounts x: no such file or directory");
    assert!(matches!(after_start(Some(&stale), false), StartStep::Repair));
    assert!(matches!(after_start(Some(&stale), true), StartStep::Fail));
    assert!(matches!(after_start(None, false), StartStep::Done));
}

#[test]
fn a_replaced_container_keeps_its_name_on_failure() {
    assert!(matches!(after_replace_step(ReplaceStep::RenameOld, true), ReplaceStep::CreateNew));
    assert!(matches!(after_replace_step(ReplaceStep::CreateNew, false), ReplaceStep::RestoreName));
    assert!(matches!(after_replace_step(ReplaceStep::RestoreName, true), ReplaceStep::Fail));
}

#[test]
fn stopped_servers_are_not_stopped_again() {
    let stopped = json(r#"{"State": {"Running": false}, "Config": {"Labels": {}}}"#);
    assert!(matches!(stop_plan(&stopped), StopPlan::AlreadyStopped));
    let running = json(
        r#"{"State": {"Running": true},
            "Config": {"Labels": {"agapornis.stop_command": "stop"}}}"#,
    );
    assert!(matches!(stop_plan(&running), StopPlan::Command(c) if c == "stop"));
}

#[test]
fn console_commands_need_an_interactive_container() {
    let running = json(
        r#"{"State": {"Running": true}, "Config": {"OpenStdin": true, "Tty": false, "Labels": {}}}"#,
    );
    assert_eq!(console_line(&running, "say hi").unwrap(), "say hi\n");
    let stopped = json(r#"{"State": {"Running": false}}"#);
    assert!(console_line(&stopped, "say hi").is_err());
}

#[test]
fn databases_are_probed_with_their_own_tools() {
    let spec = DatabaseConnectionSpec {
        server_id: "server-1",
        database_type: "postgres",
        host: "db",
        port: 5432,
        database_name: "app",
        username: "user",
        password: "secret",
        docker_image: "postgres:16",
    };
    assert!(validate_database_spec(&spec).is_ok());
    assert!(DatabaseProbe::from_spec(&spec).is_ok());
    let wrong = DatabaseConnectionSpec { port: 0, ..spec };
    assert!(validate_database_spec(&wrong).is_err());
    assert!(probe_result(0, b"", None).is_ok());
    assert!(probe_result(1, b"denied", None).unwrap_err().message.contains("denied"));
    assert!(database_health_command(&list(&["AGAPORNIS_DATABASE_PORT=5432", "POSTGRES_PASSWORD=x"]))
        .unwrap()
        .starts_with("pg_isready "));
}

#[test]
fn processors_are_pinned_once() {
    assert_eq!(pinned_cpu_set("0-1, 3", 8).unwrap().unwrap(), "0-1,3");
    assert!(pinned_cpu_set(" ", 8).unwrap().is_none());
    assert_eq!(
        pinned_cpu_set("9", 8).unwrap_err().message,
        "pinned CPU thread 9 does not exist; this node has threads 0-7"
    );
    assert_eq!(
        pinned_cpu_set("0-2,1", 8).unwrap_err().message,
        "pinned CPU thread 1 is listed more than once"
    );
    assert_eq!(
        pinned_cpu_set("3-1", 8).unwrap_err().message,
        "invalid pinned CPU thread range '3-1'"
    );
    assert_eq!(effective_disk_limit(100, 0, "").unwrap(), 100);
}

#[test]
fn roots_come_from_the_mounts() {
    let inspect = json(
        r#"{"State": {"Running": true}, "Config": {"Labels": {}},
            "Mounts": [{"Destination": "/home/container", "Source": "/srv/one"}]}"#,
    );
    let found = root(Some(&inspect), "/fallback");
    assert_eq!(found.path, "/srv/one");
    let none = root(None, "/fallback");
    assert_eq!(none.path, "/fallback");
    assert!(!none.running);
    assert!(log_has_marker(b"...Done (1.2s)!", "Done ("));
    assert_eq!(server_status(&inspect, Some("disk-limit-exceeded".into()), true), "disk-limit-exceeded");
}
