use agapornis_agent::docker::container::{build_container, image_has_tag_or_digest, CreateSpec};
use agapornis_agent::docker::database::{
    database_test_outcome, ensure_database_context, DatabaseConnectionSpec, DatabaseProbe,
    ProbeOutcome,
};
use agapornis_agent::docker::disk::{
    add_size, disk_cache_age, DiskCache, DiskCalculation,
};
use agapornis_agent::docker::exec::{
    after_echo_attempt, after_write, begin_send, has_echo, Attachments, EchoStep, SendStep,
};
use agapornis_agent::docker::flow::{
    after_delete_phase, after_replace_phase, after_start_phase, after_stop_phase, begin_replace,
    begin_stop, DeletePhase, Outcome, ReplacePhase, Replacement, StartPhase, StopPhase,
};
use agapornis_agent::docker::inspection::{
    container_uptime_seconds, deleted_metrics, StartupCheck, StartupState,
};
use agapornis_agent::docker::installer::{
    after_attempt, attempt_report, installer_container, installer_name, installer_script,
    InstallerNext, InstallerPostcondition,
};
use agapornis_agent::docker::lifecycle::{
    begin_recreation, container_update, disk_record, ensure_disk, finish_recreation, needs_repair,
    removal_succeeded, stop_succeeded, stop_wait, verify_disk_record, verify_update,
    ResourceUpdateSpec, StopPlan,
};
use agapornis_agent::docker::ports::{
    bound_host_ports, ensure_requested_ports_available, validated_port_bindings, PortBook,
};
use agapornis_agent::docker::provisioning::{
    after_network_create, after_network_inspect, docker_network, report_step, validating_report,
    CreateStep, NetworkStep,
};
use agapornis_agent::docker::recreation::{
    create_body, networks_of, ports_body, ports_of, repaired_host_config, reusable_networks,
    stale_name,
};
use agapornis_agent::docker::runtime::{
    repair_legacy_runtime_command, runtime_launcher_repair_needed, MissingStartupTarget,
};
use agapornis_agent::error::Failure;
use agapornis_agent::json::Json;
use agapornis_agent::protection::ProtectionState;
use agapornis_agent::time::parse_stamp;

fn json(text: &str) -> Json {
    Json::parse(text.as_bytes()).unwrap()
}

fn list(items: &[&str]) -> Vec<String> {
    items.iter().map(|s| s.to_string()).collect()
}

fn missing() -> MissingStartupTarget {
    MissingStartupTarget {
        target: "server.jar".into(),
        resolved: "/srv/a/server.jar".into(),
    }
}

fn start(outcomes: &[Outcome]) -> Vec<StartPhase> {
    let mut phases = vec![StartPhase::Inspect];
    for outcome in outcomes {
        let next = after_start_phase(*phases.last().unwrap(), *outcome);
        phases.push(next);
    }
    phases
}

#[test]
fn a_server_is_started_step_by_step() {
    assert_eq!(
        start(&[Outcome::Done; 6]),
        [
            StartPhase::Inspect,
            StartPhase::Configure,
            StartPhase::CheckDisk,
            StartPhase::Recover,
            StartPhase::SetRestartPolicy,
            StartPhase::Launch,
            StartPhase::Done,
        ]
    );
}

#[test]
fn a_full_disk_keeps_a_server_from_being_launched() {
    let phases = start(&[Outcome::Done, Outcome::Done, Outcome::Failed, Outcome::Done]);
    assert!(!phases.contains(&StartPhase::Launch));
    assert_eq!(phases.last(), Some(&StartPhase::Fail));
}

#[test]
fn a_container_without_its_mounts_is_replaced_and_launched_once_more() {
    let mut phase = StartPhase::Launch;
    phase = after_start_phase(phase, Outcome::Stale);
    assert_eq!(phase, StartPhase::RepairAgain);
    phase = after_start_phase(phase, Outcome::Done);
    assert_eq!(phase, StartPhase::LaunchAgain);
    assert_eq!(after_start_phase(phase, Outcome::Done), StartPhase::Done);
    assert_eq!(after_start_phase(phase, Outcome::Stale), StartPhase::Fail);
    assert_eq!(after_start_phase(StartPhase::Inspect, Outcome::Stale), StartPhase::Repair);
    assert_eq!(after_start_phase(StartPhase::Repair, Outcome::Failed), StartPhase::Fail);
    assert_eq!(after_start_phase(StartPhase::Inspect, Outcome::Failed), StartPhase::Configure);
}

#[test]
fn a_server_is_stopped_by_force_only_where_it_does_not_end() {
    assert_eq!(begin_stop(&StopPlan::AlreadyStopped), StopPhase::Release(false));
    assert_eq!(begin_stop(&StopPlan::Force), StopPhase::Force);
    assert_eq!(begin_stop(&StopPlan::Interrupt), StopPhase::DisableRestarts(true));
    let mut phase = begin_stop(&StopPlan::Command("stop".into()));
    phase = after_stop_phase(phase, Outcome::Done);
    assert_eq!(phase, StopPhase::Command);
    phase = after_stop_phase(phase, Outcome::Failed);
    assert_eq!(phase, StopPhase::Wait);
    assert_eq!(after_stop_phase(phase, Outcome::Done), StopPhase::Release(true));
    assert_eq!(after_stop_phase(phase, Outcome::Short), StopPhase::Force);
    assert_eq!(after_stop_phase(phase, Outcome::Failed), StopPhase::Fail);
    assert_eq!(after_stop_phase(StopPhase::Force, Outcome::Failed), StopPhase::Fail);
    assert_eq!(after_stop_phase(StopPhase::Release(true), Outcome::Done), StopPhase::Done);
}

#[test]
fn an_image_is_fetched_before_a_server_is_stopped() {
    let what = Replacement { pulls: true, was_running: true };
    let mut phases = vec![begin_replace(what)];
    for _ in 0..6 {
        let next = after_replace_phase(what, *phases.last().unwrap(), Outcome::Done);
        phases.push(next);
    }
    assert_eq!(
        phases,
        [
            ReplacePhase::Pull,
            ReplacePhase::Stop,
            ReplacePhase::Replace,
            ReplacePhase::Inspect,
            ReplacePhase::Forget,
            ReplacePhase::Start,
            ReplacePhase::Done,
        ]
    );
    assert_eq!(after_replace_phase(what, ReplacePhase::Pull, Outcome::Failed), ReplacePhase::Fail);
}

#[test]
fn a_stopped_server_stays_stopped_when_its_ports_change() {
    let what = Replacement { pulls: false, was_running: false };
    assert_eq!(begin_replace(what), ReplacePhase::Replace);
    assert_eq!(after_replace_phase(what, ReplacePhase::Replace, Outcome::Done), ReplacePhase::Forget);
    assert_eq!(after_replace_phase(what, ReplacePhase::Forget, Outcome::Done), ReplacePhase::Done);
}

#[test]
fn a_server_is_forgotten_once_it_is_gone() {
    let mut phase = DeletePhase::Release;
    let mut seen = Vec::new();
    while phase != DeletePhase::Done {
        seen.push(phase);
        phase = after_delete_phase(phase, Outcome::Short);
    }
    assert_eq!(
        seen,
        [
            DeletePhase::Release,
            DeletePhase::RemoveContainer,
            DeletePhase::RemoveDirectory,
            DeletePhase::RemoveDiskLimit,
            DeletePhase::RemoveConfiguration,
            DeletePhase::Forget,
        ]
    );
    assert_eq!(after_delete_phase(DeletePhase::RemoveDirectory, Outcome::Failed), DeletePhase::Fail);
}

#[test]
fn other_ports_are_put_into_the_configuration_of_a_container() {
    let inspect = json(
        r#"{"Config":{"Image":"java","Labels":{"agapornis.server_id":"a"}},
            "HostConfig":{"Memory":5,"PortBindings":{"1/tcp":[]}},
            "NetworkSettings":{"Networks":{"net":{}}}}"#,
    );
    let (exposed, bindings) =
        validated_port_bindings(&vec![("25565".to_string(), 30000)]).unwrap();
    let body = ports_body(&inspect, "a", &exposed, &bindings).unwrap();
    let expected = json(
        r#"{"Image":"java","Labels":{"agapornis.server_id":"a"},"ExposedPorts":{"25565/tcp":{}},
            "HostConfig":{"Memory":5,"PortBindings":{"25565/tcp":[{"HostIp":"0.0.0.0","HostPort":"30000"}]}},
            "NetworkingConfig":{"EndpointsConfig":{"net":{"Aliases":["a"]}}}}"#,
    );
    assert_eq!(body.compact(), expected.compact());

    let refused = ports_body(&inspect, "b", &exposed, &bindings).unwrap_err();
    assert_eq!(
        refused.message,
        "refusing to update ports on a container not owned by this Agapornis server"
    );
    let bare = json(r#"{"Config":{"Labels":{"agapornis.server_id":"a"}}}"#);
    let refused = ports_body(&bare, "a", &exposed, &bindings).unwrap_err();
    assert_eq!(refused.message, "Docker container has no reusable host configuration");
}

#[test]
fn an_inspected_container_shows_its_ports_and_networks() {
    let inspect = json(
        r#"{"HostConfig":{"PortBindings":{"1/tcp":[{"HostPort":"30000"},{"HostPort":"x"},{}],
            "2/tcp":null,"3/udp":[{"HostPort":"30001"}]}},
            "NetworkSettings":{"Networks":{"net":{},"other":null}}}"#,
    );
    assert_eq!(ports_of(&inspect), [30000, 30001]);
    assert_eq!(networks_of(&inspect), Some(list(&["net", "other"])));
    assert!(ports_of(&json("{}")).is_empty());
    assert_eq!(networks_of(&json("{}")), None);
}

#[test]
fn requested_ports_are_free_or_the_servers_own() {
    let requested = vec![("25565/tcp".to_string(), 30000u16), ("1/udp".to_string(), 30001)];
    assert!(ensure_requested_ports_available(&requested, &vec![], &vec![], &vec![]).is_ok());
    assert!(ensure_requested_ports_available(&requested, &vec![30001], &vec![30001], &vec![]).is_ok());
    let error = ensure_requested_ports_available(&requested, &vec![], &vec![30001], &vec![]).unwrap_err();
    assert_eq!(error.message, "requested host port 30001 is already in use");
    let error = ensure_requested_ports_available(&requested, &vec![], &vec![], &vec![30000]).unwrap_err();
    assert_eq!(error.message, "requested host port 30000 is already in use");
    let mut bound = bound_host_ports(&vec![Some("80".into()), None, Some("x".into()), Some("81".into())]);
    bound.sort();
    assert_eq!(bound, [80, 81]);
}

#[test]
fn a_free_port_is_found_once() {
    let mut book = PortBook::new();
    let candidates = vec![(5000u16, false), (5001, true), (5002, true)];
    assert_eq!(book.find_port(&candidates).unwrap(), 5001);
    assert_eq!(book.find_port(&candidates).unwrap(), 5002);
    assert_eq!(book.find_port(&candidates).unwrap_err().message, "No open ports found.");
}

#[test]
fn mounts_are_repaired_for_the_owner_only() {
    let inspect = json(
        r#"{"Config":{"Labels":{"agapornis.server_id":"a"}},
            "HostConfig":{"Mounts":[{"Type":"bind","Target":"/home/container","Source":"/gone"},
                                     {"Type":"bind","Target":"/other","Source":"/kept"}]}}"#,
    );
    let host = repaired_host_config(&inspect, "/srv", "a").unwrap();
    let mounts = host.field("Mounts").unwrap();
    assert_eq!(mounts.item(0).unwrap().field_text("Source").unwrap(), "/srv/a");
    assert_eq!(mounts.item(1).unwrap().field_text("Source").unwrap(), "/kept");
    assert_eq!(
        repaired_host_config(&inspect, "/srv", "b").unwrap_err().message,
        "refusing to recreate a container not owned by this Agapornis server"
    );
    let bare = json(r#"{"Config":{"Labels":{"agapornis.server_id":"a"}},"HostConfig":{"Mounts":[]}}"#);
    assert_eq!(
        repaired_host_config(&bare, "/srv", "a").unwrap_err().message,
        "stale Docker container has no managed bind mounts to repair"
    );
    assert_eq!(stale_name("a", "77"), "a-stale-77");
}

#[test]
fn a_replacement_is_made_of_a_configuration() {
    let networks = reusable_networks(&None, "a");
    let body = create_body(&json(r#"{"Image":"i","HostConfig":1}"#), json("{}"), networks).unwrap();
    assert_eq!(body.field("Image").unwrap().as_text(), Some("i"));
    assert!(body.field("HostConfig").unwrap().is_object());
    assert_eq!(
        create_body(&json("3"), json("{}"), json("{}")).unwrap_err().message,
        "stale container configuration was not an object"
    );
}

#[test]
fn a_container_is_repaired_before_it_is_started() {
    assert!(!needs_repair(None));
    let stale = json(
        r#"{"State":{"Running":true,"Error":"error mounting docker-desktop-bind-mounts: no such file or directory"}}"#,
    );
    assert!(needs_repair(Some(&stale)));
    assert!(!needs_repair(Some(&json(r#"{"State":{"Running":true}}"#))));
    assert!(needs_repair(Some(&json(r#"{"State":{"Running":false}}"#))));
}

#[test]
fn answers_that_say_it_is_so_already_count() {
    assert!(stop_succeeded(false, Some(304)));
    assert!(!stop_succeeded(false, Some(500)));
    assert!(removal_succeeded(false, Some(404)));
    assert!(!removal_succeeded(false, None));
    assert_eq!(stop_wait(false, 0, 10), Some(true));
    assert_eq!(stop_wait(true, 9, 10), None);
    assert_eq!(stop_wait(true, 10, 10), Some(false));
}

#[test]
fn a_recreation_reports_whether_the_image_changed() {
    let before = json(r#"{"Image":"sha256:1","Config":{"Image":"java:21"},"State":{"Running":true}}"#);
    let start = begin_recreation(&before).unwrap();
    assert!(start.was_running);
    let report = finish_recreation(start, &json(r#"{"Image":"sha256:2"}"#));
    assert_eq!((report.image.as_str(), report.image_id.as_str()), ("java:21", "sha256:2"));
    assert!(report.image_changed);
    let start = begin_recreation(&before).unwrap();
    assert!(!finish_recreation(start, &json(r#"{"Image":"sha256:1"}"#)).image_changed);
    let Err(error) = begin_recreation(&json(r#"{"Config":{"Image":" "}}"#)) else {
        panic!("a container without an image was accepted")
    };
    assert_eq!(error.message, "container has no image to update");
}

fn limits() -> ResourceUpdateSpec {
    ResourceUpdateSpec {
        server_id: "a".into(),
        memory_bytes: 100,
        swap_memory_bytes: 20,
        swap_memory_storage: "disk".into(),
        cpu_limit_percentage: 150,
        cpu_nanos: 0,
        cpu_pinning: true,
        cpu_pinned_threads: "0,1".into(),
        disk_limit_bytes: 0,
    }
}

#[test]
fn new_limits_are_told_and_read_back() {
    let update = container_update(&limits(), 4).ok().unwrap().unwrap();
    assert_eq!(update.memory, Some(100));
    assert_eq!(update.memory_swap, Some(120));
    assert_eq!(update.nano_cpus, Some(1_500_000_000));
    assert_eq!(update.cpuset_cpus, "0,1");
    let good = json(r#"{"HostConfig":{"Memory":100,"NanoCpus":1500000000}}"#);
    assert!(verify_update(&update, &good).is_ok());
    let bad = json(r#"{"HostConfig":{"Memory":99,"NanoCpus":1500000000}}"#);
    assert_eq!(
        verify_update(&update, &bad).unwrap_err().message,
        "Docker reported memory limit Some(99), expected 100"
    );
    let bad = json(r#"{"HostConfig":{"Memory":100}}"#);
    assert_eq!(
        verify_update(&update, &bad).unwrap_err().message,
        "Docker reported CPU limit None, expected 1500000000"
    );

    let mut refused = limits();
    refused.cpu_pinned_threads = "9".into();
    assert!(container_update(&refused, 4).is_err());
    let mut nothing = limits();
    nothing.memory_bytes = 0;
    nothing.cpu_limit_percentage = 0;
    assert!(container_update(&nothing, 4).ok().unwrap().is_none());
}

#[test]
fn a_disk_limit_is_written_down_and_read_back() {
    let mut spec = limits();
    assert_eq!(disk_record(&spec).unwrap(), None);
    spec.disk_limit_bytes = 500;
    assert_eq!(disk_record(&spec).unwrap(), Some(500));
    spec.swap_memory_storage = "server".into();
    assert_eq!(disk_record(&spec).unwrap(), Some(480));
    spec.disk_limit_bytes = 20;
    assert_eq!(
        disk_record(&spec).unwrap_err().message,
        "server storage must be larger than swap memory"
    );
    assert!(verify_disk_record(500, " 500\n").is_ok());
    assert_eq!(
        verify_disk_record(500, "501").unwrap_err().message,
        "disk limit metadata reported 501, expected 500"
    );
    assert_eq!(
        verify_disk_record(500, "x").unwrap_err().message,
        "invalid digit found in string"
    );
}

#[test]
fn a_full_disk_is_marked_and_cleared() {
    let mut protection = ProtectionState::configured(None, None, None, None);
    assert_eq!(
        ensure_disk(&mut protection, "a", 11, 10).unwrap_err().message,
        "Server disk limit exceeded (11 / 10 bytes). Delete files before starting the server."
    );
    assert_eq!(protection.status("a").as_deref(), Some("disk-limit-exceeded"));
    assert!(ensure_disk(&mut protection, "a", 10, 10).is_ok());
    assert_eq!(protection.status("a"), None);
    assert!(ensure_disk(&mut protection, "a", 11, 0).is_ok());
}

#[test]
fn a_measurement_can_be_given_up() {
    let mut cache = DiskCache::new();
    let DiskCalculation::Calculate(token) = cache.begin_disk_calculation("a", true, 75, 0, 1) else {
        panic!("the first measurement was not begun")
    };
    cache.abandon("a", token + 1);
    assert!(!matches!(
        cache.begin_disk_calculation("a", true, 75, 0, 2),
        DiskCalculation::Calculate(_)
    ));
    cache.abandon("a", token);
    assert!(matches!(
        cache.begin_disk_calculation("a", true, 75, 0, 3),
        DiskCalculation::Calculate(3)
    ));
    assert_eq!(add_size(5, 7), 12);
    assert_eq!(add_size(5, u64::MAX), i64::MAX);
    assert_eq!(disk_cache_age(None), 75);
    assert_eq!(disk_cache_age(Some("30")), 30);
    assert_eq!(disk_cache_age(Some("0")), 75);
}

#[test]
fn a_lost_console_is_attached_once_more() {
    assert!(begin_send(true) == SendStep::Reconnect);
    assert!(begin_send(false) == SendStep::Write);
    assert!(after_write(true, false) == SendStep::Done);
    assert!(after_write(false, false) == SendStep::Reconnect);
    assert!(after_write(false, true) == SendStep::Fail);
    assert!(has_echo(None));
    assert!(has_echo(Some(&json(r#"{"Config":{"Tty":true}}"#))));
    assert!(!has_echo(Some(&json(r#"{"Config":{"Tty":false}}"#))));
    assert!(after_echo_attempt(1, true) == EchoStep::Done);
    assert!(after_echo_attempt(1, false) == EchoStep::Retry);
    assert!(after_echo_attempt(u32::MAX, false) == EchoStep::GiveUp);
}

#[test]
fn a_start_is_watched_in_the_log() {
    let inspect = json(
        r#"{"State":{"StartedAt":"1970-01-01T00:01:40Z"},"Config":{"Labels":{"agapornis.startup_done":"Done"}}}"#,
    );
    let mut state = StartupState::new();
    assert!(state.begin_check("a", &inspect, 0, 160) == StartupCheck::ReadLog(100));
    assert!(state.begin_check("a", &inspect, 1_000_000_000, 161) == StartupCheck::NotYet);
    assert!(matches!(
        state.begin_check("a", &inspect, 6_000_000_000, 166),
        StartupCheck::ReadLog(_)
    ));
    state.mark_ready("a");
    assert!(state.begin_check("a", &inspect, 20_000_000_000, 180) == StartupCheck::Ready);
    state.forget("a");
    assert!(state.begin_check("a", &inspect, 20_000_000_000, 180) == StartupCheck::ReadLog(100));
    let plain = json(r#"{"Config":{"Labels":{}}}"#);
    assert!(state.begin_check("b", &plain, 0, 0) == StartupCheck::Ready);
    let now = parse_stamp("1970-01-01T00:02:00Z").unwrap();
    assert_eq!(container_uptime_seconds(&inspect, &now), 20);
    let before = parse_stamp("1970-01-01T00:01:00Z").unwrap();
    assert_eq!(container_uptime_seconds(&inspect, &before), 0);
    let short = parse_stamp("1970-01-01T00:01:41.5Z").unwrap();
    assert_eq!(container_uptime_seconds(&inspect, &short), 1);
    let leap = json(r#"{"State":{"StartedAt":"2016-12-31T22:59:60.25Z"}}"#);
    let after = parse_stamp("2016-12-31T23:00:00.5Z").unwrap();
    assert_eq!(container_uptime_seconds(&leap, &after), 1);
    let later = parse_stamp("2016-12-31T23:00:01.25Z").unwrap();
    assert_eq!(container_uptime_seconds(&leap, &later), 2);
    assert_eq!(container_uptime_seconds(&plain, &now), 0);
    assert_eq!(deleted_metrics().status, "deleted");
}

#[test]
fn an_installer_runs_in_a_container_of_its_own() {
    let plan = installer_container(
        "alpine:3",
        "bash -e",
        &list(&["A=1"]),
        "/srv/a".into(),
        "/tmp/script".into(),
    );
    assert_eq!(plan.image, "alpine:3");
    assert_eq!(plan.working_dir, "/mnt/server");
    assert_eq!(plan.entrypoint, [""]);
    assert_eq!(plan.cmd, ["bash", "-e", "/tmp/agapornis-install.sh"]);
    assert_eq!(plan.env, ["SERVER_DIR=/mnt/server", "A=1"]);
    assert_eq!(plan.server.source, "/srv/a");
    assert!(!plan.server.read_only);
    assert_eq!(plan.script.target, "/tmp/agapornis-install.sh");
    assert!(plan.script.read_only);
    assert_eq!(installer_name("a", "1f"), "a-install-1f");
    assert_eq!(installer_script("a\r\nb\r\n"), "a\nb\n");
    assert_eq!(attempt_report(1).phase, "installing-server");
    assert_eq!(attempt_report(2).percent, 54);
}

#[test]
fn an_installer_is_run_at_most_twice() {
    let InstallerNext::Done(report) = after_attempt(InstallerPostcondition::Ready) else {
        panic!("a complete installation was not accepted")
    };
    assert_eq!(report.percent, 58);
    let InstallerNext::Again(report) = after_attempt(InstallerPostcondition::Retry(missing())) else {
        panic!("a first incomplete installation was not repeated")
    };
    assert_eq!(
        report.message,
        "Installer did not create startup target 'server.jar'; retrying once"
    );
    let InstallerNext::Fail(failure) = after_attempt(InstallerPostcondition::Failed(missing())) else {
        panic!("a second incomplete installation was accepted")
    };
    assert_eq!(
        failure.message,
        "Installer completed 2 attempts, but startup target 'server.jar' is still missing at '/srv/a/server.jar'. Check .agapornis-install.log in the server root for the installer error."
    );
}

#[test]
fn networks_are_made_where_they_lack() {
    assert_eq!(docker_network(None), "agapornis_ntw");
    assert_eq!(docker_network(Some("own")), "own");
    assert!(after_network_inspect(true, None) == NetworkStep::Ready);
    assert!(after_network_inspect(false, Some(404)) == NetworkStep::Create);
    assert!(after_network_inspect(false, Some(500)) == NetworkStep::Fail);
    assert!(after_network_create(false, Some(409)) == NetworkStep::Ready);
    assert!(after_network_create(false, None) == NetworkStep::Fail);
    assert_eq!(validating_report().percent, 5);
    assert_eq!(report_step(CreateStep::PullImage).unwrap().phase, "pulling-runtime-image");
    assert!(report_step(CreateStep::RunInstaller).is_none());
}

#[test]
fn containers_are_built_from_their_specification() {
    let spec = CreateSpec {
        server_id: "a".into(),
        image: "java:21".into(),
        internal_port: "25565".into(),
        env: list(&["A=1"]),
        memory_bytes: 1024,
        cpu_limit_percentage: 0,
        cpu_nanos: 2_000_000_000,
        cpu_cores: String::new(),
        disk_limit_bytes: 0,
        startup_command: "java -jar server.jar".into(),
        stop_command: "stop".into(),
        startup_done: "Done".into(),
        install_image: String::new(),
        install_entrypoint: String::new(),
        install_script: String::new(),
        config_files_json: String::new(),
        host_port: 30000,
        network_owner_id: String::new(),
        expose_public_port: true,
        port_mappings: Vec::new(),
    };
    let plan = build_container(&spec, "/srv/a", "net", "/home/container".into(), 30000, &vec![])
        .ok()
        .unwrap();
    assert_eq!(plan.image, "java:21");
    assert_eq!(plan.user, "999:999");
    assert_eq!(plan.memory, Some(1024));
    assert_eq!(plan.nano_cpus, Some(2_000_000_000));
    assert_eq!(plan.alias, "a");
    assert_eq!(plan.exposed_ports.unwrap(), ["25565/tcp"]);
    assert_eq!(
        plan.port_bindings.unwrap(),
        [("25565/tcp".to_string(), vec![30000u16])]
    );
    assert!(plan.labels.contains(&("agapornis.server_id".to_string(), "a".to_string())));
    assert!(image_has_tag_or_digest("registry:5000/java:21"));
    assert!(!image_has_tag_or_digest("registry:5000/java"));
    assert!(image_has_tag_or_digest("java@sha256:00"));
}

#[test]
fn database_tests_need_both_containers() {
    let up = json(r#"{"State":{"Running":true}}"#);
    let down = json(r#"{"State":{"Running":false}}"#);
    assert!(ensure_database_context(&up, &up).is_ok());
    assert_eq!(
        ensure_database_context(&down, &up).unwrap_err().message,
        "server container must be running to test its database connection"
    );
    assert_eq!(
        ensure_database_context(&up, &down).unwrap_err().message,
        "database container is not running"
    );
    assert_eq!(database_test_outcome(ProbeOutcome::Connected, true, 12).unwrap(), 12);
    assert_eq!(
        database_test_outcome(ProbeOutcome::Connected, true, u128::MAX).unwrap(),
        i64::MAX
    );
    assert_eq!(
        database_test_outcome(ProbeOutcome::Connected, false, 12).unwrap_err().message,
        "remove successful database test container"
    );
    assert_eq!(
        database_test_outcome(ProbeOutcome::TimedOut, false, 12).unwrap_err().message,
        "database connection test timed out"
    );
    assert_eq!(
        database_test_outcome(ProbeOutcome::Failed(Failure::new("no")), true, 1).unwrap_err().message,
        "no"
    );
    let probe = DatabaseProbe::from_spec(&DatabaseConnectionSpec {
        server_id: "a",
        database_type: "mysql",
        host: "db",
        port: 3306,
        database_name: "d",
        username: "u",
        password: "p",
        docker_image: "mysql:8",
    });
    assert_eq!(probe.ok().unwrap().network_mode(), "container:a");
}

#[test]
fn containers_without_the_launcher_get_it() {
    let old = json(r#"{"Config":{"Cmd":["/bin/sh","-lc","exec java -jar a.jar"]}}"#);
    assert!(runtime_launcher_repair_needed(&old));
    assert!(!runtime_launcher_repair_needed(&json(r#"{"Config":{"Cmd":["java"]}}"#)));
    let mut command = Some(list(&["/bin/sh", "-lc", "exec java -jar a.jar"]));
    assert!(repair_legacy_runtime_command(&mut command));
    let command_now = command.clone().unwrap();
    assert_eq!(command_now.len(), 5);
    assert_eq!(command_now[3], "agapornis-runtime");
    assert_eq!(command_now[4], "exec java -jar a.jar");
    assert!(!repair_legacy_runtime_command(&mut command));
}

#[test]
fn one_attachment_is_used_for_all_commands_of_a_container() {
    let mut attachments = Attachments::new();
    assert_eq!(attachments.get("one"), None);
    assert_eq!(attachments.settle("one", 1u32), None);
    assert_eq!(attachments.settle("one", 2u32), Some(2));
    assert_eq!(attachments.settle("two", 3u32), None);
    assert_eq!(attachments.get("one"), Some(&1));
    attachments.attach("one", 4);
    assert_eq!(attachments.get("one"), Some(&4));
    assert_eq!(attachments.detach("one"), Some(4));
    assert_eq!(attachments.detach("one"), None);
    assert_eq!(attachments.get("two"), Some(&3));
}
