use agapornis_agent::backup::archive::ArchiveReader;
use agapornis_agent::backup::manager::new_backup;
use agapornis_agent::config::{
    default_agent_cert, default_agent_key, default_ca_cert, default_cscli, default_max_alerts,
    https_only, master_address, prompt_answer, provisioning_failure, provisioning_url, required,
    CrowdSecTelemetryConfig, DaemonConfig,
};
use agapornis_agent::docker::inspection::Metrics;
use agapornis_agent::docker::lifecycle::ContainerRecreation;
use agapornis_agent::error::Failure;
use agapornis_agent::json::Json;
use agapornis_agent::process::{docker_outcome, run_outcome, shell_quote};
use agapornis_agent::protection::{ProtectionState, SECOND};
use agapornis_agent::services::responses::{
    action, backup_action, backup_created, backup_entry, expected_checksum, failure, file_action,
    internal, recreated, server_metrics_response, storage, Code,
};
use agapornis_agent::services::server::{
    certificate_changed, check_command, connection_tested, created, creation_ended,
    creation_progress, lag_notice, update_staged,
};
use agapornis_agent::services::transfer::{
    export_plan, import_file_name, Import, ImportFrame, ImportMetadata, ImportStep,
    TransferPayload,
};
use agapornis_agent::services::upload::{
    download_ended, file_content, Upload, UploadFrame, UploadStep,
};

#[test]
fn server_metrics_are_copied_into_the_grpc_contract() {
    let response = server_metrics_response(Metrics {
        memory_usage: 900,
        memory_limit: 2_000,
        network_read: 440,
        network_write: 550,
        disk_usage: 600,
        disk_limit: 700,
        status: "starting".into(),
        uptime_seconds: 800,
    });

    assert_eq!(response.memory_usage_bytes, 900);
    assert_eq!(response.memory_limit_bytes, 2_000);
    assert_eq!(response.network_read_bytes, 440);
    assert_eq!(response.network_write_bytes, 550);
    assert_eq!(response.disk_usage_bytes, 600);
    assert_eq!(response.disk_limit_bytes, 700);
    assert_eq!(response.status, "starting");
    assert_eq!(response.uptime_seconds, 800);
}

#[test]
fn answers_carry_what_went_wrong() {
    assert!(action(Ok(())).success);
    assert_eq!(action(Err(Failure::new("x"))).error_message, "x");
    assert_eq!(failure("y").error_message, "y");
    assert!(!failure("y").success);
    assert_eq!(file_action(Err(Failure::new("x"))).error_message, "x");
    assert_eq!(backup_action(Ok(())).error_message, "");
    let status = internal(Failure::new("z"));
    assert_eq!((status.code, status.message.as_str()), (Code::Internal, "z"));
    assert_eq!(storage("S3"), "s3");
    assert_eq!(storage("anything"), "local");
    assert_eq!(expected_checksum(""), None);
    assert_eq!(expected_checksum("ab"), Some("ab"));
    let made = || {
        let mut archive = ArchiveReader::new();
        archive.read(b"bytes");
        new_backup("one", "s3", true, "x", archive, "now")
    };
    let entry = backup_entry(made());
    assert_eq!((entry.backup_id.as_str(), entry.size_bytes, entry.encrypted), ("x", 5, true));
    assert_eq!(entry.last_verified_at, "");
    let made = backup_created(Ok(made()));
    assert_eq!((made.success, made.checksum_type.as_str()), (true, "sha256"));
    assert_eq!(backup_created(Err(Failure::new("no"))).error_message, "no");
}

#[test]
fn creations_are_reported() {
    assert_eq!(created(Ok(25565)).assigned_host_port, 25565);
    assert_eq!(created(Err(Failure::new("x"))).error_message, "x");
    let step = creation_progress("validating", 5, "Validating");
    assert!(!step.complete && step.progress == 5);
    let done = creation_ended(Ok(25565));
    assert_eq!((done.phase.as_str(), done.progress, done.assigned_host_port), ("complete", 100, 25565));
    let failed = creation_ended(Err(Failure::new("x")));
    assert_eq!((failed.phase.as_str(), failed.error_message.as_str()), ("failed", "x"));
    assert!(failed.complete && !failed.success);
    assert_eq!(connection_tested(Ok(12)).latency_ms, 12);
    assert_eq!(connection_tested(Err(Failure::new("x"))).error_message, "x");
    assert_eq!(certificate_changed(Ok("ab".into())).fingerprint, "ab");
    assert!(!update_staged(Err(Failure::new("x"))).success);
    assert_eq!(lag_notice(12), "[agent] console stream dropped 12 lines");
}

#[test]
fn commands_are_checked_before_they_are_counted() {
    let mut protection = ProtectionState::configured(None, None, None, Some("1"));
    let refusal = |protection: &mut ProtectionState, id: &str, command: &str| {
        check_command(protection, id, command, SECOND).map(|r| r.error_message)
    };
    assert_eq!(refusal(&mut protection, "../one", "x").unwrap(), "invalid server id");
    assert_eq!(refusal(&mut protection, "one", "  ").unwrap(), "command cannot be empty");
    assert_eq!(
        refusal(&mut protection, "one", &"x".repeat(4097)).unwrap(),
        "command exceeds the 4096 character limit"
    );
    assert_eq!(refusal(&mut protection, "one", &"x".repeat(4096)), None);
    assert_eq!(
        refusal(&mut protection, "one", "x").unwrap(),
        "console command rate limit exceeded; retry in a few seconds"
    );
}

#[test]
fn uploads_say_first_what_they_are() {
    let mut upload = Upload::new();
    let early = upload.accept(UploadFrame::Chunk(1)).err().unwrap();
    assert_eq!(early.message, "Metadata must be sent before chunk data.");
    assert!(matches!(
        upload.accept(UploadFrame::Metadata("one".into(), "/a".into())),
        Ok(UploadStep::Open)
    ));
    assert!(matches!(upload.accept(UploadFrame::Chunk(134_217_728)), Ok(UploadStep::Write)));
    assert!(matches!(upload.accept(UploadFrame::Empty), Ok(UploadStep::Skip)));
    let twice = upload.accept(UploadFrame::Metadata("one".into(), "/a".into())).err().unwrap();
    assert_eq!(
        (twice.code, twice.message.as_str()),
        (Code::InvalidArgument, "metadata may only be sent once")
    );
    let large = upload.accept(UploadFrame::Chunk(1)).err().unwrap();
    assert_eq!(
        (large.code, large.message.as_str()),
        (Code::ResourceExhausted, "Uploaded file is too large.")
    );
    assert_eq!(upload.finish().unwrap(), ("one".to_string(), "/a".to_string()));
    assert_eq!(Upload::new().finish().unwrap_err().message, "Upload metadata is required.");
}

fn import(size: i64, payload: TransferPayload, chunks: &[usize]) -> Import {
    let mut import = Import::new();
    let metadata = ImportMetadata { server_id: "one".into(), archive_size_bytes: size, payload };
    assert!(!import.accept(ImportFrame::Metadata(metadata)).unwrap());
    for chunk in chunks {
        assert!(import.accept(ImportFrame::Chunk(*chunk)).unwrap());
    }
    import
}

#[test]
fn transfers_are_unpacked_only_as_a_whole() {
    assert_eq!(import(5, TransferPayload::ServerData, &[2, 3]).finish().unwrap(), ImportStep::UnpackServer);
    assert_eq!(import(-1, TransferPayload::LocalBackups, &[2]).finish().unwrap(), ImportStep::UnpackBackups);
    assert_eq!(import(0, TransferPayload::LocalBackups, &[]).finish().unwrap(), ImportStep::Nothing);
    let short = import(6, TransferPayload::ServerData, &[2, 3]).finish().unwrap_err();
    assert_eq!(
        (short.code, short.message.as_str()),
        (Code::DataLoss, "Transfer size mismatch: expected 6 bytes, received 5.")
    );
    assert_eq!(
        import(-1, TransferPayload::ServerData, &[]).finish().unwrap_err().message,
        "Server data transfer was empty."
    );
    let mut early = Import::new();
    assert_eq!(
        early.accept(ImportFrame::Chunk(1)).unwrap_err().message,
        "Metadata must be sent before chunk data."
    );
    assert!(!early.accept(ImportFrame::Empty).unwrap());
    assert_eq!(early.finish().unwrap_err().message, "Import metadata is required.");
    let mut twice = import(5, TransferPayload::ServerData, &[]);
    let again =
        ImportMetadata { server_id: "one".into(), archive_size_bytes: 5, payload: TransferPayload::ServerData };
    assert_eq!(
        twice.accept(ImportFrame::Metadata(again)).unwrap_err().message,
        "Import metadata may only be sent once."
    );
    assert!(export_plan(TransferPayload::ServerData).stop);
    assert!(export_plan(TransferPayload::LocalBackups).backups);
    assert_eq!(import_file_name("u"), "agapornis-transfer-u.tar.gz");
}

#[test]
fn nodes_are_set_up_over_https() {
    assert_eq!(master_address("https://panel.example/").unwrap(), "https://panel.example");
    assert_eq!(master_address("http://localhost:8080").unwrap(), "http://localhost:8080");
    assert!(master_address("http://127.0.0.1").is_ok());
    assert!(master_address("http://127.0.0.1:8080/panel?x#y").is_ok());
    assert!(master_address("http://localhost?x").is_ok());
    assert!(master_address("http://localhost#x").is_ok());
    for foreign in [
        "http://localhost.evil.example",
        "http://localhost.evil.example:80/",
        "http://127.0.0.1.evil.example",
        "http://localhost@evil.example",
        "http://localhost:80@evil.example/x",
        "http://evil.example/localhost",
        "http://",
        "localhost",
    ] {
        assert!(master_address(foreign).is_err());
    }
    assert_eq!(
        master_address("http://panel.example").unwrap_err().message,
        "remote provisioning requires HTTPS (plain HTTP is only allowed for loopback)"
    );
    assert!(https_only("https://a"));
    assert!(!https_only("http://localhost"));
    assert_eq!(provisioning_url("https://a"), "https://a/api/provision/agent");
    assert_eq!(
        provisioning_failure("403 Forbidden", "no").message,
        "provisioning failed (403 Forbidden): no"
    );
    let payload = Json::parse(br#"{"key": "k", "cert": 1}"#).unwrap();
    assert_eq!(required(&payload, "key").unwrap(), "k");
    assert_eq!(
        required(&payload, "cert").unwrap_err().message,
        "provisioning response omitted cert"
    );
    assert_eq!(prompt_answer(" a \n").unwrap(), "a");
    assert_eq!(prompt_answer("\n").unwrap_err().message, "value cannot be empty");
}

#[test]
fn settings_that_are_missing_are_the_usual_ones() {
    let config = DaemonConfig::of(None, None, None, None, None);
    assert_eq!(config.node_id, "");
    assert_eq!(config.agent_cert_path, default_agent_cert());
    assert_eq!(config.agent_key_path, default_agent_key());
    assert_eq!(config.ca_cert_path, default_ca_cert());
    assert_eq!(config.crowd_sec_telemetry.max_alerts, 0);
    let telemetry = CrowdSecTelemetryConfig::of(None, None, None);
    assert_eq!(telemetry.cscli_path, default_cscli());
    assert_eq!(telemetry.max_alerts, default_max_alerts());
    let made = DaemonConfig::provisioned("node-1".into(), "/opt/agent");
    assert_eq!(made.agent_key_path, "/opt/agent/certs/agent.key");
    assert!(!made.crowd_sec_telemetry.enabled);
}

#[test]
fn programs_that_fail_are_explained() {
    assert_eq!(shell_quote("it's"), "'it'\\''s'");
    assert_eq!(run_outcome("tar", true, Some(0), b"out", b"").unwrap(), "out");
    assert!(run_outcome("tar", false, Some(2), b"", b"bad\n").unwrap_err().message.contains("bad"));
    assert!(docker_outcome(false, Some(1), b"", b"gone\n").unwrap_err().message.contains("gone"));
}

#[test]
fn a_replaced_container_is_reported_with_its_image() {
    let done = recreated(Ok(ContainerRecreation {
        image: "java:21".into(),
        image_changed: true,
        previous_image_id: "1".into(),
        image_id: "2".into(),
    }));
    assert!(done.success && done.image_changed);
    assert_eq!((done.image.as_str(), done.previous_image_id.as_str(), done.image_id.as_str()), ("java:21", "1", "2"));
    let failed = recreated(Err(Failure::new("no")));
    assert!(!failed.success && !failed.image_changed);
    assert_eq!(failed.error_message, "no");
}

#[test]
fn files_are_read_as_text() {
    assert_eq!(file_content("a\u{e9}".as_bytes().to_vec()).unwrap(), "a\u{e9}");
    let refused = file_content(vec![0xff]).unwrap_err();
    assert_eq!((refused.code, refused.message.as_str()), (Code::InvalidArgument, "File is not valid UTF-8"));
    assert!(download_ended(true, Some(0)).is_ok());
    assert_eq!(
        download_ended(false, Some(1)).unwrap_err().message,
        "Docker download stream exited with status 1"
    );
    assert_eq!(
        download_ended(false, None).unwrap_err().message,
        "Docker download stream exited with status -1"
    );
}
