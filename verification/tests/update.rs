use agapornis_agent::update::{
    ConfirmStep,
    activation_state_path, check_pending, check_service_state, failed_path, health_seconds,
    marker_path, pending_path, previous_paths, restart_arguments, restarts_at_once,
    service_state_arguments, staged_paths, staging, systemd_service, ActivationOutcome,
    StageEvent, StageStep, UpdateEvent, UpdateManager, UpdateStage, UpdateStep,
};

const SHA: &str = "ba7816bf8f01cfea414140de5dae2223b00361a396177a9cb410ff61f20015ad";

struct Files {
    exe: Option<&'static str>,
    pending: Option<&'static str>,
    copy: Option<&'static str>,
    previous: Option<&'static str>,
    aside: Option<&'static str>,
    marker: bool,
    state: bool,
}

fn run(files: &mut Files, mut step: UpdateStep) -> ActivationOutcome {
    loop {
        let there = |found: bool| if found { UpdateEvent::Done } else { UpdateEvent::Missing };
        let event = match &step {
            UpdateStep::FindMarker => there(files.marker),
            UpdateStep::FindState => there(files.state),
            UpdateStep::FindPrevious => there(files.previous.is_some()),
            UpdateStep::CopyPrevious => {
                files.copy = files.exe;
                UpdateEvent::Done
            }
            UpdateStep::KeepPrevious => {
                files.previous = files.copy.take();
                UpdateEvent::Done
            }
            UpdateStep::WriteState => {
                files.state = true;
                UpdateEvent::Done
            }
            UpdateStep::Replace => {
                files.exe = files.pending.take();
                UpdateEvent::Done
            }
            UpdateStep::RemoveMarker => {
                files.marker = false;
                UpdateEvent::Done
            }
            UpdateStep::SetAside => {
                files.aside = files.exe.take();
                UpdateEvent::Done
            }
            UpdateStep::RestorePrevious => {
                files.exe = files.previous.take();
                UpdateEvent::Done
            }
            UpdateStep::RemoveState => {
                files.state = false;
                UpdateEvent::Done
            }
            UpdateStep::Finished(outcome) => return *outcome,
            UpdateStep::Failed(message) => panic!("{message}"),
            _ => UpdateEvent::Done,
        };
        step = step.after(event);
    }
}

#[test]
fn activation_and_rollback_preserve_previous_binary() {
    let mut files = Files {
        exe: Some("old binary"),
        pending: Some("new binary"),
        copy: None,
        previous: None,
        aside: None,
        marker: true,
        state: false,
    };
    assert_eq!(run(&mut files, UpdateStep::activation()), ActivationOutcome::Activated);
    assert_eq!(files.exe, Some("new binary"));
    assert_eq!(run(&mut files, UpdateStep::activation()), ActivationOutcome::RolledBack);
    assert_eq!(files.exe, Some("old binary"));
    assert_eq!(run(&mut files, UpdateStep::activation()), ActivationOutcome::NothingPending);
    assert_eq!(run(&mut files, UpdateStep::rollback()), ActivationOutcome::NothingPending);
}

#[test]
fn pending_restart_requires_a_confined_staged_artifact() {
    let exe = "/opt/agent/agapornis-agent";
    assert!(check_pending("/opt/agent/outside.pending", &staging(exe), true).is_err());
    let marker = "/opt/agent/updates/agent.pending";
    let staged = pending_path(marker).unwrap();
    assert!(check_pending(&staged, &staging(exe), true).is_ok());
    assert_eq!(
        check_pending(&staged, &staging(exe), false).unwrap_err().message,
        "pending agent update is outside the update staging directory"
    );
    assert!(check_pending("/opt/agent/updates/deep/agent.pending", &staging(exe), true).is_err());
    assert!(check_pending("/", "/", true).is_err());
    assert!(pending_path(" \n").is_none());
}

#[test]
fn steps_that_fail_are_explained() {
    let failed = |step: UpdateStep| match step.after(UpdateEvent::Failed("cause".into())) {
        UpdateStep::Failed(message) => message,
        _ => String::new(),
    };
    assert_eq!(failed(UpdateStep::ReadPending), "cause");
    assert_eq!(failed(UpdateStep::CopyPrevious), "preserve previous agent binary");
    assert_eq!(failed(UpdateStep::KeepPrevious), "commit previous agent binary");
    assert_eq!(failed(UpdateStep::WriteState), "cause");
    assert_eq!(failed(UpdateStep::Replace), "activate staged agent binary");
    assert_eq!(failed(UpdateStep::RemoveMarker), "cause");
    assert_eq!(failed(UpdateStep::ReadState), "cause");
    assert_eq!(
        failed(UpdateStep::FindPrevious),
        "previous agent binary is unavailable for rollback"
    );
    assert_eq!(failed(UpdateStep::SetAside), "preserve failed agent binary");
    assert_eq!(failed(UpdateStep::RemoveState), "cause");
    assert_eq!(failed(UpdateStep::UndoSetAside), "restore previous agent binary");
    let undo = UpdateStep::RestorePrevious.after(UpdateEvent::Failed("cause".into()));
    assert!(matches!(undo, UpdateStep::UndoSetAside));
    assert!(matches!(UpdateStep::ReadPending.after(UpdateEvent::Missing),
        UpdateStep::Failed(m) if m == "pending agent update marker is empty"));
}

#[test]
fn updates_lie_beside_the_binary() {
    let exe = "/opt/agent/agapornis-agent";
    assert_eq!(staging(exe), "/opt/agent/updates");
    assert_eq!(marker_path(exe), "/opt/agent/updates/pending-artifact");
    assert_eq!(activation_state_path(exe), "/opt/agent/updates/activation-state.json");
    assert_eq!(previous_paths(exe).0, "/opt/agent/updates/previous-agent");
    assert_eq!(failed_path(exe, "20260101000000"), "/opt/agent/updates/failed-agent-20260101000000");
    assert_eq!(
        staged_paths(exe, "u"),
        (
            "/opt/agent/updates/agapornis-agent-u.pending".to_string(),
            "/opt/agent/updates/.pending-artifact-u.tmp".to_string()
        )
    );
}

#[test]
fn updates_need_https_and_a_digest() {
    let refusal = |url: &str, sha: &str| UpdateStage::begin(url, sha).err().map(|e| e.message);
    assert_eq!(refusal("https://x/a", SHA), None);
    assert_eq!(refusal("http://x/a", SHA).unwrap(), "update artifact URL must use HTTPS");
    assert_eq!(refusal("https://x/a", "xyz").unwrap(), "SHA-256 must be hexadecimal");
    assert_eq!(refusal("https://x/a", "00ff").unwrap(), "SHA-256 checksum is required");
}

#[test]
fn updates_are_checked_as_they_come() {
    let begin = || UpdateStage::begin("https://x/a", SHA).ok().unwrap();
    let stage = begin();
    assert!(stage.check_response("https", Some(3)).is_ok());
    assert_eq!(
        stage.check_response("http", None).unwrap_err().message,
        "update redirects must remain on HTTPS"
    );
    assert_eq!(
        stage.check_response("https", Some(536_870_913)).unwrap_err().message,
        "update artifact exceeds 512 MiB limit"
    );
    assert_eq!(stage.finish().unwrap_err().message, "update artifact is empty");
    let mut whole = begin();
    assert!(whole.accept(b"abc").is_ok());
    assert!(whole.finish().is_ok());
    let mut pieces = begin();
    assert!(pieces.accept(b"a").is_ok());
    assert!(pieces.accept(b"").is_ok());
    assert!(pieces.accept(b"bc").is_ok());
    assert_eq!(
        pieces.accept(&vec![0; 536_870_910]).unwrap_err().message,
        "update artifact exceeds 512 MiB limit"
    );
    assert!(pieces.finish().is_ok());
    let mut other = begin();
    assert!(other.accept(b"abd").is_ok());
    assert_eq!(other.finish().unwrap_err().message, "update artifact checksum mismatch");
}

/// The bytes that were fetched, the note and the marker, once the steps ended.
fn stage(body: &[u8], waits: bool, commits: bool) -> (Option<Vec<u8>>, bool, Option<String>) {
    let mut update = UpdateStage::begin("https://x/a", SHA).ok();
    let (mut target, mut note) = (None, false);
    let mut failure = None;
    let mut step = StageStep::first();
    while !matches!(step, StageStep::Staged) && failure.is_none() {
        let event = match &step {
            StageStep::FindPending if !waits => StageEvent::Missing,
            StageStep::FindMarker => StageEvent::Missing,
            StageStep::Receive => match update.as_mut().unwrap().accept(body) {
                Ok(()) => {
                    target = Some(body.to_vec());
                    StageEvent::Done
                }
                Err(e) => StageEvent::Refused(e.message),
            },
            StageStep::CheckSize => match update.as_ref().unwrap().check_size() {
                Ok(()) => StageEvent::Done,
                Err(e) => StageEvent::Refused(e.message),
            },
            StageStep::Sync if body == b"full" => StageEvent::Failed("disk full".into()),
            StageStep::Check => match update.take().unwrap().finish() {
                Ok(()) => StageEvent::Done,
                Err(e) => StageEvent::Refused(e.message),
            },
            StageStep::WriteNote => {
                note = true;
                StageEvent::Done
            }
            StageStep::CommitMarker if !commits => StageEvent::Failed("full".into()),
            StageStep::DiscardNote(_) => {
                note = false;
                StageEvent::Done
            }
            StageStep::Discard(_) => {
                target = None;
                StageEvent::Done
            }
            StageStep::Failed(message) => {
                failure = Some(message.clone());
                StageEvent::Done
            }
            _ => StageEvent::Done,
        };
        step = step.after(event);
    }
    (target, note, failure)
}

#[test]
fn only_verified_updates_are_staged() {
    assert_eq!(stage(b"abc", false, true), (Some(b"abc".to_vec()), true, None));
    let refused = |body: &[u8], waits, commits| {
        let (target, note, failure) = stage(body, waits, commits);
        assert_eq!((target, note), (None, false));
        failure.unwrap()
    };
    assert_eq!(refused(b"", false, true), "update artifact is empty");
    assert_eq!(refused(b"abd", false, true), "update artifact checksum mismatch");
    assert_eq!(refused(b"abc", true, true), "a verified agent update is already staged");
    assert_eq!(refused(b"abc", false, false), "commit pending agent update marker");
    let (target, _, failure) = stage(b"full", false, true);
    assert_eq!(target.unwrap(), b"full");
    assert_eq!(failure.unwrap(), "disk full");
    assert!(matches!(
        StageStep::RemoveMarker.after(StageEvent::Failed("x".into())),
        StageStep::Failed(m) if m == "remove empty pending agent update marker"
    ));
}

#[test]
fn the_service_is_restarted_by_name() {
    assert_eq!(systemd_service(None).unwrap(), "agapornis-agent.service");
    assert_eq!(systemd_service(Some("a@b.service")).unwrap(), "a@b.service");
    for name in ["", "a b", "a;b", &"x".repeat(256)] {
        assert_eq!(
            systemd_service(Some(name)).unwrap_err().message,
            "configured agent systemd service name is invalid"
        );
    }
    assert!(check_service_state(true, b"loaded\n").is_ok());
    assert!(check_service_state(true, b"not-found\n").is_err());
    assert!(check_service_state(false, b"loaded\n").is_err());
    assert_eq!(restart_arguments("a"), ["--no-block", "restart", "a"]);
    assert_eq!(
        service_state_arguments("a"),
        ["show", "--property=LoadState", "--value", "a"]
    );
    assert_eq!(health_seconds(None), 30);
    assert_eq!(health_seconds(Some("45")), 45);
    assert_eq!(health_seconds(Some("0")), 30);
    assert!(restarts_at_once(Some("true")));
    assert!(!restarts_at_once(None));
}

#[test]
fn the_state_of_updates_is_told() {
    let manager = UpdateManager;
    let status = manager.status("1.2.3", "linux", "x86_64", "/opt/agent/a", " /p \n");
    assert_eq!(status.runtime, "linux-x86_64");
    assert_eq!(status.pending, "/p");
    assert!(status.restart_required);
    assert!(!manager.status("1", "linux", "x86_64", "/a", "").restart_required);
    assert_eq!(
        manager.staged("/p").message,
        "Update staged. Restart the agent service to activate it."
    );
    assert_eq!(
        manager.restart_pending(None).unwrap_err().message,
        "no verified agent update is staged for restart"
    );
    assert_eq!(manager.restart_pending(Some("/p".into())).unwrap().staged, "/p");
}

#[test]
fn an_update_that_stays_up_is_confirmed() {
    let mut step = ConfirmStep::first();
    let mut previous = Some("old binary");
    let mut state = true;
    for _ in 0..4 {
        let event = match &step {
            ConfirmStep::FindState if state => UpdateEvent::Done,
            ConfirmStep::FindState => UpdateEvent::Missing,
            ConfirmStep::RemovePrevious => {
                previous = None;
                UpdateEvent::Failed("busy".into())
            }
            ConfirmStep::RemoveState => {
                state = false;
                UpdateEvent::Done
            }
            _ => UpdateEvent::Done,
        };
        step = step.after(event);
    }
    assert!(matches!(step, ConfirmStep::Finished));
    assert_eq!(previous, None);
    assert!(!state);
    assert!(matches!(ConfirmStep::first().after(UpdateEvent::Missing), ConfirmStep::Finished));
    let unread = ConfirmStep::ReadState.after(UpdateEvent::Failed("unreadable".into()));
    assert!(matches!(unread, ConfirmStep::Failed(why) if why == "unreadable"));
}
