//! What is asked of servers: commands, creation, and consoles.

use crate::error::Failure;
use crate::paths;
use crate::protection::{one_more, ProtectionState, Rate};
use crate::services::responses::{failure, message_of, ServerActionResponse};
use crate::text;
use vstd::prelude::*;

verus! {

/// The most bytes of a command.
pub const MAX_COMMAND_BYTES: usize = 4096;

/// Why a command is refused before it is counted; none where it is not.
pub open spec fn command_refusal(id: Seq<char>, command: Seq<char>) -> Option<Seq<char>> {
    if !paths::valid_id(id) {
        Some("invalid server id"@)
    } else if text::is_blank(command) {
        Some("command cannot be empty"@)
    } else if text::byte_len(command) > MAX_COMMAND_BYTES {
        Some("command exceeds the 4096 character limit"@)
    } else {
        None
    }
}

/// Lets a command through, or answers why it is refused: it is for no server, empty, too long, or
/// one too many. Only a command that could be sent is counted.
pub fn check_command(protection: &mut ProtectionState, id: &str, command: &str, now: u64) -> (r:
    Option<ServerActionResponse>)
    ensures
        final(protection).same_limits(old(protection)),
        final(protection).console@ == old(protection).console@,
        final(protection).statuses@ == old(protection).statuses@,
        final(protection).recovery@ == old(protection).recovery@,
        match command_refusal(id@, command@) {
            Some(m) => {
                &&& final(protection).commands@ == old(protection).commands@
                &&& r is Some
                &&& !r->0.success
                &&& r->0.error_message@ == m
            },
            None => {
                let rate = old(protection).command_rate_at(id@, now);
                &&& final(protection).commands@ == old(protection).commands@.insert(
                    id@,
                    Rate { started: rate.started, count: one_more(rate.count) },
                )
                &&& r is None <==> one_more(rate.count) <= old(
                    protection,
                ).console_commands_per_5_seconds
                &&& r is Some ==> !r->0.success && r->0.error_message@
                    == "console command rate limit exceeded; retry in a few seconds"@
            },
        },
{
    if let Err(e) = paths::validate_id(id) {
        return Some(failure(e.message.as_str()));
    }
    if text::blank(command) {
        return Some(failure("command cannot be empty"));
    }
    if text::byte_length(command) > MAX_COMMAND_BYTES {
        return Some(failure("command exceeds the 4096 character limit"));
    }
    if !protection.accept_command(id, now) {
        return Some(failure("console command rate limit exceeded; retry in a few seconds"));
    }
    None
}

/// What is shown where a viewer was too slow for a console.
pub fn lag_notice(lines: u64) -> (r: String)
    ensures
        r@ == "[agent] console stream dropped "@ + text::decimal(lines as nat) + " lines"@,
{
    let number = text::decimal_string(lines);
    text::concat3("[agent] console stream dropped ", number.as_str(), " lines")
}

/// What came of creating a server.
pub struct CreateServerResponse {
    pub success: bool,
    pub assigned_host_port: i32,
    pub error_message: String,
}

/// What came of creating a server.
pub fn created(result: Result<i32, Failure>) -> (r: CreateServerResponse)
    ensures
        r.success == (result is Ok),
        r.error_message@ == message_of(result),
        r.assigned_host_port == match result {
            Ok(port) => port,
            Err(_) => 0,
        },
{
    match result {
        Ok(port) => CreateServerResponse {
            success: true,
            assigned_host_port: port,
            error_message: "".to_owned(),
        },
        Err(e) => CreateServerResponse {
            success: false,
            assigned_host_port: 0,
            error_message: e.message,
        },
    }
}

/// How far the creation of a server is.
pub struct CreateServerProgress {
    pub phase: String,
    pub progress: i32,
    pub message: String,
    pub complete: bool,
    pub success: bool,
    pub assigned_host_port: i32,
    pub error_message: String,
}

/// How far the creation of a server is, before it ended.
pub fn creation_progress(phase: &str, progress: i32, message: &str) -> (r: CreateServerProgress)
    ensures
        r.phase@ == phase@,
        r.progress == progress,
        r.message@ == message@,
        !r.complete,
        !r.success,
        r.assigned_host_port == 0,
        r.error_message@.len() == 0,
{
    CreateServerProgress {
        phase: phase.to_owned(),
        progress,
        message: message.to_owned(),
        complete: false,
        success: false,
        assigned_host_port: 0,
        error_message: String::new(),
    }
}

/// How the creation of a server ended.
pub fn creation_ended(result: Result<i32, Failure>) -> (r: CreateServerProgress)
    ensures
        r.progress == 100,
        r.complete,
        r.success == (result is Ok),
        match result {
            Ok(port) => {
                &&& r.phase@ == "complete"@
                &&& r.message@ == "Server container is ready"@
                &&& r.assigned_host_port == port
                &&& r.error_message@.len() == 0
            },
            Err(e) => {
                &&& r.phase@ == "failed"@
                &&& r.message@ == "Server provisioning failed"@
                &&& r.assigned_host_port == 0
                &&& r.error_message@ == e.message@
            },
        },
{
    match result {
        Ok(port) => CreateServerProgress {
            phase: "complete".to_owned(),
            progress: 100,
            message: "Server container is ready".to_owned(),
            complete: true,
            success: true,
            assigned_host_port: port,
            error_message: String::new(),
        },
        Err(e) => CreateServerProgress {
            phase: "failed".to_owned(),
            progress: 100,
            message: "Server provisioning failed".to_owned(),
            complete: true,
            success: false,
            assigned_host_port: 0,
            error_message: e.message,
        },
    }
}

/// What came of testing the connection to a database.
pub struct DatabaseConnectionTestResponse {
    pub success: bool,
    pub error_message: String,
    pub latency_ms: i64,
}

/// What came of testing the connection to a database.
pub fn connection_tested(result: Result<i64, Failure>) -> (r: DatabaseConnectionTestResponse)
    ensures
        r.success == (result is Ok),
        r.error_message@ == message_of(result),
        r.latency_ms == match result {
            Ok(n) => n,
            Err(_) => 0,
        },
{
    match result {
        Ok(latency_ms) => DatabaseConnectionTestResponse {
            success: true,
            error_message: "".to_owned(),
            latency_ms,
        },
        Err(e) => DatabaseConnectionTestResponse {
            success: false,
            error_message: e.message,
            latency_ms: 0,
        },
    }
}

/// What came of staging an update.
pub struct ApplyUpdateResponse {
    pub success: bool,
    pub message: String,
    pub staged_path: String,
    pub restart_required: bool,
}

/// What came of staging an update.
pub fn update_staged(result: Result<crate::update::UpdateResult, Failure>) -> (r:
    ApplyUpdateResponse)
    ensures
        r.success == (result is Ok),
        match result {
            Ok(v) => r.message@ == v.message@ && r.staged_path@ == v.staged@ && r.restart_required
                == v.restart_required,
            Err(e) => r.message@ == e.message@ && r.staged_path@ == ""@ && !r.restart_required,
        },
{
    match result {
        Ok(v) => ApplyUpdateResponse {
            success: true,
            message: v.message,
            staged_path: v.staged,
            restart_required: v.restart_required,
        },
        Err(e) => ApplyUpdateResponse {
            success: false,
            message: e.message,
            staged_path: "".to_owned(),
            restart_required: false,
        },
    }
}

/// What came of changing the agent's certificate.
pub struct CertificateActionResponse {
    pub success: bool,
    pub fingerprint: String,
    pub error_message: String,
}

/// What came of changing the agent's certificate.
pub fn certificate_changed(result: Result<String, Failure>) -> (r: CertificateActionResponse)
    ensures
        r.success == (result is Ok),
        r.error_message@ == message_of(result),
        r.fingerprint@ == match result {
            Ok(s) => s@,
            Err(_) => ""@,
        },
{
    match result {
        Ok(fingerprint) => CertificateActionResponse {
            success: true,
            fingerprint,
            error_message: "".to_owned(),
        },
        Err(e) => CertificateActionResponse {
            success: false,
            fingerprint: "".to_owned(),
            error_message: e.message,
        },
    }
}

/// A command is taken exactly where its server has a proper name and it is neither blank nor longer
/// than 4096 bytes.
pub proof fn law_proper_commands_are_taken(id: Seq<char>, command: Seq<char>)
    ensures
        command_refusal(id, command) is None <==> paths::valid_id(id) && !text::is_blank(command)
            && text::byte_len(command) <= 4096,
{
}

} // verus!
