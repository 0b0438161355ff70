//! Answers that several services share.

use crate::backup::archive::BackupInfo;
use crate::docker::inspection::Metrics;
use crate::docker::lifecycle::ContainerRecreation;
use crate::error::Failure;
use crate::text;
use vstd::prelude::*;

verus! {

/// The kind of a refusal.
#[derive(Clone, Copy, Debug, PartialEq, Eq, Structural)]
pub enum Code {
    Unauthenticated,
    PermissionDenied,
    InvalidArgument,
    ResourceExhausted,
    DataLoss,
    Internal,
}

/// A request that was refused as a whole.
#[derive(Debug)]
pub struct Status {
    pub code: Code,
    pub message: String,
}

impl Status {
    /// A refusal of the given kind.
    pub fn new(code: Code, message: &str) -> (r: Status)
        ensures
            r.code == code,
            r.message@ == message@,
    {
        Status { code, message: message.to_owned() }
    }
}

/// The request was refused in the given way.
pub open spec fn refused<T>(r: Result<T, Status>, code: Code, message: Seq<char>) -> bool {
    r is Err && r->Err_0.code == code && r->Err_0.message@ == message
}

/// What came of something that was asked of a server.
pub struct ServerActionResponse {
    pub success: bool,
    pub error_message: String,
    pub image: String,
    pub previous_image_id: String,
    pub image_id: String,
    pub image_changed: bool,
}

/// What came of something that was asked of files.
pub struct FileActionResponse {
    pub success: bool,
    pub error_message: String,
}

/// What came of something that was asked of backups.
pub struct BackupActionResponse {
    pub success: bool,
    pub error_message: String,
}

/// Why something failed; empty where it did not.
pub open spec fn message_of<T>(r: Result<T, Failure>) -> Seq<char> {
    match r {
        Ok(_) => ""@,
        Err(e) => e.message@,
    }
}

fn message(r: Result<(), Failure>) -> (s: String)
    ensures
        s@ == message_of(r),
{
    match r {
        Ok(()) => "".to_owned(),
        Err(e) => e.message,
    }
}

/// What came of something that was asked of a server.
pub fn action(result: Result<(), Failure>) -> (r: ServerActionResponse)
    ensures
        r.success == (result is Ok),
        r.error_message@ == message_of(result),
        r.image@.len() == 0,
        r.previous_image_id@.len() == 0,
        r.image_id@.len() == 0,
        !r.image_changed,
{
    let success = result.is_ok();
    ServerActionResponse {
        success,
        error_message: message(result),
        image: String::new(),
        previous_image_id: String::new(),
        image_id: String::new(),
        image_changed: false,
    }
}

/// What came of replacing a server's container.
pub fn recreated(result: Result<ContainerRecreation, Failure>) -> (r: ServerActionResponse)
    ensures
        r.success == (result is Ok),
        result is Ok ==> {
            &&& r.error_message@.len() == 0
            &&& r.image@ == result->Ok_0.image@
            &&& r.previous_image_id@ == result->Ok_0.previous_image_id@
            &&& r.image_id@ == result->Ok_0.image_id@
            &&& r.image_changed == result->Ok_0.image_changed
        },
        result is Err ==> {
            &&& r.error_message@ == result->Err_0.message@
            &&& r.image@.len() == 0
            &&& r.previous_image_id@.len() == 0
            &&& r.image_id@.len() == 0
            &&& !r.image_changed
        },
{
    match result {
        Ok(done) => ServerActionResponse {
            success: true,
            error_message: String::new(),
            image: done.image,
            previous_image_id: done.previous_image_id,
            image_id: done.image_id,
            image_changed: done.image_changed,
        },
        Err(e) => failure(e.message.as_str()),
    }
}

/// That something that was asked of a server failed.
pub fn failure(message: &str) -> (r: ServerActionResponse)
    ensures
        !r.success,
        r.error_message@ == message@,
        r.image@.len() == 0,
        r.previous_image_id@.len() == 0,
        r.image_id@.len() == 0,
        !r.image_changed,
{
    ServerActionResponse {
        success: false,
        error_message: message.to_owned(),
        image: String::new(),
        previous_image_id: String::new(),
        image_id: String::new(),
        image_changed: false,
    }
}

/// What came of something that was asked of files.
pub fn file_action(result: Result<(), Failure>) -> (r: FileActionResponse)
    ensures
        r.success == (result is Ok),
        r.error_message@ == message_of(result),
{
    let success = result.is_ok();
    FileActionResponse { success, error_message: message(result) }
}

/// What came of something that was asked of backups.
pub fn backup_action(result: Result<(), Failure>) -> (r: BackupActionResponse)
    ensures
        r.success == (result is Ok),
        r.error_message@ == message_of(result),
{
    let success = result.is_ok();
    BackupActionResponse { success, error_message: message(result) }
}

/// A refusal because something went wrong.
pub fn internal(e: Failure) -> (r: Status)
    ensures
        r.code == Code::Internal,
        r.message@ == e.message@,
{
    Status { code: Code::Internal, message: e.message }
}

/// Where a request says that a backup is kept: in the object store, or locally.
pub fn storage(value: &str) -> (r: &'static str)
    ensures
        r@ == if text::lowered(value@) == text::lowered("s3"@) {
            "s3"@
        } else {
            "local"@
        },
        crate::backup::archive::valid_storage(r@),
{
    if text::same_ignoring_case(value, "s3") {
        "s3"
    } else {
        "local"
    }
}

/// The checksum that a restore is held to, if a request names one.
pub fn expected_checksum(value: &str) -> (r: Option<&str>)
    ensures
        r == if value@.len() == 0 {
            None
        } else {
            Some(value)
        },
{
    if text::is_empty(value) {
        None
    } else {
        Some(value)
    }
}

/// A backup in an answer.
pub struct BackupEntry {
    pub backup_id: String,
    pub size_bytes: i64,
    pub created_at: String,
    pub checksum_sha256: String,
    pub checksum_type: String,
    pub storage: String,
    pub encrypted: bool,
    pub last_verified_at: String,
    pub expires_at: String,
}

/// A text or the empty one.
pub open spec fn text_or_empty(o: Option<String>) -> Seq<char> {
    match o {
        Some(s) => s@,
        None => Seq::empty(),
    }
}

fn or_empty(o: Option<String>) -> (r: String)
    ensures
        r@ == text_or_empty(o),
{
    match o {
        Some(s) => s,
        None => String::new(),
    }
}

/// A backup in an answer.
pub fn backup_entry(v: BackupInfo) -> (r: BackupEntry)
    ensures
        r.backup_id@ == v.backup_id@,
        r.size_bytes == v.size_bytes,
        r.created_at@ == v.created_at@,
        r.checksum_sha256@ == v.checksum_sha256@,
        r.checksum_type@ == v.checksum_type@,
        r.storage@ == v.storage@,
        r.encrypted == v.encrypted,
        r.last_verified_at@ == text_or_empty(v.last_verified_at),
        r.expires_at@ == text_or_empty(v.expires_at),
{
    BackupEntry {
        backup_id: v.backup_id,
        size_bytes: v.size_bytes,
        created_at: v.created_at,
        checksum_sha256: v.checksum_sha256,
        checksum_type: v.checksum_type,
        storage: v.storage,
        encrypted: v.encrypted,
        last_verified_at: or_empty(v.last_verified_at),
        expires_at: or_empty(v.expires_at),
    }
}

/// What came of making a backup.
pub struct CreateBackupResponse {
    pub success: bool,
    pub backup_id: String,
    pub error_message: String,
    pub size_bytes: i64,
    pub checksum_sha256: String,
    pub checksum_type: String,
    pub storage: String,
    pub encrypted: bool,
}

/// What came of making a backup.
pub fn backup_created(result: Result<BackupInfo, Failure>) -> (r: CreateBackupResponse)
    ensures
        r.success == (result is Ok),
        r.error_message@ == message_of(result),
        match result {
            Ok(v) => {
                &&& r.backup_id@ == v.backup_id@
                &&& r.size_bytes == v.size_bytes
                &&& r.checksum_sha256@ == v.checksum_sha256@
                &&& r.checksum_type@ == v.checksum_type@
                &&& r.storage@ == v.storage@
                &&& r.encrypted == v.encrypted
            },
            Err(_) => {
                &&& r.backup_id@.len() == 0
                &&& r.size_bytes == 0
                &&& r.checksum_sha256@.len() == 0
                &&& r.checksum_type@.len() == 0
                &&& r.storage@.len() == 0
                &&& !r.encrypted
            },
        },
{
    match result {
        Ok(v) => CreateBackupResponse {
            success: true,
            backup_id: v.backup_id,
            error_message: "".to_owned(),
            size_bytes: v.size_bytes,
            checksum_sha256: v.checksum_sha256,
            checksum_type: v.checksum_type,
            storage: v.storage,
            encrypted: v.encrypted,
        },
        Err(e) => CreateBackupResponse {
            success: false,
            backup_id: String::new(),
            error_message: e.message,
            size_bytes: 0,
            checksum_sha256: String::new(),
            checksum_type: String::new(),
            storage: String::new(),
            encrypted: false,
        },
    }
}

/// What a server uses, in an answer; its share of the processor goes beside it.
pub struct ServerMetricsResponse {
    pub memory_usage_bytes: i64,
    pub memory_limit_bytes: i64,
    pub network_read_bytes: i64,
    pub network_write_bytes: i64,
    pub disk_usage_bytes: i64,
    pub disk_limit_bytes: i64,
    pub status: String,
    pub uptime_seconds: i64,
}

/// What a server uses, in an answer.
pub fn server_metrics_response(metrics: Metrics) -> (r: ServerMetricsResponse)
    ensures
        r.memory_usage_bytes == metrics.memory_usage,
        r.memory_limit_bytes == metrics.memory_limit,
        r.network_read_bytes == metrics.network_read,
        r.network_write_bytes == metrics.network_write,
        r.disk_usage_bytes == metrics.disk_usage,
        r.disk_limit_bytes == metrics.disk_limit,
        r.status@ == metrics.status@,
        r.uptime_seconds == metrics.uptime_seconds,
{
    ServerMetricsResponse {
        memory_usage_bytes: metrics.memory_usage,
        memory_limit_bytes: metrics.memory_limit,
        network_read_bytes: metrics.network_read,
        network_write_bytes: metrics.network_write,
        disk_usage_bytes: metrics.disk_usage,
        disk_limit_bytes: metrics.disk_limit,
        status: metrics.status,
        uptime_seconds: metrics.uptime_seconds,
    }
}

} // verus!
