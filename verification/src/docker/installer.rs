//! Running a server's installer.

use crate::docker::exec::append_range;
use crate::docker::runtime::MissingStartupTarget;
use crate::error::Failure;
use crate::process::{lossy, lossy_text};
use crate::text;
use vstd::prelude::*;

verus! {

/// The most bytes of installer output that are written to its log.
pub const INSTALLER_LOG_FILE_LIMIT: usize = 8_388_608;

/// The bytes of installer output that are kept to explain a failure.
pub const INSTALLER_LOG_TAIL_BYTES: usize = 65_536;

/// How long the last output of an installer is waited for after it ended, in seconds.
pub const INSTALLER_LOG_DRAIN_SECONDS: u64 = 5;

/// How often an installer is run.
pub const INSTALLER_ATTEMPTS: usize = 2;

/// The pause between two runs, in seconds.
pub const INSTALLER_RETRY_SECONDS: u64 = 1;

/// The end of some bytes, of at most the given length.
pub open spec fn tail(bytes: Seq<u8>, capacity: nat) -> Seq<u8> {
    if bytes.len() <= capacity {
        bytes
    } else {
        bytes.skip(bytes.len() - capacity)
    }
}

/// Appends bytes and keeps the end, of at most the given length.
pub fn append_tail(output: &mut Vec<u8>, bytes: &[u8], capacity: usize)
    ensures
        final(output)@ == tail(old(output)@ + bytes@, capacity as nat),
{
    let ghost was = output@;
    let ghost all = was + bytes@;
    if bytes.len() >= capacity {
        output.clear();
        append_range(output, bytes, bytes.len() - capacity, bytes.len());
        assert(output@ =~= tail(all, capacity as nat));
        return ;
    }
    let keep: usize = capacity - bytes.len();
    if output.len() > keep {
        let start: usize = output.len() - keep;
        let mut kept: Vec<u8> = Vec::new();
        append_range(&mut kept, output.as_slice(), start, output.len());
        *output = kept;
        assert(output@ =~= was.skip(start as int));
    }
    append_range(output, bytes, 0, bytes.len());
    assert(output@ =~= tail(all, capacity as nat));
}

/// A report of progress: the phase, how far it is in percent, and what a user is told.
pub struct Report {
    pub phase: String,
    pub percent: i32,
    pub message: String,
}

/// A report by its contents.
pub open spec fn report_view(r: Report) -> (Seq<char>, i32, Seq<char>) {
    (r.phase@, r.percent, r.message@)
}

/// A report of progress.
pub fn report(phase: &str, percent: i32, message: &str) -> (r: Report)
    ensures
        report_view(r) == (phase@, percent, message@),
{
    Report { phase: phase.to_owned(), percent, message: message.to_owned() }
}

/// The script as it is written to a file: with line feeds for line ends.
pub fn installer_script(script: &str) -> (r: String)
    ensures
        r@ == text::replaced(script@, "\r\n"@, "\n"@),
{
    proof {
        reveal_strlit("\r\n");
    }
    text::replace(script, "\r\n", "\n")
}

/// What an installer runs: its entry point, or a shell, with the script.
pub open spec fn installer_arguments(entrypoint: Seq<char>) -> Seq<Seq<char>> {
    (if text::is_blank(entrypoint) {
        seq!["/bin/sh"@]
    } else {
        text::words_of(entrypoint)
    }).push("/tmp/agapornis-install.sh"@)
}

/// What an installer runs.
pub fn installer_command(entrypoint: &str) -> (r: Vec<String>)
    ensures
        text::views(r@) == installer_arguments(entrypoint@),
{
    let mut command = if text::blank(entrypoint) {
        let shell = text::owned(vec!["/bin/sh"]);
        assert(text::views(shell@) =~= seq!["/bin/sh"@]);
        shell
    } else {
        text::words(entrypoint)
    };
    let ghost before = command@;
    let script = "/tmp/agapornis-install.sh".to_owned();
    command.push(script);
    proof {
        text::lemma_views_push(before, script);
    }
    command
}

/// The environment of an installer: where the server's files go, and the server's own.
pub fn installer_environment(env: &Vec<String>) -> (r: Vec<String>)
    ensures
        text::views(r@) == seq!["SERVER_DIR=/mnt/server"@] + text::views(env@),
{
    let mut out = text::owned(vec!["SERVER_DIR=/mnt/server"]);
    let ghost first = out@;
    let mut own = text::copy_list(env);
    let ghost second = own@;
    out.append(&mut own);
    proof {
        assert(text::views(first) =~= seq!["SERVER_DIR=/mnt/server"@]);
        assert(text::views(out@) =~= text::views(first) + text::views(second));
    }
    out
}

/// The name of an installer's container; `unique` tells it from others.
pub fn installer_name(server_id: &str, unique: &str) -> (r: String)
    ensures
        r@ == server_id@ + "-install-"@ + unique@,
{
    text::concat3(server_id, "-install-", unique)
}

/// A directory or a file of the host that a container sees.
#[derive(Debug)]
pub struct BindMount {
    pub source: String,
    pub target: String,
    pub read_only: bool,
}

/// A container that runs an installer. Its output is followed, and its image's own entry point is
/// not used.
#[derive(Debug)]
pub struct InstallerPlan {
    pub image: String,
    pub working_dir: String,
    pub entrypoint: Vec<String>,
    pub cmd: Vec<String>,
    pub env: Vec<String>,
    pub server: BindMount,
    pub script: BindMount,
}

/// The container that runs an installer: the server's files are where it may write, and its script
/// is where it may not.
pub fn installer_container(
    image: &str,
    entrypoint: &str,
    env: &Vec<String>,
    host_source: String,
    script_source: String,
) -> (r: InstallerPlan)
    ensures
        r.image@ == image@,
        r.working_dir@ == "/mnt/server"@,
        text::views(r.entrypoint@) == seq![""@],
        text::views(r.cmd@) == installer_arguments(entrypoint@),
        text::views(r.env@) == seq!["SERVER_DIR=/mnt/server"@] + text::views(env@),
        r.server.source@ == host_source@,
        r.server.target@ == "/mnt/server"@,
        !r.server.read_only,
        r.script.source@ == script_source@,
        r.script.target@ == "/tmp/agapornis-install.sh"@,
        r.script.read_only,
{
    let reset = text::owned(vec![""]);
    assert(text::views(reset@) =~= seq![""@]);
    InstallerPlan {
        image: image.to_owned(),
        working_dir: "/mnt/server".to_owned(),
        entrypoint: reset,
        cmd: installer_command(entrypoint),
        env: installer_environment(env),
        server: BindMount {
            source: host_source,
            target: "/mnt/server".to_owned(),
            read_only: false,
        },
        script: BindMount {
            source: script_source,
            target: "/tmp/agapornis-install.sh".to_owned(),
            read_only: true,
        },
    }
}

/// Files that a completed installation holds beyond the server's disk space.
#[derive(Debug, PartialEq, Eq, Structural)]
pub struct ProvisionedPayloadDiskLimitExceeded {
    pub usage: i64,
    pub limit: i64,
}

impl ProvisionedPayloadDiskLimitExceeded {
    /// What a user is told.
    pub fn message(&self) -> (r: String)
        ensures
            r@ == "Completed server files exceed the disk allocation ("@ + text::signed_decimal(
                self.usage as int,
            ) + " / "@ + text::signed_decimal(self.limit as int)
                + " bytes). Increase the server disk allocation or reduce the installed payload before retrying."@,
    {
        let usage = text::signed_decimal_string(self.usage);
        let limit = text::signed_decimal_string(self.limit);
        text::concat5(
            "Completed server files exceed the disk allocation (",
            usage.as_str(),
            " / ",
            limit.as_str(),
            " bytes). Increase the server disk allocation or reduce the installed payload before retrying.",
        )
    }
}

/// Whether a completed installation holds more than the server's disk space; a limit that is not
/// positive is none.
pub fn provisioned_payload_disk_limit_exceeded(usage: i64, limit: i64) -> (r: Option<
    ProvisionedPayloadDiskLimitExceeded,
>)
    ensures
        r == if limit > 0 && usage > limit {
            Some(ProvisionedPayloadDiskLimitExceeded { usage, limit })
        } else {
            None
        },
{
    if limit > 0 && usage > limit {
        Some(ProvisionedPayloadDiskLimitExceeded { usage, limit })
    } else {
        None
    }
}

/// How Docker says that a container ended.
pub enum WaitOutcome {
    /// With a status, and a message if there is one.
    Exited(i64, Option<String>),
    /// With a status that Docker reports as an error.
    Errored(String, i64),
    /// It could not be waited for.
    Lost(Failure),
}

/// The status and the message of a container that ended.
pub open spec fn exit_of(outcome: WaitOutcome) -> Result<(i64, Option<Seq<char>>), Seq<char>> {
    match outcome {
        WaitOutcome::Exited(status, message) => Ok((status, text::opt_view(message))),
        WaitOutcome::Errored(error, code) => Ok(
            (
                code,
                if text::is_blank(error@) {
                    None
                } else {
                    Some(error@)
                },
            ),
        ),
        WaitOutcome::Lost(e) => Err(e.message@),
    }
}

/// The status and the message of a container that ended: a status that Docker reports as an error
/// is a status.
pub fn installer_exit_status(outcome: WaitOutcome) -> (r: Result<(i64, Option<String>), Failure>)
    ensures
        match exit_of(outcome) {
            Ok((status, message)) => r is Ok && r->Ok_0.0 == status && text::opt_view(r->Ok_0.1)
                == message,
            Err(m) => r is Err && r->Err_0.message@ == m,
        },
{
    match outcome {
        WaitOutcome::Exited(status, message) => Ok((status, message)),
        WaitOutcome::Errored(error, code) => {
            if text::blank(error.as_str()) {
                Ok((code, None))
            } else {
                Ok((code, Some(error)))
            }
        },
        WaitOutcome::Lost(e) => Err(e),
    }
}

/// What happens while an installer runs.
pub enum InstallerEvent {
    /// It wrote these bytes.
    Output(Vec<u8>),
    /// Its output ended.
    OutputClosed,
    /// Its output could not be read.
    OutputFailed,
    /// It ended.
    Ended(WaitOutcome),
    /// Docker stopped saying whether it ended.
    WaitClosed,
    /// Its last output did not come in time.
    DrainTimedOut,
}

/// What is done next about an installer.
pub enum InstallerAction {
    /// Write so many of the bytes that came to the log, and go on.
    Write(usize),
    /// Go on.
    Continue,
    /// Read what output is left, for a limited time.
    Drain,
    /// It is over.
    Finish(Result<(), Failure>),
}

/// A run of an installer.
pub struct InstallerSession {
    pub logged: usize,
    pub tail: Vec<u8>,
    pub output_closed: bool,
    pub exit: Option<(i64, Option<String>)>,
}

/// How an installer that ended explains itself.
pub open spec fn exit_message(status: i64, tail: Seq<u8>, error: Option<Seq<char>>) -> Seq<char> {
    let shown = text::trimmed(lossy(tail));
    "installer container exited with status "@ + text::signed_decimal(status as int) + ": "@ + (
    if shown.len() > 0 {
        shown
    } else {
        match error {
            Some(e) => e,
            None => "installer returned no output"@,
        }
    })
}

fn exit_result(status: i64, tail: &Vec<u8>, error: &Option<String>) -> (r: Result<(), Failure>)
    ensures
        r is Ok <==> status == 0,
        r is Err ==> r->Err_0.message@ == exit_message(status, tail@, text::opt_view(*error)),
{
    if status == 0 {
        return Ok(());
    }
    let shown = text::trim(lossy_text(tail.as_slice()).as_str());
    let detail = if !text::is_empty(shown.as_str()) {
        shown
    } else {
        match error {
            Some(e) => e.as_str().to_owned(),
            None => "installer returned no output".to_owned(),
        }
    };
    let number = text::signed_decimal_string(status);
    Err(
        Failure {
            message: text::concat4(
                "installer container exited with status ",
                number.as_str(),
                ": ",
                detail.as_str(),
            ),
        },
    )
}

/// The number of bytes of a chunk for which the log has room.
pub open spec fn log_share(logged: nat, chunk: nat) -> nat {
    let left = if logged <= INSTALLER_LOG_FILE_LIMIT {
        (INSTALLER_LOG_FILE_LIMIT - logged) as nat
    } else {
        0
    };
    if chunk <= left {
        chunk
    } else {
        left
    }
}

/// An action with the given result ends the run.
pub open spec fn finishes(
    a: InstallerAction,
    status: i64,
    tail: Seq<u8>,
    error: Option<Seq<char>>,
) -> bool {
    &&& a is Finish
    &&& a->Finish_0 is Ok <==> status == 0
    &&& a->Finish_0 is Err ==> a->Finish_0->Err_0.message@ == exit_message(status, tail, error)
}

/// An action with the given failure ends the run.
pub open spec fn fails(a: InstallerAction, message: Seq<char>) -> bool {
    a is Finish && a->Finish_0 is Err && a->Finish_0->Err_0.message@ == message
}

impl InstallerSession {
    /// No more was written to the log than it has room for.
    pub open spec fn wf(&self) -> bool {
        &&& self.logged <= INSTALLER_LOG_FILE_LIMIT
        &&& self.tail@.len() <= INSTALLER_LOG_TAIL_BYTES
    }

    /// The session holds the output of another one, and the same facts about its end.
    pub open spec fn same_log(&self, other: &InstallerSession) -> bool {
        self.logged == other.logged && self.tail@ == other.tail@
    }

    /// A run that has written nothing.
    pub fn new() -> (r: InstallerSession)
        ensures
            r.wf(),
            r.logged == 0,
            r.tail@.len() == 0,
            !r.output_closed,
            r.exit is None,
    {
        InstallerSession { logged: 0, tail: Vec::new(), output_closed: false, exit: None }
    }

    /// Takes in what happened and says what is done next. The run is over when Docker says that
    /// the container ended and its output was read to the end, or was waited for long enough;
    /// the end of the output alone does not end it.
    pub fn on_event(&mut self, event: InstallerEvent) -> (r: InstallerAction)
        requires
            old(self).wf(),
        ensures
            final(self).wf(),
            match event {
                InstallerEvent::Output(bytes) => {
                    let share = log_share(old(self).logged as nat, bytes@.len());
                    &&& r is Write
                    &&& r->Write_0 == share
                    &&& final(self).logged == old(self).logged + share
                    &&& final(self).tail@ == tail(
                        old(self).tail@ + bytes@,
                        INSTALLER_LOG_TAIL_BYTES as nat,
                    )
                    &&& final(self).output_closed == old(self).output_closed
                    &&& final(self).exit == old(self).exit
                },
                InstallerEvent::OutputClosed => {
                    &&& final(self).same_log(old(self))
                    &&& final(self).output_closed
                    &&& final(self).exit == old(self).exit
                    &&& match old(self).exit {
                        Some((status, error)) => finishes(
                            r,
                            status,
                            old(self).tail@,
                            text::opt_view(error),
                        ),
                        None => r is Continue,
                    }
                },
                InstallerEvent::OutputFailed => {
                    &&& *final(self) == *old(self)
                    &&& fails(r, "read installer output"@)
                },
                InstallerEvent::WaitClosed => {
                    &&& *final(self) == *old(self)
                    &&& fails(r, "installer wait stream ended unexpectedly"@)
                },
                InstallerEvent::Ended(outcome) => {
                    &&& final(self).same_log(old(self))
                    &&& final(self).output_closed == old(self).output_closed
                    &&& match exit_of(outcome) {
                        Err(_) => fails(r, "wait for installer container"@),
                        Ok((status, error)) => {
                            &&& final(self).exit is Some
                            &&& (final(self).exit->0).0 == status
                            &&& text::opt_view((final(self).exit->0).1) == error
                            &&& if old(self).output_closed {
                                finishes(r, status, old(self).tail@, error)
                            } else {
                                r is Drain
                            }
                        },
                    }
                },
                InstallerEvent::DrainTimedOut => {
                    &&& *final(self) == *old(self)
                    &&& match old(self).exit {
                        Some((status, error)) => finishes(
                            r,
                            status,
                            old(self).tail@,
                            text::opt_view(error),
                        ),
                        None => r is Continue,
                    }
                },
            },
    {
        match event {
            InstallerEvent::Output(bytes) => {
                let left: usize = INSTALLER_LOG_FILE_LIMIT - self.logged;
                let share: usize = if bytes.len() <= left {
                    bytes.len()
                } else {
                    left
                };
                self.logged = self.logged + share;
                append_tail(&mut self.tail, bytes.as_slice(), INSTALLER_LOG_TAIL_BYTES);
                InstallerAction::Write(share)
            },
            InstallerEvent::OutputClosed => {
                self.output_closed = true;
                match &self.exit {
                    Some((status, error)) => InstallerAction::Finish(
                        exit_result(*status, &self.tail, error),
                    ),
                    None => InstallerAction::Continue,
                }
            },
            InstallerEvent::OutputFailed => InstallerAction::Finish(
                Err(Failure::new("read installer output")),
            ),
            InstallerEvent::WaitClosed => InstallerAction::Finish(
                Err(Failure::new("installer wait stream ended unexpectedly")),
            ),
            InstallerEvent::Ended(outcome) => {
                match installer_exit_status(outcome) {
                    Ok((status, error)) => {
                        let action = if self.output_closed {
                            InstallerAction::Finish(exit_result(status, &self.tail, &error))
                        } else {
                            InstallerAction::Drain
                        };
                        self.exit = Some((status, error));
                        action
                    },
                    Err(_) => InstallerAction::Finish(
                        Err(Failure::new("wait for installer container")),
                    ),
                }
            },
            InstallerEvent::DrainTimedOut => {
                match &self.exit {
                    Some((status, error)) => InstallerAction::Finish(
                        exit_result(*status, &self.tail, error),
                    ),
                    None => InstallerAction::Continue,
                }
            },
        }
    }
}

/// What a run left behind.
pub enum InstallerPostcondition {
    Ready,
    Retry(MissingStartupTarget),
    Failed(MissingStartupTarget),
}

/// Judges a run that succeeded, by whether the startup file is there: the first time it is
/// missing the installer is run again.
pub fn installer_postcondition(missing: Option<MissingStartupTarget>, attempt: usize) -> (r:
    InstallerPostcondition)
    ensures
        match missing {
            None => r is Ready,
            Some(m) => if attempt < INSTALLER_ATTEMPTS {
                r == InstallerPostcondition::Retry(m)
            } else {
                r == InstallerPostcondition::Failed(m)
            },
        },
{
    match missing {
        None => InstallerPostcondition::Ready,
        Some(m) => if attempt < INSTALLER_ATTEMPTS {
            InstallerPostcondition::Retry(m)
        } else {
            InstallerPostcondition::Failed(m)
        },
    }
}

/// What a user is told when the run with the given number, counted from 1, begins.
pub fn attempt_report(attempt: usize) -> (r: Report)
    ensures
        report_view(r) == if attempt == 1 {
            (
                "installing-server"@,
                40i32,
                "Installing required packages and server files"@,
            )
        } else {
            (
                "retrying-installer"@,
                54i32,
                "Retrying the installer to recover the missing startup target"@,
            )
        },
{
    if attempt == 1 {
        report("installing-server", 40, "Installing required packages and server files")
    } else {
        report(
            "retrying-installer",
            54,
            "Retrying the installer to recover the missing startup target",
        )
    }
}

/// What follows a run of an installer.
pub enum InstallerNext {
    Done(Report),
    /// Run it again after a pause.
    Again(Report),
    Fail(Failure),
}

/// What follows a run that succeeded: the installation is done, the installer is run once more,
/// or it has failed for good.
pub fn after_attempt(outcome: InstallerPostcondition) -> (r: InstallerNext)
    ensures
        match outcome {
            InstallerPostcondition::Ready => r is Done && report_view(r->Done_0) == (
                "finishing-installer"@,
                58i32,
                "Finalizing installed files and removing the installer container"@,
            ),
            InstallerPostcondition::Retry(m) => r is Again && report_view(r->Again_0) == (
                "retrying-installer"@,
                52i32,
                "Installer did not create startup target '"@ + m.target@ + "'; retrying once"@,
            ),
            InstallerPostcondition::Failed(m) => r is Fail && r->Fail_0.message@
                == "Installer completed 2 attempts, but startup target '"@ + m.target@
                + "' is still missing at '"@ + m.resolved@
                + "'. Check .agapornis-install.log in the server root for the installer error."@,
        },
{
    match outcome {
        InstallerPostcondition::Ready => InstallerNext::Done(
            report(
                "finishing-installer",
                58,
                "Finalizing installed files and removing the installer container",
            ),
        ),
        InstallerPostcondition::Retry(m) => {
            let message = text::concat3(
                "Installer did not create startup target '",
                m.target.as_str(),
                "'; retrying once",
            );
            InstallerNext::Again(report("retrying-installer", 52, message.as_str()))
        },
        InstallerPostcondition::Failed(m) => InstallerNext::Fail(
            Failure {
                message: text::concat5(
                    "Installer completed 2 attempts, but startup target '",
                    m.target.as_str(),
                    "' is still missing at '",
                    m.resolved.as_str(),
                    "'. Check .agapornis-install.log in the server root for the installer error.",
                ),
            },
        ),
    }
}

// ---------------------------------------------------------------------------------------------
// Laws.

/// What is kept of the output does not depend on how it was cut into chunks.
pub proof fn law_tail_of_chunks(a: Seq<u8>, b: Seq<u8>, c: Seq<u8>, capacity: nat)
    ensures
        tail(tail(a + b, capacity) + c, capacity) == tail(a + (b + c), capacity),
{
    assert(tail(tail(a + b, capacity) + c, capacity) =~= tail(a + (b + c), capacity));
}

/// The end of an installer's output is kept: the last bytes, as many as there are or as fit.
pub proof fn law_the_end_of_the_output_is_kept(bytes: Seq<u8>, capacity: nat, i: int)
    ensures
        tail(bytes, capacity).len() == if bytes.len() <= capacity {
            bytes.len()
        } else {
            capacity
        },
        0 <= i < tail(bytes, capacity).len() ==> tail(bytes, capacity)[i] == bytes[bytes.len()
            - tail(bytes, capacity).len() + i],
{
}

/// An installer runs its script: the script stands last, behind the words of the entry point, and
/// behind a shell where none is given.
pub proof fn law_installers_run_their_script(entrypoint: Seq<char>)
    ensures
        installer_arguments(entrypoint).last() == "/tmp/agapornis-install.sh"@,
        !text::is_blank(entrypoint) ==> installer_arguments(entrypoint).drop_last()
            == text::words_of(entrypoint),
        text::is_blank(entrypoint) ==> installer_arguments(entrypoint).drop_last() == seq![
            "/bin/sh"@,
        ],
{
    let s = installer_arguments(entrypoint);
    if text::is_blank(entrypoint) {
        assert(s.drop_last() =~= seq!["/bin/sh"@]);
    } else {
        assert(s.drop_last() =~= text::words_of(entrypoint));
    }
}

/// An installer succeeded exactly where its container ended with the status zero; one that could
/// not be waited for, or that ended with another status, failed.
pub proof fn law_installers_succeed_with_status_zero(
    outcome: WaitOutcome,
    action: InstallerAction,
    output: Seq<u8>,
)
    ensures
        outcome is Exited ==> exit_of(outcome) is Ok && exit_of(outcome)->Ok_0.0
            == outcome->Exited_0,
        outcome is Errored ==> exit_of(outcome) is Ok && exit_of(outcome)->Ok_0.0
            == outcome->Errored_1,
        outcome is Errored && !text::is_blank(outcome->Errored_0@) ==> exit_of(outcome)->Ok_0.1
            == Some(outcome->Errored_0@),
        outcome is Lost ==> exit_of(outcome) == Err::<(i64, Option<Seq<char>>), Seq<char>>(
            outcome->Lost_0.message@,
        ),
        exit_of(outcome) is Ok && finishes(
            action,
            exit_of(outcome)->Ok_0.0,
            output,
            exit_of(outcome)->Ok_0.1,
        ) ==> action is Finish && (action->Finish_0 is Ok <==> exit_of(outcome)->Ok_0.0 == 0),
{
}

/// An installer that failed is reported with its status and the end of its output; with Docker's
/// own message where it wrote nothing.
pub proof fn law_failed_installers_are_quoted(status: i64, output: Seq<u8>, error: Option<Seq<char>>)
    ensures
        ({
            let head = "installer container exited with status "@ + text::signed_decimal(
                status as int,
            ) + ": "@;
            let shown = text::trimmed(lossy(output));
            &&& shown.len() > 0 ==> exit_message(status, output, error) == head + shown
            &&& shown.len() == 0 && error is Some ==> exit_message(status, output, error) == head
                + error->0
        }),
{
}

/// Output goes to the log whole while it fits; beyond that the log is filled up and no further.
pub proof fn law_logs_are_filled_up(logged: nat, chunk: nat)
    requires
        logged <= INSTALLER_LOG_FILE_LIMIT,
    ensures
        logged + log_share(logged, chunk) <= INSTALLER_LOG_FILE_LIMIT,
        logged + chunk <= INSTALLER_LOG_FILE_LIMIT ==> log_share(logged, chunk) == chunk,
        logged + chunk > INSTALLER_LOG_FILE_LIMIT ==> logged + log_share(logged, chunk)
            == INSTALLER_LOG_FILE_LIMIT,
{
}

} // verus!
