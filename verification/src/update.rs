//! Updates of the agent's own binary: fetched and checked beside it, put in its place at the next
//! start, and taken back where the new one does not stay up.

use crate::digest;
use crate::digest::{sha256_input, Sha256Hasher};
use crate::error::Failure;
use crate::paths;
use crate::process::{lossy, lossy_text};
use crate::text;
use vstd::prelude::*;

verus! {

/// The most bytes of an update.
pub const MAX_UPDATE_BYTES: u64 = 536_870_912;

/// Fetches, activates and takes back updates.
pub struct UpdateManager;

/// What is known of the agent's binary.
#[derive(Debug)]
pub struct UpdateStatus {
    pub version: String,
    pub runtime: String,
    pub executable: String,
    pub staging: String,
    pub pending: String,
    pub restart_required: bool,
}

/// What came of a request for an update.
#[derive(Debug)]
pub struct UpdateResult {
    pub message: String,
    pub staged: String,
    pub restart_required: bool,
}

/// What came of looking for an update at the start.
#[derive(Debug, PartialEq, Eq, Clone, Copy, Structural)]
pub enum ActivationOutcome {
    NothingPending,
    Activated,
    RolledBack,
}

/// The directory that updates are kept in: beside the binary.
pub open spec fn staging_of(exe: Seq<char>) -> Seq<char> {
    paths::joined(
        match paths::parent_of(exe) {
            Some(dir) => dir,
            None => "."@,
        },
        "updates"@,
    )
}

/// The directory that updates are kept in: beside the binary.
pub fn staging(exe: &str) -> (r: String)
    ensures
        r@ == staging_of(exe@),
{
    let dir = match paths::parent(exe) {
        Some(dir) => dir,
        None => ".".to_owned(),
    };
    paths::join_path(dir.as_str(), "updates")
}

/// The file that names the update to activate.
pub fn marker_path(exe: &str) -> (r: String)
    ensures
        r@ == paths::joined(staging_of(exe@), "pending-artifact"@),
{
    let dir = staging(exe);
    paths::join_path(dir.as_str(), "pending-artifact")
}

/// The file that says that an update was activated and not confirmed yet.
pub fn activation_state_path(exe: &str) -> (r: String)
    ensures
        r@ == paths::joined(staging_of(exe@), "activation-state.json"@),
{
    let dir = staging(exe);
    paths::join_path(dir.as_str(), "activation-state.json")
}

/// The binary that an update replaced, and the name that it is copied to first.
pub fn previous_paths(exe: &str) -> (r: (String, String))
    ensures
        r.0@ == paths::joined(staging_of(exe@), "previous-agent"@),
        r.1@ == paths::joined(staging_of(exe@), "previous-agent.tmp"@),
{
    let dir = staging(exe);
    (
        paths::join_path(dir.as_str(), "previous-agent"),
        paths::join_path(dir.as_str(), "previous-agent.tmp"),
    )
}

/// Where a binary goes that did not stay up.
pub fn failed_path(exe: &str, stamp: &str) -> (r: String)
    ensures
        r@ == paths::joined(staging_of(exe@), "failed-agent-"@ + stamp@),
{
    let dir = staging(exe);
    let name = text::concat2("failed-agent-", stamp);
    paths::join_path(dir.as_str(), name.as_str())
}

/// Where an update is fetched to, and where the file that names it is written first; `unique` is
/// to be different each time.
pub fn staged_paths(exe: &str, unique: &str) -> (r: (String, String))
    ensures
        r.0@ == paths::joined(staging_of(exe@), "agapornis-agent-"@ + unique@ + ".pending"@),
        r.1@ == paths::joined(staging_of(exe@), ".pending-artifact-"@ + unique@ + ".tmp"@),
{
    let dir = staging(exe);
    let target = text::concat3("agapornis-agent-", unique, ".pending");
    let marker = text::concat3(".pending-artifact-", unique, ".tmp");
    (
        paths::join_path(dir.as_str(), target.as_str()),
        paths::join_path(dir.as_str(), marker.as_str()),
    )
}

impl UpdateManager {
    /// What is known of the agent's binary; `marker` is what the file that names an update holds.
    pub fn status(&self, version: &str, os: &str, arch: &str, exe: &str, marker: &str) -> (r:
        UpdateStatus)
        ensures
            r.version@ == version@,
            r.runtime@ == os@ + "-"@ + arch@,
            r.executable@ == exe@,
            r.staging@ == staging_of(exe@),
            r.pending@ == text::trimmed(marker@),
            r.restart_required == (text::trimmed(marker@).len() > 0),
    {
        let pending = text::trim(marker);
        let restart_required = !text::is_empty(pending.as_str());
        UpdateStatus {
            version: version.to_owned(),
            runtime: text::concat3(os, "-", arch),
            executable: exe.to_owned(),
            staging: staging(exe),
            pending,
            restart_required,
        }
    }

    /// What is answered once an update was staged.
    pub fn staged(&self, target: &str) -> (r: UpdateResult)
        ensures
            r.message@ == "Update staged. Restart the agent service to activate it."@,
            r.staged@ == target@,
            r.restart_required,
    {
        UpdateResult {
            message: "Update staged. Restart the agent service to activate it.".to_owned(),
            staged: target.to_owned(),
            restart_required: true,
        }
    }

    /// What is answered once a restart was scheduled, from the update that is pending, if one is.
    pub fn restart_pending(&self, pending: Option<String>) -> (r: Result<UpdateResult, Failure>)
        ensures
            r is Ok <==> pending is Some,
            r is Ok ==> {
                &&& r->Ok_0.message@
                    == "Agent restart scheduled. The staged update will be activated safely."@
                &&& r->Ok_0.staged@ == pending->0@
                &&& r->Ok_0.restart_required
            },
            r is Err ==> r->Err_0.message@ == "no verified agent update is staged for restart"@,
    {
        match pending {
            Some(path) => Ok(
                UpdateResult {
                    message:
                        "Agent restart scheduled. The staged update will be activated safely.".to_owned(),
                    staged: path,
                    restart_required: true,
                },
            ),
            None => Err(Failure::new("no verified agent update is staged for restart")),
        }
    }
}

// ---------------------------------------------------------------------------------------------
// Fetching.

/// An update that is being fetched.
pub struct UpdateStage {
    /// The digest that the update is to have.
    pub expected: Vec<u8>,
    /// The bytes that came, in their order.
    pub hasher: Sha256Hasher,
    /// How many bytes came.
    pub size: u64,
}

/// An update that is being fetched, by its contents.
#[verifier::ext_equal]
pub ghost struct StageView {
    /// The digest that the update is to have.
    pub expected: Seq<u8>,
    /// The bytes that came, in their order.
    pub bytes: Seq<u8>,
}

impl View for UpdateStage {
    type V = StageView;

    open spec fn view(&self) -> StageView {
        StageView { expected: self.expected@, bytes: sha256_input(self.hasher) }
    }
}

impl StageView {
    /// Something came, and it has the digest that it is to have.
    pub open spec fn is_update(self) -> bool {
        self.bytes.len() > 0 && digest::sha256(self.bytes) == self.expected
    }
}

/// Why an update is not fetched; none where it is.
pub open spec fn stage_refusal(url: Seq<char>, sha: Seq<char>) -> Option<Seq<char>> {
    let digest = digest::unhex(text::trimmed(sha));
    if !text::begins(url, "https://"@) {
        Some("update artifact URL must use HTTPS"@)
    } else if digest is None {
        Some("SHA-256 must be hexadecimal"@)
    } else if digest->0.len() != 32 {
        Some("SHA-256 checksum is required"@)
    } else {
        None
    }
}

impl UpdateStage {
    /// No more came than may come, and it was counted.
    pub open spec fn wf(&self) -> bool {
        &&& self.size == self@.bytes.len()
        &&& self.size <= MAX_UPDATE_BYTES
        &&& self.expected@.len() == 32
    }

    /// Begins to fetch an update, over HTTPS alone, and with a digest to hold it to.
    pub fn begin(url: &str, sha: &str) -> (r: Result<UpdateStage, Failure>)
        ensures
            r is Ok <==> stage_refusal(url@, sha@) is None,
            r is Ok ==> r->Ok_0.wf() && r->Ok_0@ == (StageView {
                expected: digest::unhex(text::trimmed(sha@))->0,
                bytes: Seq::empty(),
            }),
            r is Err ==> Some(r->Err_0.message@) == stage_refusal(url@, sha@),
    {
        if !text::starts_with(url, "https://") {
            return Err(Failure::new("update artifact URL must use HTTPS"));
        }
        let sha = text::trim(sha);
        match digest::hex_bytes(sha.as_str()) {
            Some(expected) => if expected.len() != 32 {
                Err(Failure::new("SHA-256 checksum is required"))
            } else {
                Ok(UpdateStage { expected, hasher: Sha256Hasher::new(), size: 0 })
            },
            None => Err(Failure::new("SHA-256 must be hexadecimal")),
        }
    }

    /// Refuses an answer that left HTTPS, or that announces too many bytes.
    pub fn check_response(&self, scheme: &str, length: Option<u64>) -> (r: Result<(), Failure>)
        ensures
            ({
                let large = length is Some && length->0 > MAX_UPDATE_BYTES;
                &&& r is Ok <==> scheme@ == "https"@ && !large
                &&& scheme@ != "https"@ ==> r->Err_0.message@
                    == "update redirects must remain on HTTPS"@
                &&& scheme@ == "https"@ && large ==> r->Err_0.message@
                    == "update artifact exceeds 512 MiB limit"@
            }),
    {
        if !text::same(scheme, "https") {
            return Err(Failure::new("update redirects must remain on HTTPS"));
        }
        match length {
            Some(n) => if n > MAX_UPDATE_BYTES {
                Err(Failure::new("update artifact exceeds 512 MiB limit"))
            } else {
                Ok(())
            },
            None => Ok(()),
        }
    }

    /// More bytes came. Too many are refused.
    pub fn accept(&mut self, bytes: &[u8]) -> (r: Result<(), Failure>)
        requires
            old(self).wf(),
        ensures
            final(self).wf(),
            r is Ok <==> old(self)@.bytes.len() + bytes@.len() <= MAX_UPDATE_BYTES,
            r is Ok ==> final(self)@ == (StageView {
                bytes: old(self)@.bytes + bytes@,
                ..old(self)@
            }),
            r is Err ==> final(self)@ == old(self)@ && r->Err_0.message@
                == "update artifact exceeds 512 MiB limit"@,
    {
        let length: u64 = bytes.len() as u64;
        if length > MAX_UPDATE_BYTES - self.size {
            return Err(Failure::new("update artifact exceeds 512 MiB limit"));
        }
        self.hasher.update(bytes);
        self.size = self.size + length;
        Ok(())
    }

    /// Everything came. Nothing at all is refused.
    pub fn check_size(&self) -> (r: Result<(), Failure>)
        requires
            self.wf(),
        ensures
            r is Ok <==> self@.bytes.len() > 0,
            r is Err ==> r->Err_0.message@ == "update artifact is empty"@,
    {
        if self.size == 0 {
            Err(Failure::new("update artifact is empty"))
        } else {
            Ok(())
        }
    }

    /// Everything came. Nothing at all is refused, and so is what has another digest.
    pub fn finish(self) -> (r: Result<(), Failure>)
        requires
            self.wf(),
        ensures
            r is Ok <==> self@.is_update(),
            self@.bytes.len() == 0 ==> r->Err_0.message@ == "update artifact is empty"@,
            self@.bytes.len() > 0 && r is Err ==> r->Err_0.message@
                == "update artifact checksum mismatch"@,
    {
        if let Err(e) = self.check_size() {
            return Err(e);
        }
        let actual = self.hasher.finish();
        if digest::equal_in_constant_time(actual.as_slice(), self.expected.as_slice()) {
            Ok(())
        } else {
            Err(Failure::new("update artifact checksum mismatch"))
        }
    }
}

/// What staging an update that was asked for does next, once it is known that the answer may be
/// read.
pub enum StageStep {
    MakeDirectory,
    /// Looks for an update that waits.
    FindPending,
    /// Looks for the file that names an update.
    FindMarker,
    /// Removes that file, which names none.
    RemoveMarker,
    /// Makes the file that the update is fetched to.
    CreateTarget,
    /// Takes in and writes what comes.
    Receive,
    /// Looks whether anything came.
    CheckSize,
    /// Brings what came to the disk.
    Sync,
    /// Holds what came to its digest.
    Check,
    /// Makes the update a program.
    Permit,
    /// Writes the name of the update to a temporary file.
    WriteNote,
    /// Makes that file the one that names the update.
    CommitMarker,
    /// Removes the temporary file; that it stays is no further failure.
    DiscardNote(String),
    /// Removes what came; that it stays is no further failure.
    Discard(String),
    Staged,
    Failed(String),
}

/// How a step of staging an update ended.
pub enum StageEvent {
    Done,
    /// What was looked for is not there.
    Missing,
    /// What came is refused.
    Refused(String),
    Failed(String),
}

/// A step of staging an update, by its contents.
pub ghost enum StagingView {
    MakeDirectory,
    FindPending,
    FindMarker,
    RemoveMarker,
    CreateTarget,
    Receive,
    CheckSize,
    Sync,
    Check,
    Permit,
    WriteNote,
    CommitMarker,
    DiscardNote(Seq<char>),
    Discard(Seq<char>),
    Staged,
    Failed(Seq<char>),
}

/// How a step of staging an update ended, by its contents.
pub ghost enum StageEventView {
    Done,
    Missing,
    Refused(Seq<char>),
    Failed(Seq<char>),
}

impl View for StageStep {
    type V = StagingView;

    open spec fn view(&self) -> StagingView {
        match self {
            StageStep::MakeDirectory => StagingView::MakeDirectory,
            StageStep::FindPending => StagingView::FindPending,
            StageStep::FindMarker => StagingView::FindMarker,
            StageStep::RemoveMarker => StagingView::RemoveMarker,
            StageStep::CreateTarget => StagingView::CreateTarget,
            StageStep::Receive => StagingView::Receive,
            StageStep::CheckSize => StagingView::CheckSize,
            StageStep::Sync => StagingView::Sync,
            StageStep::Check => StagingView::Check,
            StageStep::Permit => StagingView::Permit,
            StageStep::WriteNote => StagingView::WriteNote,
            StageStep::CommitMarker => StagingView::CommitMarker,
            StageStep::DiscardNote(m) => StagingView::DiscardNote(m@),
            StageStep::Discard(m) => StagingView::Discard(m@),
            StageStep::Staged => StagingView::Staged,
            StageStep::Failed(m) => StagingView::Failed(m@),
        }
    }
}

impl View for StageEvent {
    type V = StageEventView;

    open spec fn view(&self) -> StageEventView {
        match self {
            StageEvent::Done => StageEventView::Done,
            StageEvent::Missing => StageEventView::Missing,
            StageEvent::Refused(m) => StageEventView::Refused(m@),
            StageEvent::Failed(m) => StageEventView::Failed(m@),
        }
    }
}

/// The step of staging an update that follows a step with the given event.
pub open spec fn next_staged(step: StagingView, event: StageEventView) -> StagingView {
    let plain = |next: StagingView|
        match event {
            StageEventView::Failed(m) => StagingView::Failed(m),
            StageEventView::Refused(m) => StagingView::Discard(m),
            _ => next,
        };
    match step {
        StagingView::FindPending => match event {
            StageEventView::Done => StagingView::Failed(
                "a verified agent update is already staged"@,
            ),
            StageEventView::Missing => StagingView::FindMarker,
            StageEventView::Failed(m) | StageEventView::Refused(m) => StagingView::Failed(m),
        },
        StagingView::FindMarker => if event is Done {
            StagingView::RemoveMarker
        } else {
            StagingView::CreateTarget
        },
        StagingView::RemoveMarker => if event is Failed || event is Refused {
            StagingView::Failed("remove empty pending agent update marker"@)
        } else {
            StagingView::CreateTarget
        },
        StagingView::MakeDirectory => match event {
            StageEventView::Failed(m) | StageEventView::Refused(m) => StagingView::Failed(m),
            _ => StagingView::FindPending,
        },
        StagingView::CreateTarget => match event {
            StageEventView::Failed(m) | StageEventView::Refused(m) => StagingView::Failed(m),
            _ => StagingView::Receive,
        },
        StagingView::Receive => plain(StagingView::CheckSize),
        StagingView::CheckSize => plain(StagingView::Sync),
        StagingView::Sync => plain(StagingView::Check),
        StagingView::Check => plain(StagingView::Permit),
        StagingView::Permit => plain(StagingView::WriteNote),
        StagingView::WriteNote => plain(StagingView::CommitMarker),
        StagingView::CommitMarker => if event is Failed || event is Refused {
            StagingView::DiscardNote("commit pending agent update marker"@)
        } else {
            StagingView::Staged
        },
        StagingView::DiscardNote(m) => StagingView::Discard(m),
        StagingView::Discard(m) => StagingView::Failed(m),
        StagingView::Staged => StagingView::Staged,
        StagingView::Failed(m) => StagingView::Failed(m),
    }
}

fn unless_failed(event: StageEvent, next: StageStep) -> (r: StageStep)
    ensures
        r@ == match event@ {
            StageEventView::Failed(m) => StagingView::Failed(m),
            StageEventView::Refused(m) => StagingView::Discard(m),
            _ => next@,
        },
{
    match event {
        StageEvent::Failed(m) => StageStep::Failed(m),
        StageEvent::Refused(m) => StageStep::Discard(m),
        _ => next,
    }
}

impl StageStep {
    /// The first step of staging an update.
    pub fn first() -> (r: StageStep)
        ensures
            r@ == StagingView::MakeDirectory,
    {
        StageStep::MakeDirectory
    }

    /// The step that follows this one.
    pub fn after(self, event: StageEvent) -> (r: StageStep)
        ensures
            r@ == next_staged(self@, event@),
    {
        match self {
            StageStep::MakeDirectory => match event {
                StageEvent::Failed(m) | StageEvent::Refused(m) => StageStep::Failed(m),
                _ => StageStep::FindPending,
            },
            StageStep::FindPending => match event {
                StageEvent::Done => StageStep::Failed(
                    "a verified agent update is already staged".to_owned(),
                ),
                StageEvent::Missing => StageStep::FindMarker,
                StageEvent::Failed(m) | StageEvent::Refused(m) => StageStep::Failed(m),
            },
            StageStep::FindMarker => match event {
                StageEvent::Done => StageStep::RemoveMarker,
                _ => StageStep::CreateTarget,
            },
            StageStep::RemoveMarker => match event {
                StageEvent::Failed(_) | StageEvent::Refused(_) => StageStep::Failed(
                    "remove empty pending agent update marker".to_owned(),
                ),
                _ => StageStep::CreateTarget,
            },
            StageStep::CreateTarget => match event {
                StageEvent::Failed(m) | StageEvent::Refused(m) => StageStep::Failed(m),
                _ => StageStep::Receive,
            },
            StageStep::Receive => unless_failed(event, StageStep::CheckSize),
            StageStep::CheckSize => unless_failed(event, StageStep::Sync),
            StageStep::Sync => unless_failed(event, StageStep::Check),
            StageStep::Check => unless_failed(event, StageStep::Permit),
            StageStep::Permit => unless_failed(event, StageStep::WriteNote),
            StageStep::WriteNote => unless_failed(event, StageStep::CommitMarker),
            StageStep::CommitMarker => match event {
                StageEvent::Failed(_) | StageEvent::Refused(_) => StageStep::DiscardNote(
                    "commit pending agent update marker".to_owned(),
                ),
                _ => StageStep::Staged,
            },
            StageStep::DiscardNote(m) => StageStep::Discard(m),
            StageStep::Discard(m) => StageStep::Failed(m),
            StageStep::Staged => StageStep::Staged,
            StageStep::Failed(m) => StageStep::Failed(m),
        }
    }
}

// ---------------------------------------------------------------------------------------------
// The update that waits.

/// The path that the file that names an update holds, if it holds one.
pub fn pending_path(marker: &str) -> (r: Option<String>)
    ensures
        text::opt_view(r) == if text::trimmed(marker@).len() == 0 {
            None
        } else {
            Some(text::trimmed(marker@))
        },
{
    let path = text::trim(marker);
    if text::is_empty(path.as_str()) {
        None
    } else {
        Some(path)
    }
}

/// A place lies directly in a directory.
pub open spec fn directly_in(place: Seq<char>, dir: Seq<char>) -> bool {
    let parts = paths::path_parts(place);
    parts.len() > 0 && parts != seq!["/"@] && parts.drop_last() == paths::path_parts(dir)
}

/// Refuses an update that does not lie directly in the directory that updates are kept in, or that
/// is no file. Both places are real ones.
pub fn check_pending(place: &str, dir: &str, is_file: bool) -> (r: Result<(), Failure>)
    ensures
        r is Ok <==> directly_in(place@, dir@) && is_file,
        r is Err ==> r->Err_0.message@
            == "pending agent update is outside the update staging directory"@,
{
    let a = paths::split_path(place);
    let b = paths::split_path(dir);
    let ghost x = paths::path_parts(place@);
    let ghost y = paths::path_parts(dir@);
    let n: usize = a.len();
    assert(x.len() == n && y.len() == b@.len());
    let root = n == 1 && text::same(a[0].as_str(), "/");
    assert(n > 0 ==> x[0] == a@[0]@);
    assert(root ==> x =~= seq!["/"@]);
    assert(x == seq!["/"@] ==> root);
    if n == 0 || root || b.len() != n - 1 || !is_file {
        return Err(
            Failure::new("pending agent update is outside the update staging directory"),
        );
    }
    let mut i: usize = 0;
    while i < b.len()
        invariant
            text::views(a@) == x,
            text::views(b@) == y,
            x == paths::path_parts(place@),
            y == paths::path_parts(dir@),
            b@.len() == a@.len() - 1,
            0 <= i <= b@.len(),
            forall|k: int| 0 <= k < i ==> x[k] == y[k],
        decreases b.len() - i,
    {
        assert(x[i as int] == a@[i as int]@);
        assert(y[i as int] == b@[i as int]@);
        if !text::same(a[i].as_str(), b[i].as_str()) {
            assert(x.drop_last()[i as int] != y[i as int]);
            return Err(
                Failure::new("pending agent update is outside the update staging directory"),
            );
        }
        i += 1;
    }
    assert(x.drop_last() =~= y);
    Ok(())
}

// ---------------------------------------------------------------------------------------------
// Activating and taking back.

/// What looking for an update at the start does next.
pub enum UpdateStep {
    /// Looks for the file that names an update.
    FindMarker,
    /// Looks for the file that says that an update was not confirmed.
    FindState,
    /// Finds and checks the update.
    ReadPending,
    /// Copies the binary to a temporary name.
    CopyPrevious,
    /// Gives that copy its name.
    KeepPrevious,
    /// Writes down that the update is not confirmed.
    WriteState,
    /// Makes the update the binary.
    Replace,
    /// Removes the file that names the update.
    RemoveMarker,
    /// Reads where the previous binary is.
    ReadState,
    /// Looks for the previous binary.
    FindPrevious,
    /// Moves the binary aside.
    SetAside,
    /// Makes the previous binary the binary.
    RestorePrevious,
    /// Moves what was moved aside back.
    UndoSetAside,
    /// Removes the file that says that the update was not confirmed.
    RemoveState,
    Finished(ActivationOutcome),
    Failed(String),
}

/// How a step ended.
pub enum UpdateEvent {
    Done,
    /// What was looked for is not there.
    Missing,
    Failed(String),
}

/// A step by its contents.
pub ghost enum StepView {
    FindMarker,
    FindState,
    ReadPending,
    CopyPrevious,
    KeepPrevious,
    WriteState,
    Replace,
    RemoveMarker,
    ReadState,
    FindPrevious,
    SetAside,
    RestorePrevious,
    UndoSetAside,
    RemoveState,
    Finished(ActivationOutcome),
    Failed(Seq<char>),
}

/// An event by its contents.
pub ghost enum EventView {
    Done,
    Missing,
    Failed(Seq<char>),
}

impl View for UpdateStep {
    type V = StepView;

    open spec fn view(&self) -> StepView {
        match self {
            UpdateStep::FindMarker => StepView::FindMarker,
            UpdateStep::FindState => StepView::FindState,
            UpdateStep::ReadPending => StepView::ReadPending,
            UpdateStep::CopyPrevious => StepView::CopyPrevious,
            UpdateStep::KeepPrevious => StepView::KeepPrevious,
            UpdateStep::WriteState => StepView::WriteState,
            UpdateStep::Replace => StepView::Replace,
            UpdateStep::RemoveMarker => StepView::RemoveMarker,
            UpdateStep::ReadState => StepView::ReadState,
            UpdateStep::FindPrevious => StepView::FindPrevious,
            UpdateStep::SetAside => StepView::SetAside,
            UpdateStep::RestorePrevious => StepView::RestorePrevious,
            UpdateStep::UndoSetAside => StepView::UndoSetAside,
            UpdateStep::RemoveState => StepView::RemoveState,
            UpdateStep::Finished(o) => StepView::Finished(*o),
            UpdateStep::Failed(m) => StepView::Failed(m@),
        }
    }
}

impl View for UpdateEvent {
    type V = EventView;

    open spec fn view(&self) -> EventView {
        match self {
            UpdateEvent::Done => EventView::Done,
            UpdateEvent::Missing => EventView::Missing,
            UpdateEvent::Failed(m) => EventView::Failed(m@),
        }
    }
}

/// The step that follows a step with the given event.
pub open spec fn next_step(step: StepView, event: EventView) -> StepView {
    match step {
        StepView::FindMarker => if event is Done {
            StepView::ReadPending
        } else {
            StepView::FindState
        },
        StepView::FindState => if event is Done {
            StepView::ReadState
        } else {
            StepView::Finished(ActivationOutcome::NothingPending)
        },
        StepView::ReadPending => match event {
            EventView::Done => StepView::CopyPrevious,
            EventView::Missing => StepView::Failed("pending agent update marker is empty"@),
            EventView::Failed(m) => StepView::Failed(m),
        },
        StepView::CopyPrevious => if event is Failed {
            StepView::Failed("preserve previous agent binary"@)
        } else {
            StepView::KeepPrevious
        },
        StepView::KeepPrevious => if event is Failed {
            StepView::Failed("commit previous agent binary"@)
        } else {
            StepView::WriteState
        },
        StepView::WriteState => match event {
            EventView::Failed(m) => StepView::Failed(m),
            _ => StepView::Replace,
        },
        StepView::Replace => if event is Failed {
            StepView::Failed("activate staged agent binary"@)
        } else {
            StepView::RemoveMarker
        },
        StepView::RemoveMarker => match event {
            EventView::Failed(m) => StepView::Failed(m),
            _ => StepView::Finished(ActivationOutcome::Activated),
        },
        StepView::ReadState => match event {
            EventView::Failed(m) => StepView::Failed(m),
            _ => StepView::FindPrevious,
        },
        StepView::FindPrevious => if event is Done {
            StepView::SetAside
        } else {
            StepView::Failed("previous agent binary is unavailable for rollback"@)
        },
        StepView::SetAside => if event is Failed {
            StepView::Failed("preserve failed agent binary"@)
        } else {
            StepView::RestorePrevious
        },
        StepView::RestorePrevious => if event is Failed {
            StepView::UndoSetAside
        } else {
            StepView::RemoveState
        },
        StepView::UndoSetAside => StepView::Failed("restore previous agent binary"@),
        StepView::RemoveState => match event {
            EventView::Failed(m) => StepView::Failed(m),
            _ => StepView::Finished(ActivationOutcome::RolledBack),
        },
        StepView::Finished(o) => StepView::Finished(o),
        StepView::Failed(m) => StepView::Failed(m),
    }
}

impl UpdateStep {
    /// The first step at a start: an update that waits is activated, and one that was not confirmed
    /// is taken back.
    pub fn activation() -> (r: UpdateStep)
        ensures
            r@ == StepView::FindMarker,
    {
        UpdateStep::FindMarker
    }

    /// The first step of taking back an update.
    pub fn rollback() -> (r: UpdateStep)
        ensures
            r@ == StepView::FindState,
    {
        UpdateStep::FindState
    }

    /// The step that follows this one.
    pub fn after(self, event: UpdateEvent) -> (r: UpdateStep)
        ensures
            r@ == next_step(self@, event@),
    {
        match self {
            UpdateStep::FindMarker => match event {
                UpdateEvent::Done => UpdateStep::ReadPending,
                _ => UpdateStep::FindState,
            },
            UpdateStep::FindState => match event {
                UpdateEvent::Done => UpdateStep::ReadState,
                _ => UpdateStep::Finished(ActivationOutcome::NothingPending),
            },
            UpdateStep::ReadPending => match event {
                UpdateEvent::Done => UpdateStep::CopyPrevious,
                UpdateEvent::Missing => UpdateStep::Failed(
                    "pending agent update marker is empty".to_owned(),
                ),
                UpdateEvent::Failed(m) => UpdateStep::Failed(m),
            },
            UpdateStep::CopyPrevious => match event {
                UpdateEvent::Failed(_) => UpdateStep::Failed(
                    "preserve previous agent binary".to_owned(),
                ),
                _ => UpdateStep::KeepPrevious,
            },
            UpdateStep::KeepPrevious => match event {
                UpdateEvent::Failed(_) => UpdateStep::Failed(
                    "commit previous agent binary".to_owned(),
                ),
                _ => UpdateStep::WriteState,
            },
            UpdateStep::WriteState => match event {
                UpdateEvent::Failed(m) => UpdateStep::Failed(m),
                _ => UpdateStep::Replace,
            },
            UpdateStep::Replace => match event {
                UpdateEvent::Failed(_) => UpdateStep::Failed(
                    "activate staged agent binary".to_owned(),
                ),
                _ => UpdateStep::RemoveMarker,
            },
            UpdateStep::RemoveMarker => match event {
                UpdateEvent::Failed(m) => UpdateStep::Failed(m),
                _ => UpdateStep::Finished(ActivationOutcome::Activated),
            },
            UpdateStep::ReadState => match event {
                UpdateEvent::Failed(m) => UpdateStep::Failed(m),
                _ => UpdateStep::FindPrevious,
            },
            UpdateStep::FindPrevious => match event {
                UpdateEvent::Done => UpdateStep::SetAside,
                _ => UpdateStep::Failed(
                    "previous agent binary is unavailable for rollback".to_owned(),
                ),
            },
            UpdateStep::SetAside => match event {
                UpdateEvent::Failed(_) => UpdateStep::Failed(
                    "preserve failed agent binary".to_owned(),
                ),
                _ => UpdateStep::RestorePrevious,
            },
            UpdateStep::RestorePrevious => match event {
                UpdateEvent::Failed(_) => UpdateStep::UndoSetAside,
                _ => UpdateStep::RemoveState,
            },
            UpdateStep::UndoSetAside => UpdateStep::Failed(
                "restore previous agent binary".to_owned(),
            ),
            UpdateStep::RemoveState => match event {
                UpdateEvent::Failed(m) => UpdateStep::Failed(m),
                _ => UpdateStep::Finished(ActivationOutcome::RolledBack),
            },
            UpdateStep::Finished(o) => UpdateStep::Finished(o),
            UpdateStep::Failed(m) => UpdateStep::Failed(m),
        }
    }
}

// ---------------------------------------------------------------------------------------------
// Confirming an update.

/// What confirming an update that stayed up does next.
pub enum ConfirmStep {
    /// Looks for the file that says that an update was not confirmed.
    FindState,
    /// Reads where the previous binary is.
    ReadState,
    /// Removes the previous binary.
    RemovePrevious,
    /// Removes the file that says that the update was not confirmed.
    RemoveState,
    Finished,
    Failed(String),
}

/// A step of confirming an update, by its contents.
pub ghost enum ConfirmView {
    FindState,
    ReadState,
    RemovePrevious,
    RemoveState,
    Finished,
    Failed(Seq<char>),
}

impl View for ConfirmStep {
    type V = ConfirmView;

    open spec fn view(&self) -> ConfirmView {
        match self {
            ConfirmStep::FindState => ConfirmView::FindState,
            ConfirmStep::ReadState => ConfirmView::ReadState,
            ConfirmStep::RemovePrevious => ConfirmView::RemovePrevious,
            ConfirmStep::RemoveState => ConfirmView::RemoveState,
            ConfirmStep::Finished => ConfirmView::Finished,
            ConfirmStep::Failed(m) => ConfirmView::Failed(m@),
        }
    }
}

/// The step of confirming an update that follows a step with the given event. That the previous
/// binary could not be removed does not matter.
pub open spec fn next_confirmed(step: ConfirmView, event: EventView) -> ConfirmView {
    match step {
        ConfirmView::FindState => if event is Done {
            ConfirmView::ReadState
        } else {
            ConfirmView::Finished
        },
        ConfirmView::ReadState => match event {
            EventView::Failed(m) => ConfirmView::Failed(m),
            _ => ConfirmView::RemovePrevious,
        },
        ConfirmView::RemovePrevious => ConfirmView::RemoveState,
        ConfirmView::RemoveState => match event {
            EventView::Failed(m) => ConfirmView::Failed(m),
            _ => ConfirmView::Finished,
        },
        ConfirmView::Finished => ConfirmView::Finished,
        ConfirmView::Failed(m) => ConfirmView::Failed(m),
    }
}

impl ConfirmStep {
    /// The first step of confirming an update.
    pub fn first() -> (r: ConfirmStep)
        ensures
            r@ == ConfirmView::FindState,
    {
        ConfirmStep::FindState
    }

    /// The step that follows this one.
    pub fn after(self, event: UpdateEvent) -> (r: ConfirmStep)
        ensures
            r@ == next_confirmed(self@, event@),
    {
        match self {
            ConfirmStep::FindState => match event {
                UpdateEvent::Done => ConfirmStep::ReadState,
                _ => ConfirmStep::Finished,
            },
            ConfirmStep::ReadState => match event {
                UpdateEvent::Failed(m) => ConfirmStep::Failed(m),
                _ => ConfirmStep::RemovePrevious,
            },
            ConfirmStep::RemovePrevious => ConfirmStep::RemoveState,
            ConfirmStep::RemoveState => match event {
                UpdateEvent::Failed(m) => ConfirmStep::Failed(m),
                _ => ConfirmStep::Finished,
            },
            ConfirmStep::Finished => ConfirmStep::Finished,
            ConfirmStep::Failed(m) => ConfirmStep::Failed(m),
        }
    }
}

// ---------------------------------------------------------------------------------------------
// The service.

/// How long a new binary is to stay up before it is confirmed, in seconds.
pub fn health_seconds(setting: Option<&str>) -> (r: u64)
    ensures
        r == match setting {
            Some(s) => match text::parsed(s@) {
                Some(n) => if 0 < n <= u64::MAX {
                    n as u64
                } else {
                    30
                },
                None => 30,
            },
            None => 30,
        },
{
    match setting {
        Some(s) => match text::parse_number(s, u64::MAX) {
            Some(n) => if n > 0 {
                n
            } else {
                30
            },
            None => 30,
        },
        None => 30,
    }
}

/// Whether an update that was staged is activated at once, by restarting the service.
pub fn restarts_at_once(setting: Option<&str>) -> (r: bool)
    ensures
        r == (setting is Some && setting->0@ == "true"@),
{
    match setting {
        Some(s) => text::same(s, "true"),
        None => false,
    }
}

/// A character of the name of a service.
pub open spec fn in_service_name(c: char) -> bool {
    ('a' <= c <= 'z') || ('A' <= c <= 'Z') || ('0' <= c <= '9') || c == '@' || c == '_' || c == '.'
        || c == ':' || c == '-'
}

/// The name of a service.
pub open spec fn valid_service(name: Seq<char>) -> bool {
    &&& 0 < text::byte_len(name) <= 255
    &&& forall|i: int| 0 <= i < name.len() ==> in_service_name(#[trigger] name[i])
}

/// The service that the agent runs as: what is configured, or the usual one.
pub fn systemd_service(setting: Option<&str>) -> (r: Result<String, Failure>)
    ensures
        ({
            let name = match setting {
                Some(s) => s@,
                None => "agapornis-agent.service"@,
            };
            &&& r is Ok <==> valid_service(name)
            &&& r is Ok ==> r->Ok_0@ == name
            &&& r is Err ==> r->Err_0.message@
                == "configured agent systemd service name is invalid"@
        }),
{
    let name = match setting {
        Some(s) => s,
        None => "agapornis-agent.service",
    };
    let size: usize = text::byte_length(name);
    if size == 0 || size > 255 {
        return Err(Failure::new("configured agent systemd service name is invalid"));
    }
    let cs = text::chars_of(name);
    let mut i: usize = 0;
    while i < cs.len()
        invariant
            cs@ == name@,
            name@ == match setting {
                Some(s) => s@,
                None => "agapornis-agent.service"@,
            },
            0 <= i <= cs@.len(),
            forall|k: int| 0 <= k < i ==> in_service_name(#[trigger] name@[k]),
        decreases cs.len() - i,
    {
        let c = cs[i];
        if !(('a' <= c && c <= 'z') || ('A' <= c && c <= 'Z') || ('0' <= c && c <= '9') || c == '@'
            || c == '_' || c == '.' || c == ':' || c == '-') {
            assert(!in_service_name(name@[i as int]));
            return Err(Failure::new("configured agent systemd service name is invalid"));
        }
        i += 1;
    }
    Ok(name.to_owned())
}

/// The arguments with which systemd says whether it knows a service.
pub fn service_state_arguments(service: &str) -> (r: Vec<String>)
    ensures
        text::views(r@) == seq!["show"@, "--property=LoadState"@, "--value"@, service@],
{
    let list: Vec<&str> = vec!["show", "--property=LoadState", "--value", service];
    let r = text::owned(list);
    assert(text::views(r@) =~= seq!["show"@, "--property=LoadState"@, "--value"@, service@]);
    r
}

/// Refuses to restart a service that systemd does not know.
pub fn check_service_state(success: bool, stdout: &[u8]) -> (r: Result<(), Failure>)
    ensures
        r is Ok <==> success && text::trimmed(lossy(stdout@)) == "loaded"@,
        r is Err ==> r->Err_0.message@
            == "agent systemd service is not loaded; restart the staged update manually"@,
{
    if success {
        let printed = lossy_text(stdout);
        let state = text::trim(printed.as_str());
        if text::same(state.as_str(), "loaded") {
            return Ok(());
        }
    }
    Err(Failure::new("agent systemd service is not loaded; restart the staged update manually"))
}

/// The arguments with which systemd restarts a service.
pub fn restart_arguments(service: &str) -> (r: Vec<String>)
    ensures
        text::views(r@) == seq!["--no-block"@, "restart"@, service@],
{
    let list: Vec<&str> = vec!["--no-block", "restart", service];
    let r = text::owned(list);
    assert(text::views(r@) =~= seq!["--no-block"@, "restart"@, service@]);
    r
}

// ---------------------------------------------------------------------------------------------
// Laws.

/// An update that is accepted was asked for over HTTPS, is neither empty nor too large, and the
/// bytes that came have the SHA-256 digest that was given with the request.
pub proof fn law_updates_are_held_to_their_digest(url: Seq<char>, sha: Seq<char>, stage: UpdateStage)
    requires
        stage_refusal(url, sha) is None,
        stage.wf(),
        stage@.expected == digest::unhex(text::trimmed(sha))->0,
        stage@.is_update(),
    ensures
        text::begins(url, "https://"@),
        0 < stage@.bytes.len() <= MAX_UPDATE_BYTES,
        digest::unhex(text::trimmed(sha)) == Some(digest::sha256(stage@.bytes)),
{
}

/// The files that staging an update works with, by what they hold, if they are there.
#[verifier::ext_equal]
pub ghost struct StagingFiles {
    /// What is fetched.
    pub target: Option<Seq<u8>>,
    /// The temporary file with the name of the update.
    pub note: Option<Seq<char>>,
    /// The file that names the update that waits.
    pub marker: Option<Seq<char>>,
    /// The update that the marker names was found where updates are kept.
    pub waits: bool,
}

/// A step of staging an update may leave the files so; `stage` is what came, once all of it did,
/// and `place` is where the update is fetched to.
pub open spec fn stages(
    step: StagingView,
    event: StageEventView,
    stage: StageView,
    place: Seq<char>,
    before: StagingFiles,
    after: StagingFiles,
) -> bool {
    let done = event is Done;
    &&& event is Missing ==> step is FindPending || step is FindMarker
    &&& match step {
        StagingView::FindPending => after == before && (done <==> before.waits),
        StagingView::FindMarker => after == before && (done <==> before.marker is Some),
        StagingView::RemoveMarker => after == if done {
            StagingFiles { marker: None, ..before }
        } else {
            before
        },
        StagingView::CreateTarget => if done {
            after == (StagingFiles { target: Some(Seq::empty()), ..before })
        } else {
            after == before
        },
        StagingView::Receive => {
            &&& after.note == before.note && after.marker == before.marker && after.waits
                == before.waits
            &&& done ==> after.target == Some(stage.bytes)
        },
        StagingView::CheckSize => after == before && (done <==> stage.bytes.len() > 0),
        StagingView::Check => after == before && (done <==> stage.is_update()),
        StagingView::WriteNote => {
            &&& after.target == before.target && after.marker == before.marker && after.waits
                == before.waits
            &&& done ==> after.note == Some(place)
        },
        StagingView::CommitMarker => after == if done {
            StagingFiles { marker: before.note, note: None, ..before }
        } else {
            before
        },
        StagingView::DiscardNote(_) => after == if done {
            StagingFiles { note: None, ..before }
        } else {
            before
        },
        StagingView::Discard(_) => after == if done {
            StagingFiles { target: None, ..before }
        } else {
            before
        },
        _ => after == before,
    }
}

/// What is so of the files before a step of staging an update, where they were `first` at the
/// beginning.
pub open spec fn staging_so_far(
    step: StagingView,
    stage: StageView,
    place: Seq<char>,
    first: StagingFiles,
    f: StagingFiles,
) -> bool {
    match step {
        StagingView::MakeDirectory | StagingView::FindPending => f == first,
        StagingView::FindMarker | StagingView::RemoveMarker => f == first && !first.waits,
        StagingView::CreateTarget | StagingView::Receive => f.marker is None && !first.waits,
        StagingView::CheckSize => f.marker is None && !first.waits && f.target == Some(
            stage.bytes,
        ),
        StagingView::Sync | StagingView::Check => f.marker is None && !first.waits && f.target
            == Some(stage.bytes) && stage.bytes.len() > 0,
        StagingView::Permit | StagingView::WriteNote => f.marker is None
            && !first.waits && f.target == Some(stage.bytes) && stage.is_update(),
        StagingView::CommitMarker => f.marker is None && !first.waits && f.target == Some(
            stage.bytes,
        ) && stage.is_update() && f.note == Some(place),
        StagingView::DiscardNote(_) | StagingView::Discard(_) => f.marker is None && !first.waits,
        StagingView::Staged => f.marker == Some(place) && f.target == Some(stage.bytes)
            && stage.is_update() && !first.waits,
        StagingView::Failed(_) => f.marker is None || f.marker == first.marker,
    }
}

/// However the steps of staging an update end, what is so before each step is so again before the
/// next. So an update that is staged was the only one, lies where it was fetched to with exactly
/// the bytes that came, is named as the one that waits, and has the digest that was asked for; and
/// where staging fails, nothing is named as waiting that was not before. What is refused for its
/// bytes is removed.
pub proof fn law_only_verified_updates_are_staged(
    step: StagingView,
    event: StageEventView,
    stage: StageView,
    place: Seq<char>,
    first: StagingFiles,
    before: StagingFiles,
    after: StagingFiles,
)
    requires
        staging_so_far(step, stage, place, first, before),
        stages(step, event, stage, place, before, after),
    ensures
        staging_so_far(next_staged(step, event), stage, place, first, after),
        event is Refused && (step is Receive || step is CheckSize || step is Check) ==> next_staged(step, event)
            is Discard,
        step is Discard && event is Done ==> after.target is None,
{
}

/// The files of an update: for each, which binary it holds, if it is there.
#[verifier::ext_equal]
pub ghost struct Files {
    pub exe: Option<int>,
    pub pending: Option<int>,
    pub copy: Option<int>,
    pub previous: Option<int>,
    pub aside: Option<int>,
    pub marker: bool,
    pub state: bool,
}

/// A step may leave the files so. A step that fails leaves them as they were, except that a copy
/// may be cut short.
pub open spec fn performs(step: StepView, event: EventView, before: Files, after: Files) -> bool {
    let failed = event is Failed;
    match step {
        StepView::FindMarker => after == before && (event is Done <==> before.marker),
        StepView::FindState => after == before && (event is Done <==> before.state),
        StepView::ReadPending => after == before && (event is Done ==> before.pending is Some),
        StepView::CopyPrevious => if failed {
            exists|copy: Option<int>| after == (Files { copy, ..before })
        } else {
            after == (Files { copy: before.exe, ..before })
        },
        StepView::KeepPrevious => after == if failed {
            before
        } else {
            Files { previous: before.copy, copy: None, ..before }
        },
        StepView::WriteState => if failed {
            exists|state: bool| after == (Files { state, ..before })
        } else {
            after == (Files { state: true, ..before })
        },
        StepView::Replace => after == if failed {
            before
        } else {
            Files { exe: before.pending, pending: None, ..before }
        },
        StepView::RemoveMarker => after == if failed {
            before
        } else {
            Files { marker: false, ..before }
        },
        StepView::FindPrevious => after == before && (event is Done <==> before.previous is Some),
        StepView::SetAside => after == if failed {
            before
        } else {
            Files { aside: before.exe, exe: None, ..before }
        },
        StepView::RestorePrevious => after == if failed {
            before
        } else {
            Files { exe: before.previous, previous: None, ..before }
        },
        StepView::UndoSetAside => after == if failed {
            before
        } else {
            Files { exe: before.aside, aside: None, ..before }
        },
        StepView::RemoveState => after == if failed {
            before
        } else {
            Files { state: false, ..before }
        },
        _ => after == before,
    }
}

/// What is so of the files before a step of an activation that began with the binary `first` and
/// the update `update`.
pub open spec fn activating(step: StepView, first: int, update: int, f: Files) -> bool {
    let untouched = f.exe == Some(first) && f.pending == Some(update) && f.marker;
    match step {
        StepView::FindMarker | StepView::ReadPending | StepView::CopyPrevious => untouched,
        StepView::KeepPrevious => untouched && f.copy == Some(first),
        StepView::WriteState => untouched && f.previous == Some(first),
        StepView::Replace => untouched && f.previous == Some(first) && f.state,
        StepView::RemoveMarker => f.exe == Some(update) && f.previous == Some(first) && f.state
            && f.marker,
        StepView::Finished(o) => o == ActivationOutcome::Activated && f.exe == Some(update)
            && f.previous == Some(first) && f.state && !f.marker,
        StepView::Failed(_) => f.exe == Some(first) || f.exe == Some(update) && f.previous == Some(
            first,
        ) && f.state,
        _ => false,
    }
}

/// However the steps of an activation end, what is so before each step is so again before the
/// next. So an activation that succeeds puts the update in place and keeps the binary that it
/// replaced, and one that fails leaves a binary in place: the old one, or the update with the old
/// one kept.
pub proof fn law_activation_keeps_the_previous_binary(
    step: StepView,
    event: EventView,
    first: int,
    update: int,
    before: Files,
    after: Files,
)
    requires
        activating(step, first, update, before),
        performs(step, event, before, after),
    ensures
        activating(next_step(step, event), first, update, after),
{
}

/// What is so of the files before a step of a rollback that began with the binary `update` in
/// place of the binary `first`.
pub open spec fn rolling_back(step: StepView, first: int, update: int, f: Files) -> bool {
    let untouched = f.exe == Some(update) && f.previous == Some(first) && f.state && !f.marker;
    match step {
        StepView::FindMarker | StepView::FindState | StepView::ReadState | StepView::FindPrevious
        | StepView::SetAside => untouched,
        StepView::RestorePrevious | StepView::UndoSetAside => f.exe is None && f.aside == Some(
            update,
        ) && f.previous == Some(first) && f.state && !f.marker,
        StepView::RemoveState => f.exe == Some(first) && f.aside == Some(update),
        StepView::Finished(o) => o == ActivationOutcome::RolledBack && f.exe == Some(first)
            && f.aside == Some(update) && !f.state,
        StepView::Failed(_) => untouched || f.aside == Some(update) && (f.exe == Some(first)
            || f.previous == Some(first)),
        _ => false,
    }
}

/// At the next start after an activation that was not confirmed, however the steps end, what is so
/// before each step is so again before the next. So a rollback that succeeds puts the binary that
/// the update replaced back in place, and one that fails loses neither of the two.
pub proof fn law_rollback_restores_the_previous_binary(
    step: StepView,
    event: EventView,
    first: int,
    update: int,
    before: Files,
    after: Files,
)
    requires
        rolling_back(step, first, update, before),
        performs(step, event, before, after),
    ensures
        rolling_back(next_step(step, event), first, update, after),
{
}

/// An activation that succeeded is taken back at the next start unless it was confirmed: what it
/// leaves is what a rollback begins with.
pub proof fn law_activation_can_be_taken_back(first: int, update: int, f: Files)
    requires
        activating(StepView::Finished(ActivationOutcome::Activated), first, update, f),
    ensures
        rolling_back(StepView::FindMarker, first, update, f),
{
}

/// A step of confirming an update may leave the files so.
pub open spec fn confirms(step: ConfirmView, event: EventView, before: Files, after: Files) -> bool {
    let failed = event is Failed;
    match step {
        ConfirmView::FindState => after == before && (event is Done <==> before.state),
        ConfirmView::RemovePrevious => after == if failed {
            before
        } else {
            Files { previous: None, ..before }
        },
        ConfirmView::RemoveState => after == if failed {
            before
        } else {
            Files { state: false, ..before }
        },
        _ => after == before,
    }
}

/// What is so of the files before a step of confirming the update `update`.
pub open spec fn confirming(step: ConfirmView, update: int, f: Files) -> bool {
    &&& f.exe == Some(update)
    &&& !f.marker
    &&& step is Finished ==> !f.state
}

/// Confirming an update leaves it in place, however the steps end, and once it succeeded nothing
/// says any more that the update is to be taken back.
pub proof fn law_confirmation_keeps_the_update(
    step: ConfirmView,
    event: EventView,
    update: int,
    before: Files,
    after: Files,
)
    requires
        confirming(step, update, before),
        confirms(step, event, before, after),
    ensures
        confirming(next_confirmed(step, event), update, after),
{
}

/// An update that was confirmed stays at every later start: the steps of the start find nothing to
/// do and change nothing.
pub proof fn law_confirmed_updates_stay(
    update: int,
    found: EventView,
    noted: EventView,
    first: Files,
    second: Files,
    third: Files,
)
    requires
        confirming(ConfirmView::Finished, update, first),
        performs(StepView::FindMarker, found, first, second),
        performs(next_step(StepView::FindMarker, found), noted, second, third),
    ensures
        next_step(next_step(StepView::FindMarker, found), noted) == StepView::Finished(
            ActivationOutcome::NothingPending,
        ),
        third == first,
        third.exe == Some(update),
{
}

/// An activation that meets no error keeps the previous binary before it replaces it, and removes
/// the marker last; a binary that did not come up is set aside and the previous one restored.
pub proof fn law_activations_and_rollbacks_go_through(missing: EventView)
    requires
        missing is Missing,
    ensures
        next_step(StepView::FindMarker, EventView::Done) == StepView::ReadPending,
        next_step(StepView::ReadPending, EventView::Done) == StepView::CopyPrevious,
        next_step(StepView::CopyPrevious, EventView::Done) == StepView::KeepPrevious,
        next_step(StepView::KeepPrevious, EventView::Done) == StepView::WriteState,
        next_step(StepView::WriteState, EventView::Done) == StepView::Replace,
        next_step(StepView::Replace, EventView::Done) == StepView::RemoveMarker,
        next_step(StepView::RemoveMarker, EventView::Done) == StepView::Finished(
            ActivationOutcome::Activated,
        ),
        next_step(StepView::FindMarker, missing) == StepView::FindState,
        next_step(StepView::FindState, missing) == StepView::Finished(
            ActivationOutcome::NothingPending,
        ),
        next_step(StepView::FindState, EventView::Done) == StepView::ReadState,
        next_step(StepView::ReadState, EventView::Done) == StepView::FindPrevious,
        next_step(StepView::FindPrevious, EventView::Done) == StepView::SetAside,
        next_step(StepView::SetAside, EventView::Done) == StepView::RestorePrevious,
        next_step(StepView::RestorePrevious, EventView::Done) == StepView::RemoveState,
        next_step(StepView::RemoveState, EventView::Done) == StepView::Finished(
            ActivationOutcome::RolledBack,
        ),
{
}

/// Staging that meets no error looks for an update that waits, receives the new one, checks its size
/// and its digest, and marks it as staged last.
pub proof fn law_staging_goes_through(m: Seq<char>)
    ensures
        next_staged(StagingView::MakeDirectory, StageEventView::Done) == StagingView::FindPending,
        next_staged(StagingView::FindPending, StageEventView::Missing) == StagingView::FindMarker,
        next_staged(StagingView::FindPending, StageEventView::Done) is Failed,
        next_staged(StagingView::FindMarker, StageEventView::Missing) == StagingView::CreateTarget,
        next_staged(StagingView::FindMarker, StageEventView::Done) == StagingView::RemoveMarker,
        next_staged(StagingView::RemoveMarker, StageEventView::Done) == StagingView::CreateTarget,
        next_staged(StagingView::CreateTarget, StageEventView::Done) == StagingView::Receive,
        next_staged(StagingView::Receive, StageEventView::Done) == StagingView::CheckSize,
        next_staged(StagingView::CheckSize, StageEventView::Done) == StagingView::Sync,
        next_staged(StagingView::Sync, StageEventView::Done) == StagingView::Check,
        next_staged(StagingView::Check, StageEventView::Done) == StagingView::Permit,
        next_staged(StagingView::Permit, StageEventView::Done) == StagingView::WriteNote,
        next_staged(StagingView::WriteNote, StageEventView::Done) == StagingView::CommitMarker,
        next_staged(StagingView::CommitMarker, StageEventView::Done) == StagingView::Staged,
        next_staged(StagingView::Check, StageEventView::Refused(m)) == StagingView::Discard(m),
        next_staged(StagingView::CheckSize, StageEventView::Refused(m)) == StagingView::Discard(m),
        next_staged(StagingView::Check, StageEventView::Failed(m)) == StagingView::Failed(m),
{
}

/// An update is fetched exactly from an address over HTTPS with a digest of 32 bytes in hexadecimal
/// digits.
pub proof fn law_proper_updates_are_fetched(url: Seq<char>, sha: Seq<char>, bytes: Seq<u8>)
    ensures
        stage_refusal(url, sha) is None <==> text::begins(url, "https://"@) && digest::unhex(
            text::trimmed(sha),
        ) is Some && digest::unhex(text::trimmed(sha))->0.len() == 32,
        text::begins(url, "https://"@) && text::trimmed(sha) == digest::hex(bytes) ==> (
        stage_refusal(url, sha) is None <==> bytes.len() == 32),
{
    digest::law_hex_reads_back(bytes);
}

/// A confirmed update removes the previous binary and then the state, if there is one.
pub proof fn law_confirmations_go_through(event: EventView)
    ensures
        next_confirmed(ConfirmView::FindState, EventView::Done) == ConfirmView::ReadState,
        event is Missing ==> next_confirmed(ConfirmView::FindState, event) == ConfirmView::Finished,
        next_confirmed(ConfirmView::ReadState, EventView::Done) == ConfirmView::RemovePrevious,
        next_confirmed(ConfirmView::RemovePrevious, event) == ConfirmView::RemoveState,
        next_confirmed(ConfirmView::RemoveState, EventView::Done) == ConfirmView::Finished,
{
}

} // verus!
