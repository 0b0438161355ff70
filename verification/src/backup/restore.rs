//! Putting a backup back: the steps, and what a step that failed leads to.
//!
//! The directory of a server stays in place, since containers hold on to it: its entries are moved
//! aside, those of the backup are moved in, and where that fails they are moved back. What was moved
//! aside is removed only where the server has its data.

use crate::backup::archive::{
    integrity_refusal, law_unchanged_archive_passes, recorded_of, BackupInfo,
};
use crate::error::Failure;
use crate::paths;
use crate::text;
use vstd::prelude::*;

verus! {

/// The directories that a restore works with.
pub struct RestorePlaces {
    pub target: String,
    pub staging: String,
    pub previous: String,
}

/// The directories for a restore of a server; `suffix` is to be different for each restore.
pub fn restore_places(base: &str, id: &str, suffix: &str) -> (r: Result<RestorePlaces, Failure>)
    ensures
        r is Ok <==> paths::valid_id(id@),
        r is Ok ==> {
            &&& r->Ok_0.target@ == paths::joined(base@, id@)
            &&& r->Ok_0.staging@ == paths::joined(base@, "."@ + id@ + ".restore-"@ + suffix@)
            &&& r->Ok_0.previous@ == paths::joined(base@, "."@ + id@ + ".previous-"@ + suffix@)
        },
        r is Err ==> r->Err_0.message@ == "invalid server id"@,
{
    match paths::server_dir(base, id) {
        Ok(target) => {
            let staging = text::concat4(".", id, ".restore-", suffix);
            let previous = text::concat4(".", id, ".previous-", suffix);
            Ok(
                RestorePlaces {
                    target,
                    staging: paths::join_path(base, staging.as_str()),
                    previous: paths::join_path(base, previous.as_str()),
                },
            )
        },
        Err(e) => Err(e),
    }
}

/// How a restore ends.
pub enum Verdict {
    /// The server has the data of the backup.
    Restored,
    /// The restore failed, and the server has the data that it had.
    Intact(String),
    /// The restore failed, and so did bringing back the data that the server had: what was moved
    /// aside stays there.
    Torn(String),
}

/// What a restore does next.
pub enum RestoreStep {
    /// Holds the archive to what was recorded and to what was asked for.
    CheckIntegrity,
    /// Looks whether the archive may be unpacked.
    CheckEntries,
    CreateParent,
    CreateStaging,
    /// Unpacks the archive into the staging directory.
    Unpack,
    /// Removes the staging directory after a failed unpacking.
    DiscardStaging(String),
    /// Looks whether the server has a directory.
    FindTarget,
    /// Makes the staging directory the server's.
    Rename,
    CreatePrevious,
    /// Moves the server's entries to the previous directory.
    MoveAside,
    /// Moves the entries that were moved aside back.
    UndoAside,
    /// Moves the staging directory's entries to the server's.
    MoveIn,
    /// Removes the server's entries.
    ClearTarget,
    /// Moves the entries that were moved aside back, with what clearing failed with.
    UndoMoveIn(Option<String>),
    /// Removes the staging directory; the flag says whether that is the last step.
    RemoveStaging(Verdict, bool),
    /// Removes the previous directory; the flag says whether that is the last step. Never taken
    /// where the server may lack some of its data.
    RemovePrevious(Verdict, bool),
    Finished(Verdict),
}

/// How a step ended.
pub enum StepOutcome {
    Done,
    /// What was looked for is not there.
    Missing,
    Failed(String),
}

/// A verdict by its contents.
#[verifier::ext_equal]
pub ghost enum VerdictView {
    Restored,
    Intact(Seq<char>),
    Torn(Seq<char>),
}

/// A step by its contents.
#[verifier::ext_equal]
pub ghost enum StepView {
    CheckIntegrity,
    CheckEntries,
    CreateParent,
    CreateStaging,
    Unpack,
    DiscardStaging(Seq<char>),
    FindTarget,
    Rename,
    CreatePrevious,
    MoveAside,
    UndoAside,
    MoveIn,
    ClearTarget,
    UndoMoveIn(Option<Seq<char>>),
    RemoveStaging(VerdictView, bool),
    RemovePrevious(VerdictView, bool),
    Finished(VerdictView),
}

/// An outcome by its contents.
#[verifier::ext_equal]
pub ghost enum OutcomeView {
    Done,
    Missing,
    Failed(Seq<char>),
}

impl View for Verdict {
    type V = VerdictView;

    open spec fn view(&self) -> VerdictView {
        match self {
            Verdict::Restored => VerdictView::Restored,
            Verdict::Intact(m) => VerdictView::Intact(m@),
            Verdict::Torn(m) => VerdictView::Torn(m@),
        }
    }
}

impl View for RestoreStep {
    type V = StepView;

    open spec fn view(&self) -> StepView {
        match self {
            RestoreStep::CheckIntegrity => StepView::CheckIntegrity,
            RestoreStep::CheckEntries => StepView::CheckEntries,
            RestoreStep::CreateParent => StepView::CreateParent,
            RestoreStep::CreateStaging => StepView::CreateStaging,
            RestoreStep::Unpack => StepView::Unpack,
            RestoreStep::DiscardStaging(m) => StepView::DiscardStaging(m@),
            RestoreStep::FindTarget => StepView::FindTarget,
            RestoreStep::Rename => StepView::Rename,
            RestoreStep::CreatePrevious => StepView::CreatePrevious,
            RestoreStep::MoveAside => StepView::MoveAside,
            RestoreStep::UndoAside => StepView::UndoAside,
            RestoreStep::MoveIn => StepView::MoveIn,
            RestoreStep::ClearTarget => StepView::ClearTarget,
            RestoreStep::UndoMoveIn(m) => StepView::UndoMoveIn(text::opt_view(*m)),
            RestoreStep::RemoveStaging(v, last) => StepView::RemoveStaging(v@, *last),
            RestoreStep::RemovePrevious(v, last) => StepView::RemovePrevious(v@, *last),
            RestoreStep::Finished(v) => StepView::Finished(v@),
        }
    }
}

impl View for StepOutcome {
    type V = OutcomeView;

    open spec fn view(&self) -> OutcomeView {
        match self {
            StepOutcome::Done => OutcomeView::Done,
            StepOutcome::Missing => OutcomeView::Missing,
            StepOutcome::Failed(m) => OutcomeView::Failed(m@),
        }
    }
}

/// The step that follows a step with the given outcome.
pub open spec fn next_step(step: StepView, outcome: OutcomeView) -> StepView {
    match step {
        StepView::CheckIntegrity => match outcome {
            OutcomeView::Failed(m) => StepView::Finished(VerdictView::Intact(m)),
            _ => StepView::CheckEntries,
        },
        StepView::CheckEntries => match outcome {
            OutcomeView::Failed(m) => StepView::Finished(VerdictView::Intact(m)),
            _ => StepView::CreateParent,
        },
        StepView::CreateParent => match outcome {
            OutcomeView::Failed(m) => StepView::Finished(VerdictView::Intact(m)),
            _ => StepView::CreateStaging,
        },
        StepView::CreateStaging => match outcome {
            OutcomeView::Failed(m) => StepView::Finished(VerdictView::Intact(m)),
            _ => StepView::Unpack,
        },
        StepView::Unpack => match outcome {
            OutcomeView::Failed(m) => StepView::DiscardStaging(m),
            _ => StepView::FindTarget,
        },
        StepView::DiscardStaging(m) => StepView::Finished(VerdictView::Intact(m)),
        StepView::FindTarget => match outcome {
            OutcomeView::Done => StepView::CreatePrevious,
            _ => StepView::Rename,
        },
        StepView::Rename => match outcome {
            OutcomeView::Failed(_) => StepView::Finished(
                VerdictView::Intact("activate restored server data"@),
            ),
            _ => StepView::Finished(VerdictView::Restored),
        },
        StepView::CreatePrevious => match outcome {
            OutcomeView::Failed(m) => StepView::Finished(VerdictView::Intact(m)),
            _ => StepView::MoveAside,
        },
        StepView::MoveAside => match outcome {
            OutcomeView::Failed(_) => StepView::UndoAside,
            _ => StepView::MoveIn,
        },
        StepView::UndoAside => match outcome {
            OutcomeView::Failed(m) => StepView::RemoveStaging(
                VerdictView::Torn(
                    "move current server data aside before restore; rollback also failed: "@ + m,
                ),
                true,
            ),
            _ => StepView::RemovePrevious(
                VerdictView::Intact("move current server data aside before restore"@),
                false,
            ),
        },
        StepView::MoveIn => match outcome {
            OutcomeView::Failed(_) => StepView::ClearTarget,
            _ => StepView::RemoveStaging(VerdictView::Restored, false),
        },
        StepView::ClearTarget => match outcome {
            OutcomeView::Failed(m) => StepView::UndoMoveIn(Some(m)),
            _ => StepView::UndoMoveIn(None),
        },
        StepView::UndoMoveIn(Some(clear)) => StepView::RemoveStaging(
            VerdictView::Torn(
                "activate restored server data; clearing the partial restore failed: "@ + clear,
            ),
            true,
        ),
        StepView::UndoMoveIn(None) => match outcome {
            OutcomeView::Failed(m) => StepView::RemoveStaging(
                VerdictView::Torn("activate restored server data; rollback also failed: "@ + m),
                true,
            ),
            _ => StepView::RemoveStaging(
                VerdictView::Intact("activate restored server data"@),
                false,
            ),
        },
        StepView::RemoveStaging(v, last) => if last {
            StepView::Finished(v)
        } else {
            StepView::RemovePrevious(v, true)
        },
        StepView::RemovePrevious(v, last) => if last {
            StepView::Finished(v)
        } else {
            StepView::RemoveStaging(v, true)
        },
        StepView::Finished(v) => StepView::Finished(v),
    }
}

impl RestoreStep {
    /// The first step of a restore.
    pub fn first() -> (r: RestoreStep)
        ensures
            r@ == StepView::CheckIntegrity,
    {
        RestoreStep::CheckIntegrity
    }

    /// The step that follows this one.
    pub fn after(self, outcome: StepOutcome) -> (r: RestoreStep)
        ensures
            r@ == next_step(self@, outcome@),
    {
        match self {
            RestoreStep::CheckIntegrity => match outcome {
                StepOutcome::Failed(m) => RestoreStep::Finished(Verdict::Intact(m)),
                _ => RestoreStep::CheckEntries,
            },
            RestoreStep::CheckEntries => match outcome {
                StepOutcome::Failed(m) => RestoreStep::Finished(Verdict::Intact(m)),
                _ => RestoreStep::CreateParent,
            },
            RestoreStep::CreateParent => match outcome {
                StepOutcome::Failed(m) => RestoreStep::Finished(Verdict::Intact(m)),
                _ => RestoreStep::CreateStaging,
            },
            RestoreStep::CreateStaging => match outcome {
                StepOutcome::Failed(m) => RestoreStep::Finished(Verdict::Intact(m)),
                _ => RestoreStep::Unpack,
            },
            RestoreStep::Unpack => match outcome {
                StepOutcome::Failed(m) => RestoreStep::DiscardStaging(m),
                _ => RestoreStep::FindTarget,
            },
            RestoreStep::DiscardStaging(m) => RestoreStep::Finished(Verdict::Intact(m)),
            RestoreStep::FindTarget => match outcome {
                StepOutcome::Done => RestoreStep::CreatePrevious,
                _ => RestoreStep::Rename,
            },
            RestoreStep::Rename => match outcome {
                StepOutcome::Failed(_) => RestoreStep::Finished(
                    Verdict::Intact("activate restored server data".to_owned()),
                ),
                _ => RestoreStep::Finished(Verdict::Restored),
            },
            RestoreStep::CreatePrevious => match outcome {
                StepOutcome::Failed(m) => RestoreStep::Finished(Verdict::Intact(m)),
                _ => RestoreStep::MoveAside,
            },
            RestoreStep::MoveAside => match outcome {
                StepOutcome::Failed(_) => RestoreStep::UndoAside,
                _ => RestoreStep::MoveIn,
            },
            RestoreStep::UndoAside => match outcome {
                StepOutcome::Failed(m) => {
                    let message = text::concat2(
                        "move current server data aside before restore; rollback also failed: ",
                        m.as_str(),
                    );
                    RestoreStep::RemoveStaging(Verdict::Torn(message), true)
                },
                _ => RestoreStep::RemovePrevious(
                    Verdict::Intact("move current server data aside before restore".to_owned()),
                    false,
                ),
            },
            RestoreStep::MoveIn => match outcome {
                StepOutcome::Failed(_) => RestoreStep::ClearTarget,
                _ => RestoreStep::RemoveStaging(Verdict::Restored, false),
            },
            RestoreStep::ClearTarget => match outcome {
                StepOutcome::Failed(m) => RestoreStep::UndoMoveIn(Some(m)),
                _ => RestoreStep::UndoMoveIn(None),
            },
            RestoreStep::UndoMoveIn(Some(clear)) => {
                let message = text::concat2(
                    "activate restored server data; clearing the partial restore failed: ",
                    clear.as_str(),
                );
                RestoreStep::RemoveStaging(Verdict::Torn(message), true)
            },
            RestoreStep::UndoMoveIn(None) => match outcome {
                StepOutcome::Failed(m) => {
                    let message = text::concat2(
                        "activate restored server data; rollback also failed: ",
                        m.as_str(),
                    );
                    RestoreStep::RemoveStaging(Verdict::Torn(message), true)
                },
                _ => RestoreStep::RemoveStaging(
                    Verdict::Intact("activate restored server data".to_owned()),
                    false,
                ),
            },
            RestoreStep::RemoveStaging(v, last) => if last {
                RestoreStep::Finished(v)
            } else {
                RestoreStep::RemovePrevious(v, true)
            },
            RestoreStep::RemovePrevious(v, last) => if last {
                RestoreStep::Finished(v)
            } else {
                RestoreStep::RemoveStaging(v, true)
            },
            RestoreStep::Finished(v) => RestoreStep::Finished(v),
        }
    }
}

// ---------------------------------------------------------------------------------------------
// What the steps do to the entries of the three directories.

/// The entries of the three directories of a restore. An entry is told apart by its name and by
/// everything that it holds.
#[verifier::ext_equal]
pub ghost struct Disk {
    pub target: Set<int>,
    pub staging: Set<int>,
    pub previous: Set<int>,
}

/// Some entries went from one directory to another; all of them, where the move did not fail.
pub open spec fn moved(
    from: Set<int>,
    to: Set<int>,
    from_now: Set<int>,
    to_now: Set<int>,
    failed: bool,
) -> bool {
    exists|some: Set<int>|
        {
            &&& some.subset_of(from)
            &&& !failed ==> some == from
            &&& #[trigger] from.difference(some) == from_now
            &&& to.union(some) == to_now
        }
}

/// A step may leave the directories so; `archive` is what the archive holds.
pub open spec fn performs(
    step: StepView,
    outcome: OutcomeView,
    archive: Set<int>,
    before: Disk,
    after: Disk,
) -> bool {
    let failed = outcome is Failed;
    match step {
        StepView::Unpack => {
            &&& after.target == before.target
            &&& after.previous == before.previous
            &&& !failed ==> after.staging == archive
        },
        StepView::Rename => if failed {
            after == before
        } else {
            &&& after.target == before.staging
            &&& after.previous == before.previous
        },
        StepView::MoveAside => {
            &&& after.staging == before.staging
            &&& moved(before.target, before.previous, after.target, after.previous, failed)
        },
        StepView::UndoAside => {
            &&& after.staging == before.staging
            &&& moved(before.previous, before.target, after.previous, after.target, failed)
        },
        StepView::UndoMoveIn(_) => {
            &&& after.staging == before.staging
            &&& moved(before.previous, before.target, after.previous, after.target, failed)
        },
        StepView::MoveIn => {
            &&& after.previous == before.previous
            &&& moved(before.staging, before.target, after.staging, after.target, failed)
        },
        StepView::ClearTarget => {
            &&& after.staging == before.staging
            &&& after.previous == before.previous
            &&& !failed ==> after.target == Set::<int>::empty()
        },
        StepView::DiscardStaging(_) => {
            &&& after.target == before.target
            &&& after.previous == before.previous
        },
        StepView::RemoveStaging(_, _) => {
            &&& after.target == before.target
            &&& after.previous == before.previous
        },
        StepView::RemovePrevious(_, _) => {
            &&& after.target == before.target
            &&& after.staging == before.staging
        },
        _ => after == before,
    }
}

/// What is so of the directories before a step, where the server had the entries `old`.
pub open spec fn holds_before(step: StepView, archive: Set<int>, old_entries: Set<int>, d: Disk) -> bool {
    let none = Set::<int>::empty();
    match step {
        StepView::CheckIntegrity | StepView::CheckEntries | StepView::CreateParent
        | StepView::CreateStaging | StepView::Unpack | StepView::DiscardStaging(_) => d.target == old_entries && d.previous == none,
        StepView::FindTarget | StepView::Rename | StepView::CreatePrevious
        | StepView::MoveAside => d.target == old_entries && d.previous == none && d.staging == archive,
        StepView::UndoAside => d.target.union(d.previous) == old_entries,
        StepView::MoveIn => d.target == none && d.previous == old_entries && d.staging == archive,
        StepView::ClearTarget => d.previous == old_entries,
        StepView::UndoMoveIn(None) => d.target == none && d.previous == old_entries,
        StepView::UndoMoveIn(Some(_)) => d.previous == old_entries,
        StepView::RemoveStaging(v, last) => matches_verdict(v, archive, old_entries, d) && (v
            is Torn ==> last),
        StepView::RemovePrevious(v, _) => matches_verdict(v, archive, old_entries, d) && !(v
            is Torn),
        StepView::Finished(v) => matches_verdict(v, archive, old_entries, d),
    }
}

/// The server has the entries that a verdict says that it has; those that could not be brought back
/// still lie where they were moved to.
pub open spec fn matches_verdict(
    verdict: VerdictView,
    archive: Set<int>,
    old_entries: Set<int>,
    d: Disk,
) -> bool {
    match verdict {
        VerdictView::Restored => d.target == archive,
        VerdictView::Intact(_) => d.target == old_entries,
        VerdictView::Torn(_) => old_entries.subset_of(d.target.union(d.previous)),
    }
}

/// However the steps of a restore end, what is so before each step is so again before the next.
/// So a restore that succeeds leaves the server exactly the entries of the archive, and one that
/// fails leaves it exactly the entries that it had. Where it says that bringing them back failed
/// too, none of them is lost: each is the server's, or lies where it was moved to.
pub proof fn law_restore_is_all_or_nothing(
    step: StepView,
    outcome: OutcomeView,
    archive: Set<int>,
    old_entries: Set<int>,
    before: Disk,
    after: Disk,
)
    requires
        holds_before(step, archive, old_entries, before),
        performs(step, outcome, archive, before, after),
    ensures
        holds_before(next_step(step, outcome), archive, old_entries, after),
{
    let failed = outcome is Failed;
    match step {
        StepView::MoveAside => {
            let some = choose|some: Set<int>|
                {
                    &&& some.subset_of(before.target)
                    &&& !failed ==> some == before.target
                    &&& #[trigger] before.target.difference(some) == after.target
                    &&& before.previous.union(some) == after.previous
                };
            if failed {
                assert(after.target.union(after.previous) =~= old_entries);
            } else {
                assert(after.target =~= Set::<int>::empty());
                assert(after.previous =~= old_entries);
            }
        },
        StepView::UndoAside => {
            let some = choose|some: Set<int>|
                {
                    &&& some.subset_of(before.previous)
                    &&& !failed ==> some == before.previous
                    &&& #[trigger] before.previous.difference(some) == after.previous
                    &&& before.target.union(some) == after.target
                };
            if failed {
                assert(after.target.union(after.previous) =~= old_entries);
            } else {
                assert(after.target =~= before.target.union(before.previous));
            }
        },
        StepView::MoveIn => {
            if !failed {
                assert(after.target =~= archive);
            }
        },
        StepView::UndoMoveIn(_) => {
            let some = choose|some: Set<int>|
                {
                    &&& some.subset_of(before.previous)
                    &&& !failed ==> some == before.previous
                    &&& #[trigger] before.previous.difference(some) == after.previous
                    &&& before.target.union(some) == after.target
                };
            assert(old_entries.subset_of(after.target.union(after.previous)));
            if !failed && step == StepView::UndoMoveIn(None) {
                assert(after.target =~= old_entries);
            }
        },
        _ => {},
    }
}

/// A restore went through the given steps: each step is the one that follows the one before it, and
/// each left the directories as such a step may.
pub open spec fn restore_run(
    steps: Seq<StepView>,
    outcomes: Seq<OutcomeView>,
    disks: Seq<Disk>,
    archive: Set<int>,
) -> bool {
    &&& steps.len() == disks.len() == outcomes.len() + 1
    &&& steps[0] == StepView::CheckIntegrity
    &&& forall|i: int|
        0 <= i < outcomes.len() ==> {
            &&& #[trigger] steps[i + 1] == next_step(steps[i], outcomes[i])
            &&& performs(steps[i], outcomes[i], archive, disks[i], disks[i + 1])
        }
}

proof fn lemma_run_holds(
    steps: Seq<StepView>,
    outcomes: Seq<OutcomeView>,
    disks: Seq<Disk>,
    archive: Set<int>,
    n: int,
)
    requires
        restore_run(steps, outcomes, disks, archive),
        disks[0].previous == Set::<int>::empty(),
        0 <= n < steps.len(),
    ensures
        holds_before(steps[n], archive, disks[0].target, disks[n]),
    decreases n,
{
    if n > 0 {
        lemma_run_holds(steps, outcomes, disks, archive, n - 1);
        assert(steps[n - 1 + 1] == next_step(steps[n - 1], outcomes[n - 1]));
        law_restore_is_all_or_nothing(
            steps[n - 1],
            outcomes[n - 1],
            archive,
            disks[0].target,
            disks[n - 1],
            disks[n],
        );
    }
}

proof fn lemma_run_succeeds(
    steps: Seq<StepView>,
    outcomes: Seq<OutcomeView>,
    disks: Seq<Disk>,
    archive: Set<int>,
    n: int,
)
    requires
        restore_run(steps, outcomes, disks, archive),
        forall|i: int| 0 <= i < outcomes.len() ==> !(#[trigger] outcomes[i] is Failed),
        0 <= n < steps.len(),
    ensures
        match steps[n] {
            StepView::Finished(v) => v is Restored,
            StepView::RemoveStaging(v, _) => v is Restored,
            StepView::RemovePrevious(v, _) => v is Restored,
            StepView::DiscardStaging(_) | StepView::UndoAside | StepView::ClearTarget
            | StepView::UndoMoveIn(_) => false,
            _ => true,
        },
    decreases n,
{
    if n > 0 {
        lemma_run_succeeds(steps, outcomes, disks, archive, n - 1);
        assert(steps[n - 1 + 1] == next_step(steps[n - 1], outcomes[n - 1]));
        assert(!(outcomes[n - 1] is Failed));
    }
}

/// What was packed is what a restore gives back. `contents` is what is unpacked out of the bytes of
/// an archive. Where a backup was made of a server with the entries `packed`, and its archive still
/// has the bytes that it had, the archive is accepted, also for the digest that was recorded; and
/// whatever became of the server's entries meanwhile, once no step of the restore failed the server
/// has exactly the entries that were packed: what was changed is as it was, what was deleted is
/// back, and what was added is gone.
pub proof fn law_restore_gives_back_what_was_packed(
    packed: Set<int>,
    bytes: Seq<u8>,
    contents: spec_fn(Seq<u8>) -> Set<int>,
    info: BackupInfo,
    steps: Seq<StepView>,
    outcomes: Seq<OutcomeView>,
    disks: Seq<Disk>,
)
    requires
        contents(bytes) == packed,
        recorded_of(info, bytes),
        restore_run(steps, outcomes, disks, contents(bytes)),
        disks[0].previous == Set::<int>::empty(),
        forall|i: int| 0 <= i < outcomes.len() ==> !(#[trigger] outcomes[i] is Failed),
        steps.last() is Finished,
    ensures
        integrity_refusal(bytes, info, None) is None,
        integrity_refusal(bytes, info, Some(info.checksum_sha256@)) is None,
        steps.last() == StepView::Finished(VerdictView::Restored),
        disks.last().target == packed,
{
    law_unchanged_archive_passes(bytes, info, false);
    law_unchanged_archive_passes(bytes, info, true);
    lemma_run_holds(steps, outcomes, disks, contents(bytes), steps.len() - 1);
    lemma_run_succeeds(steps, outcomes, disks, contents(bytes), steps.len() - 1);
}

/// An archive that is not the one that was recorded, or not the one that was asked for, is not
/// restored: the server keeps what it has, and the restore says why.
pub proof fn law_refused_archives_change_nothing(
    bytes: Seq<u8>,
    info: BackupInfo,
    expected: Option<Seq<char>>,
    outcome: OutcomeView,
    archive: Set<int>,
    before: Disk,
    after: Disk,
)
    requires
        integrity_refusal(bytes, info, expected) is Some,
        outcome == OutcomeView::Failed(integrity_refusal(bytes, info, expected)->0),
        performs(StepView::CheckIntegrity, outcome, archive, before, after),
    ensures
        next_step(StepView::CheckIntegrity, outcome) == StepView::Finished(
            VerdictView::Intact(integrity_refusal(bytes, info, expected)->0),
        ),
        after == before,
{
}

/// However the steps of a restore end, the server has exactly the entries of the archive, or exactly
/// those that it had, or the restore says that it has neither, and then none of those that it had
/// is lost.
pub proof fn law_restore_loses_nothing(
    archive: Set<int>,
    steps: Seq<StepView>,
    outcomes: Seq<OutcomeView>,
    disks: Seq<Disk>,
)
    requires
        restore_run(steps, outcomes, disks, archive),
        disks[0].previous == Set::<int>::empty(),
        steps.last() is Finished,
    ensures
        matches_verdict(steps.last()->Finished_0, archive, disks[0].target, disks.last()),
{
    lemma_run_holds(steps, outcomes, disks, archive, steps.len() - 1);
}

/// How many steps are left at most.
pub open spec fn steps_left(step: StepView) -> nat {
    match step {
        StepView::CheckIntegrity => 14,
        StepView::CheckEntries => 13,
        StepView::CreateParent => 12,
        StepView::CreateStaging => 11,
        StepView::Unpack => 10,
        StepView::DiscardStaging(_) => 1,
        StepView::FindTarget => 9,
        StepView::Rename => 1,
        StepView::CreatePrevious => 8,
        StepView::MoveAside => 7,
        StepView::MoveIn => 6,
        StepView::ClearTarget => 5,
        StepView::UndoAside => 4,
        StepView::UndoMoveIn(_) => 4,
        StepView::RemoveStaging(_, last) => if last {
            1
        } else {
            2
        },
        StepView::RemovePrevious(_, last) => if last {
            1
        } else {
            2
        },
        StepView::Finished(_) => 0,
    }
}

/// A restore ends: every step but the last leaves fewer steps.
pub proof fn law_restore_ends(step: StepView, outcome: OutcomeView)
    requires
        !(step is Finished),
    ensures
        steps_left(next_step(step, outcome)) < steps_left(step),
{
}

/// A restore that meets no error checks the archive and its entries, unpacks it beside the server,
/// and puts it in place of what is there: by one rename where nothing is, else by moving the old
/// files aside and the new ones in, after which both directories are removed.
pub proof fn law_a_restore_goes_through(short: OutcomeView)
    requires
        !(short is Failed),
        short != OutcomeView::Done,
    ensures
        next_step(StepView::CheckIntegrity, OutcomeView::Done) == StepView::CheckEntries,
        next_step(StepView::CheckEntries, OutcomeView::Done) == StepView::CreateParent,
        next_step(StepView::CreateParent, OutcomeView::Done) == StepView::CreateStaging,
        next_step(StepView::CreateStaging, OutcomeView::Done) == StepView::Unpack,
        next_step(StepView::Unpack, OutcomeView::Done) == StepView::FindTarget,
        next_step(StepView::FindTarget, short) == StepView::Rename,
        next_step(StepView::Rename, OutcomeView::Done) == StepView::Finished(VerdictView::Restored),
        next_step(StepView::FindTarget, OutcomeView::Done) == StepView::CreatePrevious,
        next_step(StepView::CreatePrevious, OutcomeView::Done) == StepView::MoveAside,
        next_step(StepView::MoveAside, OutcomeView::Done) == StepView::MoveIn,
        next_step(StepView::MoveIn, OutcomeView::Done) == StepView::RemoveStaging(
            VerdictView::Restored,
            false,
        ),
        next_step(StepView::RemoveStaging(VerdictView::Restored, false), OutcomeView::Done)
            == StepView::RemovePrevious(VerdictView::Restored, true),
        next_step(StepView::RemovePrevious(VerdictView::Restored, true), OutcomeView::Done)
            == StepView::Finished(VerdictView::Restored),
{
}

/// A restore succeeds only by its last move or rename: no failed step leads to success, and a step
/// that follows a failure keeps the failure.
pub proof fn law_failed_restores_are_not_reported_as_done(
    step: StepView,
    outcome: OutcomeView,
    m: Seq<char>,
)
    requires
        outcome is Failed,
    ensures
        next_step(step, outcome) == StepView::Finished(VerdictView::Restored) ==> step
            == StepView::Finished(VerdictView::Restored) || step == StepView::RemoveStaging(
            VerdictView::Restored,
            true,
        ) || step == StepView::RemovePrevious(VerdictView::Restored, true),
        next_step(StepView::MoveAside, outcome) == StepView::UndoAside,
        next_step(StepView::MoveIn, outcome) == StepView::ClearTarget,
        next_step(StepView::Unpack, OutcomeView::Failed(m)) == StepView::DiscardStaging(m),
        next_step(StepView::DiscardStaging(m), outcome) == StepView::Finished(
            VerdictView::Intact(m),
        ),
        next_step(StepView::CheckEntries, OutcomeView::Failed(m)) == StepView::Finished(
            VerdictView::Intact(m),
        ),
        next_step(StepView::UndoAside, outcome) is RemoveStaging,
        next_step(StepView::UndoMoveIn(None), outcome) is RemoveStaging,
        next_step(StepView::UndoMoveIn(None), outcome)->RemoveStaging_0 is Torn,
        next_step(StepView::UndoMoveIn(None), outcome)->RemoveStaging_1,
{
}

} // verus!
