//! The order in which a server is started, stopped, replaced and deleted, and what a step that
//! failed leads to.

use crate::docker::lifecycle::StopPlan;
use vstd::prelude::*;

verus! {

/// How a step ended.
#[derive(Clone, Copy, Debug, PartialEq, Eq, Structural)]
pub enum Outcome {
    Done,
    /// What the step is about is not there, or is still in the way.
    Short,
    /// An error, for which the container has to be replaced first.
    Stale,
    /// Another error.
    Failed,
}

/// A step ended with an error.
pub open spec fn is_error(outcome: Outcome) -> bool {
    outcome == Outcome::Stale || outcome == Outcome::Failed
}

// ---------------------------------------------------------------------------------------------
// Starting.

/// What is done next to start a server.
#[derive(Clone, Copy, Debug, PartialEq, Eq, Structural)]
pub enum StartPhase {
    /// Looks whether the container has to be replaced.
    Inspect,
    Repair,
    /// Writes the server's configuration files.
    Configure,
    /// Refuses a server that uses more disk than it may.
    CheckDisk,
    /// Forgets what was held against the server, and that it was ready.
    Recover,
    SetRestartPolicy,
    Launch,
    RepairAgain,
    LaunchAgain,
    Done,
    Fail,
}

/// What follows a step of starting a server.
pub open spec fn started_by(phase: StartPhase, outcome: Outcome) -> StartPhase {
    match phase {
        StartPhase::Inspect => if outcome == Outcome::Stale {
            StartPhase::Repair
        } else {
            StartPhase::Configure
        },
        StartPhase::Repair => if is_error(outcome) {
            StartPhase::Fail
        } else {
            StartPhase::Configure
        },
        StartPhase::Configure => if is_error(outcome) {
            StartPhase::Fail
        } else {
            StartPhase::CheckDisk
        },
        StartPhase::CheckDisk => if is_error(outcome) {
            StartPhase::Fail
        } else {
            StartPhase::Recover
        },
        StartPhase::Recover => StartPhase::SetRestartPolicy,
        StartPhase::SetRestartPolicy => if is_error(outcome) {
            StartPhase::Fail
        } else {
            StartPhase::Launch
        },
        StartPhase::Launch => match outcome {
            Outcome::Stale => StartPhase::RepairAgain,
            Outcome::Failed => StartPhase::Fail,
            _ => StartPhase::Done,
        },
        StartPhase::RepairAgain => if is_error(outcome) {
            StartPhase::Fail
        } else {
            StartPhase::LaunchAgain
        },
        StartPhase::LaunchAgain => match outcome {
            Outcome::Stale | Outcome::Failed => StartPhase::Fail,
            _ => StartPhase::Done,
        },
        StartPhase::Done => StartPhase::Done,
        StartPhase::Fail => StartPhase::Fail,
    }
}

/// What follows a step of starting a server.
pub fn after_start_phase(phase: StartPhase, outcome: Outcome) -> (r: StartPhase)
    ensures
        r == started_by(phase, outcome),
{
    match phase {
        StartPhase::Inspect => match outcome {
            Outcome::Stale => StartPhase::Repair,
            _ => StartPhase::Configure,
        },
        StartPhase::Repair => match outcome {
            Outcome::Stale | Outcome::Failed => StartPhase::Fail,
            _ => StartPhase::Configure,
        },
        StartPhase::Configure => match outcome {
            Outcome::Stale | Outcome::Failed => StartPhase::Fail,
            _ => StartPhase::CheckDisk,
        },
        StartPhase::CheckDisk => match outcome {
            Outcome::Stale | Outcome::Failed => StartPhase::Fail,
            _ => StartPhase::Recover,
        },
        StartPhase::Recover => StartPhase::SetRestartPolicy,
        StartPhase::SetRestartPolicy => match outcome {
            Outcome::Stale | Outcome::Failed => StartPhase::Fail,
            _ => StartPhase::Launch,
        },
        StartPhase::Launch => match outcome {
            Outcome::Stale => StartPhase::RepairAgain,
            Outcome::Failed => StartPhase::Fail,
            _ => StartPhase::Done,
        },
        StartPhase::RepairAgain => match outcome {
            Outcome::Stale | Outcome::Failed => StartPhase::Fail,
            _ => StartPhase::LaunchAgain,
        },
        StartPhase::LaunchAgain => match outcome {
            Outcome::Stale | Outcome::Failed => StartPhase::Fail,
            _ => StartPhase::Done,
        },
        StartPhase::Done => StartPhase::Done,
        StartPhase::Fail => StartPhase::Fail,
    }
}

// ---------------------------------------------------------------------------------------------
// Stopping.

/// What is done next to stop a server.
#[derive(Clone, Copy, Debug, PartialEq, Eq, Structural)]
pub enum StopPhase {
    /// Keeps Docker from restarting the container; the flag says whether it is interrupted next,
    /// or given its command.
    DisableRestarts(bool),
    Interrupt,
    Command,
    /// Waits for the container to end by itself.
    Wait,
    /// Stops the container by force.
    Force,
    /// Lets go of the container's console; the flag says whether it is also forgotten that the
    /// server was ready.
    Release(bool),
    Done,
    Fail,
}

/// What is done first to stop a server.
pub open spec fn stopped_from(plan: StopPlan) -> StopPhase {
    match plan {
        StopPlan::AlreadyStopped => StopPhase::Release(false),
        StopPlan::Interrupt => StopPhase::DisableRestarts(true),
        StopPlan::Command(_) => StopPhase::DisableRestarts(false),
        StopPlan::Force => StopPhase::Force,
    }
}

/// What is done first to stop a server.
pub fn begin_stop(plan: &StopPlan) -> (r: StopPhase)
    ensures
        r == stopped_from(*plan),
{
    match plan {
        StopPlan::AlreadyStopped => StopPhase::Release(false),
        StopPlan::Interrupt => StopPhase::DisableRestarts(true),
        StopPlan::Command(_) => StopPhase::DisableRestarts(false),
        StopPlan::Force => StopPhase::Force,
    }
}

/// What follows a step of stopping a server.
pub open spec fn stopped_by(phase: StopPhase, outcome: Outcome) -> StopPhase {
    match phase {
        StopPhase::DisableRestarts(interrupt) => if is_error(outcome) {
            StopPhase::Fail
        } else if interrupt {
            StopPhase::Interrupt
        } else {
            StopPhase::Command
        },
        StopPhase::Interrupt => StopPhase::Wait,
        StopPhase::Command => StopPhase::Wait,
        StopPhase::Wait => match outcome {
            Outcome::Done => StopPhase::Release(true),
            Outcome::Stale | Outcome::Failed => StopPhase::Fail,
            _ => StopPhase::Force,
        },
        StopPhase::Force => if is_error(outcome) {
            StopPhase::Fail
        } else {
            StopPhase::Release(true)
        },
        StopPhase::Release(_) => StopPhase::Done,
        StopPhase::Done => StopPhase::Done,
        StopPhase::Fail => StopPhase::Fail,
    }
}

/// What follows a step of stopping a server. A server that does not end by itself in time is
/// stopped by force.
pub fn after_stop_phase(phase: StopPhase, outcome: Outcome) -> (r: StopPhase)
    ensures
        r == stopped_by(phase, outcome),
{
    match phase {
        StopPhase::DisableRestarts(interrupt) => match outcome {
            Outcome::Stale | Outcome::Failed => StopPhase::Fail,
            _ => if interrupt {
                StopPhase::Interrupt
            } else {
                StopPhase::Command
            },
        },
        StopPhase::Interrupt => StopPhase::Wait,
        StopPhase::Command => StopPhase::Wait,
        StopPhase::Wait => match outcome {
            Outcome::Done => StopPhase::Release(true),
            Outcome::Stale | Outcome::Failed => StopPhase::Fail,
            _ => StopPhase::Force,
        },
        StopPhase::Force => match outcome {
            Outcome::Stale | Outcome::Failed => StopPhase::Fail,
            _ => StopPhase::Release(true),
        },
        StopPhase::Release(_) => StopPhase::Done,
        StopPhase::Done => StopPhase::Done,
        StopPhase::Fail => StopPhase::Fail,
    }
}

// ---------------------------------------------------------------------------------------------
// Replacing.

/// What a container is replaced for.
#[derive(Clone, Copy, Debug, PartialEq, Eq, Structural)]
pub struct Replacement {
    /// The newest image is fetched.
    pub pulls: bool,
    /// The server runs, and is to run again.
    pub was_running: bool,
}

/// What is done next to replace a server's container.
#[derive(Clone, Copy, Debug, PartialEq, Eq, Structural)]
pub enum ReplacePhase {
    Pull,
    Stop,
    Replace,
    /// Looks at the new container.
    Inspect,
    /// Forgets what is known of the old container.
    Forget,
    Start,
    Done,
    Fail,
}

/// What is done first to replace a server's container.
pub open spec fn replaced_from(what: Replacement) -> ReplacePhase {
    if what.pulls {
        ReplacePhase::Pull
    } else if what.was_running {
        ReplacePhase::Stop
    } else {
        ReplacePhase::Replace
    }
}

/// What is done first to replace a server's container.
pub fn begin_replace(what: Replacement) -> (r: ReplacePhase)
    ensures
        r == replaced_from(what),
{
    if what.pulls {
        ReplacePhase::Pull
    } else if what.was_running {
        ReplacePhase::Stop
    } else {
        ReplacePhase::Replace
    }
}

/// What follows a step of replacing a server's container.
pub open spec fn replaced_by(what: Replacement, phase: ReplacePhase, outcome: Outcome) -> ReplacePhase {
    if is_error(outcome) && phase != ReplacePhase::Forget && phase != ReplacePhase::Done {
        ReplacePhase::Fail
    } else {
        match phase {
            ReplacePhase::Pull => if what.was_running {
                ReplacePhase::Stop
            } else {
                ReplacePhase::Replace
            },
            ReplacePhase::Stop => ReplacePhase::Replace,
            ReplacePhase::Replace => if what.pulls {
                ReplacePhase::Inspect
            } else {
                ReplacePhase::Forget
            },
            ReplacePhase::Inspect => ReplacePhase::Forget,
            ReplacePhase::Forget => if what.was_running {
                ReplacePhase::Start
            } else {
                ReplacePhase::Done
            },
            ReplacePhase::Start => ReplacePhase::Done,
            ReplacePhase::Done => ReplacePhase::Done,
            ReplacePhase::Fail => ReplacePhase::Fail,
        }
    }
}

/// What follows a step of replacing a server's container. A new image is fetched before the server
/// is stopped, so that it is down for as short as may be.
pub fn after_replace_phase(what: Replacement, phase: ReplacePhase, outcome: Outcome) -> (r:
    ReplacePhase)
    ensures
        r == replaced_by(what, phase, outcome),
{
    let failed = outcome == Outcome::Stale || outcome == Outcome::Failed;
    if failed && phase != ReplacePhase::Forget && phase != ReplacePhase::Done {
        return ReplacePhase::Fail;
    }
    match phase {
        ReplacePhase::Pull => if what.was_running {
            ReplacePhase::Stop
        } else {
            ReplacePhase::Replace
        },
        ReplacePhase::Stop => ReplacePhase::Replace,
        ReplacePhase::Replace => if what.pulls {
            ReplacePhase::Inspect
        } else {
            ReplacePhase::Forget
        },
        ReplacePhase::Inspect => ReplacePhase::Forget,
        ReplacePhase::Forget => if what.was_running {
            ReplacePhase::Start
        } else {
            ReplacePhase::Done
        },
        ReplacePhase::Start => ReplacePhase::Done,
        ReplacePhase::Done => ReplacePhase::Done,
        ReplacePhase::Fail => ReplacePhase::Fail,
    }
}

// ---------------------------------------------------------------------------------------------
// Deleting.

/// What is done next to delete a server.
#[derive(Clone, Copy, Debug, PartialEq, Eq, Structural)]
pub enum DeletePhase {
    /// Lets go of the container's console.
    Release,
    RemoveContainer,
    RemoveDirectory,
    RemoveDiskLimit,
    RemoveConfiguration,
    /// Forgets everything that is known of the server.
    Forget,
    Done,
    Fail,
}

/// What follows a step of deleting a server.
pub open spec fn deleted_by(phase: DeletePhase, outcome: Outcome) -> DeletePhase {
    let failed = is_error(outcome);
    match phase {
        DeletePhase::Release => DeletePhase::RemoveContainer,
        DeletePhase::RemoveContainer => if failed {
            DeletePhase::Fail
        } else {
            DeletePhase::RemoveDirectory
        },
        DeletePhase::RemoveDirectory => if failed {
            DeletePhase::Fail
        } else {
            DeletePhase::RemoveDiskLimit
        },
        DeletePhase::RemoveDiskLimit => if failed {
            DeletePhase::Fail
        } else {
            DeletePhase::RemoveConfiguration
        },
        DeletePhase::RemoveConfiguration => if failed {
            DeletePhase::Fail
        } else {
            DeletePhase::Forget
        },
        DeletePhase::Forget => DeletePhase::Done,
        DeletePhase::Done => DeletePhase::Done,
        DeletePhase::Fail => DeletePhase::Fail,
    }
}

/// What follows a step of deleting a server. What is gone already is no failure.
pub fn after_delete_phase(phase: DeletePhase, outcome: Outcome) -> (r: DeletePhase)
    ensures
        r == deleted_by(phase, outcome),
{
    let failed = outcome == Outcome::Stale || outcome == Outcome::Failed;
    match phase {
        DeletePhase::Release => DeletePhase::RemoveContainer,
        DeletePhase::RemoveContainer => if failed {
            DeletePhase::Fail
        } else {
            DeletePhase::RemoveDirectory
        },
        DeletePhase::RemoveDirectory => if failed {
            DeletePhase::Fail
        } else {
            DeletePhase::RemoveDiskLimit
        },
        DeletePhase::RemoveDiskLimit => if failed {
            DeletePhase::Fail
        } else {
            DeletePhase::RemoveConfiguration
        },
        DeletePhase::RemoveConfiguration => if failed {
            DeletePhase::Fail
        } else {
            DeletePhase::Forget
        },
        DeletePhase::Forget => DeletePhase::Done,
        DeletePhase::Done => DeletePhase::Done,
        DeletePhase::Fail => DeletePhase::Fail,
    }
}

// ---------------------------------------------------------------------------------------------
// Laws.

/// The disk of the server was found to be in order.
pub open spec fn disk_checked(phase: StartPhase) -> bool {
    match phase {
        StartPhase::Recover | StartPhase::SetRestartPolicy | StartPhase::Launch
        | StartPhase::RepairAgain | StartPhase::LaunchAgain | StartPhase::Done => true,
        _ => false,
    }
}

/// A server is never started while it uses more disk than it may: the only way to the steps that
/// start it leads through the check of its disk, and only where that did not fail.
pub proof fn law_start_is_gated_on_disk(phase: StartPhase, outcome: Outcome)
    requires
        !disk_checked(phase),
        disk_checked(started_by(phase, outcome)),
    ensures
        phase == StartPhase::CheckDisk,
        !is_error(outcome),
{
}

/// How many steps of starting a server are left at most.
pub open spec fn start_left(phase: StartPhase) -> nat {
    match phase {
        StartPhase::Inspect => 9,
        StartPhase::Repair => 8,
        StartPhase::Configure => 7,
        StartPhase::CheckDisk => 6,
        StartPhase::Recover => 5,
        StartPhase::SetRestartPolicy => 4,
        StartPhase::Launch => 3,
        StartPhase::RepairAgain => 2,
        StartPhase::LaunchAgain => 1,
        StartPhase::Done => 0,
        StartPhase::Fail => 0,
    }
}

/// Starting a server ends, and so a container is replaced at most once before and once after the
/// first try: every step leaves fewer steps.
pub proof fn law_start_ends(phase: StartPhase, outcome: Outcome)
    requires
        phase != StartPhase::Done,
        phase != StartPhase::Fail,
    ensures
        start_left(started_by(phase, outcome)) < start_left(phase),
{
}

/// The container has ended, as far as a step tells.
pub open spec fn has_ended(phase: StopPhase) -> bool {
    match phase {
        StopPhase::Release(_) | StopPhase::Done => true,
        _ => false,
    }
}

/// A server counts as stopped only once its container has ended: by itself within the time that it
/// is given, or by force.
pub proof fn law_stop_waits_for_the_end(phase: StopPhase, outcome: Outcome)
    requires
        !has_ended(phase),
        has_ended(stopped_by(phase, outcome)),
    ensures
        phase == StopPhase::Wait && outcome == Outcome::Done || phase == StopPhase::Force
            && !is_error(outcome),
{
}

/// A server is not stopped for an image that could not be fetched, and its container is not
/// replaced before it was stopped.
pub proof fn law_image_comes_before_the_stop(
    what: Replacement,
    phase: ReplacePhase,
    outcome: Outcome,
)
    requires
        what.pulls,
        what.was_running,
    ensures
        replaced_from(what) == ReplacePhase::Pull,
        replaced_by(what, phase, outcome) == ReplacePhase::Stop ==> phase == ReplacePhase::Pull
            && !is_error(outcome),
        replaced_by(what, phase, outcome) == ReplacePhase::Replace ==> phase == ReplacePhase::Stop
            && !is_error(outcome),
{
}

/// A server that ran runs again once its container was replaced, and one that did not does not.
pub proof fn law_replacement_keeps_the_state(
    what: Replacement,
    phase: ReplacePhase,
    outcome: Outcome,
)
    requires
        phase != ReplacePhase::Done,
        phase == ReplacePhase::Start ==> what.was_running,
        replaced_by(what, phase, outcome) == ReplacePhase::Done,
    ensures
        phase == if what.was_running {
            ReplacePhase::Start
        } else {
            ReplacePhase::Forget
        },
{
}

/// Where deleting a server has come to, once its steps ended as given.
pub open spec fn deletion(outcomes: Seq<Outcome>) -> DeletePhase
    decreases outcomes.len(),
{
    if outcomes.len() == 0 {
        DeletePhase::Release
    } else {
        deleted_by(deletion(outcomes.drop_last()), outcomes.last())
    }
}

/// How many steps come before one of deleting a server.
pub open spec fn deletion_steps(phase: DeletePhase) -> int {
    match phase {
        DeletePhase::Release => 0,
        DeletePhase::RemoveContainer => 1,
        DeletePhase::RemoveDirectory => 2,
        DeletePhase::RemoveDiskLimit => 3,
        DeletePhase::RemoveConfiguration => 4,
        DeletePhase::Forget => 5,
        DeletePhase::Done => 6,
        DeletePhase::Fail => 0,
    }
}

/// However the steps end, deleting a server comes to a step only once all steps before it were
/// taken, and none of them but the release of the console failed. So a server is forgotten only
/// once its container, its directory and its records are gone.
pub proof fn law_forgotten_servers_are_gone(outcomes: Seq<Outcome>)
    requires
        deletion(outcomes) != DeletePhase::Fail,
    ensures
        outcomes.len() >= deletion_steps(deletion(outcomes)),
        deletion(outcomes) != DeletePhase::Done ==> outcomes.len() == deletion_steps(
            deletion(outcomes),
        ),
        forall|i: int|
            0 <= i < deletion_steps(deletion(outcomes)) ==> deletion(outcomes.take(i))
                != DeletePhase::Fail && deletion_steps(#[trigger] deletion(outcomes.take(i))) == i,
        forall|i: int|
            1 <= i < 5 && i < deletion_steps(deletion(outcomes)) ==> !is_error(
                #[trigger] outcomes[i],
            ),
    decreases outcomes.len(),
{
    if outcomes.len() > 0 {
        let before = outcomes.drop_last();
        law_forgotten_servers_are_gone(before);
        let n = before.len() as int;
        assert forall|i: int| 0 <= i <= n implies #[trigger] outcomes.take(i) == before.take(i) by {
            assert(outcomes.take(i) =~= before.take(i));
        }
        assert(before.take(n) =~= before);
        assert(deletion(outcomes) == deleted_by(deletion(before), outcomes.last()));
        assert forall|i: int|
            1 <= i < 5 && i < deletion_steps(deletion(outcomes)) implies !is_error(
                #[trigger] outcomes[i],
            ) by {
            if i < n {
                assert(before[i] == outcomes[i]);
            }
        }
    }
}

/// A start that meets no error looks at the container, writes its configuration, checks its disk,
/// recovers its console, sets its restart policy and launches it, in this order, and is done.
pub proof fn law_a_start_without_errors_launches(a: Outcome, b: Outcome, c: Outcome, d: Outcome)
    requires
        !is_error(a),
        !is_error(b),
        !is_error(c),
        !is_error(d),
    ensures
        started_by(StartPhase::Inspect, a) == StartPhase::Configure,
        started_by(started_by(StartPhase::Inspect, a), b) == StartPhase::CheckDisk,
        started_by(started_by(started_by(StartPhase::Inspect, a), b), c) == StartPhase::Recover,
        started_by(started_by(StartPhase::Recover, a), b) == StartPhase::Launch,
        started_by(StartPhase::Launch, d) == StartPhase::Done,
        started_by(started_by(StartPhase::Repair, a), b) == StartPhase::CheckDisk,
        started_by(started_by(StartPhase::RepairAgain, a), b) == StartPhase::Done,
{
}

/// A container whose mounts have gone is replaced, once before and once after it was tried to launch
/// it. A start is given up where any other step fails, except that a container that cannot be looked
/// at is tried nevertheless, and that a console that cannot be recovered keeps no server down.
pub proof fn law_failed_starts_are_given_up(phase: StartPhase, outcome: Outcome)
    ensures
        started_by(StartPhase::Inspect, Outcome::Stale) == StartPhase::Repair,
        started_by(StartPhase::Inspect, Outcome::Failed) == StartPhase::Configure,
        started_by(StartPhase::Launch, Outcome::Stale) == StartPhase::RepairAgain,
        started_by(StartPhase::Launch, Outcome::Failed) == StartPhase::Fail,
        started_by(StartPhase::Recover, outcome) == StartPhase::SetRestartPolicy,
        is_error(outcome) && phase != StartPhase::Inspect && phase != StartPhase::Recover && phase
            != StartPhase::Launch && phase != StartPhase::Done ==> started_by(phase, outcome)
            == StartPhase::Fail,
        started_by(phase, outcome) == StartPhase::Done && phase != StartPhase::Done ==> (phase
            == StartPhase::Launch || phase == StartPhase::LaunchAgain) && !is_error(outcome),
        is_error(outcome) <==> outcome != Outcome::Done && outcome != Outcome::Short,
{
}

/// A server that runs is stopped as it asks for, once it is not started again by itself any more,
/// and then waited for. One that does not end in time is ended by force; one that ended already is
/// only let go of.
pub proof fn law_a_stop_asks_first(plan: StopPlan, outcome: Outcome, other: Outcome)
    requires
        !is_error(outcome),
    ensures
        plan is Interrupt ==> stopped_by(stopped_from(plan), outcome) == StopPhase::Interrupt,
        plan is Command ==> stopped_by(stopped_from(plan), outcome) == StopPhase::Command,
        plan is Interrupt || plan is Command ==> stopped_by(
            stopped_by(stopped_from(plan), outcome),
            other,
        ) == StopPhase::Wait && stopped_by(stopped_from(plan), Outcome::Failed) == StopPhase::Fail,
        stopped_by(StopPhase::Wait, Outcome::Done) == StopPhase::Release(true),
        stopped_by(StopPhase::Wait, Outcome::Short) == StopPhase::Force,
        is_error(other) ==> stopped_by(StopPhase::Wait, other) == StopPhase::Fail,
        plan is Force ==> stopped_from(plan) == StopPhase::Force,
        stopped_by(StopPhase::Force, outcome) == StopPhase::Release(true),
        plan is AlreadyStopped ==> stopped_from(plan) == StopPhase::Release(false),
        stopped_by(StopPhase::Release(true), other) == StopPhase::Done,
        stopped_by(StopPhase::Release(false), other) == StopPhase::Done,
{
}

/// A replacement that meets no error pulls the image where one is to be pulled, stops the server
/// where it ran, replaces its container, and starts it again where it ran.
pub proof fn law_a_replacement_goes_through(what: Replacement, outcome: Outcome, other: Outcome)
    requires
        !is_error(outcome),
    ensures
        what.pulls <==> replaced_from(what) == ReplacePhase::Pull,
        ({
            let first = if what.pulls {
                replaced_by(what, replaced_from(what), outcome)
            } else {
                replaced_from(what)
            };
            first == if what.was_running {
                ReplacePhase::Stop
            } else {
                ReplacePhase::Replace
            }
        }),
        replaced_by(what, ReplacePhase::Stop, outcome) == ReplacePhase::Replace,
        what.pulls ==> replaced_by(
            what,
            replaced_by(what, ReplacePhase::Replace, outcome),
            outcome,
        ) == ReplacePhase::Forget,
        !what.pulls ==> replaced_by(what, ReplacePhase::Replace, outcome) == ReplacePhase::Forget,
        what.was_running ==> replaced_by(what, ReplacePhase::Forget, other) == ReplacePhase::Start,
        !what.was_running ==> replaced_by(what, ReplacePhase::Forget, other) == ReplacePhase::Done,
        replaced_by(what, ReplacePhase::Start, outcome) == ReplacePhase::Done,
        is_error(other) ==> replaced_by(what, ReplacePhase::Pull, other) == ReplacePhase::Fail
            && replaced_by(what, ReplacePhase::Stop, other) == ReplacePhase::Fail && replaced_by(
            what,
            ReplacePhase::Replace,
            other,
        ) == ReplacePhase::Fail && replaced_by(what, ReplacePhase::Start, other)
            == ReplacePhase::Fail,
{
}

/// A deletion that meets no error lets the console go, removes the container, the directory and the
/// two records, forgets the server, and is done after these six steps.
pub proof fn law_a_deletion_goes_through(outcomes: Seq<Outcome>)
    requires
        forall|i: int| 0 <= i < outcomes.len() ==> !is_error(#[trigger] outcomes[i]),
    ensures
        outcomes.len() == 1 ==> deletion(outcomes) == DeletePhase::RemoveContainer,
        outcomes.len() == 2 ==> deletion(outcomes) == DeletePhase::RemoveDirectory,
        outcomes.len() == 3 ==> deletion(outcomes) == DeletePhase::RemoveDiskLimit,
        outcomes.len() == 4 ==> deletion(outcomes) == DeletePhase::RemoveConfiguration,
        outcomes.len() == 5 ==> deletion(outcomes) == DeletePhase::Forget,
        outcomes.len() >= 6 ==> deletion(outcomes) == DeletePhase::Done,
        outcomes.len() == 0 ==> deletion(outcomes) == DeletePhase::Release,
    decreases outcomes.len(),
{
    if outcomes.len() > 0 {
        let before = outcomes.drop_last();
        assert forall|i: int| 0 <= i < before.len() implies !is_error(#[trigger] before[i]) by {
            assert(before[i] == outcomes[i]);
        }
        law_a_deletion_goes_through(before);
        assert(!is_error(outcomes[outcomes.len() - 1]));
    }
}

} // verus!
