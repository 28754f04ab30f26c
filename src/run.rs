//! The stages of one run of the matrix, and the decision of which comes next. Each stage is
//! carried out by the caller for every release at once, and ends before the next begins.
use vstd::prelude::*;

verus! {

/// Why a run ends in failure.
#[derive(Clone, Copy, Debug, PartialEq, Eq, Structural)]
pub enum RunError {
    /// The requirement selects no release.
    NoMatchingVersion,
    /// An image could not be built.
    BuildFailed,
    /// A container could not be created or started.
    StartFailed,
    /// A cookie does not carry the canary.
    CheckFailed,
}

/// A stage of the run.
#[derive(Clone, Copy, Debug, PartialEq, Eq, Structural)]
pub enum Stage {
    BuildBaseImages,
    BuildReleaseImages,
    StartContainers,
    PollCookies,
    /// Removes every started container; the run then ends with `failure`, or goes on to
    /// check the cookies when there is none.
    Teardown { failure: Option<RunError> },
    CheckCookies,
    Finished,
    Exit(RunError),
}

/// Whether the run is over.
pub open spec fn is_final(s: Stage) -> bool {
    s is Finished || s is Exit
}

/// The stage the run starts with, given how many releases were selected.
pub open spec fn initial_stage(version_count: nat) -> Stage {
    if version_count == 0 {
        Stage::Exit(RunError::NoMatchingVersion)
    } else {
        Stage::BuildBaseImages
    }
}

/// The stage that follows `s`, given whether it succeeded. Teardown goes on whatever it
/// met: its removals are best effort.
pub open spec fn stage_after(s: Stage, succeeded: bool) -> Stage {
    match s {
        Stage::BuildBaseImages => if succeeded {
            Stage::BuildReleaseImages
        } else {
            Stage::Exit(RunError::BuildFailed)
        },
        Stage::BuildReleaseImages => if succeeded {
            Stage::StartContainers
        } else {
            Stage::Exit(RunError::BuildFailed)
        },
        Stage::StartContainers => if succeeded {
            Stage::PollCookies
        } else {
            Stage::Teardown { failure: Some(RunError::StartFailed) }
        },
        Stage::PollCookies => Stage::Teardown { failure: None },
        Stage::Teardown { failure } => match failure {
            Some(e) => Stage::Exit(e),
            None => Stage::CheckCookies,
        },
        Stage::CheckCookies => if succeeded {
            Stage::Finished
        } else {
            Stage::Exit(RunError::CheckFailed)
        },
        _ => s,
    }
}

/// The stage the run starts with: it ends at once when no release was selected, before any
/// build or container.
pub fn first_stage(version_count: usize) -> (r: Stage)
    ensures
        r == initial_stage(version_count as nat),
        version_count == 0 <==> r == Stage::Exit(RunError::NoMatchingVersion),
{
    if version_count == 0 {
        Stage::Exit(RunError::NoMatchingVersion)
    } else {
        Stage::BuildBaseImages
    }
}

/// The stage that follows `s`.
pub fn next_stage(s: Stage, succeeded: bool) -> (r: Stage)
    requires
        !is_final(s),
    ensures
        r == stage_after(s, succeeded),
{
    match s {
        Stage::BuildBaseImages => if succeeded {
            Stage::BuildReleaseImages
        } else {
            Stage::Exit(RunError::BuildFailed)
        },
        Stage::BuildReleaseImages => if succeeded {
            Stage::StartContainers
        } else {
            Stage::Exit(RunError::BuildFailed)
        },
        Stage::StartContainers => if succeeded {
            Stage::PollCookies
        } else {
            Stage::Teardown { failure: Some(RunError::StartFailed) }
        },
        Stage::PollCookies => Stage::Teardown { failure: None },
        Stage::Teardown { failure } => match failure {
            Some(e) => Stage::Exit(e),
            None => Stage::CheckCookies,
        },
        Stage::CheckCookies => if succeeded {
            Stage::Finished
        } else {
            Stage::Exit(RunError::CheckFailed)
        },
        _ => s,
    }
}

/// The stage reached from `s` after the outcomes `outcomes`, one per stage passed.
pub open spec fn run_from(s: Stage, outcomes: Seq<bool>) -> Stage
    decreases outcomes.len(),
{
    if outcomes.len() == 0 || is_final(s) {
        s
    } else {
        run_from(stage_after(s, outcomes[0]), outcomes.drop_first())
    }
}

/// Whether the containers may be running at stage `s`: they are started at
/// `StartContainers` and stay until `Teardown` is done.
pub open spec fn containers_live(s: Stage) -> bool {
    s is StartContainers || s is PollCookies || s is Teardown
}

/// Once containers may be running, the run cannot end before teardown: from such a stage,
/// whatever the outcome, the next stage is final only when leaving `Teardown`, and every
/// other step stays at a stage where the containers may be running.
pub proof fn lemma_teardown_before_end(s: Stage, succeeded: bool)
    requires
        containers_live(s),
    ensures
        is_final(stage_after(s, succeeded)) ==> s is Teardown,
        !(s is Teardown) ==> containers_live(stage_after(s, succeeded)),
{
}

/// A run whose requirement selected nothing ends at its first stage, with nothing built or
/// started.
pub proof fn lemma_no_match_ends_at_once(outcomes: Seq<bool>)
    ensures
        run_from(initial_stage(0), outcomes) == Stage::Exit(RunError::NoMatchingVersion),
{
    assert(is_final(initial_stage(0)));
}

/// Exit status of a run that ended at `s`.
pub fn exit_code(s: Stage) -> (r: i32)
    ensures
        r == if s is Finished {
            0i32
        } else {
            1i32
        },
{
    match s {
        Stage::Finished => 0,
        _ => 1,
    }
}

} // verus!
