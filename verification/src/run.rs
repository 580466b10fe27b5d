//! The whole run: the applications one after the other.

use vstd::prelude::*;

verus! {

/// What to do next in a run.
#[derive(Clone, Copy, Debug, PartialEq, Eq, Structural)]
pub enum RunAction {
    /// Launch the application with this number.
    Launch(usize),
    /// Stop, with this exit code.
    Exit(i32),
    /// All is done.
    Finish,
}

/// The exit code where the configuration could not be loaded.
pub const EXIT_CONFIG: i32 = 2;

/// The exit code where a launch failed.
pub const EXIT_LAUNCH: i32 = 1;

/// What follows when the first `done` of `apps` applications are launched.
pub open spec fn launch_from(apps: usize, done: int) -> RunAction {
    if done < apps {
        RunAction::Launch(done as usize)
    } else {
        RunAction::Finish
    }
}

/// Starts a run; `loaded` is the number of applications, if the configuration could
/// be loaded.
pub fn run(loaded: Option<usize>) -> (r: RunAction)
    ensures
        r == (match loaded {
            Some(apps) => launch_from(apps, 0),
            None => RunAction::Exit(EXIT_CONFIG),
        }),
        loaded is None ==> r == RunAction::Exit(2),
        loaded matches Some(apps) ==> r == (if apps > 0 {
            RunAction::Launch(0)
        } else {
            RunAction::Finish
        }),
{
    match loaded {
        None => RunAction::Exit(EXIT_CONFIG),
        Some(apps) => {
            if apps > 0 {
                RunAction::Launch(0)
            } else {
                RunAction::Finish
            }
        },
    }
}

/// What follows the launch of application number `index`.
pub open spec fn run_next(apps: usize, index: usize, launched: bool) -> RunAction {
    if launched {
        launch_from(apps, index + 1)
    } else {
        RunAction::Exit(EXIT_LAUNCH)
    }
}

/// What follows the launch of application number `index`.
pub fn step_run(apps: usize, index: usize, launched: bool) -> (r: RunAction)
    requires
        index < apps,
    ensures
        r == run_next(apps, index, launched),
        !launched ==> r == RunAction::Exit(1),
        launched && index + 1 < apps ==> r == RunAction::Launch((index + 1) as usize),
        launched && index + 1 == apps ==> r == RunAction::Finish,
{
    if !launched {
        RunAction::Exit(EXIT_LAUNCH)
    } else if index + 1 < apps {
        RunAction::Launch(index + 1)
    } else {
        RunAction::Finish
    }
}

/// What to do after the launches with these outcomes.
pub open spec fn run_after(apps: usize, outcomes: Seq<bool>) -> RunAction
    decreases outcomes.len(),
{
    if outcomes.len() == 0 {
        launch_from(apps, 0)
    } else {
        match run_after(apps, outcomes.drop_last()) {
            RunAction::Launch(index) => run_next(apps, index, outcomes.last()),
            ended => ended,
        }
    }
}

/// The applications are launched in their order, each once, as long as every launch
/// succeeds: behind so many launches comes the application with that very number,
/// and the run is done when all are launched.
pub proof fn law_apps_run_in_order(apps: usize, outcomes: Seq<bool>)
    requires
        outcomes.len() <= apps,
        forall|i: int| 0 <= i < outcomes.len() ==> outcomes[i],
    ensures
        run_after(apps, outcomes) == (if outcomes.len() < apps {
            RunAction::Launch(outcomes.len() as usize)
        } else {
            RunAction::Finish
        }),
    decreases outcomes.len(),
{
    if outcomes.len() > 0 {
        law_apps_run_in_order(apps, outcomes.drop_last());
    }
}

/// The first launch that fails ends the run with exit code 1: nothing is launched
/// behind it.
pub proof fn law_failed_launch_ends_the_run(apps: usize, outcomes: Seq<bool>, failed: int)
    requires
        0 <= failed < outcomes.len(),
        failed < apps,
        forall|i: int| 0 <= i < failed ==> outcomes[i],
        !outcomes[failed],
    ensures
        run_after(apps, outcomes) == RunAction::Exit(1),
    decreases outcomes.len(),
{
    let front = outcomes.drop_last();
    if failed < front.len() {
        law_failed_launch_ends_the_run(apps, front, failed);
    } else {
        law_apps_run_in_order(apps, front);
    }
}

/// A launch is followed by that of the next application, or by the end behind the
/// last one; a launch that failed by exit code 1.
pub proof fn law_next_in_the_file(apps: usize, index: usize, launched: bool)
    requires
        index < apps,
    ensures
        run_next(apps, index, launched) == (if !launched {
            RunAction::Exit(1)
        } else if index == apps - 1 {
            RunAction::Finish
        } else {
            RunAction::Launch((index + 1) as usize)
        }),
{
}

/// Each launch of a run is of the application whose number is that of the launches
/// before it, and there are no more launches than applications.
pub proof fn law_launches_count_up(apps: usize, outcomes: Seq<bool>)
    ensures
        run_after(apps, outcomes) matches RunAction::Launch(index) ==> index == outcomes.len()
            && index < apps && forall|i: int| 0 <= i < outcomes.len() ==> outcomes[i],
        run_after(apps, outcomes) is Finish ==> apps <= outcomes.len() && forall|i: int|
            0 <= i < apps ==> outcomes[i],
        run_after(apps, outcomes) matches RunAction::Exit(code) ==> code == 1 && exists|i: int|
            0 <= i < outcomes.len() && i < apps && !outcomes[i],
    decreases outcomes.len(),
{
    if outcomes.len() > 0 {
        let front = outcomes.drop_last();
        law_launches_count_up(apps, front);
        assert forall|i: int| 0 <= i < front.len() implies front[i] == outcomes[i] by {}
        match run_after(apps, front) {
            RunAction::Launch(index) => {
                assert(outcomes[index as int] == outcomes.last());
            },
            RunAction::Exit(_) => {
                let i = choose|i: int| 0 <= i < front.len() && i < apps && !front[i];
                assert(!outcomes[i]);
            },
            RunAction::Finish => {},
        }
    }
}

} // verus!
