//! The course of a launch: start the program, then watch its windows until they
//! stay in place or time runs out.

use std::collections::HashSet;

use vstd::prelude::*;

use crate::config::{app_message, AppConfig, AppModel};
use crate::process::{
    candidates_of, collect_candidate_pids, ids, process_ids, processes_view, ProcessInfo,
    ProcessModel,
};
use crate::text::{signed_decimal, signed_text, texts};
use crate::window::{
    description_of, placement_description, placement_size, placement_size_of,
};
use crate::winpath::{
    absolute, components, has_root, is_absolute, is_verbatim, join, joined, needs_sep, parent,
    parent_of, prefix_of, push_components, render,
};

verus! {

/// The path of an executable: as given where it is absolute, else taken from the
/// directory of the configuration file.
pub open spec fn exe_path_of(exe: Seq<char>, config_path: Seq<char>) -> Seq<char> {
    if absolute(exe) {
        exe
    } else {
        match parent_of(config_path) {
            Some(dir) => joined(dir, exe),
            None => joined("."@, exe),
        }
    }
}

/// The path of an executable.
pub fn resolve_exe_path(exe: &str, config_path: &str) -> (r: String)
    ensures
        r@ == exe_path_of(exe@, config_path@),
{
    if is_absolute(exe) {
        return exe.to_owned();
    }
    match parent(config_path) {
        Some(dir) => join(dir.as_str(), exe),
        None => join(".", exe),
    }
}

/// How far a launch has come.
#[derive(Clone, Copy, Debug, PartialEq, Eq, Structural)]
pub enum LaunchPhase {
    /// Whether the executable exists is asked.
    Probing,
    /// The processes that run already are being listed.
    Listing,
    /// The program is being started.
    Spawning,
    /// The start is being announced.
    Announcing,
    /// A round starts; the clock is being read.  The number counts the rounds in a
    /// row that found a window in place.
    RoundStart(u32),
    /// The processes that run now are being listed.
    Gathering(u32),
    /// The windows are being looked for and laid out.
    Scanning(u32),
    /// A round ends; the clock is being read.
    RoundEnd(u32),
    /// The pause between two rounds.
    Sleeping(u32),
    /// Nothing is left to do.
    Finished,
}

/// A launch: how far it has come, the paths of the executable and of the
/// configuration, the ids of the processes that ran before, and that of the program
/// once it is started.
pub struct LaunchState {
    pub phase: LaunchPhase,
    pub exe_path: String,
    pub config_path: String,
    pub before: HashSet<u32>,
    pub launched_pid: u32,
}

/// What a `LaunchState` stands for.
pub struct LaunchModel {
    pub phase: LaunchPhase,
    pub exe_path: Seq<char>,
    pub config_path: Seq<char>,
    pub before: Set<u32>,
    pub launched_pid: u32,
}

impl View for LaunchState {
    type V = LaunchModel;

    open spec fn view(&self) -> LaunchModel {
        LaunchModel {
            phase: self.phase,
            exe_path: self.exe_path@,
            config_path: self.config_path@,
            before: self.before@,
            launched_pid: self.launched_pid,
        }
    }
}

/// Why a launch failed.
#[derive(Clone, Copy, Debug, PartialEq, Eq, Structural)]
pub enum LaunchFailure {
    ExeNotFound,
    NotStarted,
    TimedOut,
}

/// What to do next for a launch.
#[derive(Debug, PartialEq, Eq)]
pub enum LaunchAction {
    /// Ask whether this file exists.
    ProbeExe(String),
    ListProcesses,
    /// Start this program with these arguments.
    Spawn(String, Vec<String>),
    /// Print this message.
    Announce(String),
    ReadClock,
    /// Look for the windows of these processes and those that match the hints, and
    /// lay each out.
    Scan { pids: Vec<u32>, class_hints: Vec<String>, title_hints: Vec<String> },
    /// A pause in milliseconds.
    Sleep(u64),
    /// Print this message; the launch is done.
    Succeed(String),
    /// The launch failed, and this is the message.
    Fail(LaunchFailure, String),
}

/// What a `LaunchAction` stands for.
pub enum LaunchActionModel {
    ProbeExe(Seq<char>),
    ListProcesses,
    Spawn(Seq<char>, Seq<Seq<char>>),
    Announce(Seq<char>),
    ReadClock,
    Scan { pids: Seq<u32>, class_hints: Seq<Seq<char>>, title_hints: Seq<Seq<char>> },
    Sleep(u64),
    Succeed(Seq<char>),
    Fail(LaunchFailure, Seq<char>),
}

impl View for LaunchAction {
    type V = LaunchActionModel;

    open spec fn view(&self) -> LaunchActionModel {
        match self {
            LaunchAction::ProbeExe(path) => LaunchActionModel::ProbeExe(path@),
            LaunchAction::ListProcesses => LaunchActionModel::ListProcesses,
            LaunchAction::Spawn(path, args) => LaunchActionModel::Spawn(path@, texts(args@)),
            LaunchAction::Announce(m) => LaunchActionModel::Announce(m@),
            LaunchAction::ReadClock => LaunchActionModel::ReadClock,
            LaunchAction::Scan { pids, class_hints, title_hints } => LaunchActionModel::Scan {
                pids: pids@,
                class_hints: texts(class_hints@),
                title_hints: texts(title_hints@),
            },
            LaunchAction::Sleep(ms) => LaunchActionModel::Sleep(*ms),
            LaunchAction::Succeed(m) => LaunchActionModel::Succeed(m@),
            LaunchAction::Fail(failure, m) => LaunchActionModel::Fail(*failure, m@),
        }
    }
}

/// What came of an action.
pub enum LaunchEvent {
    ExeExists(bool),
    /// The processes that run.
    Listed(Vec<ProcessInfo>),
    /// The id of the started program, or the system's word on why it did not start.
    Spawned(Result<u32, String>),
    Announced,
    /// The time since the start, in nanoseconds.
    Elapsed(u128),
    /// For each window that was found, whether it is in place.
    Scanned(Vec<bool>),
    Slept,
}

/// The event answers what the phase asks.
pub open spec fn launch_answers(phase: LaunchPhase, event: LaunchEvent) -> bool {
    match phase {
        LaunchPhase::Probing => event is ExeExists,
        LaunchPhase::Listing => event is Listed,
        LaunchPhase::Spawning => event is Spawned,
        LaunchPhase::Announcing => event is Announced,
        LaunchPhase::RoundStart(_) => event is Elapsed,
        LaunchPhase::Gathering(_) => event is Listed,
        LaunchPhase::Scanning(_) => event is Scanned,
        LaunchPhase::RoundEnd(_) => event is Elapsed,
        LaunchPhase::Sleeping(_) => event is Slept,
        LaunchPhase::Finished => false,
    }
}

/// How many rounds in a row have found a window in place.
pub open spec fn hits_of(phase: LaunchPhase) -> u32 {
    match phase {
        LaunchPhase::RoundStart(n) => n,
        LaunchPhase::Gathering(n) => n,
        LaunchPhase::Scanning(n) => n,
        LaunchPhase::RoundEnd(n) => n,
        LaunchPhase::Sleeping(n) => n,
        _ => 0,
    }
}

/// A launch that still runs has not yet seen enough rounds in a row.
pub open spec fn launch_valid(phase: LaunchPhase, confirmations: u32) -> bool {
    hits_of(phase) == 0 || hits_of(phase) < confirmations
}

/// Milliseconds as nanoseconds.
pub open spec fn nanos(ms: u64) -> int {
    ms * 1_000_000
}

/// The rounds in a row after one more.
pub open spec fn next_hits(hits: int, in_place: bool) -> int {
    if in_place {
        hits + 1
    } else {
        0
    }
}

/// The launch in another phase.
pub open spec fn in_phase(m: LaunchModel, phase: LaunchPhase) -> LaunchModel {
    LaunchModel { phase, ..m }
}

/// The end of a launch that failed; `cause` is the system's word on it.
pub open spec fn failed(
    m: LaunchModel,
    failure: LaunchFailure,
    app: AppModel,
    cause: Seq<char>,
) -> (LaunchModel, LaunchActionModel) {
    (
        in_phase(m, LaunchPhase::Finished),
        LaunchActionModel::Fail(
            failure,
            failure_text(failure, app.name, m.exe_path, m.config_path, cause),
        ),
    )
}

/// The search of a round among the processes that run now.
pub open spec fn scan_of(
    m: LaunchModel,
    processes: Seq<ProcessModel>,
    app: AppModel,
) -> LaunchActionModel {
    LaunchActionModel::Scan {
        pids: candidates_of(processes, m.before, app.process_names, m.launched_pid),
        class_hints: app.class_hints,
        title_hints: app.title_hints,
    }
}

/// The start of a launch.
pub open spec fn launch_start(app: AppModel, config_path: Seq<char>) -> (
    LaunchModel,
    LaunchActionModel,
) {
    let exe_path = exe_path_of(app.exe, config_path);
    (
        LaunchModel {
            phase: LaunchPhase::Probing,
            exe_path,
            config_path,
            before: Set::empty(),
            launched_pid: 0,
        },
        LaunchActionModel::ProbeExe(exe_path),
    )
}

/// The course of a launch.
pub open spec fn launch_next(m: LaunchModel, event: LaunchEvent, app: AppModel) -> (
    LaunchModel,
    LaunchActionModel,
) {
    match (m.phase, event) {
        (LaunchPhase::Probing, LaunchEvent::ExeExists(found)) => if found {
            (in_phase(m, LaunchPhase::Listing), LaunchActionModel::ListProcesses)
        } else {
            failed(m, LaunchFailure::ExeNotFound, app, seq![])
        },
        (LaunchPhase::Listing, LaunchEvent::Listed(processes)) => (
            LaunchModel {
                phase: LaunchPhase::Spawning,
                before: ids(processes_view(processes@)),
                ..m
            },
            LaunchActionModel::Spawn(m.exe_path, app.args),
        ),
        (LaunchPhase::Spawning, LaunchEvent::Spawned(started)) => match started {
            Ok(pid) => (
                LaunchModel { phase: LaunchPhase::Announcing, launched_pid: pid, ..m },
                LaunchActionModel::Announce(launched_text(app, m.exe_path)),
            ),
            Err(cause) => failed(m, LaunchFailure::NotStarted, app, cause@),
        },
        (LaunchPhase::Announcing, LaunchEvent::Announced) => (
            in_phase(m, LaunchPhase::RoundStart(0)),
            LaunchActionModel::ReadClock,
        ),
        (LaunchPhase::RoundStart(n), LaunchEvent::Elapsed(t)) => if t >= nanos(
            app.wait_after_launch,
        ) {
            (in_phase(m, LaunchPhase::Gathering(n)), LaunchActionModel::ListProcesses)
        } else {
            (in_phase(m, LaunchPhase::RoundEnd(n)), LaunchActionModel::ReadClock)
        },
        (LaunchPhase::Gathering(n), LaunchEvent::Listed(processes)) => (
            in_phase(m, LaunchPhase::Scanning(n)),
            scan_of(m, processes_view(processes@), app),
        ),
        (LaunchPhase::Scanning(n), LaunchEvent::Scanned(windows)) => if next_hits(
            n as int,
            windows@.contains(true),
        ) >= app.stable_confirmations {
            (in_phase(m, LaunchPhase::Finished), LaunchActionModel::Succeed(success_text(app)))
        } else {
            (
                in_phase(
                    m,
                    LaunchPhase::RoundEnd(next_hits(n as int, windows@.contains(true)) as u32),
                ),
                LaunchActionModel::ReadClock,
            )
        },
        (LaunchPhase::RoundEnd(n), LaunchEvent::Elapsed(t)) => if t > nanos(app.wait_timeout) {
            failed(m, LaunchFailure::TimedOut, app, seq![])
        } else {
            (in_phase(m, LaunchPhase::Sleeping(n)), LaunchActionModel::Sleep(app.enforce_interval))
        },
        (LaunchPhase::Sleeping(n), LaunchEvent::Slept) => (
            in_phase(m, LaunchPhase::RoundStart(n)),
            LaunchActionModel::ReadClock,
        ),
        _ => (m, LaunchActionModel::ReadClock),
    }
}

/// Starts a launch.
pub fn launch_app(app: &AppConfig, config_path: &str) -> (r: (LaunchState, LaunchAction))
    ensures
        (r.0@, r.1@) == launch_start(app@, config_path@),
        launch_valid(r.0.phase, app.stable_confirmations),
        r.1 matches LaunchAction::ProbeExe(path) && path@ == exe_path_of(app.exe@, config_path@),
        r.0.exe_path@ == exe_path_of(app.exe@, config_path@),
        r.0.config_path@ == config_path@,
{
    let exe_path = resolve_exe_path(app.exe.as_str(), config_path);
    let action = LaunchAction::ProbeExe(exe_path.clone());
    let state = LaunchState {
        phase: LaunchPhase::Probing,
        exe_path,
        config_path: config_path.to_owned(),
        before: HashSet::new(),
        launched_pid: 0,
    };
    (state, action)
}

/// Whether the event answers what the phase asks.
pub fn can_step_launch(state: &LaunchState, event: &LaunchEvent, app: &AppConfig) -> (r: bool)
    ensures
        r == (launch_answers(state.phase, *event) && launch_valid(
            state.phase,
            app.stable_confirmations,
        )),
{
    match (state.phase, event) {
        (LaunchPhase::Probing, LaunchEvent::ExeExists(_)) => true,
        (LaunchPhase::Listing, LaunchEvent::Listed(_)) => true,
        (LaunchPhase::Spawning, LaunchEvent::Spawned(_)) => true,
        (LaunchPhase::Announcing, LaunchEvent::Announced) => true,
        (LaunchPhase::RoundStart(n), LaunchEvent::Elapsed(_)) => n == 0 || n
            < app.stable_confirmations,
        (LaunchPhase::Gathering(n), LaunchEvent::Listed(_)) => n == 0 || n
            < app.stable_confirmations,
        (LaunchPhase::Scanning(n), LaunchEvent::Scanned(_)) => n == 0 || n
            < app.stable_confirmations,
        (LaunchPhase::RoundEnd(n), LaunchEvent::Elapsed(_)) => n == 0 || n
            < app.stable_confirmations,
        (LaunchPhase::Sleeping(n), LaunchEvent::Slept) => n == 0 || n < app.stable_confirmations,
        _ => false,
    }
}

/// A copy of a list of texts.
fn copy_of(v: &Vec<String>) -> (r: Vec<String>)
    ensures
        texts(r@) == texts(v@),
{
    let r = v.clone();
    assert(texts(r@) == texts(v@));
    r
}

fn fail(state: LaunchState, failure: LaunchFailure, app: &AppConfig, cause: &str) -> (r: (
    LaunchState,
    LaunchAction,
))
    ensures
        (r.0@, r.1@) == failed(state@, failure, app@, cause@),
{
    let message = failure_message(
        failure,
        app.name.as_str(),
        state.exe_path.as_str(),
        state.config_path.as_str(),
        cause,
    );
    let mut state = state;
    state.phase = LaunchPhase::Finished;
    (state, LaunchAction::Fail(failure, message))
}

/// Takes a launch one step on.
pub fn step_launch(state: LaunchState, event: LaunchEvent, app: &AppConfig) -> (r: (
    LaunchState,
    LaunchAction,
))
    requires
        launch_answers(state.phase, event),
        launch_valid(state.phase, app.stable_confirmations),
    ensures
        (r.0@, r.1@) == launch_next(state@, event, app@),
        launch_valid(r.0.phase, app.stable_confirmations),
        r.0.exe_path@ == state.exe_path@,
        r.0.config_path@ == state.config_path@,
        r.1 matches LaunchAction::Sleep(ms) ==> ms == app.enforce_interval,
        r.1 matches LaunchAction::Spawn(path, args) ==> path@ == state.exe_path@ && texts(args@)
            == texts(app.args@),
        r.1 matches LaunchAction::Scan { class_hints, title_hints, .. } ==> texts(class_hints@)
            == texts(app.class_hints@) && texts(title_hints@) == texts(app.title_hints@),
        state.phase is RoundEnd ==> (event matches LaunchEvent::Elapsed(t) ==> (if t
            > app.wait_timeout * 1_000_000 {
            r.1 is Fail
        } else {
            r.1 is Sleep
        })),
        state.phase is RoundStart ==> (event matches LaunchEvent::Elapsed(t) ==> (if t
            >= app.wait_after_launch * 1_000_000 {
            r.1 is ListProcesses
        } else {
            r.1 is ReadClock
        })),
        state.phase matches LaunchPhase::Scanning(n) ==> (event matches LaunchEvent::Scanned(windows)
            ==> (r.1 is Succeed <==> (if windows@.contains(true) {
            n + 1 >= app.stable_confirmations
        } else {
            app.stable_confirmations == 0
        }))),
{
    proof {
        reveal_strlit("");
        assert(""@ == Seq::<char>::empty());
    }
    let mut state = state;
    match (state.phase, event) {
        (LaunchPhase::Probing, LaunchEvent::ExeExists(found)) => {
            if found {
                state.phase = LaunchPhase::Listing;
                (state, LaunchAction::ListProcesses)
            } else {
                fail(state, LaunchFailure::ExeNotFound, app, "")
            }
        },
        (LaunchPhase::Listing, LaunchEvent::Listed(processes)) => {
            state.before = process_ids(&processes);
            state.phase = LaunchPhase::Spawning;
            let action = LaunchAction::Spawn(state.exe_path.clone(), copy_of(&app.args));
            (state, action)
        },
        (LaunchPhase::Spawning, LaunchEvent::Spawned(started)) => match started {
            Ok(pid) => {
                state.launched_pid = pid;
                state.phase = LaunchPhase::Announcing;
                let message = launched_message(app, state.exe_path.as_str());
                (state, LaunchAction::Announce(message))
            },
            Err(cause) => fail(state, LaunchFailure::NotStarted, app, cause.as_str()),
        },
        (LaunchPhase::Announcing, LaunchEvent::Announced) => {
            state.phase = LaunchPhase::RoundStart(0);
            (state, LaunchAction::ReadClock)
        },
        (LaunchPhase::RoundStart(n), LaunchEvent::Elapsed(t)) => {
            if t >= app.wait_after_launch as u128 * 1_000_000 {
                state.phase = LaunchPhase::Gathering(n);
                (state, LaunchAction::ListProcesses)
            } else {
                state.phase = LaunchPhase::RoundEnd(n);
                (state, LaunchAction::ReadClock)
            }
        },
        (LaunchPhase::Gathering(n), LaunchEvent::Listed(processes)) => {
            let pids = collect_candidate_pids(
                &processes,
                state.launched_pid,
                &state.before,
                &app.process_names,
            );
            state.phase = LaunchPhase::Scanning(n);
            let action = LaunchAction::Scan {
                pids,
                class_hints: copy_of(&app.class_hints),
                title_hints: copy_of(&app.title_hints),
            };
            (state, action)
        },
        (LaunchPhase::Scanning(n), LaunchEvent::Scanned(windows)) => {
            let hits: u64 = if any_in_place(&windows) {
                n as u64 + 1
            } else {
                0
            };
            if hits >= app.stable_confirmations as u64 {
                state.phase = LaunchPhase::Finished;
                (state, LaunchAction::Succeed(success_message(app)))
            } else {
                state.phase = LaunchPhase::RoundEnd(hits as u32);
                (state, LaunchAction::ReadClock)
            }
        },
        (LaunchPhase::RoundEnd(n), LaunchEvent::Elapsed(t)) => {
            if t > app.wait_timeout as u128 * 1_000_000 {
                fail(state, LaunchFailure::TimedOut, app, "")
            } else {
                state.phase = LaunchPhase::Sleeping(n);
                (state, LaunchAction::Sleep(app.enforce_interval))
            }
        },
        (LaunchPhase::Sleeping(n), LaunchEvent::Slept) => {
            state.phase = LaunchPhase::RoundStart(n);
            (state, LaunchAction::ReadClock)
        },
        _ => (state, LaunchAction::ReadClock),
    }
}

/// Whether some window of a round is in place.
pub fn any_in_place(windows: &Vec<bool>) -> (r: bool)
    ensures
        r == windows@.contains(true),
{
    let mut i: usize = 0;
    while i < windows.len()
        invariant
            i <= windows.len(),
            forall|k: int| 0 <= k < i ==> !windows@[k],
        decreases windows.len() - i,
    {
        if windows[i] {
            assert(windows@[i as int]);
            return true;
        }
        i += 1;
    }
    false
}

/// The announcement of a started program.
pub open spec fn launched_text(app: AppModel, exe_path: Seq<char>) -> Seq<char> {
    "启动 ["@ + app.name + "] -> "@ + exe_path + "，目标位置: "@ + description_of(app.placement)
}

/// The announcement of a started program.
pub fn launched_message(app: &AppConfig, exe_path: &str) -> (r: String)
    ensures
        r@ == launched_text(app@, exe_path@),
{
    let mut r = "启动 [".to_owned();
    r.append(app.name.as_str());
    r.append("] -> ");
    r.append(exe_path);
    r.append("，目标位置: ");
    r.append(placement_description(&app.placement).as_str());
    r
}

/// The announcement of a launch that succeeded.
pub open spec fn success_text(app: AppModel) -> Seq<char> {
    app_message(app.name, "] 已固定完成 ("@) + signed_decimal(
        placement_size_of(app.placement).0 as int,
    ) + "x"@ + signed_decimal(placement_size_of(app.placement).1 as int) + ")"@
}

/// The announcement of a launch that succeeded.
pub fn success_message(app: &AppConfig) -> (r: String)
    ensures
        r@ == success_text(app@),
{
    let (width, height) = placement_size(&app.placement);
    let mut r = "应用 [".to_owned();
    r.append(app.name.as_str());
    r.append("] 已固定完成 (");
    r.append(signed_text(width).as_str());
    r.append("x");
    r.append(signed_text(height).as_str());
    r.append(")");
    r
}

/// The message of a launch that failed; `cause` is the system's word on a program
/// that did not start.
pub open spec fn failure_text(
    failure: LaunchFailure,
    name: Seq<char>,
    exe_path: Seq<char>,
    config_path: Seq<char>,
    cause: Seq<char>,
) -> Seq<char> {
    match failure {
        LaunchFailure::ExeNotFound => app_message(name, "] 未找到可执行文件 "@) + exe_path
            + " (来自配置文件 "@ + config_path + ")"@,
        LaunchFailure::NotStarted => app_message(name, "] 启动失败 ("@) + exe_path + "): "@ + cause,
        LaunchFailure::TimedOut => app_message(
            name,
            "] 超时：未能找到并固定窗口，请确认它会创建可见窗口，或补充 process_names/class_hints/title_hints"@,
        ),
    }
}

/// The message of a launch that failed.
pub fn failure_message(
    failure: LaunchFailure,
    name: &str,
    exe_path: &str,
    config_path: &str,
    cause: &str,
) -> (r: String)
    ensures
        r@ == failure_text(failure, name@, exe_path@, config_path@, cause@),
{
    let mut r = "应用 [".to_owned();
    r.append(name);
    match failure {
        LaunchFailure::ExeNotFound => {
            r.append("] 未找到可执行文件 ");
            r.append(exe_path);
            r.append(" (来自配置文件 ");
            r.append(config_path);
            r.append(")");
        },
        LaunchFailure::NotStarted => {
            r.append("] 启动失败 (");
            r.append(exe_path);
            r.append("): ");
            r.append(cause);
        },
        LaunchFailure::TimedOut => {
            r.append(
                "] 超时：未能找到并固定窗口，请确认它会创建可见窗口，或补充 process_names/class_hints/title_hints",
            );
        },
    }
    r
}

/// The launch after the events, from its start, and what it asks for.
pub open spec fn launch_course(events: Seq<LaunchEvent>, app: AppModel, config_path: Seq<char>) -> (
    LaunchModel,
    LaunchActionModel,
)
    decreases events.len(),
{
    if events.len() == 0 {
        launch_start(app, config_path)
    } else {
        launch_next(launch_course(events.drop_last(), app, config_path).0, events.last(), app)
    }
}

/// Each event answers what the phase before it asks.
pub open spec fn is_course(events: Seq<LaunchEvent>, app: AppModel, config_path: Seq<char>) -> bool
    decreases events.len(),
{
    events.len() == 0 || (is_course(events.drop_last(), app, config_path) && launch_answers(
        launch_course(events.drop_last(), app, config_path).0.phase,
        events.last(),
    ))
}

/// What the rounds among the events found, in order.
pub open spec fn rounds_of(events: Seq<LaunchEvent>) -> Seq<bool>
    decreases events.len(),
{
    if events.len() == 0 {
        seq![]
    } else {
        match events.last() {
            LaunchEvent::Scanned(windows) => rounds_of(events.drop_last()).push(
                windows@.contains(true),
            ),
            _ => rounds_of(events.drop_last()),
        }
    }
}

/// How many rounds at the end found a window in place, without a break.
pub open spec fn run_length(rounds: Seq<bool>) -> int
    decreases rounds.len(),
{
    if rounds.len() == 0 {
        0
    } else {
        next_hits(run_length(rounds.drop_last()), rounds.last())
    }
}

/// The rounds that are counted are the last ones, all of them found a window in
/// place, and the one before them did not.
pub proof fn law_counted_rounds_are_consecutive(rounds: Seq<bool>)
    ensures
        0 <= run_length(rounds) <= rounds.len(),
        forall|i: int| rounds.len() - run_length(rounds) <= i < rounds.len() ==> rounds[i],
        run_length(rounds) < rounds.len() ==> !rounds[rounds.len() - run_length(rounds) - 1],
    decreases rounds.len(),
{
    if rounds.len() > 0 {
        let front = rounds.drop_last();
        law_counted_rounds_are_consecutive(front);
        assert forall|i: int| rounds.len() - run_length(rounds) <= i < rounds.len() implies rounds[i] by {
            if i < front.len() {
                assert(rounds[i] == front[i]);
            }
        }
    }
}

/// A launch keeps count of the rounds in a row, and ends as soon as there are
/// enough.
pub proof fn law_launch_counts_rounds(
    events: Seq<LaunchEvent>,
    app: AppModel,
    config_path: Seq<char>,
)
    requires
        is_course(events, app, config_path),
    ensures
        ({
            let phase = launch_course(events, app, config_path).0.phase;
            &&& !(phase is Finished) ==> hits_of(phase) == run_length(rounds_of(events))
            &&& launch_valid(phase, app.stable_confirmations)
        }),
    decreases events.len(),
{
    if events.len() > 0 {
        law_launch_counts_rounds(events.drop_last(), app, config_path);
        lemma_one_more_round(events);
    }
}

proof fn lemma_one_more_round(events: Seq<LaunchEvent>)
    requires
        events.len() > 0,
    ensures
        run_length(rounds_of(events)) == (match events.last() {
            LaunchEvent::Scanned(windows) => next_hits(
                run_length(rounds_of(events.drop_last())),
                windows@.contains(true),
            ),
            _ => run_length(rounds_of(events.drop_last())),
        }),
{
    if let LaunchEvent::Scanned(windows) = events.last() {
        let front = rounds_of(events.drop_last());
        assert(front.push(windows@.contains(true)).drop_last() == front);
    }
}

/// A launch succeeds only in the round that makes the required number in a row.
pub proof fn law_success_is_confirmed(
    events: Seq<LaunchEvent>,
    app: AppModel,
    config_path: Seq<char>,
)
    requires
        is_course(events, app, config_path),
        launch_course(events, app, config_path).1 is Succeed,
    ensures
        events.len() > 0,
        events.last() is Scanned,
        run_length(rounds_of(events)) >= app.stable_confirmations,
        app.stable_confirmations > 0 ==> run_length(rounds_of(events))
            == app.stable_confirmations,
{
    law_launch_counts_rounds(events.drop_last(), app, config_path);
    lemma_one_more_round(events);
}

/// At the end of a round a launch is given up for time exactly when more than the
/// limit has passed, and at no other point; a search begins at the start of a round
/// exactly when the waiting time has passed, and windows are looked for behind that
/// at once, and at no other point.
pub proof fn law_clock_is_obeyed(m: LaunchModel, event: LaunchEvent, app: AppModel)
    requires
        launch_answers(m.phase, event),
    ensures
        (launch_next(m, event, app).1 matches LaunchActionModel::Fail(failure, _) && failure
            == LaunchFailure::TimedOut) <==> (m.phase is RoundEnd && (
        event matches LaunchEvent::Elapsed(t) && t > nanos(app.wait_timeout))),
        launch_next(m, event, app).0.phase is Gathering <==> (m.phase is RoundStart && (
        event matches LaunchEvent::Elapsed(t) && t >= nanos(app.wait_after_launch))),
        launch_next(m, event, app).1 is Scan <==> m.phase is Gathering,
{
}

/// An `Elapsed` event at or behind the end of the waiting time.
pub open spec fn wait_is_over(event: LaunchEvent, app: AppModel) -> bool {
    event matches LaunchEvent::Elapsed(t) && t >= nanos(app.wait_after_launch)
}

proof fn lemma_course_opens(events: Seq<LaunchEvent>, app: AppModel, config_path: Seq<char>)
    requires
        is_course(events, app, config_path),
    ensures
        ({
            let m = launch_course(events, app, config_path).0;
            &&& m.exe_path == exe_path_of(app.exe, config_path)
            &&& events.len() > 0 ==> events[0] is ExeExists
            &&& events.len() > 1 ==> events[1] is Listed
            &&& events.len() > 2 ==> events[2] is Spawned
            &&& events.len() > 3 ==> events[2]->Spawned_0 is Ok && events[3] is Announced
            &&& forall|i: int|
                3 <= i < events.len() ==> !((#[trigger] events[i]) is Spawned)
            &&& events.len() > 1 ==> m.before == ids(processes_view(events[1]->Listed_0@))
            &&& events.len() > 3 ==> m.launched_pid == events[2]->Spawned_0->Ok_0
            &&& match m.phase {
                LaunchPhase::Probing => events.len() == 0,
                LaunchPhase::Listing => events.len() == 1,
                LaunchPhase::Spawning => events.len() == 2,
                LaunchPhase::Announcing => events.len() == 3 && events[2]->Spawned_0 == Ok::<
                    u32,
                    String,
                >(m.launched_pid),
                LaunchPhase::Finished => events.len() == 1 || events.len() == 3 || events.len() > 4,
                _ => events.len() >= 4,
            }
        }),
    decreases events.len(),
{
    if events.len() > 0 {
        let front = events.drop_last();
        lemma_course_opens(front, app, config_path);
        assert forall|i: int| 3 <= i < events.len() implies !((#[trigger] events[i]) is Spawned) by {
            if i < front.len() {
                assert(front[i] == events[i]);
            }
        }
        assert(front.len() > 0 ==> front[0] == events[0]);
        assert(front.len() > 1 ==> front[1] == events[1]);
        assert(front.len() > 2 ==> front[2] == events[2]);
        assert(front.len() > 3 ==> front[3] == events[3]);
    }
}

proof fn lemma_scan_follows_wait(
    events: Seq<LaunchEvent>,
    app: AppModel,
    config_path: Seq<char>,
    i: int,
)
    requires
        is_course(events, app, config_path),
    ensures
        launch_course(events, app, config_path).0.phase is Gathering ==> events.len() > 0
            && wait_is_over(events.last(), app),
        launch_course(events, app, config_path).0.phase is Scanning ==> events.len() > 1
            && events.last() is Listed && wait_is_over(events[events.len() - 2], app),
        0 <= i < events.len() && events[i] is Scanned ==> i >= 2 && events[i - 1] is Listed
            && wait_is_over(events[i - 2], app),
    decreases events.len(),
{
    if events.len() > 0 {
        let front = events.drop_last();
        lemma_scan_follows_wait(front, app, config_path, i);
        lemma_course_opens(front, app, config_path);
    }
}

/// A launch that succeeds has started the program just once: the third event tells
/// its id, and no other event tells of a start.
pub proof fn law_program_is_started_once(
    events: Seq<LaunchEvent>,
    app: AppModel,
    config_path: Seq<char>,
)
    requires
        is_course(events, app, config_path),
        launch_course(events, app, config_path).1 is Succeed,
    ensures
        events.len() > 2,
        events[2] matches LaunchEvent::Spawned(started) && started is Ok,
        forall|i: int| 0 <= i < events.len() && i != 2 ==> !((#[trigger] events[i]) is Spawned),
{
    law_success_is_confirmed(events, app, config_path);
    lemma_course_opens(events, app, config_path);
    lemma_course_opens(events.drop_last(), app, config_path);
}

/// Windows are looked for only behind the waiting time: each `Scanned` event comes
/// directly behind a list of processes, and that directly behind a reading of the
/// clock at which the waiting time had passed.
pub proof fn law_scans_follow_the_wait(
    events: Seq<LaunchEvent>,
    app: AppModel,
    config_path: Seq<char>,
    i: int,
)
    requires
        is_course(events, app, config_path),
        0 <= i < events.len(),
        events[i] is Scanned,
    ensures
        i >= 2,
        events[i - 1] is Listed,
        wait_is_over(events[i - 2], app),
{
    lemma_scan_follows_wait(events, app, config_path, i);
}

/// What a launch starts is the application's executable, with its arguments.
pub proof fn law_program_is_the_configured_one(
    events: Seq<LaunchEvent>,
    app: AppModel,
    config_path: Seq<char>,
)
    requires
        is_course(events, app, config_path),
    ensures
        launch_course(events, app, config_path).1 matches LaunchActionModel::Spawn(path, args)
            ==> path == exe_path_of(app.exe, config_path) && args == app.args,
{
    if events.len() > 0 {
        lemma_course_opens(events.drop_last(), app, config_path);
    }
}

/// A search is for the windows of the program that was started: of its process and
/// those that belong to it, among the processes last listed, without those that ran
/// before the start; and for windows that match the application's hints.
pub proof fn law_scan_is_for_the_started_program(
    events: Seq<LaunchEvent>,
    app: AppModel,
    config_path: Seq<char>,
)
    requires
        is_course(events, app, config_path),
        launch_course(events, app, config_path).1 is Scan,
    ensures
        events.len() > 5,
        events[1] is Listed,
        events[2] matches LaunchEvent::Spawned(started) && started is Ok,
        events.last() is Listed,
        launch_course(events, app, config_path).1 == (LaunchActionModel::Scan {
            pids: candidates_of(
                processes_view(events.last()->Listed_0@),
                ids(processes_view(events[1]->Listed_0@)),
                app.process_names,
                events[2]->Spawned_0->Ok_0,
            ),
            class_hints: app.class_hints,
            title_hints: app.title_hints,
        }),
{
    let front = events.drop_last();
    lemma_course_opens(front, app, config_path);
    lemma_course_opens(events, app, config_path);
    lemma_scan_follows_wait(front, app, config_path, 0);
    assert(front[1] == events[1] && front[2] == events[2]);
}

/// An absolute executable is launched as given, whatever the configuration file.
pub proof fn law_absolute_exe_is_kept(exe: Seq<char>, config_path: Seq<char>)
    requires
        absolute(exe),
    ensures
        exe_path_of(exe, config_path) == exe,
{
}

/// A relative executable is looked for in the directory of the configuration file:
/// its path is that directory, a separator unless one is there, and the text given.
/// Behind a verbatim prefix `.` and `..` are resolved on the way.  Where the
/// configuration file has no directory, the executable is looked for in `.`.
pub proof fn law_relative_exe_is_in_config_dir(exe: Seq<char>, config_path: Seq<char>)
    requires
        prefix_of(exe) is None,
        !has_root(exe),
    ensures
        parent_of(config_path) matches Some(dir) ==> (!is_verbatim(dir) || exe.len() == 0 ==>
            exe_path_of(exe, config_path) == (if needs_sep(dir) {
            dir.push('\\')
        } else {
            dir
        }) + exe),
        parent_of(config_path) matches Some(dir) ==> (is_verbatim(dir) && exe.len() > 0 ==>
            exe_path_of(exe, config_path) == render(
            push_components(components(dir), components(exe)),
        )),
        parent_of(config_path) is None ==> exe_path_of(exe, config_path) == ".\\"@ + exe,
{
    reveal_strlit(".");
    reveal_strlit(".\\");
    assert("."@.push('\\') == ".\\"@);
    assert("."@.len() == 1 && "."@[0] == '.');
}

/// A pause in the course of a launch lasts exactly the application's interval, and
/// comes only behind a reading of the clock within the limit.
pub proof fn law_pauses_last_the_interval(
    events: Seq<LaunchEvent>,
    app: AppModel,
    config_path: Seq<char>,
)
    requires
        is_course(events, app, config_path),
    ensures
        launch_course(events, app, config_path).1 matches LaunchActionModel::Sleep(ms) ==> ms
            == app.enforce_interval && events.len() > 0 && (
        events.last() matches LaunchEvent::Elapsed(t) && t <= app.wait_timeout * 1_000_000),
{
}

proof fn lemma_phase_of_course(events: Seq<LaunchEvent>, app: AppModel, config_path: Seq<char>)
    requires
        is_course(events, app, config_path),
    ensures
        ({
            let (m, action) = launch_course(events, app, config_path);
            match m.phase {
                LaunchPhase::Probing => action is ProbeExe,
                LaunchPhase::Listing => action is ListProcesses,
                LaunchPhase::Spawning => action is Spawn,
                LaunchPhase::Announcing => action is Announce,
                LaunchPhase::RoundStart(_) => action is ReadClock && events.len() > 0 && (
                events.last() is Announced || events.last() is Slept),
                LaunchPhase::Gathering(_) => action is ListProcesses,
                LaunchPhase::Scanning(_) => action is Scan,
                LaunchPhase::RoundEnd(_) => action is ReadClock && events.len() > 0 && (
                events.last() is Scanned || events.last() is Elapsed),
                LaunchPhase::Sleeping(_) => action is Sleep,
                LaunchPhase::Finished => action is Succeed || action is Fail,
            }
        }),
{
}

/// The events of a launch answer what it asks for, each the kind of action with the
/// kind of event that tells what came of it; and nothing is told once the launch has
/// succeeded or failed.
pub proof fn law_events_answer_the_actions(
    events: Seq<LaunchEvent>,
    app: AppModel,
    config_path: Seq<char>,
    event: LaunchEvent,
)
    requires
        is_course(events, app, config_path),
    ensures
        is_course(events.push(event), app, config_path) <==> (match launch_course(
            events,
            app,
            config_path,
        ).1 {
            LaunchActionModel::ProbeExe(_) => event is ExeExists,
            LaunchActionModel::ListProcesses => event is Listed,
            LaunchActionModel::Spawn(_, _) => event is Spawned,
            LaunchActionModel::Announce(_) => event is Announced,
            LaunchActionModel::ReadClock => event is Elapsed,
            LaunchActionModel::Scan { .. } => event is Scanned,
            LaunchActionModel::Sleep(_) => event is Slept,
            LaunchActionModel::Succeed(_) => false,
            LaunchActionModel::Fail(_, _) => false,
        }),
{
    lemma_phase_of_course(events, app, config_path);
    assert(events.push(event).drop_last() == events);
}

/// The last `n` rounds all found a window in place.
pub open spec fn last_rounds_hit(rounds: Seq<bool>, n: u32) -> bool {
    n <= rounds.len() && forall|i: int| rounds.len() - n <= i < rounds.len() ==> rounds[i]
}

proof fn lemma_last_rounds(rounds: Seq<bool>, n: u32)
    ensures
        last_rounds_hit(rounds, n) <==> run_length(rounds) >= n,
{
    law_counted_rounds_are_consecutive(rounds);
    if run_length(rounds) < n && n <= rounds.len() {
        let i = rounds.len() - run_length(rounds) - 1;
        assert(!rounds[i]);
    }
}

/// What a launch first asks for: whether the executable is there.
pub proof fn law_launch_starts_with_the_executable(app: AppModel, config_path: Seq<char>)
    ensures
        launch_course(seq![], app, config_path).1 == LaunchActionModel::ProbeExe(
            exe_path_of(app.exe, config_path),
        ),
{
}

/// What a launch asks for next, by what it has been told, from its first event to its
/// end.
///
/// The executable is looked for, the processes that run are listed, the program is
/// started with its arguments, and that is announced.  At the start of a round the
/// processes are listed once more where the waiting time has passed since the start;
/// windows are then looked for.  A round at the end of as many as are required, all
/// with a window in place, is the last.  At the end of any other the launch is given
/// up where more than the limit has passed; else it pauses for the interval, and a new
/// round starts.
pub proof fn law_course_of_a_launch(
    events: Seq<LaunchEvent>,
    app: AppModel,
    config_path: Seq<char>,
)
    requires
        is_course(events, app, config_path),
        events.len() > 0,
    ensures
        ({
            let action = launch_course(events, app, config_path).1;
            let exe = exe_path_of(app.exe, config_path);
            let name = "应用 ["@ + app.name;
            let size = placement_size_of(app.placement);
            let round_starts = events.len() > 1 && (events[events.len() - 2] is Announced
                || events[events.len() - 2] is Slept);
            match events.last() {
                LaunchEvent::ExeExists(found) => if found {
                    action is ListProcesses
                } else {
                    action == LaunchActionModel::Fail(
                        LaunchFailure::ExeNotFound,
                        name + "] 未找到可执行文件 "@ + exe + " (来自配置文件 "@ + config_path + ")"@,
                    )
                },
                LaunchEvent::Listed(processes) => if events.len() == 2 {
                    action == LaunchActionModel::Spawn(exe, app.args)
                } else {
                    action == LaunchActionModel::Scan {
                        pids: candidates_of(
                            processes_view(processes@),
                            ids(processes_view(events[1]->Listed_0@)),
                            app.process_names,
                            events[2]->Spawned_0->Ok_0,
                        ),
                        class_hints: app.class_hints,
                        title_hints: app.title_hints,
                    }
                },
                LaunchEvent::Spawned(started) => match started {
                    Ok(_) => action == LaunchActionModel::Announce(
                        "启动 ["@ + app.name + "] -> "@ + exe + "，目标位置: "@ + description_of(
                            app.placement,
                        ),
                    ),
                    Err(cause) => action == LaunchActionModel::Fail(
                        LaunchFailure::NotStarted,
                        name + "] 启动失败 ("@ + exe + "): "@ + cause@,
                    ),
                },
                LaunchEvent::Announced => action is ReadClock,
                LaunchEvent::Elapsed(t) => if round_starts {
                    if t >= app.wait_after_launch * 1_000_000 {
                        action is ListProcesses
                    } else {
                        action is ReadClock
                    }
                } else if t > app.wait_timeout * 1_000_000 {
                    action == LaunchActionModel::Fail(
                        LaunchFailure::TimedOut,
                        name
                            + "] 超时：未能找到并固定窗口，请确认它会创建可见窗口，或补充 process_names/class_hints/title_hints"@,
                    )
                } else {
                    action matches LaunchActionModel::Sleep(ms) && ms == app.enforce_interval
                },
                LaunchEvent::Scanned(_) => if last_rounds_hit(
                    rounds_of(events),
                    app.stable_confirmations,
                ) {
                    action == LaunchActionModel::Succeed(
                        name + "] 已固定完成 ("@ + signed_decimal(size.0 as int) + "x"@
                            + signed_decimal(size.1 as int) + ")"@,
                    )
                } else {
                    action is ReadClock
                },
                LaunchEvent::Slept => action is ReadClock,
            }
        }),
{
    let front = events.drop_last();
    lemma_course_opens(front, app, config_path);
    lemma_course_opens(events, app, config_path);
    lemma_phase_of_course(front, app, config_path);
    if front.len() > 0 {
        assert(front.last() == events[events.len() - 2]);
    }
    if events.last() is Scanned {
        law_launch_counts_rounds(front, app, config_path);
        lemma_one_more_round(events);
        lemma_last_rounds(rounds_of(events), app.stable_confirmations);
    }
    if front.len() > 3 {
        assert(front[1] == events[1] && front[2] == events[2]);
    }
}

/// What the rounds found, in order: one more event adds a round where it tells of one,
/// and that found a window in place where one of its windows was.
pub proof fn law_rounds_of_a_course(events: Seq<LaunchEvent>, event: LaunchEvent)
    ensures
        rounds_of(seq![]) == Seq::<bool>::empty(),
        event matches LaunchEvent::Scanned(windows) ==> rounds_of(events.push(event)) == rounds_of(
            events,
        ).push(exists|i: int| 0 <= i < windows@.len() && windows@[i]),
        !(event is Scanned) ==> rounds_of(events.push(event)) == rounds_of(events),
{
    assert(events.push(event).drop_last() == events);
    if let LaunchEvent::Scanned(windows) = event {
        if windows@.contains(true) {
            let i = choose|i: int| 0 <= i < windows@.len() && windows@[i] == true;
            assert(windows@[i]);
        }
        if exists|i: int| 0 <= i < windows@.len() && windows@[i] {
            let i = choose|i: int| 0 <= i < windows@.len() && windows@[i];
            assert(windows@[i] == true);
        }
    }
}

/// An absolute executable is taken as it is, any other is joined to the directory of
/// the configuration file, or to `.` where that has none.
pub proof fn law_executable_of_an_application(exe: Seq<char>, config_path: Seq<char>)
    ensures
        absolute(exe) ==> exe_path_of(exe, config_path) == exe,
        !absolute(exe) ==> (parent_of(config_path) matches Some(dir) ==> exe_path_of(
            exe,
            config_path,
        ) == joined(dir, exe)),
        !absolute(exe) && parent_of(config_path) is None ==> exe_path_of(exe, config_path)
            == joined(seq!['.'], exe),
{
    reveal_strlit(".");
    assert("."@ == seq!['.']);
}

/// A launch stands for what its fields hold, each under its own name.
pub proof fn law_fields_of_a_launch(state: LaunchState)
    ensures
        state@.phase == state.phase,
        state@.exe_path == state.exe_path@,
        state@.config_path == state.config_path@,
        state@.before == state.before@,
        state@.launched_pid == state.launched_pid,
{
}

/// An action of a launch stands for what it carries.
pub proof fn law_what_actions_carry(
    text: String,
    list: Vec<String>,
    other: Vec<String>,
    pids: Vec<u32>,
    ms: u64,
    failure: LaunchFailure,
)
    ensures
        LaunchAction::ProbeExe(text)@ == LaunchActionModel::ProbeExe(text@),
        LaunchAction::ListProcesses@ is ListProcesses,
        LaunchAction::Spawn(text, list)@ == LaunchActionModel::Spawn(text@, texts(list@)),
        LaunchAction::Announce(text)@ == LaunchActionModel::Announce(text@),
        LaunchAction::ReadClock@ is ReadClock,
        (LaunchAction::Scan { pids, class_hints: list, title_hints: other })@ == (
        LaunchActionModel::Scan {
            pids: pids@,
            class_hints: texts(list@),
            title_hints: texts(other@),
        }),
        LaunchAction::Sleep(ms)@ == LaunchActionModel::Sleep(ms),
        LaunchAction::Succeed(text)@ == LaunchActionModel::Succeed(text@),
        LaunchAction::Fail(failure, text)@ == LaunchActionModel::Fail(failure, text@),
{
}

} // verus!
