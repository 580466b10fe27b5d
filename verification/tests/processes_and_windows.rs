use std::collections::HashSet;

use launch_apps::config::{build_app_config, AppConfig, TomlAppConfig, TomlDefaults};
use launch_apps::launch::{
    any_in_place, can_step_launch, failure_message, launch_app, launched_message, step_launch,
    success_message, LaunchAction, LaunchEvent, LaunchFailure, LaunchPhase,
    LaunchState,
};
use launch_apps::process::{
    collect_candidate_pids, collect_processes, process_ids, wide_to_string, ProcessEntry,
    ProcessInfo,
};
use launch_apps::run::{run, step_run, RunAction};
use launch_apps::search::{
    any_hint_occurs, enum_windows_callback, find_windows, next_question, ScreenWindow,
    SearchContext, WindowInfo, WindowQuestion,
};
use launch_apps::window::{
    can_check_position, can_compare, can_place, can_step_layout, ensure_window_layout,
    is_window_in_target, layout_move, near_equal, placement_description, placement_size,
    step_layout, target_rect, LayoutAction, LayoutEvent, LayoutPhase, Rect, ScreenSize,
    WindowMove, WindowPlacement,
};

fn strings(v: &[&str]) -> Vec<String> {
    v.iter().map(|s| s.to_string()).collect()
}

fn wide(s: &str) -> Vec<u16> {
    s.encode_utf16().collect()
}

#[test]
fn wide_text_is_read_back() {
    for text in ["", "Wow.exe", "记事本", "𝄞 \u{10ffff}\u{e000}\u{d7ff}"] {
        let mut units = wide(text);
        assert_eq!(wide_to_string(&units), text);
        units.extend_from_slice(&[0, 0x41, 0xd800]);
        assert_eq!(wide_to_string(&units), text);
    }
}

#[test]
fn wide_text_ends_at_the_first_zero() {
    assert_eq!(wide_to_string(&[0x57, 0x6f, 0x77, 0, 0x58]), "Wow");
    assert_eq!(wide_to_string(&[]), "");
    assert_eq!(wide_to_string(&[0, 0x57]), "");
    assert_eq!(wide_to_string(&wide("记事本\u{1d11e}")), "记事本\u{1d11e}");
}

#[test]
fn lone_surrogates_are_replaced() {
    assert_eq!(
        wide_to_string(&[0xd834, 0xdd1e, 0x6d, 0x75, 0xd800, 0x69, 0x63]),
        "\u{1d11e}mu\u{fffd}ic"
    );
    assert_eq!(wide_to_string(&[0xdc00, 0xd800, 0xd800, 0xdc00]), "\u{fffd}\u{fffd}\u{10000}");
    assert_eq!(wide_to_string(&[0xd800]), "\u{fffd}");
}

#[test]
fn process_names_are_lowered() {
    let mut units = wide("Wow-64.EXE");
    units.push(0);
    units.push(0x41);
    let r = collect_processes(&vec![ProcessEntry { pid: 7, parent_pid: 3, exe_file: units }]);
    assert_eq!(r.len(), 1);
    assert_eq!((r[0].pid, r[0].parent_pid), (7, 3));
    assert_eq!(r[0].exe_name, "wow-64.exe");
    let mut expected: HashSet<u32> = HashSet::new();
    expected.insert(7);
    assert_eq!(process_ids(&r), expected);
}

fn proc(pid: u32, parent_pid: u32, name: &str) -> ProcessInfo {
    ProcessInfo { pid, parent_pid, exe_name: name.to_string() }
}

fn set(v: &[u32]) -> HashSet<u32> {
    v.iter().copied().collect()
}

#[test]
fn descendants_of_the_launched_process_are_candidates() {
    let all = vec![
        proc(40, 30, "d.exe"),
        proc(30, 20, "c.exe"),
        proc(20, 10, "b.exe"),
        proc(10, 1, "a.exe"),
        proc(50, 1, "e.exe"),
    ];
    assert_eq!(
        collect_candidate_pids(&all, 10, &set(&[1]), &strings(&[])),
        vec![10, 20, 30, 40]
    );
}

#[test]
fn processes_from_before_break_the_line() {
    let all = vec![proc(30, 20, "c.exe"), proc(20, 10, "b.exe")];
    assert_eq!(collect_candidate_pids(&all, 10, &set(&[20]), &strings(&[])), vec![10]);
}

#[test]
fn named_processes_are_candidates_without_their_children() {
    let all = vec![
        proc(5, 1, "wow.exe"),
        proc(6, 5, "child.exe"),
        proc(7, 1, "wow.exe"),
        proc(8, 1, "other.exe"),
    ];
    assert_eq!(
        collect_candidate_pids(&all, 99, &set(&[7]), &strings(&["wow.exe"])),
        vec![5, 99]
    );
}

#[test]
fn the_launched_process_is_always_a_candidate() {
    assert_eq!(collect_candidate_pids(&vec![], 3, &set(&[3]), &strings(&[])), vec![3]);
}

#[test]
fn cycles_of_parents_end() {
    let all = vec![proc(1, 2, "a"), proc(2, 1, "b"), proc(2, 1, "b")];
    assert_eq!(collect_candidate_pids(&all, 1, &set(&[]), &strings(&[])), vec![1, 2]);
}

fn context(pids: &[u32], classes: &[&str], titles: &[&str]) -> SearchContext {
    match find_windows(&pids.to_vec(), &strings(classes), &strings(titles)) {
        Some(c) => c,
        None => panic!("nothing to look for"),
    }
}

fn window(visible: bool, pid: Option<u32>, class: Option<&str>, title: Option<&str>) -> WindowInfo {
    WindowInfo { visible, pid, class_name: class.map(wide), title: title.map(wide) }
}

#[test]
fn an_empty_search_is_not_started() {
    assert!(find_windows(&vec![], &strings(&[]), &strings(&[])).is_none());
    assert!(find_windows(&vec![], &strings(&[]), &strings(&["a"])).is_some());
}

#[test]
fn the_search_asks_only_what_it_needs() {
    let c = context(&[7], &["gxwindow"], &["warcraft"]);
    let ask = |w: WindowInfo| next_question(&c, &w);
    assert_eq!(ask(window(false, None, None, None)), WindowQuestion::Decided(false));
    assert_eq!(ask(window(true, None, None, None)), WindowQuestion::AskPid);
    assert_eq!(ask(window(true, Some(7), None, None)), WindowQuestion::Decided(true));
    assert_eq!(ask(window(true, Some(8), None, None)), WindowQuestion::AskClassName);
    assert_eq!(
        ask(window(true, Some(8), Some("GxWindowClass"), None)),
        WindowQuestion::Decided(true)
    );
    assert_eq!(ask(window(true, Some(8), Some("X"), None)), WindowQuestion::AskTitle);
    assert_eq!(ask(window(true, Some(8), Some(""), None)), WindowQuestion::AskTitle);
    assert_eq!(
        ask(window(true, Some(8), Some("X"), Some("World of Warcraft"))),
        WindowQuestion::Decided(true)
    );
    assert_eq!(
        ask(window(true, Some(8), Some("X"), Some(""))),
        WindowQuestion::Decided(false)
    );
}

#[test]
fn names_without_hints_are_not_asked() {
    let c = context(&[7], &[], &[]);
    assert_eq!(
        next_question(&c, &window(true, Some(8), None, None)),
        WindowQuestion::Decided(false)
    );
}

#[test]
fn matching_windows_are_kept_in_order() {
    let mut c = context(&[7], &[], &["记事本"]);
    let yes = window(true, Some(7), None, None);
    let no = window(false, None, None, None);
    let title = window(true, Some(1), None, Some("无标题 - 记事本"));
    assert_eq!(enum_windows_callback(&mut c, 30, &yes), WindowQuestion::Decided(true));
    assert_eq!(enum_windows_callback(&mut c, 20, &no), WindowQuestion::Decided(false));
    assert_eq!(
        enum_windows_callback(&mut c, 15, &window(true, None, None, None)),
        WindowQuestion::AskPid
    );
    assert_eq!(enum_windows_callback(&mut c, 10, &title), WindowQuestion::Decided(true));
    assert_eq!(c.found, vec![30, 10]);
}

fn visit(c: &mut SearchContext, w: &ScreenWindow) {
    let mut info = window(w.visible, None, None, None);
    loop {
        match enum_windows_callback(c, w.window, &info) {
            WindowQuestion::AskPid => info.pid = Some(w.pid),
            WindowQuestion::AskClassName => info.class_name = Some(w.class_name.clone()),
            WindowQuestion::AskTitle => info.title = Some(w.title.clone()),
            WindowQuestion::Decided(_) => return,
        }
    }
}

#[test]
fn a_whole_search_finds_each_matching_window_once() {
    let on_screen = |window: isize, visible: bool, pid: u32, class: &str, title: &str| {
        ScreenWindow { window, visible, pid, class_name: wide(class), title: wide(title) }
    };
    let windows = [
        on_screen(5, true, 1, "Button", "Other"),
        on_screen(4, true, 1, "GxWindowClass", ""),
        on_screen(3, false, 7, "GxWindowClass", "Warcraft"),
        on_screen(2, true, 7, "", ""),
        on_screen(6, true, 7, "GxWindowClass", "Warcraft"),
        on_screen(1, true, 1, "Warcraft", "GxWindowClass"),
        on_screen(9, true, 1, "X", "World of Warcraft"),
    ];
    let mut c = context(&[7], &["gxwindow"], &["warcraft"]);
    for w in &windows {
        visit(&mut c, w);
    }
    assert_eq!(c.found, vec![4, 2, 6, 9]);
    assert_eq!(c.class_hints, strings(&["gxwindow"]));
    assert_eq!(c.title_hints, strings(&["warcraft"]));
}

#[test]
fn hints_match_parts_of_names() {
    assert!(any_hint_occurs(&strings(&["x", "b"]), "abc"));
    assert!(!any_hint_occurs(&strings(&["x", "y"]), "abc"));
    assert!(!any_hint_occurs(&strings(&[]), "abc"));
}

const SCREEN: ScreenSize = ScreenSize { width: 1920, height: 1080 };

#[test]
fn targets_follow_the_placement() {
    let a = WindowPlacement::Absolute { x: 10, y: -20, width: 300, height: 200 };
    assert!(can_place(&a, SCREEN));
    assert_eq!(target_rect(&a, SCREEN), Rect { left: 10, top: -20, right: 310, bottom: 180 });
    let b = WindowPlacement::BottomRight { width: 500, height: 400, bottom_margin: 40 };
    assert!(can_place(&b, SCREEN));
    assert_eq!(
        target_rect(&b, SCREEN),
        Rect { left: 1420, top: 640, right: 1920, bottom: 1040 }
    );
    assert_eq!(placement_size(&a), (300, 200));
    assert_eq!(placement_size(&b), (500, 400));
}

#[test]
fn moves_have_the_size_of_the_placement() {
    let b = WindowPlacement::BottomRight { width: 500, height: 400, bottom_margin: 40 };
    assert_eq!(
        layout_move(&b, SCREEN),
        WindowMove { x: 1420, y: 640, width: 500, height: 400 }
    );
}

#[test]
fn targets_out_of_range_are_noticed() {
    let a = WindowPlacement::Absolute { x: i32::MAX, y: 0, width: 1, height: 1 };
    assert!(!can_place(&a, SCREEN));
    let b = WindowPlacement::BottomRight { width: 1, height: i32::MIN, bottom_margin: 0 };
    assert!(!can_place(&b, SCREEN));
}

#[test]
fn placements_are_described() {
    assert_eq!(
        placement_description(&WindowPlacement::Absolute { x: -1, y: 2, width: 30, height: 40 }),
        "x=-1, y=2, 30x40"
    );
    assert_eq!(
        placement_description(&WindowPlacement::BottomRight {
            width: 500,
            height: 400,
            bottom_margin: 40
        }),
        "右下角, 底边距=40, 500x400"
    );
}

#[test]
fn nearness_has_a_tolerance() {
    assert!(near_equal(10, 14, 4));
    assert!(near_equal(14, 10, 4));
    assert!(!near_equal(10, 15, 4));
    assert!(near_equal(5, 5, 0));
    assert!(!near_equal(5, 5, -1));
}

fn app() -> AppConfig {
    let mut e = TomlAppConfig::default();
    e.exe = "a.exe".to_string();
    e.name = "n".to_string();
    e.stable_confirmations = Some(2);
    e.wait_after_launch_ms = Some(100);
    e.wait_timeout_ms = Some(1000);
    build_app_config(e, &TomlDefaults::default())
}

#[test]
fn windows_are_compared_on_every_side() {
    let a = app();
    let at = |left, top, right, bottom| Some(Rect { left, top, right, bottom });
    assert!(is_window_in_target(at(100, 100, 600, 600), &a, SCREEN));
    assert!(is_window_in_target(at(104, 96, 604, 596), &a, SCREEN));
    assert!(!is_window_in_target(at(105, 100, 600, 600), &a, SCREEN));
    assert!(!is_window_in_target(at(100, 105, 600, 600), &a, SCREEN));
    assert!(!is_window_in_target(at(100, 100, 605, 600), &a, SCREEN));
    assert!(!is_window_in_target(at(100, 100, 600, 605), &a, SCREEN));
    assert!(!is_window_in_target(None, &a, SCREEN));
}

#[test]
fn comparisons_out_of_range_are_noticed() {
    let a = app();
    let far = Rect { left: i32::MIN, top: 0, right: 0, bottom: 0 };
    assert!(!can_check_position(Some(far), &a, SCREEN));
    assert!(can_check_position(None, &a, SCREEN));
    let one = Rect { left: 0, top: i32::MIN, right: 0, bottom: 0 };
    let two = Rect { left: 9, top: i32::MAX, right: 0, bottom: 0 };
    assert!(can_compare(one, two, 4));
    assert!(!can_compare(one, two, 9));
}

fn layout_course(a: &AppConfig, events: &[LayoutEvent]) -> LayoutAction {
    let (mut phase, mut action): (LayoutPhase, LayoutAction) = ensure_window_layout();
    for e in events {
        assert!(can_step_layout(phase, *e, a));
        let next = step_layout(phase, *e, a);
        phase = next.0;
        action = next.1;
    }
    action
}

const PLACED: LayoutEvent =
    LayoutEvent::At(Some(Rect { left: 100, top: 100, right: 600, bottom: 600 }), SCREEN);
const ELSEWHERE: LayoutEvent =
    LayoutEvent::At(Some(Rect { left: 0, top: 0, right: 9, bottom: 9 }), SCREEN);

#[test]
fn windows_in_place_are_left_alone() {
    let a = app();
    assert_eq!(layout_course(&a, &[]), LayoutAction::AskExists);
    assert_eq!(layout_course(&a, &[LayoutEvent::Exists(true)]), LayoutAction::AskRect);
    assert_eq!(
        layout_course(&a, &[LayoutEvent::Exists(true), PLACED]),
        LayoutAction::Done(true)
    );
    assert_eq!(layout_course(&a, &[LayoutEvent::Exists(false)]), LayoutAction::Done(false));
}

#[test]
fn windows_out_of_place_are_moved_and_checked() {
    let a = app();
    let mut events = vec![LayoutEvent::Exists(true), ELSEWHERE];
    assert_eq!(layout_course(&a, &events), LayoutAction::AskExists);
    events.push(LayoutEvent::Exists(true));
    assert_eq!(layout_course(&a, &events), LayoutAction::Restore);
    events.push(LayoutEvent::Restored(SCREEN));
    assert_eq!(
        layout_course(&a, &events),
        LayoutAction::Move(WindowMove { x: 100, y: 100, width: 500, height: 500 })
    );
    events.push(LayoutEvent::Moved(true));
    assert_eq!(layout_course(&a, &events), LayoutAction::Sleep(50));
    events.push(LayoutEvent::Slept);
    assert_eq!(layout_course(&a, &events), LayoutAction::AskRect);
    let mut good = events.clone();
    good.push(PLACED);
    assert_eq!(layout_course(&a, &good), LayoutAction::Done(true));
    events.push(ELSEWHERE);
    assert_eq!(layout_course(&a, &events), LayoutAction::Done(false));
}

#[test]
fn windows_that_vanish_or_resist_are_given_up() {
    let a = app();
    assert_eq!(
        layout_course(&a, &[LayoutEvent::Exists(true), ELSEWHERE, LayoutEvent::Exists(false)]),
        LayoutAction::Done(false)
    );
    assert_eq!(
        layout_course(
            &a,
            &[
                LayoutEvent::Exists(true),
                LayoutEvent::At(None, SCREEN),
                LayoutEvent::Exists(true),
                LayoutEvent::Restored(SCREEN),
                LayoutEvent::Moved(false),
            ]
        ),
        LayoutAction::Done(false)
    );
    assert!(!can_step_layout(LayoutPhase::Probing, LayoutEvent::Slept, &a));
}

const CONFIG: &str = "C:\\cfg\\launch_apps.toml";

fn launch_state(a: &AppConfig, events: Vec<LaunchEvent>) -> (LaunchState, LaunchAction) {
    let (mut state, mut action) = launch_app(a, CONFIG);
    for e in events {
        assert!(can_step_launch(&state, &e, a));
        (state, action) = step_launch(state, e, a);
    }
    (state, action)
}

fn launch_course(a: &AppConfig, events: Vec<LaunchEvent>) -> LaunchAction {
    launch_state(a, events).1
}

/// The first events of a launch: process 5 runs before, process 40 is started.
fn opening(n: usize) -> Vec<LaunchEvent> {
    let mut v = vec![
        LaunchEvent::ExeExists(true),
        LaunchEvent::Listed(vec![proc(5, 1, "old.exe")]),
        LaunchEvent::Spawned(Ok(40)),
        LaunchEvent::Announced,
    ];
    v.truncate(n);
    v
}

/// `h` and `m` are rounds with and without a window in place, `t` a reading of the
/// clock between the limits, `l` a list of processes, `p` a pause.
fn started(more: &str) -> Vec<LaunchEvent> {
    let mut v = opening(4);
    for c in more.chars() {
        v.push(match c {
            'h' => LaunchEvent::Scanned(vec![false, true]),
            'm' => LaunchEvent::Scanned(vec![false]),
            't' => LaunchEvent::Elapsed(200 * MS),
            'l' => LaunchEvent::Listed(vec![
                proc(5, 40, "n.exe"),
                proc(41, 40, "child.exe"),
                proc(7, 1, "n.exe"),
                proc(6, 1, "other.exe"),
            ]),
            'p' => LaunchEvent::Slept,
            _ => panic!("no such event"),
        });
    }
    v
}

fn and(mut v: Vec<LaunchEvent>, e: LaunchEvent) -> Vec<LaunchEvent> {
    v.push(e);
    v
}

const MS: u128 = 1_000_000;

fn launched_app() -> AppConfig {
    let mut a = app();
    a.exe = "bin\\n.exe".to_string();
    a.args = strings(&["-a", "b c"]);
    a.process_names = strings(&["n.exe"]);
    a.class_hints = strings(&["class"]);
    a.title_hints = strings(&["title"]);
    a
}

#[test]
fn a_launch_starts_step_by_step() {
    let a = launched_app();
    let path = "C:\\cfg\\bin\\n.exe".to_string();
    assert_eq!(launch_course(&a, opening(0)), LaunchAction::ProbeExe(path.clone()));
    assert_eq!(launch_course(&a, opening(1)), LaunchAction::ListProcesses);
    assert_eq!(
        launch_course(&a, opening(2)),
        LaunchAction::Spawn(path.clone(), strings(&["-a", "b c"]))
    );
    assert_eq!(
        launch_course(&a, opening(3)),
        LaunchAction::Announce(launched_message(&a, &path))
    );
    assert_eq!(launch_course(&a, opening(4)), LaunchAction::ReadClock);
}

#[test]
fn a_launch_fails_without_executable_or_process() {
    let a = launched_app();
    assert_eq!(
        launch_course(&a, vec![LaunchEvent::ExeExists(false)]),
        LaunchAction::Fail(
            LaunchFailure::ExeNotFound,
            "应用 [n] 未找到可执行文件 C:\\cfg\\bin\\n.exe (来自配置文件 C:\\cfg\\launch_apps.toml)"
                .to_string()
        )
    );
    assert_eq!(
        launch_course(&a, and(opening(2), LaunchEvent::Spawned(Err("denied".to_string())))),
        LaunchAction::Fail(
            LaunchFailure::NotStarted,
            "应用 [n] 启动失败 (C:\\cfg\\bin\\n.exe): denied".to_string()
        )
    );
}

#[test]
fn windows_are_not_looked_for_before_the_wait_is_over() {
    let a = launched_app();
    assert_eq!(
        launch_course(&a, and(opening(4), LaunchEvent::Elapsed(100 * MS - 1))),
        LaunchAction::ReadClock
    );
    assert_eq!(
        launch_course(&a, and(opening(4), LaunchEvent::Elapsed(100 * MS))),
        LaunchAction::ListProcesses
    );
}

#[test]
fn a_round_looks_for_the_windows_of_the_started_program() {
    let a = launched_app();
    assert_eq!(
        launch_course(&a, started("tl")),
        LaunchAction::Scan {
            pids: vec![7, 40, 41],
            class_hints: strings(&["class"]),
            title_hints: strings(&["title"]),
        }
    );
}

#[test]
fn a_launch_succeeds_after_enough_rounds_in_a_row() {
    let a = launched_app();
    assert_eq!(launch_course(&a, started("tlh")), LaunchAction::ReadClock);
    assert_eq!(launch_course(&a, started("tlht")), LaunchAction::Sleep(200));
    assert_eq!(launch_course(&a, started("tlhtp")), LaunchAction::ReadClock);
    assert_eq!(
        launch_course(&a, started("tlhtptlh")),
        LaunchAction::Succeed("应用 [n] 已固定完成 (500x500)".to_string())
    );
    assert_eq!(launch_course(&a, started("tlhtptlmtptlh")), LaunchAction::ReadClock);
}

#[test]
fn a_launch_times_out_when_more_than_the_limit_has_passed() {
    let a = launched_app();
    assert_eq!(
        launch_course(&a, and(started("tlm"), LaunchEvent::Elapsed(1000 * MS))),
        LaunchAction::Sleep(200)
    );
    assert!(matches!(
        launch_course(&a, and(started("tlm"), LaunchEvent::Elapsed(1000 * MS + 1))),
        LaunchAction::Fail(LaunchFailure::TimedOut, _)
    ));
}

#[test]
fn events_out_of_turn_are_noticed() {
    let a = launched_app();
    let (mut state, _) = launch_app(&a, CONFIG);
    assert!(!can_step_launch(&state, &LaunchEvent::Slept, &a));
    // The program is started once.
    let (running, _) = launch_state(&a, opening(4));
    assert!(!can_step_launch(&running, &LaunchEvent::Spawned(Ok(1)), &a));
    assert!(!can_step_launch(&running, &LaunchEvent::Scanned(vec![true]), &a));
    state.phase = LaunchPhase::Finished;
    assert!(!can_step_launch(&state, &LaunchEvent::Slept, &a));
    state.phase = LaunchPhase::Sleeping(2);
    assert!(!can_step_launch(&state, &LaunchEvent::Slept, &a));
    state.phase = LaunchPhase::Sleeping(1);
    assert!(can_step_launch(&state, &LaunchEvent::Slept, &a));
}

#[test]
fn one_window_in_place_is_enough() {
    assert!(any_in_place(&vec![false, true, false]));
    assert!(!any_in_place(&vec![false]));
    assert!(!any_in_place(&vec![]));
}

#[test]
fn launch_messages_tell_what_happened() {
    let a = app();
    assert_eq!(
        launched_message(&a, "C:\\a.exe"),
        "启动 [n] -> C:\\a.exe，目标位置: x=100, y=100, 500x500"
    );
    assert_eq!(success_message(&a), "应用 [n] 已固定完成 (500x500)");
    assert_eq!(
        failure_message(LaunchFailure::ExeNotFound, "n", "e", "c", "x"),
        "应用 [n] 未找到可执行文件 e (来自配置文件 c)"
    );
    assert_eq!(
        failure_message(LaunchFailure::NotStarted, "n", "e", "c", "x"),
        "应用 [n] 启动失败 (e): x"
    );
    assert_eq!(
        failure_message(LaunchFailure::TimedOut, "n", "e", "c", "x"),
        "应用 [n] 超时：未能找到并固定窗口，请确认它会创建可见窗口，或补充 process_names/class_hints/title_hints"
    );
}

#[test]
fn applications_are_launched_in_order() {
    assert_eq!(run(None), RunAction::Exit(2));
    assert_eq!(run(Some(0)), RunAction::Finish);
    assert_eq!(run(Some(2)), RunAction::Launch(0));
    assert_eq!(step_run(2, 0, true), RunAction::Launch(1));
    assert_eq!(step_run(2, 1, true), RunAction::Finish);
    assert_eq!(step_run(2, 0, false), RunAction::Exit(1));
}
