use launch_apps::create::{
    can_step_create, create_default_config, step_create, CreateAction, CreateState,
};
use launch_apps::locate::{
    config_candidates, config_env_var_list, config_file_name_list, dedup_paths,
    default_config_targets, find_existing_config, keep_first_of_each,
};
use launch_apps::template::default_config_template;

fn strings(v: &[&str]) -> Vec<String> {
    v.iter().map(|s| s.to_string()).collect()
}

fn some(s: &str) -> Option<String> {
    Some(s.to_string())
}

#[test]
fn names_are_the_known_ones() {
    assert_eq!(config_file_name_list(), vec!["launch_apps.toml", "launch_wow.toml"]);
    assert_eq!(config_env_var_list(), vec!["LAUNCH_APPS_CONFIG", "LAUNCH_WOW_CONFIG"]);
}

#[test]
fn paths_that_differ_in_case_are_dropped() {
    assert_eq!(
        dedup_paths(strings(&["C:\\A\\x.toml", "b", "c:\\a\\X.TOML", "B", "é", "É", "c"])),
        strings(&["C:\\A\\x.toml", "b", "é", "c"])
    );
    let once = dedup_paths(strings(&["a", "A", "b"]));
    assert_eq!(dedup_paths(once.clone()), once);
}

#[test]
fn the_first_of_equal_keys_is_kept() {
    assert_eq!(
        keep_first_of_each(&strings(&["p", "q", "r"]), &strings(&["k", "l", "k"])),
        strings(&["p", "q"])
    );
}

#[test]
fn candidates_come_in_order() {
    let values = vec![some("  D:\\my.toml "), some(" ")];
    assert_eq!(
        config_candidates(&values, &some("C:\\app\\launch.exe"), &some("E:\\work")),
        strings(&[
            "D:\\my.toml",
            "C:\\app\\launch_apps.toml",
            "C:\\app\\launch_wow.toml",
            "E:\\work\\launch_apps.toml",
            "E:\\work\\launch_wow.toml",
            "launch_apps.toml",
            "launch_wow.toml",
        ])
    );
}

#[test]
fn unknown_places_are_left_out() {
    assert_eq!(
        config_candidates(&vec![None, None], &None, &None),
        strings(&["launch_apps.toml", "launch_wow.toml"])
    );
    assert_eq!(
        config_candidates(&vec![], &some("C:\\"), &None),
        strings(&["launch_apps.toml", "launch_wow.toml"])
    );
}

#[test]
fn equal_places_are_tried_once() {
    assert_eq!(
        config_candidates(&vec![], &some("C:\\App\\launch.exe"), &some("c:\\app")),
        strings(&[
            "C:\\App\\launch_apps.toml",
            "C:\\App\\launch_wow.toml",
            "launch_apps.toml",
            "launch_wow.toml",
        ])
    );
}

#[test]
fn targets_are_among_the_candidates() {
    let values = vec![None, some("x.toml")];
    let program = some("C:\\app\\launch.exe");
    let dir = some("E:\\work");
    let targets = default_config_targets(&values, &program, &dir);
    assert_eq!(
        targets,
        strings(&[
            "x.toml",
            "C:\\app\\launch_apps.toml",
            "E:\\work\\launch_apps.toml",
            "launch_apps.toml",
        ])
    );
    let candidates = config_candidates(&values, &program, &dir);
    for t in targets {
        assert!(candidates.contains(&t));
    }
}

#[test]
fn the_first_existing_candidate_is_taken() {
    let probed = |v: &[(&str, bool)]| -> Vec<(String, bool)> {
        v.iter().map(|(p, e)| (p.to_string(), *e)).collect()
    };
    assert_eq!(
        find_existing_config(&probed(&[("a", false), ("b", true), ("c", true)])),
        some("b")
    );
    assert_eq!(find_existing_config(&probed(&[("a", false)])), None);
    assert_eq!(find_existing_config(&probed(&[])), None);
}

fn shown(a: &CreateAction) -> String {
    match a {
        CreateAction::CreateDir(t) => format!("dir {}", t),
        CreateAction::Write(t, content) => {
            assert_eq!(*content, default_config_template());
            format!("write {}", t)
        }
        CreateAction::Created(t) => format!("created {}", t),
        CreateAction::Failed(t) => format!("failed {}", t),
    }
}

fn course(targets: &[&str], outcomes: &[Option<&str>]) -> Vec<String> {
    let (mut state, mut action): (CreateState, CreateAction) =
        create_default_config(strings(targets));
    let mut seen = vec![shown(&action)];
    for o in outcomes {
        assert!(can_step_create(&state));
        let next = step_create(state, o.map(|s| s.to_string()));
        state = next.0;
        action = next.1;
        seen.push(shown(&action));
    }
    seen
}

#[test]
fn a_default_file_is_written_at_the_first_target() {
    assert_eq!(
        course(&["C:\\a\\x.toml", "y"], &[None, None]),
        strings(&["dir C:\\a", "write C:\\a\\x.toml", "created C:\\a\\x.toml"])
    );
    assert_eq!(course(&["y"], &[None]), strings(&["write y", "created y"]));
}

#[test]
fn failures_lead_to_the_next_target() {
    assert_eq!(
        course(
            &["C:\\a\\x.toml", "D:\\b\\y.toml", "z"],
            &[Some("no dir"), None, Some("read only"), None]
        ),
        strings(&["dir C:\\a", "dir D:\\b", "write D:\\b\\y.toml", "write z", "created z"])
    );
}

#[test]
fn the_first_target_that_works_is_created() {
    // For each target: why its directory, and why its file, cannot be made.
    let answers = |target: &str, writing: bool| -> Option<String> {
        match (target, writing) {
            ("C:\\a\\x.toml", false) => some("no dir"),
            ("C:\\a\\x.toml", true) => panic!("written without its directory"),
            ("D:\\b\\y.toml", true) => some("read only"),
            _ => None,
        }
    };
    let run = |targets: &[&str]| -> String {
        let (mut state, mut action) = create_default_config(strings(targets));
        let mut steps = 0;
        while can_step_create(&state) && !matches!(action, CreateAction::Created(_)) {
            let answer = answers(&state.targets[state.at], state.writing);
            (state, action) = step_create(state, answer);
            steps += 1;
        }
        assert!(steps <= 2 * targets.len());
        shown(&action)
    };
    assert_eq!(
        run(&["C:\\a\\x.toml", "D:\\b\\y.toml", "z", "w"]),
        "created z"
    );
    assert_eq!(
        run(&["C:\\a\\x.toml", "D:\\b\\y.toml"]),
        "failed 无法自动创建配置文件 launch_apps.toml。尝试结果:\n创建目录失败 C:\\a: no dir\n写入失败 D:\\b\\y.toml: read only"
    );
}

#[test]
fn an_ended_attempt_cannot_go_on() {
    let (state, _) = create_default_config(strings(&[]));
    assert!(!can_step_create(&state));
    let made_up = CreateState { targets: strings(&["z"]), at: 0, writing: false, errors: vec![] };
    assert!(!can_step_create(&made_up));
}

#[test]
fn all_failures_are_reported() {
    let seen = course(
        &["C:\\a\\x.toml", "z"],
        &[Some("no dir"), Some("read only")],
    );
    assert_eq!(
        seen[2],
        "failed 无法自动创建配置文件 launch_apps.toml。尝试结果:\n创建目录失败 C:\\a: no dir\n写入失败 z: read only"
    );
    assert_eq!(
        course(&[], &[])[0],
        "failed 无法自动创建配置文件 launch_apps.toml。尝试结果:\n"
    );
}
