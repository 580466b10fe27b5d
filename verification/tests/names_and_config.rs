use launch_apps::config::{
    build_app_config, build_legacy_app, message_for, validate_app_config, AppConfig,
    TomlAppConfig, TomlConfig, TomlDefaults,
};
use launch_apps::load::{build_apps, load_config, ConfigSource, FileOutcome};
use launch_apps::names::{
    canonical_process_name, default_process_names_for_exe, infer_app_name, keep_non_empty,
    normalize_matchers, normalize_matchers_with_defaults, normalize_process_names, trim_args,
    with_exe_suffix,
};
use launch_apps::template::default_config_template;
use launch_apps::window::WindowPlacement;

fn strings(v: &[&str]) -> Vec<String> {
    v.iter().map(|s| s.to_string()).collect()
}

fn some(s: &str) -> Option<String> {
    Some(s.to_string())
}

#[test]
fn arguments_are_trimmed_and_blanks_dropped() {
    assert_eq!(
        trim_args(strings(&["  -windowed ", "", " \t", "a b", "\u{3000}x\u{a0}"])),
        strings(&["-windowed", "a b", "x"])
    );
    assert_eq!(trim_args(strings(&["b", "a", "b"])), strings(&["b", "a", "b"]));
}

#[test]
fn trimmed_arguments_stay() {
    let once = trim_args(strings(&[" -a ", "", "b\tc\n"]));
    assert_eq!(once, strings(&["-a", "b\tc"]));
    assert_eq!(trim_args(once.clone()), once);
}

#[test]
fn empty_texts_are_dropped() {
    assert_eq!(keep_non_empty(strings(&["", "a", "", " "])), strings(&["a", " "]));
}

#[test]
fn matchers_are_normalized() {
    assert_eq!(
        normalize_matchers(strings(&[" World of Warcraft ", "notepad", "", "NOTEPAD", " "])),
        strings(&["notepad", "world of warcraft"])
    );
    assert_eq!(normalize_matchers(strings(&["ÀB", "記"])), strings(&["àb", "記"]));
    assert_eq!(normalize_matchers(strings(&[" ", ""])), strings(&[]));
}

#[test]
fn matchers_ignore_order_and_repeats() {
    let once = normalize_matchers(strings(&["B", "a", "c"]));
    assert_eq!(once, strings(&["a", "b", "c"]));
    assert_eq!(normalize_matchers(strings(&["c", "c", "a", "b "])), once);
    assert_eq!(normalize_matchers(once.clone()), once);
}

#[test]
fn matchers_fall_back_to_lowered_defaults() {
    assert_eq!(
        normalize_matchers_with_defaults(strings(&[" "]), &["World of Warcraft", "B", "A"]),
        strings(&["world of warcraft", "b", "a"])
    );
    assert_eq!(
        normalize_matchers_with_defaults(strings(&["X"]), &["World of Warcraft"]),
        strings(&["x"])
    );
}

#[test]
fn process_names_are_canonical() {
    assert_eq!(canonical_process_name("Wow"), some("wow.exe"));
    assert_eq!(canonical_process_name(" C:\\Games\\Wow.EXE "), some("wow.exe"));
    assert_eq!(canonical_process_name("games/WowClassic"), some("wowclassic.exe"));
    assert_eq!(canonical_process_name("a.bat"), some("a.bat.exe"));
    assert_eq!(canonical_process_name("dir\\ Name .exe"), some("name .exe"));
    assert_eq!(canonical_process_name("ÉDIT"), some("édit.exe"));
    assert_eq!(canonical_process_name(""), None);
    assert_eq!(canonical_process_name(" \t "), None);
}

#[test]
fn process_names_without_a_file_name_use_the_whole_text() {
    assert_eq!(canonical_process_name(".."), some("...exe"));
    assert_eq!(canonical_process_name("C:\\"), some("c:\\.exe"));
}

#[test]
fn a_blank_file_name_gives_no_process_name() {
    assert_eq!(canonical_process_name("dir\\\u{3000}\\."), None);
}

#[test]
fn canonical_names_stay() {
    for name in ["wow.exe", "wow-64.exe", "记事本.exe"] {
        assert_eq!(canonical_process_name(name), some(name));
    }
}

#[test]
fn a_bare_process_name_stands_for_itself() {
    let once = canonical_process_name(" C:\\Games\\WoW ");
    assert_eq!(once, some("wow.exe"));
    assert_eq!(canonical_process_name("wow.exe"), once);
    assert_eq!(canonical_process_name("x\\a:b"), some("a:b.exe"));
    assert_eq!(canonical_process_name("a:b.exe"), some("b.exe"));
}

#[test]
fn the_exe_suffix_is_added_once() {
    assert_eq!(with_exe_suffix("wow".to_string()), some("wow.exe"));
    assert_eq!(with_exe_suffix("wow.exe".to_string()), some("wow.exe"));
    assert_eq!(with_exe_suffix(String::new()), None);
}

#[test]
fn the_executable_gives_a_process_name() {
    assert_eq!(default_process_names_for_exe("C:\\a\\B.exe"), strings(&["b.exe"]));
    assert_eq!(default_process_names_for_exe("  "), strings(&[]));
}

#[test]
fn process_names_fall_back_twice() {
    assert_eq!(
        normalize_process_names(strings(&["b", " ", "A.exe", "B.EXE"]), "c.exe", &["d"]),
        strings(&["a.exe", "b.exe"])
    );
    assert_eq!(
        normalize_process_names(strings(&[" "]), "c.exe", &["z", "D.exe"]),
        strings(&["d.exe", "z.exe"])
    );
    assert_eq!(normalize_process_names(strings(&[]), "x\\C", &[]), strings(&["c.exe"]));
    assert_eq!(normalize_process_names(strings(&[]), " ", &[" "]), strings(&[]));
}

#[test]
fn process_names_ignore_order_and_repeats() {
    let once = normalize_process_names(strings(&["b", "x\\A.exe"]), "c", &["d"]);
    assert_eq!(once, strings(&["a.exe", "b.exe"]));
    assert_eq!(
        normalize_process_names(strings(&["x\\A.exe", "b", "x\\A.exe"]), "c", &["d"]),
        once
    );
    assert_eq!(
        normalize_process_names(strings(&[]), "c", &["e", "d"]),
        normalize_process_names(strings(&[]), "c", &["d", "e", "d"])
    );
}

#[test]
fn normal_forms_stay_beyond_ascii() {
    let hints = normalize_matchers(strings(&[" ÀB ", "記", "ΟΔΟΣ"]));
    assert_eq!(hints, strings(&["àb", "οδος", "記"]));
    assert_eq!(normalize_matchers(hints.clone()), hints);
    assert_eq!(canonical_process_name("C:\\x\\ÀB"), some("àb.exe"));
    assert_eq!(canonical_process_name("àb.exe"), some("àb.exe"));
    assert_eq!(canonical_process_name("ÀB.EXE"), some("àb.exe"));
}

#[test]
fn application_names_are_inferred() {
    assert_eq!(infer_app_name(" My App ", "C:\\a\\b.exe"), "My App");
    assert_eq!(infer_app_name(" ", "C:\\a\\Wow.exe"), "Wow");
    assert_eq!(infer_app_name("", ".."), "app");
    assert_eq!(infer_app_name("", ""), "app");
    assert_eq!(infer_app_name("", "dir\\ .exe"), "app");
}

#[test]
fn defaults_are_the_documented_ones() {
    let c = TomlConfig::default();
    assert_eq!(c.defaults.wait_timeout_ms, 60_000);
    assert_eq!(c.defaults.wait_after_launch_ms, 0);
    assert_eq!(c.defaults.enforce_interval_ms, 200);
    assert_eq!(c.defaults.stable_confirmations, 5);
    assert_eq!(c.defaults.position_tolerance, 4);
    assert!(c.apps.is_empty());
    assert!(!c.has_legacy_fields());
    let a = TomlAppConfig::default();
    assert!(a.enabled && a.name.is_empty() && a.exe.is_empty());
    assert_eq!((a.x, a.y, a.width, a.height), (100, 100, 500, 500));
}

#[test]
fn each_legacy_field_counts() {
    let mut c = TomlConfig::default();
    c.wow_exe = some("");
    assert!(c.has_legacy_fields());
    let mut c = TomlConfig::default();
    c.wow_args = Some(vec![]);
    assert!(c.has_legacy_fields());
    let mut c = TomlConfig::default();
    c.process_names = Some(vec![]);
    assert!(c.has_legacy_fields());
    let mut c = TomlConfig::default();
    c.class_hints = Some(vec![]);
    assert!(c.has_legacy_fields());
    let mut c = TomlConfig::default();
    c.title_hints = Some(vec![]);
    assert!(c.has_legacy_fields());
    let mut c = TomlConfig::default();
    c.target_width = Some(0);
    assert!(c.has_legacy_fields());
    let mut c = TomlConfig::default();
    c.target_height = Some(0);
    assert!(c.has_legacy_fields());
    let mut c = TomlConfig::default();
    c.bottom_margin = Some(0);
    assert!(c.has_legacy_fields());
    let mut c = TomlConfig::default();
    c.wait_timeout_ms = Some(0);
    assert!(c.has_legacy_fields());
    let mut c = TomlConfig::default();
    c.wait_after_launch_ms = Some(0);
    assert!(c.has_legacy_fields());
    let mut c = TomlConfig::default();
    c.enforce_interval_ms = Some(0);
    assert!(c.has_legacy_fields());
    let mut c = TomlConfig::default();
    c.stable_confirmations = Some(0);
    assert!(c.has_legacy_fields());
    let mut c = TomlConfig::default();
    c.position_tolerance = Some(0);
    assert!(c.has_legacy_fields());
}

#[test]
fn the_legacy_application_has_its_own_defaults() {
    let app = build_legacy_app(&TomlConfig::default());
    assert_eq!(app.name, "Wow");
    assert_eq!(app.exe, "Wow.exe");
    assert_eq!(app.args, strings(&["-windowed"]));
    assert_eq!(
        app.process_names,
        strings(&[
            "wow-64.exe",
            "wow.exe",
            "wowb.exe",
            "wowclassic.exe",
            "wowclassict.exe",
            "wowclasst.exe",
        ])
    );
    assert_eq!(app.class_hints, strings(&["gxwindowclass"]));
    assert_eq!(app.title_hints, strings(&["world of warcraft"]));
    assert_eq!(
        app.placement,
        WindowPlacement::BottomRight { width: 500, height: 500, bottom_margin: 40 }
    );
    assert_eq!(app.wait_timeout, 60_000);
    assert_eq!(app.wait_after_launch, 0);
    assert_eq!(app.enforce_interval, 200);
    assert_eq!(app.stable_confirmations, 5);
    assert_eq!(app.position_tolerance, 4);
    assert!(validate_app_config(&app).is_ok());
}

#[test]
fn the_legacy_application_takes_what_is_set() {
    let mut c = TomlConfig::default();
    c.wow_exe = some("  ");
    c.wow_args = Some(strings(&[" "]));
    assert_eq!(build_legacy_app(&c).exe, "Wow.exe");
    assert_eq!(build_legacy_app(&c).args, strings(&["-windowed"]));
    c.wow_exe = some(" D:\\g\\Game.exe ");
    c.wow_args = Some(strings(&[" a ", "b"]));
    c.process_names = Some(strings(&["Other"]));
    c.class_hints = Some(strings(&["Cls"]));
    c.title_hints = Some(strings(&["Ttl"]));
    c.target_width = Some(1);
    c.target_height = Some(2);
    c.bottom_margin = Some(3);
    c.wait_timeout_ms = Some(4);
    c.wait_after_launch_ms = Some(5);
    c.enforce_interval_ms = Some(6);
    c.stable_confirmations = Some(7);
    c.position_tolerance = Some(8);
    let app = build_legacy_app(&c);
    assert_eq!(app.name, "Game");
    assert_eq!(app.exe, "D:\\g\\Game.exe");
    assert_eq!(app.args, strings(&["a", "b"]));
    assert_eq!(app.process_names, strings(&["other.exe"]));
    assert_eq!(app.class_hints, strings(&["cls"]));
    assert_eq!(app.title_hints, strings(&["ttl"]));
    assert_eq!(
        app.placement,
        WindowPlacement::BottomRight { width: 1, height: 2, bottom_margin: 3 }
    );
    assert_eq!(
        (app.wait_timeout, app.wait_after_launch, app.enforce_interval),
        (4, 5, 6)
    );
    assert_eq!((app.stable_confirmations, app.position_tolerance), (7, 8));
}

fn entry(exe: &str) -> TomlAppConfig {
    let mut e = TomlAppConfig::default();
    e.exe = exe.to_string();
    e
}

#[test]
fn an_entry_becomes_an_application() {
    let mut e = entry(" C:\\t\\Tool.exe ");
    e.args = strings(&[" -a ", ""]);
    e.class_hints = strings(&["Z", "A"]);
    e.x = -5;
    e.wait_timeout_ms = Some(9);
    let app = build_app_config(e, &TomlDefaults::default());
    assert_eq!(app.name, "Tool");
    assert_eq!(app.exe, "C:\\t\\Tool.exe");
    assert_eq!(app.args, strings(&["-a"]));
    assert_eq!(app.process_names, strings(&["tool.exe"]));
    assert_eq!(app.class_hints, strings(&["a", "z"]));
    assert_eq!(app.title_hints, strings(&[]));
    assert_eq!(
        app.placement,
        WindowPlacement::Absolute { x: -5, y: 100, width: 500, height: 500 }
    );
    assert_eq!(app.wait_timeout, 9);
    assert_eq!(app.enforce_interval, 200);
}

fn valid_app() -> AppConfig {
    let mut e = entry("a.exe");
    e.name = "n".to_string();
    build_app_config(e, &TomlDefaults::default())
}

#[test]
fn messages_name_the_application() {
    assert_eq!(message_for("n", "] x"), "应用 [n] x");
}

#[test]
fn validation_accepts_a_standard_entry() {
    assert_eq!(validate_app_config(&valid_app()), Ok(()));
}

#[test]
fn validation_names_each_problem() {
    let mut a = valid_app();
    a.exe = " ".to_string();
    assert_eq!(validate_app_config(&a), Err("应用 [n] 的 exe 不能为空".to_string()));
    let mut a = valid_app();
    a.placement = WindowPlacement::Absolute { x: 0, y: 0, width: 0, height: 1 };
    assert_eq!(validate_app_config(&a), Err("应用 [n] 的 width 必须大于 0".to_string()));
    let mut a = valid_app();
    a.placement = WindowPlacement::BottomRight { width: 1, height: -1, bottom_margin: 0 };
    assert_eq!(validate_app_config(&a), Err("应用 [n] 的 height 必须大于 0".to_string()));
    let mut a = valid_app();
    a.stable_confirmations = 0;
    assert_eq!(
        validate_app_config(&a),
        Err("应用 [n] 的 stable_confirmations 必须大于 0".to_string())
    );
    let mut a = valid_app();
    a.position_tolerance = -1;
    assert_eq!(
        validate_app_config(&a),
        Err("应用 [n] 的 position_tolerance 不能小于 0".to_string())
    );
    let mut a = valid_app();
    a.enforce_interval = 0;
    assert_eq!(
        validate_app_config(&a),
        Err("应用 [n] 的 enforce_interval_ms 不能为 0".to_string())
    );
    let mut a = valid_app();
    a.wait_timeout = 0;
    assert_eq!(
        validate_app_config(&a),
        Err("应用 [n] 的 wait_timeout_ms 不能为 0".to_string())
    );
}

#[test]
fn the_first_problem_is_named() {
    let mut a = valid_app();
    a.wait_timeout = 0;
    a.stable_confirmations = 0;
    assert_eq!(
        validate_app_config(&a),
        Err("应用 [n] 的 stable_confirmations 必须大于 0".to_string())
    );
}

fn parsed(c: TomlConfig) -> ConfigSource {
    ConfigSource::Found("C:\\c.toml".to_string(), FileOutcome::Parsed(c))
}

fn load_error(source: ConfigSource) -> String {
    match load_config(source) {
        Ok(_) => panic!("loaded"),
        Err(m) => m,
    }
}

#[test]
fn enabled_entries_are_loaded_in_order() {
    let mut c = TomlConfig::default();
    let mut off = entry("");
    off.enabled = false;
    c.apps = vec![entry("b.exe"), off, entry("a.exe")];
    c.wow_exe = some("legacy.exe");
    let (config, path) = match load_config(parsed(c)) {
        Ok(r) => r,
        Err(m) => panic!("{}", m),
    };
    let exes: Vec<String> = config.apps.iter().map(|a| a.exe.clone()).collect();
    assert_eq!(exes, strings(&["b.exe", "a.exe"]));
    assert_eq!(path, "C:\\c.toml");
}

#[test]
fn the_legacy_form_is_loaded_without_entries() {
    let mut c = TomlConfig::default();
    c.target_width = Some(640);
    let apps = match build_apps(c, "x") {
        Ok(apps) => apps,
        Err(m) => panic!("{}", m),
    };
    assert_eq!(apps.len(), 1);
    assert_eq!(apps[0].exe, "Wow.exe");
}

#[test]
fn loading_fails_without_applications() {
    assert_eq!(
        load_error(parsed(TomlConfig::default())),
        "配置文件中没有可启动的应用，请添加 [[apps]] 条目 (C:\\c.toml)"
    );
    let mut c = TomlConfig::default();
    let mut off = entry("a.exe");
    off.enabled = false;
    c.apps = vec![off];
    assert_eq!(load_error(parsed(c)), "配置文件中的所有 [[apps]] 都被禁用了，没有可启动项");
}

#[test]
fn loading_fails_on_the_first_invalid_application() {
    let mut c = TomlConfig::default();
    let mut bad = entry("b.exe");
    bad.width = 0;
    let mut worse = entry(" ");
    worse.name = "w".to_string();
    c.apps = vec![entry("a.exe"), bad, worse];
    assert_eq!(load_error(parsed(c)), "应用 [b] 的 width 必须大于 0");
}

#[test]
fn loading_reports_trouble_with_the_file() {
    let p = || "p".to_string();
    assert_eq!(load_error(ConfigSource::Created(Err("e".to_string()))), "e");
    assert_eq!(
        load_error(ConfigSource::Created(Ok(p()))),
        "未找到配置文件，已生成默认配置: p。请先按需修改配置后再运行。"
    );
    assert_eq!(
        load_error(ConfigSource::Found(p(), FileOutcome::Missing)),
        "配置文件路径不存在: p"
    );
    assert_eq!(
        load_error(ConfigSource::Found(p(), FileOutcome::Inaccessible)),
        "无法访问配置文件: p"
    );
    assert_eq!(
        load_error(ConfigSource::Found(p(), FileOutcome::Unreadable("r".to_string()))),
        "读取配置文件失败 (p): r"
    );
    assert_eq!(
        load_error(ConfigSource::Found(p(), FileOutcome::Unparsable("t".to_string()))),
        "解析 TOML 配置失败 (p): t"
    );
}

#[test]
fn the_template_is_a_configuration_with_the_defaults() {
    let text = default_config_template();
    assert!(text.starts_with(
        "# launch_apps.toml\n# 相对路径会按“配置文件所在目录”解析。\n# 多个 [[apps]] 会按顺序依次启动，并把窗口固定到指定位置和大小。\n\n[defaults]\nwait_timeout_ms = 60000\nwait_after_launch_ms = 0\nenforce_interval_ms = 200\nstable_confirmations = 5\nposition_tolerance = 4\n\n[[apps]]\nname = \"wow\"\n"
    ));
    let table: toml::Table = match toml::from_str(&text) {
        Ok(t) => t,
        Err(e) => panic!("{}", e),
    };
    let apps = match table["apps"].as_array() {
        Some(a) => a,
        None => panic!("no entries"),
    };
    assert_eq!(apps.len(), 2);
    assert_eq!(apps[0]["exe"].as_str(), Some("Wow.exe"));
    assert_eq!(apps[0]["args"][0].as_str(), Some("-windowed"));
    assert_eq!(apps[0]["process_names"][1].as_str(), Some("wow-64.exe"));
    assert_eq!(apps[0]["process_names"].as_array().map(|a| a.len()), Some(6));
    assert_eq!(apps[0]["class_hints"][0].as_str(), Some("GxWindowClass"));
    assert_eq!(apps[0]["title_hints"][0].as_str(), Some("World of Warcraft"));
    assert_eq!(apps[0]["x"].as_integer(), Some(100));
    assert_eq!(apps[0]["height"].as_integer(), Some(500));
    assert_eq!(apps[1]["enabled"].as_bool(), Some(false));
    assert_eq!(
        apps[1]["exe"].as_str(),
        Some("C:\\Windows\\System32\\notepad.exe")
    );
    assert_eq!(apps[1]["title_hints"][1].as_str(), Some("记事本"));
    assert_eq!(apps[1]["x"].as_integer(), Some(650));
    assert_eq!(apps[1]["height"].as_integer(), Some(700));
}
