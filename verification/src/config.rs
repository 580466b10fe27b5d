//! The configuration: what a file may say, and the applications that come of it.

use vstd::prelude::*;

use crate::names::{
    app_name_of, infer_app_name, law_kept_arguments, matchers_of, matchers_with_defaults_of, non_empty,
    normalize_matchers, normalize_matchers_with_defaults, normalize_process_names,
    process_names_of, slice_texts, trim_all, trim_args,
};
use crate::text::{is_space, law_trim, texts, trim_end, trim_of, trim_start};
use crate::window::{placement_size, placement_size_of, WindowPlacement};

verus! {

pub const LEGACY_DEFAULT_EXE: &'static str = "Wow.exe";

pub const DEFAULT_TARGET_X: i32 = 100;

pub const DEFAULT_TARGET_Y: i32 = 100;

pub const DEFAULT_TARGET_WIDTH: i32 = 500;

pub const DEFAULT_TARGET_HEIGHT: i32 = 500;

pub const DEFAULT_BOTTOM_MARGIN: i32 = 40;

pub const DEFAULT_WAIT_TIMEOUT_MS: u64 = 60_000;

pub const DEFAULT_WAIT_AFTER_LAUNCH_MS: u64 = 0;

pub const DEFAULT_ENFORCE_INTERVAL_MS: u64 = 200;

pub const DEFAULT_STABLE_CONFIRMATIONS: u32 = 5;

pub const DEFAULT_POSITION_TOLERANCE: i32 = 4;

/// The arguments of an application in the single-application form.
pub open spec fn legacy_default_args() -> Seq<Seq<char>> {
    seq!["-windowed"@]
}

/// The process names of an application in the single-application form.
pub open spec fn legacy_default_process_names() -> Seq<Seq<char>> {
    seq![
        "wow.exe"@,
        "wow-64.exe"@,
        "wowclassic.exe"@,
        "wowclassict.exe"@,
        "wowclasst.exe"@,
        "wowb.exe"@,
    ]
}

/// The title hints of an application in the single-application form.
pub open spec fn legacy_default_title_hints() -> Seq<Seq<char>> {
    seq!["World of Warcraft"@]
}

/// The class hints of an application in the single-application form.
pub open spec fn legacy_default_class_hints() -> Seq<Seq<char>> {
    seq!["GxWindowClass"@]
}

/// The arguments of an application in the single-application form.
pub fn legacy_args() -> (r: Vec<&'static str>)
    ensures
        slice_texts(r@) == legacy_default_args(),
{
    let r: Vec<&'static str> = vec!["-windowed"];
    assert(slice_texts(r@) == legacy_default_args());
    r
}

/// The process names of an application in the single-application form.
pub fn legacy_process_names() -> (r: Vec<&'static str>)
    ensures
        slice_texts(r@) == legacy_default_process_names(),
{
    let r: Vec<&'static str> = vec![
        "wow.exe",
        "wow-64.exe",
        "wowclassic.exe",
        "wowclassict.exe",
        "wowclasst.exe",
        "wowb.exe",
    ];
    assert(slice_texts(r@) == legacy_default_process_names());
    r
}

/// The title hints of an application in the single-application form.
pub fn legacy_title_hints() -> (r: Vec<&'static str>)
    ensures
        slice_texts(r@) == legacy_default_title_hints(),
{
    let r: Vec<&'static str> = vec!["World of Warcraft"];
    assert(slice_texts(r@) == legacy_default_title_hints());
    r
}

/// The class hints of an application in the single-application form.
pub fn legacy_class_hints() -> (r: Vec<&'static str>)
    ensures
        slice_texts(r@) == legacy_default_class_hints(),
{
    let r: Vec<&'static str> = vec!["GxWindowClass"];
    assert(slice_texts(r@) == legacy_default_class_hints());
    r
}

/// The contents of a configuration file.
#[derive(Debug, Clone)]
pub struct TomlConfig {
    pub defaults: TomlDefaults,
    pub apps: Vec<TomlAppConfig>,
    // The fields of the single-application form.
    pub wow_exe: Option<String>,
    pub wow_args: Option<Vec<String>>,
    pub process_names: Option<Vec<String>>,
    pub class_hints: Option<Vec<String>>,
    pub title_hints: Option<Vec<String>>,
    pub target_width: Option<i32>,
    pub target_height: Option<i32>,
    pub bottom_margin: Option<i32>,
    pub wait_timeout_ms: Option<u64>,
    pub wait_after_launch_ms: Option<u64>,
    pub enforce_interval_ms: Option<u64>,
    pub stable_confirmations: Option<u32>,
    pub position_tolerance: Option<i32>,
}

/// Some field of the single-application form is set.
pub open spec fn has_legacy(c: TomlConfig) -> bool {
    ||| c.wow_exe is Some
    ||| c.wow_args is Some
    ||| c.process_names is Some
    ||| c.class_hints is Some
    ||| c.title_hints is Some
    ||| c.target_width is Some
    ||| c.target_height is Some
    ||| c.bottom_margin is Some
    ||| c.wait_timeout_ms is Some
    ||| c.wait_after_launch_ms is Some
    ||| c.enforce_interval_ms is Some
    ||| c.stable_confirmations is Some
    ||| c.position_tolerance is Some
}

impl Default for TomlConfig {
    fn default() -> (r: Self)
        ensures
            r.defaults == standard_defaults(),
            r.apps@.len() == 0,
            !has_legacy(r),
    {
        TomlConfig {
            defaults: TomlDefaults::default(),
            apps: Vec::new(),
            wow_exe: None,
            wow_args: None,
            process_names: None,
            class_hints: None,
            title_hints: None,
            target_width: None,
            target_height: None,
            bottom_margin: None,
            wait_timeout_ms: None,
            wait_after_launch_ms: None,
            enforce_interval_ms: None,
            stable_confirmations: None,
            position_tolerance: None,
        }
    }
}

impl TomlConfig {
    /// Whether some field of the single-application form is set.
    pub fn has_legacy_fields(&self) -> (r: bool)
        ensures
            r == has_legacy(*self),
            !r <==> self.wow_exe is None && self.wow_args is None && self.process_names is None
                && self.class_hints is None && self.title_hints is None && self.target_width is None
                && self.target_height is None && self.bottom_margin is None
                && self.wait_timeout_ms is None && self.wait_after_launch_ms is None
                && self.enforce_interval_ms is None && self.stable_confirmations is None
                && self.position_tolerance is None,
    {
        self.wow_exe.is_some() || self.wow_args.is_some() || self.process_names.is_some()
            || self.class_hints.is_some() || self.title_hints.is_some()
            || self.target_width.is_some() || self.target_height.is_some()
            || self.bottom_margin.is_some() || self.wait_timeout_ms.is_some()
            || self.wait_after_launch_ms.is_some() || self.enforce_interval_ms.is_some()
            || self.stable_confirmations.is_some() || self.position_tolerance.is_some()
    }
}

/// What applies to every application that does not say otherwise.
#[derive(Debug, Clone)]
pub struct TomlDefaults {
    pub wait_timeout_ms: u64,
    pub wait_after_launch_ms: u64,
    pub enforce_interval_ms: u64,
    pub stable_confirmations: u32,
    pub position_tolerance: i32,
}

/// The defaults of a file that sets none.
pub open spec fn standard_defaults() -> TomlDefaults {
    TomlDefaults {
        wait_timeout_ms: DEFAULT_WAIT_TIMEOUT_MS,
        wait_after_launch_ms: DEFAULT_WAIT_AFTER_LAUNCH_MS,
        enforce_interval_ms: DEFAULT_ENFORCE_INTERVAL_MS,
        stable_confirmations: DEFAULT_STABLE_CONFIRMATIONS,
        position_tolerance: DEFAULT_POSITION_TOLERANCE,
    }
}

impl Default for TomlDefaults {
    fn default() -> (r: Self)
        ensures
            r == standard_defaults(),
    {
        TomlDefaults {
            wait_timeout_ms: DEFAULT_WAIT_TIMEOUT_MS,
            wait_after_launch_ms: DEFAULT_WAIT_AFTER_LAUNCH_MS,
            enforce_interval_ms: DEFAULT_ENFORCE_INTERVAL_MS,
            stable_confirmations: DEFAULT_STABLE_CONFIRMATIONS,
            position_tolerance: DEFAULT_POSITION_TOLERANCE,
        }
    }
}

/// An `[[apps]]` entry.
#[derive(Debug, Clone)]
pub struct TomlAppConfig {
    pub enabled: bool,
    pub name: String,
    pub exe: String,
    pub args: Vec<String>,
    pub process_names: Vec<String>,
    pub class_hints: Vec<String>,
    pub title_hints: Vec<String>,
    pub x: i32,
    pub y: i32,
    pub width: i32,
    pub height: i32,
    pub wait_timeout_ms: Option<u64>,
    pub wait_after_launch_ms: Option<u64>,
    pub enforce_interval_ms: Option<u64>,
    pub stable_confirmations: Option<u32>,
    pub position_tolerance: Option<i32>,
}

impl Default for TomlAppConfig {
    fn default() -> (r: Self)
        ensures
            r.enabled,
            r.name@.len() == 0,
            r.exe@.len() == 0,
            r.args@.len() == 0,
            r.process_names@.len() == 0,
            r.class_hints@.len() == 0,
            r.title_hints@.len() == 0,
            r.x == DEFAULT_TARGET_X,
            r.y == DEFAULT_TARGET_Y,
            r.width == DEFAULT_TARGET_WIDTH,
            r.height == DEFAULT_TARGET_HEIGHT,
            r.wait_timeout_ms is None,
            r.wait_after_launch_ms is None,
            r.enforce_interval_ms is None,
            r.stable_confirmations is None,
            r.position_tolerance is None,
    {
        TomlAppConfig {
            enabled: true,
            name: String::new(),
            exe: String::new(),
            args: Vec::new(),
            process_names: Vec::new(),
            class_hints: Vec::new(),
            title_hints: Vec::new(),
            x: DEFAULT_TARGET_X,
            y: DEFAULT_TARGET_Y,
            width: DEFAULT_TARGET_WIDTH,
            height: DEFAULT_TARGET_HEIGHT,
            wait_timeout_ms: None,
            wait_after_launch_ms: None,
            enforce_interval_ms: None,
            stable_confirmations: None,
            position_tolerance: None,
        }
    }
}

/// An application to launch.  Times are in milliseconds.
#[derive(Clone)]
pub struct AppConfig {
    pub name: String,
    pub exe: String,
    pub args: Vec<String>,
    pub process_names: Vec<String>,
    pub class_hints: Vec<String>,
    pub title_hints: Vec<String>,
    pub placement: WindowPlacement,
    pub wait_timeout: u64,
    pub wait_after_launch: u64,
    pub enforce_interval: u64,
    pub stable_confirmations: u32,
    pub position_tolerance: i32,
}

/// What an `AppConfig` stands for.
#[verifier::ext_equal]
pub struct AppModel {
    pub name: Seq<char>,
    pub exe: Seq<char>,
    pub args: Seq<Seq<char>>,
    pub process_names: Seq<Seq<char>>,
    pub class_hints: Seq<Seq<char>>,
    pub title_hints: Seq<Seq<char>>,
    pub placement: WindowPlacement,
    pub wait_timeout: u64,
    pub wait_after_launch: u64,
    pub enforce_interval: u64,
    pub stable_confirmations: u32,
    pub position_tolerance: i32,
}

impl View for AppConfig {
    type V = AppModel;

    open spec fn view(&self) -> AppModel {
        AppModel {
            name: self.name@,
            exe: self.exe@,
            args: texts(self.args@),
            process_names: texts(self.process_names@),
            class_hints: texts(self.class_hints@),
            title_hints: texts(self.title_hints@),
            placement: self.placement,
            wait_timeout: self.wait_timeout,
            wait_after_launch: self.wait_after_launch,
            enforce_interval: self.enforce_interval,
            stable_confirmations: self.stable_confirmations,
            position_tolerance: self.position_tolerance,
        }
    }
}

/// `o`, or `d` where it is not set.
pub open spec fn or<T>(o: Option<T>, d: T) -> T {
    match o {
        Some(v) => v,
        None => d,
    }
}

/// The texts of an optional list, none where it is not set.
pub open spec fn opt_texts(o: Option<Vec<String>>) -> Seq<Seq<char>> {
    match o {
        Some(v) => texts(v@),
        None => seq![],
    }
}

/// The executable of the single-application form.
pub open spec fn legacy_exe(c: TomlConfig) -> Seq<char> {
    match c.wow_exe {
        Some(t) => if trim_of(t@).len() > 0 {
            trim_of(t@)
        } else {
            LEGACY_DEFAULT_EXE@
        },
        None => LEGACY_DEFAULT_EXE@,
    }
}

/// The arguments of the single-application form.
pub open spec fn legacy_args_of(c: TomlConfig) -> Seq<Seq<char>> {
    let given = non_empty(trim_all(opt_texts(c.wow_args)));
    if given.len() > 0 {
        given
    } else {
        legacy_default_args()
    }
}

/// The application of the single-application form: at the bottom right of the
/// screen, with the form's own defaults for what is not set.
pub open spec fn legacy_app(c: TomlConfig) -> AppModel {
    let exe = legacy_exe(c);
    AppModel {
        name: app_name_of(""@, exe),
        exe,
        args: legacy_args_of(c),
        process_names: process_names_of(
            opt_texts(c.process_names),
            exe,
            legacy_default_process_names(),
        ),
        class_hints: matchers_with_defaults_of(
            opt_texts(c.class_hints),
            legacy_default_class_hints(),
        ),
        title_hints: matchers_with_defaults_of(
            opt_texts(c.title_hints),
            legacy_default_title_hints(),
        ),
        placement: WindowPlacement::BottomRight {
            width: or(c.target_width, DEFAULT_TARGET_WIDTH),
            height: or(c.target_height, DEFAULT_TARGET_HEIGHT),
            bottom_margin: or(c.bottom_margin, DEFAULT_BOTTOM_MARGIN),
        },
        wait_timeout: or(c.wait_timeout_ms, c.defaults.wait_timeout_ms),
        wait_after_launch: or(c.wait_after_launch_ms, c.defaults.wait_after_launch_ms),
        enforce_interval: or(c.enforce_interval_ms, c.defaults.enforce_interval_ms),
        stable_confirmations: or(c.stable_confirmations, c.defaults.stable_confirmations),
        position_tolerance: or(c.position_tolerance, c.defaults.position_tolerance),
    }
}

/// A copy of an optional list, empty where it is not set.
fn list_or_empty(o: &Option<Vec<String>>) -> (r: Vec<String>)
    ensures
        texts(r@) == opt_texts(*o),
{
    match o {
        Some(v) => {
            let r = v.clone();
            assert(texts(r@) == texts(v@));
            r
        },
        None => {
            let r: Vec<String> = Vec::new();
            assert(texts(r@) == Seq::<Seq<char>>::empty());
            r
        },
    }
}

/// The application of the single-application form.
pub fn build_legacy_app(file_config: &TomlConfig) -> (r: AppConfig)
    ensures
        r@ == legacy_app(*file_config),
        r.exe@ == (match file_config.wow_exe {
            Some(t) if trim_of(t@).len() > 0 => trim_of(t@),
            _ => "Wow.exe"@,
        }),
        r.placement == (WindowPlacement::BottomRight {
            width: match file_config.target_width {
                Some(v) => v,
                None => 500,
            },
            height: match file_config.target_height {
                Some(v) => v,
                None => 500,
            },
            bottom_margin: match file_config.bottom_margin {
                Some(v) => v,
                None => 40,
            },
        }),
        r.wait_timeout == (match file_config.wait_timeout_ms {
            Some(v) => v,
            None => file_config.defaults.wait_timeout_ms,
        }),
        r.wait_after_launch == (match file_config.wait_after_launch_ms {
            Some(v) => v,
            None => file_config.defaults.wait_after_launch_ms,
        }),
        r.enforce_interval == (match file_config.enforce_interval_ms {
            Some(v) => v,
            None => file_config.defaults.enforce_interval_ms,
        }),
        r.stable_confirmations == (match file_config.stable_confirmations {
            Some(v) => v,
            None => file_config.defaults.stable_confirmations,
        }),
        r.position_tolerance == (match file_config.position_tolerance {
            Some(v) => v,
            None => file_config.defaults.position_tolerance,
        }),
{
    let exe: String = match &file_config.wow_exe {
        Some(t) => {
            let trimmed = t.as_str().trim();
            if !trimmed.is_empty() {
                trimmed.to_owned()
            } else {
                LEGACY_DEFAULT_EXE.to_owned()
            }
        },
        None => LEGACY_DEFAULT_EXE.to_owned(),
    };
    let given = trim_args(list_or_empty(&file_config.wow_args));
    assert(given.len() == texts(given@).len());
    let args: Vec<String> = if given.len() > 0 {
        given
    } else {
        let defaults = legacy_args();
        let mut r: Vec<String> = Vec::new();
        let mut i: usize = 0;
        while i < defaults.len()
            invariant
                i <= defaults.len(),
                r.len() == i,
                forall|k: int| 0 <= k < i ==> (#[trigger] r@[k])@ == defaults@[k]@,
            decreases defaults.len() - i,
        {
            r.push(defaults[i].to_owned());
            i += 1;
        }
        assert(texts(r@) == slice_texts(defaults@));
        r
    };
    let name = infer_app_name("", exe.as_str());
    let process_names = normalize_process_names(
        list_or_empty(&file_config.process_names),
        exe.as_str(),
        legacy_process_names().as_slice(),
    );
    let class_hints = normalize_matchers_with_defaults(
        list_or_empty(&file_config.class_hints),
        legacy_class_hints().as_slice(),
    );
    let title_hints = normalize_matchers_with_defaults(
        list_or_empty(&file_config.title_hints),
        legacy_title_hints().as_slice(),
    );
    AppConfig {
        name,
        exe,
        args,
        process_names,
        class_hints,
        title_hints,
        placement: WindowPlacement::BottomRight {
            width: file_config.target_width.unwrap_or(DEFAULT_TARGET_WIDTH),
            height: file_config.target_height.unwrap_or(DEFAULT_TARGET_HEIGHT),
            bottom_margin: file_config.bottom_margin.unwrap_or(DEFAULT_BOTTOM_MARGIN),
        },
        wait_timeout: file_config.wait_timeout_ms.unwrap_or(file_config.defaults.wait_timeout_ms),
        wait_after_launch: file_config.wait_after_launch_ms.unwrap_or(
            file_config.defaults.wait_after_launch_ms,
        ),
        enforce_interval: file_config.enforce_interval_ms.unwrap_or(
            file_config.defaults.enforce_interval_ms,
        ),
        stable_confirmations: file_config.stable_confirmations.unwrap_or(
            file_config.defaults.stable_confirmations,
        ),
        position_tolerance: file_config.position_tolerance.unwrap_or(
            file_config.defaults.position_tolerance,
        ),
    }
}

/// The application that an `[[apps]]` entry describes: at the place it gives, with
/// the file's defaults for what it does not set.
pub open spec fn entry_app(e: TomlAppConfig, d: TomlDefaults) -> AppModel {
    let exe = trim_of(e.exe@);
    AppModel {
        name: app_name_of(e.name@, exe),
        exe,
        args: non_empty(trim_all(texts(e.args@))),
        process_names: process_names_of(texts(e.process_names@), exe, seq![]),
        class_hints: matchers_of(texts(e.class_hints@)),
        title_hints: matchers_of(texts(e.title_hints@)),
        placement: WindowPlacement::Absolute { x: e.x, y: e.y, width: e.width, height: e.height },
        wait_timeout: or(e.wait_timeout_ms, d.wait_timeout_ms),
        wait_after_launch: or(e.wait_after_launch_ms, d.wait_after_launch_ms),
        enforce_interval: or(e.enforce_interval_ms, d.enforce_interval_ms),
        stable_confirmations: or(e.stable_confirmations, d.stable_confirmations),
        position_tolerance: or(e.position_tolerance, d.position_tolerance),
    }
}

/// The application that an `[[apps]]` entry describes.
pub fn build_app_config(entry: TomlAppConfig, defaults: &TomlDefaults) -> (r: AppConfig)
    ensures
        r@ == entry_app(entry, *defaults),
        r.name@ == app_name_of(entry.name@, trim_of(entry.exe@)),
        r.exe@ == trim_of(entry.exe@),
        texts(r.args@) == texts(entry.args@).map_values(|t: Seq<char>| trim_of(t)).filter(
            |t: Seq<char>| t.len() > 0,
        ),
        texts(r.process_names@) == process_names_of(
            texts(entry.process_names@),
            trim_of(entry.exe@),
            seq![],
        ),
        texts(r.class_hints@) == matchers_of(texts(entry.class_hints@)),
        texts(r.title_hints@) == matchers_of(texts(entry.title_hints@)),
        r.placement matches WindowPlacement::Absolute { x, y, width, height } && x == entry.x && y
            == entry.y && width == entry.width && height == entry.height,
        r.wait_timeout == (match entry.wait_timeout_ms {
            Some(v) => v,
            None => defaults.wait_timeout_ms,
        }),
        r.wait_after_launch == (match entry.wait_after_launch_ms {
            Some(v) => v,
            None => defaults.wait_after_launch_ms,
        }),
        r.enforce_interval == (match entry.enforce_interval_ms {
            Some(v) => v,
            None => defaults.enforce_interval_ms,
        }),
        r.stable_confirmations == (match entry.stable_confirmations {
            Some(v) => v,
            None => defaults.stable_confirmations,
        }),
        r.position_tolerance == (match entry.position_tolerance {
            Some(v) => v,
            None => defaults.position_tolerance,
        }),
{
    proof {
        law_kept_arguments(texts(entry.args@));
    }
    let exe = entry.exe.as_str().trim().to_owned();
    let name = infer_app_name(entry.name.as_str(), exe.as_str());
    let none: Vec<&'static str> = Vec::new();
    assert(slice_texts(none@) == Seq::<Seq<char>>::empty());
    let process_names = normalize_process_names(
        entry.process_names,
        exe.as_str(),
        none.as_slice(),
    );
    AppConfig {
        name,
        exe,
        args: trim_args(entry.args),
        process_names,
        class_hints: normalize_matchers(entry.class_hints),
        title_hints: normalize_matchers(entry.title_hints),
        placement: WindowPlacement::Absolute {
            x: entry.x,
            y: entry.y,
            width: entry.width,
            height: entry.height,
        },
        wait_timeout: entry.wait_timeout_ms.unwrap_or(defaults.wait_timeout_ms),
        wait_after_launch: entry.wait_after_launch_ms.unwrap_or(defaults.wait_after_launch_ms),
        enforce_interval: entry.enforce_interval_ms.unwrap_or(defaults.enforce_interval_ms),
        stable_confirmations: entry.stable_confirmations.unwrap_or(defaults.stable_confirmations),
        position_tolerance: entry.position_tolerance.unwrap_or(defaults.position_tolerance),
    }
}

/// The message of a problem with an application.
pub open spec fn app_message(name: Seq<char>, problem: Seq<char>) -> Seq<char> {
    "应用 ["@ + name + problem
}

/// The message of a problem with an application.
pub fn message_for(name: &str, problem: &str) -> (r: String)
    ensures
        r@ == app_message(name@, problem@),
{
    let mut r = "应用 [".to_owned();
    r.append(name);
    r.append(problem);
    r
}

/// The first thing wrong with an application, if anything is.
pub open spec fn problem_with(app: AppModel) -> Option<Seq<char>> {
    let size = placement_size_of(app.placement);
    if trim_of(app.exe).len() == 0 {
        Some(app_message(app.name, "] 的 exe 不能为空"@))
    } else if size.0 <= 0 {
        Some(app_message(app.name, "] 的 width 必须大于 0"@))
    } else if size.1 <= 0 {
        Some(app_message(app.name, "] 的 height 必须大于 0"@))
    } else if app.stable_confirmations == 0 {
        Some(app_message(app.name, "] 的 stable_confirmations 必须大于 0"@))
    } else if app.position_tolerance < 0 {
        Some(app_message(app.name, "] 的 position_tolerance 不能小于 0"@))
    } else if app.enforce_interval == 0 {
        Some(app_message(app.name, "] 的 enforce_interval_ms 不能为 0"@))
    } else if app.wait_timeout == 0 {
        Some(app_message(app.name, "] 的 wait_timeout_ms 不能为 0"@))
    } else {
        None
    }
}

/// The message of an error, if there is one.
pub open spec fn error_text<T>(r: Result<T, String>) -> Option<Seq<char>> {
    match r {
        Ok(_) => None,
        Err(m) => Some(m@),
    }
}

/// Accepts an application, or says the first thing wrong with it.
pub fn validate_app_config(app: &AppConfig) -> (r: Result<(), String>)
    ensures
        error_text(r) == problem_with(app@),
        app.placement matches WindowPlacement::Absolute { width, height, .. } ==> (r is Ok <==> {
            &&& trim_of(app.exe@).len() > 0
            &&& width > 0 && height > 0
            &&& app.stable_confirmations > 0
            &&& app.position_tolerance >= 0
            &&& app.enforce_interval > 0
            &&& app.wait_timeout > 0
        }),
        app.placement matches WindowPlacement::BottomRight { width, height, .. } ==> (r is Ok <==> {
            &&& trim_of(app.exe@).len() > 0
            &&& width > 0 && height > 0
            &&& app.stable_confirmations > 0
            &&& app.position_tolerance >= 0
            &&& app.enforce_interval > 0
            &&& app.wait_timeout > 0
        }),
{
    let name = app.name.as_str();
    if app.exe.as_str().trim().is_empty() {
        return Err(message_for(name, "] 的 exe 不能为空"));
    }
    let (width, height) = placement_size(&app.placement);
    if width <= 0 {
        return Err(message_for(name, "] 的 width 必须大于 0"));
    }
    if height <= 0 {
        return Err(message_for(name, "] 的 height 必须大于 0"));
    }
    if app.stable_confirmations == 0 {
        return Err(message_for(name, "] 的 stable_confirmations 必须大于 0"));
    }
    if app.position_tolerance < 0 {
        return Err(message_for(name, "] 的 position_tolerance 不能小于 0"));
    }
    if app.enforce_interval == 0 {
        return Err(message_for(name, "] 的 enforce_interval_ms 不能为 0"));
    }
    if app.wait_timeout == 0 {
        return Err(message_for(name, "] 的 wait_timeout_ms 不能为 0"));
    }
    Ok(())
}

/// The executable of the single-application form is never blank.
pub proof fn law_legacy_exe_is_not_blank(c: TomlConfig)
    ensures
        trim_of(legacy_app(c).exe).len() > 0,
{
    match c.wow_exe {
        Some(t) => {
            law_trim(t@);
        },
        None => {},
    }
    reveal_strlit("Wow.exe");
    let d = LEGACY_DEFAULT_EXE@;
    assert(d.len() == 7 && !is_space(d[0]) && !is_space(d[6]));
    assert(trim_start(d) == d);
    assert(trim_end(d) == d);
}

/// The single-application form is valid where it leaves the numbers at the standard
/// defaults, whatever its texts are.
pub proof fn law_legacy_app_is_valid(c: TomlConfig)
    requires
        c.defaults == standard_defaults(),
        c.target_width is None,
        c.target_height is None,
        c.wait_timeout_ms is None,
        c.enforce_interval_ms is None,
        c.stable_confirmations is None,
        c.position_tolerance is None,
    ensures
        problem_with(legacy_app(c)) is None,
{
    law_legacy_exe_is_not_blank(c);
}

/// An entry that names an executable and leaves the rest at the standard defaults is
/// valid.
pub proof fn law_standard_entry_is_valid(e: TomlAppConfig)
    requires
        trim_of(e.exe@).len() > 0,
        e.width == DEFAULT_TARGET_WIDTH,
        e.height == DEFAULT_TARGET_HEIGHT,
        e.wait_timeout_ms is None,
        e.enforce_interval_ms is None,
        e.stable_confirmations is None,
        e.position_tolerance is None,
    ensures
        problem_with(entry_app(e, standard_defaults())) is None,
{
    law_trim(e.exe@);
}

/// A valid application asks for a window of positive size, at least one round, and
/// a tolerance that is not negative.
pub proof fn law_valid_app(app: AppModel)
    requires
        problem_with(app) is None,
    ensures
        trim_of(app.exe).len() > 0,
        placement_size_of(app.placement).0 > 0,
        placement_size_of(app.placement).1 > 0,
        app.stable_confirmations > 0,
        app.position_tolerance >= 0,
        app.enforce_interval > 0,
        app.wait_timeout > 0,
{
}

/// The application of an entry has the entry's own place and size, its executable
/// trimmed, its arguments trimmed without the blank ones, its hints in normal form,
/// each in its own list; and each setting is the entry's where that is set, and the
/// file's default where not.
pub proof fn law_entry_becomes_an_application(e: TomlAppConfig, d: TomlDefaults)
    ensures
        ({
            let a = entry_app(e, d);
            &&& a.placement matches WindowPlacement::Absolute { x, y, width, height } && x == e.x
                && y == e.y && width == e.width && height == e.height
            &&& a.exe == trim_of(e.exe@)
            &&& a.name == app_name_of(e.name@, trim_of(e.exe@))
            &&& a.args == texts(e.args@).map_values(|t: Seq<char>| trim_of(t)).filter(
                |t: Seq<char>| t.len() > 0,
            )
            &&& a.process_names == process_names_of(
                texts(e.process_names@),
                trim_of(e.exe@),
                seq![],
            )
            &&& a.class_hints == matchers_of(texts(e.class_hints@))
            &&& a.title_hints == matchers_of(texts(e.title_hints@))
            &&& e.wait_timeout_ms matches Some(v) ==> a.wait_timeout == v
            &&& e.wait_timeout_ms is None ==> a.wait_timeout == d.wait_timeout_ms
            &&& e.wait_after_launch_ms matches Some(v) ==> a.wait_after_launch == v
            &&& e.wait_after_launch_ms is None ==> a.wait_after_launch == d.wait_after_launch_ms
            &&& e.enforce_interval_ms matches Some(v) ==> a.enforce_interval == v
            &&& e.enforce_interval_ms is None ==> a.enforce_interval == d.enforce_interval_ms
            &&& e.stable_confirmations matches Some(v) ==> a.stable_confirmations == v
            &&& e.stable_confirmations is None ==> a.stable_confirmations == d.stable_confirmations
            &&& e.position_tolerance matches Some(v) ==> a.position_tolerance == v
            &&& e.position_tolerance is None ==> a.position_tolerance == d.position_tolerance
        }),
{
    law_kept_arguments(texts(e.args@));
}

/// The application of the single-application form sits at the bottom right.  What
/// the form sets counts; else its executable is `Wow.exe`, started with `-windowed`
/// in a window of 500 by 500 with a margin of 40, and the times, the number of rounds
/// and the tolerance are the file's defaults.
pub proof fn law_legacy_form_becomes_an_application(c: TomlConfig)
    ensures
        ({
            let a = legacy_app(c);
            let args = match c.wow_args {
                Some(v) => texts(v@).map_values(|t: Seq<char>| trim_of(t)).filter(
                    |t: Seq<char>| t.len() > 0,
                ),
                None => seq![],
            };
            &&& c.wow_exe matches Some(t) ==> (trim_of(t@).len() > 0 ==> a.exe == trim_of(t@))
            &&& c.wow_exe matches Some(t) ==> (trim_of(t@).len() == 0 ==> a.exe == "Wow.exe"@)
            &&& c.wow_exe is None ==> a.exe == "Wow.exe"@
            &&& a.name == app_name_of(Seq::empty(), a.exe)
            &&& a.args == (if args.len() > 0 {
                args
            } else {
                seq!["-windowed"@]
            })
            &&& a.process_names == process_names_of(
                match c.process_names {
                    Some(v) => texts(v@),
                    None => seq![],
                },
                a.exe,
                seq![
                    "wow.exe"@,
                    "wow-64.exe"@,
                    "wowclassic.exe"@,
                    "wowclassict.exe"@,
                    "wowclasst.exe"@,
                    "wowb.exe"@,
                ],
            )
            &&& a.class_hints == matchers_with_defaults_of(
                match c.class_hints {
                    Some(v) => texts(v@),
                    None => seq![],
                },
                seq!["GxWindowClass"@],
            )
            &&& a.title_hints == matchers_with_defaults_of(
                match c.title_hints {
                    Some(v) => texts(v@),
                    None => seq![],
                },
                seq!["World of Warcraft"@],
            )
            &&& a.placement matches WindowPlacement::BottomRight { width, height, bottom_margin }
            &&& c.target_width matches Some(v) ==> width == v
            &&& c.target_width is None ==> width == 500
            &&& c.target_height matches Some(v) ==> height == v
            &&& c.target_height is None ==> height == 500
            &&& c.bottom_margin matches Some(v) ==> bottom_margin == v
            &&& c.bottom_margin is None ==> bottom_margin == 40
            &&& c.wait_timeout_ms matches Some(v) ==> a.wait_timeout == v
            &&& c.wait_timeout_ms is None ==> a.wait_timeout == c.defaults.wait_timeout_ms
            &&& c.wait_after_launch_ms matches Some(v) ==> a.wait_after_launch == v
            &&& c.wait_after_launch_ms is None ==> a.wait_after_launch
                == c.defaults.wait_after_launch_ms
            &&& c.enforce_interval_ms matches Some(v) ==> a.enforce_interval == v
            &&& c.enforce_interval_ms is None ==> a.enforce_interval
                == c.defaults.enforce_interval_ms
            &&& c.stable_confirmations matches Some(v) ==> a.stable_confirmations == v
            &&& c.stable_confirmations is None ==> a.stable_confirmations
                == c.defaults.stable_confirmations
            &&& c.position_tolerance matches Some(v) ==> a.position_tolerance == v
            &&& c.position_tolerance is None ==> a.position_tolerance
                == c.defaults.position_tolerance
        }),
{
    reveal_strlit("");
    assert(""@ == Seq::<char>::empty());
    match c.wow_args {
        Some(v) => {
            law_kept_arguments(texts(v@));
        },
        None => {
            law_kept_arguments(seq![]);
            let none = trim_all(Seq::<Seq<char>>::empty());
            assert(none == Seq::<Seq<char>>::empty());
        },
    }
}

/// What a file that sets no defaults gives: a minute to the limit, no wait, rounds
/// 200 milliseconds apart, five of them in a row, and a tolerance of four.
pub proof fn law_standard_defaults()
    ensures
        standard_defaults().wait_timeout_ms == 60_000,
        standard_defaults().wait_after_launch_ms == 0,
        standard_defaults().enforce_interval_ms == 200,
        standard_defaults().stable_confirmations == 5,
        standard_defaults().position_tolerance == 4,
        DEFAULT_TARGET_X == 100,
        DEFAULT_TARGET_Y == 100,
        DEFAULT_TARGET_WIDTH == 500,
        DEFAULT_TARGET_HEIGHT == 500,
        DEFAULT_BOTTOM_MARGIN == 40,
{
}

/// The single-application form is there as soon as one of its fields is set.
pub proof fn law_any_field_makes_the_form(c: TomlConfig)
    ensures
        !has_legacy(c) <==> {
            &&& c.wow_exe is None && c.wow_args is None && c.process_names is None
            &&& c.class_hints is None && c.title_hints is None
            &&& c.target_width is None && c.target_height is None && c.bottom_margin is None
            &&& c.wait_timeout_ms is None && c.wait_after_launch_ms is None
            &&& c.enforce_interval_ms is None && c.stable_confirmations is None
            &&& c.position_tolerance is None
        },
{
}

/// Nothing is wrong with an application exactly where its executable is not blank,
/// its size, its rounds, its interval and its limit are above zero, and its tolerance
/// is not below.  Else the message names the application and the first thing wrong.
pub proof fn law_problems_with_an_application(a: AppModel)
    ensures
        ({
            let size = match a.placement {
                WindowPlacement::Absolute { width, height, .. } => (width, height),
                WindowPlacement::BottomRight { width, height, .. } => (width, height),
            };
            let start = "应用 ["@ + a.name;
            let exe = trim_of(a.exe).len() > 0;
            let width = size.0 > 0;
            let height = size.1 > 0;
            let rounds = a.stable_confirmations > 0;
            let tolerance = a.position_tolerance >= 0;
            let interval = a.enforce_interval > 0;
            let limit = a.wait_timeout > 0;
            &&& problem_with(a) is None <==> exe && width && height && rounds && tolerance
                && interval && limit
            &&& !exe ==> problem_with(a) == Some(start + "] 的 exe 不能为空"@)
            &&& exe && !width ==> problem_with(a) == Some(start + "] 的 width 必须大于 0"@)
            &&& exe && width && !height ==> problem_with(a) == Some(
                start + "] 的 height 必须大于 0"@,
            )
            &&& exe && width && height && !rounds ==> problem_with(a) == Some(
                start + "] 的 stable_confirmations 必须大于 0"@,
            )
            &&& exe && width && height && rounds && !tolerance ==> problem_with(a) == Some(
                start + "] 的 position_tolerance 不能小于 0"@,
            )
            &&& exe && width && height && rounds && tolerance && !interval ==> problem_with(a)
                == Some(start + "] 的 enforce_interval_ms 不能为 0"@)
            &&& exe && width && height && rounds && tolerance && interval && !limit
                ==> problem_with(a) == Some(start + "] 的 wait_timeout_ms 不能为 0"@)
        }),
{
}

/// An application stands for what its fields hold, each under its own name.
pub proof fn law_fields_of_an_application(a: AppConfig)
    ensures
        a@.name == a.name@,
        a@.exe == a.exe@,
        a@.args == texts(a.args@),
        a@.process_names == texts(a.process_names@),
        a@.class_hints == texts(a.class_hints@),
        a@.title_hints == texts(a.title_hints@),
        a@.placement == a.placement,
        a@.wait_timeout == a.wait_timeout,
        a@.wait_after_launch == a.wait_after_launch,
        a@.enforce_interval == a.enforce_interval,
        a@.stable_confirmations == a.stable_confirmations,
        a@.position_tolerance == a.position_tolerance,
{
}

} // verus!
