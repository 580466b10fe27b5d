//! From the contents of a configuration file to the applications to launch.

use vstd::prelude::*;

use crate::config::{
    build_app_config, build_legacy_app, entry_app, error_text, has_legacy, legacy_app,
    problem_with, validate_app_config, AppConfig, AppModel, TomlAppConfig, TomlConfig,
    TomlDefaults,
};

verus! {

/// The applications to launch.
#[derive(Clone)]
pub struct LaunchConfig {
    pub apps: Vec<AppConfig>,
}

/// What a list of applications stands for.
pub open spec fn apps_view(v: Seq<AppConfig>) -> Seq<AppModel> {
    v.map_values(|a: AppConfig| a@)
}

/// What came of reading a configuration file.
pub enum FileOutcome {
    /// It is not there.
    Missing,
    /// It is there and cannot be accessed.
    Inaccessible,
    /// It cannot be read; the system's word on it.
    Unreadable(String),
    /// It is not a valid configuration; the parser's word on it.
    Unparsable(String),
    /// What it holds.
    Parsed(TomlConfig),
}

/// Where the configuration comes from.
pub enum ConfigSource {
    /// None was there; a default one was put in place, or that failed.
    Created(Result<String, String>),
    /// The path of a file, and what came of reading it.
    Found(String, FileOutcome),
}

/// The applications of the entries that are enabled, in order.
pub open spec fn enabled_apps(entries: Seq<TomlAppConfig>, d: TomlDefaults) -> Seq<AppModel>
    decreases entries.len(),
{
    if entries.len() == 0 {
        seq![]
    } else {
        let front = enabled_apps(entries.drop_last(), d);
        if entries.last().enabled {
            front.push(entry_app(entries.last(), d))
        } else {
            front
        }
    }
}

/// The first thing wrong with the first application that has something wrong.
pub open spec fn first_problem(apps: Seq<AppModel>) -> Option<Seq<char>>
    decreases apps.len(),
{
    if apps.len() == 0 {
        None
    } else {
        match problem_with(apps[0]) {
            Some(m) => Some(m),
            None => first_problem(apps.drop_first()),
        }
    }
}

/// The applications that a configuration names: those of its `[[apps]]` entries; if
/// it has no entry, that of the single-application form; else the reason why there
/// are none.
pub open spec fn named_apps(c: TomlConfig, path: Seq<char>) -> Result<Seq<AppModel>, Seq<char>> {
    if c.apps@.len() > 0 {
        let apps = enabled_apps(c.apps@, c.defaults);
        if apps.len() == 0 {
            Err("配置文件中的所有 [[apps]] 都被禁用了，没有可启动项"@)
        } else {
            Ok(apps)
        }
    } else if has_legacy(c) {
        Ok(seq![legacy_app(c)])
    } else {
        Err("配置文件中没有可启动的应用，请添加 [[apps]] 条目 ("@ + path + ")"@)
    }
}

/// The applications to launch, if a configuration names some and nothing is wrong
/// with any of them.
pub open spec fn valid_apps(c: TomlConfig, path: Seq<char>) -> Result<Seq<AppModel>, Seq<char>> {
    match named_apps(c, path) {
        Err(m) => Err(m),
        Ok(apps) => match first_problem(apps) {
            Some(m) => Err(m),
            None => Ok(apps),
        },
    }
}

/// The applications to launch and the path of the configuration, or the reason why
/// there is nothing to launch.
pub open spec fn loaded(source: ConfigSource) -> Result<(Seq<AppModel>, Seq<char>), Seq<char>> {
    match source {
        ConfigSource::Created(Err(m)) => Err(m@),
        ConfigSource::Created(Ok(path)) => Err(
            "未找到配置文件，已生成默认配置: "@ + path@ + "。请先按需修改配置后再运行。"@,
        ),
        ConfigSource::Found(path, outcome) => match outcome {
            FileOutcome::Missing => Err("配置文件路径不存在: "@ + path@),
            FileOutcome::Inaccessible => Err("无法访问配置文件: "@ + path@),
            FileOutcome::Unreadable(cause) => Err(
                "读取配置文件失败 ("@ + path@ + "): "@ + cause@,
            ),
            FileOutcome::Unparsable(cause) => Err(
                "解析 TOML 配置失败 ("@ + path@ + "): "@ + cause@,
            ),
            FileOutcome::Parsed(c) => match valid_apps(c, path@) {
                Ok(apps) => Ok((apps, path@)),
                Err(m) => Err(m),
            },
        },
    }
}

/// What a result of `load_config` stands for.
pub open spec fn load_view(r: Result<(LaunchConfig, String), String>) -> Result<
    (Seq<AppModel>, Seq<char>),
    Seq<char>,
> {
    match r {
        Ok((config, path)) => Ok((apps_view(config.apps@), path@)),
        Err(m) => Err(m@),
    }
}

/// What a result with an error message stands for.
pub open spec fn apps_result_view(r: Result<Vec<AppConfig>, String>) -> Result<
    Seq<AppModel>,
    Seq<char>,
> {
    match r {
        Ok(apps) => Ok(apps_view(apps@)),
        Err(m) => Err(m@),
    }
}

/// The applications of the entries that are enabled, in order.
fn build_enabled(entries: Vec<TomlAppConfig>, defaults: &TomlDefaults) -> (r: Vec<AppConfig>)
    ensures
        apps_view(r@) == enabled_apps(entries@, *defaults),
{
    let ghost all = entries@;
    let mut rest = entries;
    let mut r: Vec<AppConfig> = Vec::new();
    let n = rest.len();
    let mut i: usize = 0;
    assert(all.take(0) == Seq::<TomlAppConfig>::empty());
    assert(apps_view(r@) == Seq::<AppModel>::empty());
    while i < n
        invariant
            i <= n,
            all.len() == n,
            rest@ == all.skip(i as int),
            apps_view(r@) == enabled_apps(all.take(i as int), *defaults),
        decreases n - i,
    {
        let ghost before = apps_view(r@);
        let entry = rest.remove(0);
        proof {
            assert(entry == all[i as int]);
            assert(rest@ == all.skip(i + 1));
            assert(all.take(i + 1).drop_last() == all.take(i as int));
            assert(all.take(i + 1).last() == entry);
        }
        if entry.enabled {
            let app = build_app_config(entry, defaults);
            r.push(app);
            assert(apps_view(r@) == before.push(app@));
        }
        i += 1;
    }
    assert(all.take(all.len() as int) == all);
    r
}

/// The first thing wrong with the first application that has something wrong.
fn find_problem(apps: &Vec<AppConfig>) -> (r: Result<(), String>)
    ensures
        error_text(r) == first_problem(apps_view(apps@)),
{
    let ghost all = apps_view(apps@);
    let mut i: usize = 0;
    assert(all.skip(0) == all);
    while i < apps.len()
        invariant
            i <= apps.len(),
            all == apps_view(apps@),
            first_problem(all) == first_problem(all.skip(i as int)),
        decreases apps.len() - i,
    {
        proof {
            assert(all.skip(i as int)[0] == apps@[i as int]@);
            assert(all.skip(i as int).drop_first() == all.skip(i + 1));
        }
        match validate_app_config(&apps[i]) {
            Ok(_) => {},
            Err(m) => {
                return Err(m);
            },
        }
        i += 1;
    }
    Ok(())
}

/// The applications to launch, if a configuration names some and nothing is wrong
/// with any of them.
pub fn build_apps(file_config: TomlConfig, config_path: &str) -> (r: Result<
    Vec<AppConfig>,
    String,
>)
    ensures
        apps_result_view(r) == valid_apps(file_config, config_path@),
{
    let apps: Vec<AppConfig>;
    if file_config.apps.len() > 0 {
        apps = build_enabled(file_config.apps, &file_config.defaults);
        assert(apps_view(apps@).len() == apps.len());
        if apps.len() == 0 {
            return Err("配置文件中的所有 [[apps]] 都被禁用了，没有可启动项".to_owned());
        }
    } else if file_config.has_legacy_fields() {
        let mut one: Vec<AppConfig> = Vec::new();
        one.push(build_legacy_app(&file_config));
        assert(apps_view(one@) == seq![legacy_app(file_config)]);
        apps = one;
    } else {
        let mut m = "配置文件中没有可启动的应用，请添加 [[apps]] 条目 (".to_owned();
        m.append(config_path);
        m.append(")");
        return Err(m);
    }
    match find_problem(&apps) {
        Ok(_) => Ok(apps),
        Err(m) => Err(m),
    }
}

/// A message about a path, with the cause behind it.
fn path_message(start: &str, path: &str, middle: &str, end: &str) -> (r: String)
    ensures
        r@ == start@ + path@ + middle@ + end@,
{
    let mut r = start.to_owned();
    r.append(path);
    r.append(middle);
    r.append(end);
    r
}

/// The applications to launch and the path of the configuration, or the reason why
/// there is nothing to launch.
pub fn load_config(source: ConfigSource) -> (r: Result<(LaunchConfig, String), String>)
    ensures
        load_view(r) == loaded(source),
        r matches Ok((config, path)) ==> config.apps@.len() > 0 && (
        source matches ConfigSource::Found(given, FileOutcome::Parsed(_)) && path@ == given@),
{
    proof {
        law_loaded_apps_are_valid(source);
    }
    match source {
        ConfigSource::Created(Err(m)) => Err(m),
        ConfigSource::Created(Ok(path)) => {
            let mut m = "未找到配置文件，已生成默认配置: ".to_owned();
            m.append(path.as_str());
            m.append("。请先按需修改配置后再运行。");
            Err(m)
        },
        ConfigSource::Found(path, outcome) => match outcome {
            FileOutcome::Missing => {
                let mut m = "配置文件路径不存在: ".to_owned();
                m.append(path.as_str());
                Err(m)
            },
            FileOutcome::Inaccessible => {
                let mut m = "无法访问配置文件: ".to_owned();
                m.append(path.as_str());
                Err(m)
            },
            FileOutcome::Unreadable(cause) => Err(
                path_message("读取配置文件失败 (", path.as_str(), "): ", cause.as_str()),
            ),
            FileOutcome::Unparsable(cause) => Err(
                path_message("解析 TOML 配置失败 (", path.as_str(), "): ", cause.as_str()),
            ),
            FileOutcome::Parsed(c) => match build_apps(c, path.as_str()) {
                Ok(apps) => Ok((LaunchConfig { apps }, path)),
                Err(m) => Err(m),
            },
        },
    }
}

proof fn lemma_no_problem(apps: Seq<AppModel>)
    ensures
        first_problem(apps) is None <==> forall|i: int|
            0 <= i < apps.len() ==> problem_with(#[trigger] apps[i]) is None,
    decreases apps.len(),
{
    if apps.len() > 0 {
        let rest = apps.drop_first();
        lemma_no_problem(rest);
        if first_problem(apps) is None {
            assert forall|i: int| 0 <= i < apps.len() implies problem_with(
                #[trigger] apps[i],
            ) is None by {
                if i > 0 {
                    assert(rest[i - 1] == apps[i]);
                }
            }
        } else if problem_with(apps[0]) is None {
            let j = choose|j: int| 0 <= j < rest.len() && problem_with(#[trigger] rest[j]) is Some;
            assert(apps[j + 1] == rest[j]);
        }
    }
}

/// Whatever is loaded has at least one application, and nothing is wrong with any.
pub proof fn law_loaded_apps_are_valid(source: ConfigSource)
    ensures
        loaded(source) matches Ok((apps, _)) ==> apps.len() > 0 && forall|i: int|
            0 <= i < apps.len() ==> problem_with(#[trigger] apps[i]) is None,
{
    if let Ok((apps, _)) = loaded(source) {
        lemma_no_problem(apps);
    }
}

/// One invalid application keeps all of them from being launched.
pub proof fn law_one_problem_stops_all(c: TomlConfig, path: Seq<char>, i: int)
    ensures
        named_apps(c, path) matches Ok(apps) ==> (0 <= i < apps.len() && problem_with(
            apps[i],
        ) is Some ==> valid_apps(c, path) is Err),
{
    if let Ok(apps) = named_apps(c, path) {
        lemma_no_problem(apps);
    }
}

/// Where there are `[[apps]]` entries, the fields of the single-application form
/// have no influence.
pub proof fn law_entries_take_precedence(a: TomlConfig, b: TomlConfig, path: Seq<char>)
    requires
        a.apps@.len() > 0,
        a.apps == b.apps,
        a.defaults == b.defaults,
    ensures
        valid_apps(a, path) == valid_apps(b, path),
{
}

/// Disabled entries have no influence: without them the same applications come of
/// the rest, in the same order.
pub proof fn law_disabled_entries_are_skipped(
    before: Seq<TomlAppConfig>,
    entry: TomlAppConfig,
    after: Seq<TomlAppConfig>,
    d: TomlDefaults,
)
    requires
        !entry.enabled,
    ensures
        enabled_apps(before + seq![entry] + after, d) == enabled_apps(before + after, d),
    decreases after.len(),
{
    let with = before + seq![entry] + after;
    let without = before + after;
    if after.len() == 0 {
        assert(with.drop_last() == before);
        assert(without == before);
    } else {
        law_disabled_entries_are_skipped(before, entry, after.drop_last(), d);
        assert(with.drop_last() == before + seq![entry] + after.drop_last());
        assert(without.drop_last() == before + after.drop_last());
    }
}

/// The applications come in the order of their entries.
pub proof fn law_entry_order_is_kept(
    first: Seq<TomlAppConfig>,
    second: Seq<TomlAppConfig>,
    d: TomlDefaults,
)
    ensures
        enabled_apps(first + second, d) == enabled_apps(first, d) + enabled_apps(second, d),
    decreases second.len(),
{
    let all = first + second;
    if second.len() == 0 {
        assert(all == first);
        assert(enabled_apps(first, d) + enabled_apps(second, d) == enabled_apps(first, d));
    } else {
        law_entry_order_is_kept(first, second.drop_last(), d);
        assert(all.drop_last() == first + second.drop_last());
        let front = enabled_apps(second.drop_last(), d);
        let app = entry_app(second.last(), d);
        assert(enabled_apps(first, d) + front.push(app) == (enabled_apps(first, d) + front).push(
            app,
        ));
    }
}

proof fn lemma_enabled_filters(entries: Seq<TomlAppConfig>, d: TomlDefaults)
    ensures
        enabled_apps(entries, d) == entries.filter(|e: TomlAppConfig| e.enabled).map_values(
            |e: TomlAppConfig| entry_app(e, d),
        ),
    decreases entries.len(),
{
    reveal(Seq::filter);
    if entries.len() > 0 {
        lemma_enabled_filters(entries.drop_last(), d);
    }
    assert(enabled_apps(entries, d) == entries.filter(|e: TomlAppConfig| e.enabled).map_values(
        |e: TomlAppConfig| entry_app(e, d),
    ));
}

/// The applications of a list of entries are those of the enabled ones, in their
/// order, and no others.
pub proof fn law_enabled_entries_are_the_applications(entries: Seq<TomlAppConfig>, d: TomlDefaults)
    ensures
        enabled_apps(entries, d) == entries.filter(|e: TomlAppConfig| e.enabled).map_values(
            |e: TomlAppConfig| entry_app(e, d),
        ),
{
    lemma_enabled_filters(entries, d);
}

proof fn lemma_first_problem(apps: Seq<AppModel>)
    ensures
        first_problem(apps) matches Some(m) ==> exists|i: int|
            0 <= i < apps.len() && problem_with(#[trigger] apps[i]) == Some(m) && forall|j: int|
                0 <= j < i ==> problem_with(#[trigger] apps[j]) is None,
    decreases apps.len(),
{
    if apps.len() > 0 && problem_with(apps[0]) is None {
        let rest = apps.drop_first();
        lemma_first_problem(rest);
        if let Some(m) = first_problem(apps) {
            let i = choose|i: int|
                0 <= i < rest.len() && problem_with(#[trigger] rest[i]) == Some(m) && forall|j: int|
                    0 <= j < i ==> problem_with(#[trigger] rest[j]) is None;
            assert(problem_with(apps[i + 1]) == Some(m));
            assert forall|j: int| 0 <= j < i + 1 implies problem_with(#[trigger] apps[j]) is None by {
                if j > 0 {
                    assert(rest[j - 1] == apps[j]);
                }
            }
        }
    } else if apps.len() > 0 {
        assert(problem_with(apps[0]) == first_problem(apps));
    }
}

/// What a configuration with entries gives: the applications of its enabled entries
/// where there are some and nothing is wrong with any; the message on the first one
/// with something wrong; or the message that all are disabled.
pub proof fn law_entries_are_loaded(path: String, c: TomlConfig)
    requires
        c.apps@.len() > 0,
    ensures
        ({
            let apps = c.apps@.filter(|e: TomlAppConfig| e.enabled).map_values(
                |e: TomlAppConfig| entry_app(e, c.defaults),
            );
            let r = loaded(ConfigSource::Found(path, FileOutcome::Parsed(c)));
            let good = forall|i: int| 0 <= i < apps.len() ==> problem_with(#[trigger] apps[i]) is None;
            &&& apps.len() == 0 ==> r == Err::<(Seq<AppModel>, Seq<char>), Seq<char>>(
                "配置文件中的所有 [[apps]] 都被禁用了，没有可启动项"@,
            )
            &&& apps.len() > 0 && good ==> r == Ok::<(Seq<AppModel>, Seq<char>), Seq<char>>(
                (apps, path@),
            )
            &&& apps.len() > 0 && !good ==> (r matches Err(m) && exists|i: int|
                0 <= i < apps.len() && problem_with(#[trigger] apps[i]) == Some(m) && forall|j: int|
                    0 <= j < i ==> problem_with(#[trigger] apps[j]) is None)
        }),
{
    lemma_enabled_filters(c.apps@, c.defaults);
    let apps = enabled_apps(c.apps@, c.defaults);
    lemma_no_problem(apps);
    lemma_first_problem(apps);
}

/// What a configuration without entries gives: the application of the
/// single-application form where a field of that is set and nothing is wrong with it;
/// the message on what is wrong; or the message that there is nothing to launch.
pub proof fn law_form_is_loaded(path: String, c: TomlConfig)
    requires
        c.apps@.len() == 0,
    ensures
        ({
            let r = loaded(ConfigSource::Found(path, FileOutcome::Parsed(c)));
            let app = legacy_app(c);
            &&& !has_legacy(c) ==> r == Err::<(Seq<AppModel>, Seq<char>), Seq<char>>(
                "配置文件中没有可启动的应用，请添加 [[apps]] 条目 ("@ + path@ + ")"@,
            )
            &&& has_legacy(c) && problem_with(app) is None ==> r == Ok::<
                (Seq<AppModel>, Seq<char>),
                Seq<char>,
            >((seq![app], path@))
            &&& has_legacy(c) ==> (problem_with(app) matches Some(m) ==> r == Err::<
                (Seq<AppModel>, Seq<char>),
                Seq<char>,
            >(m))
        }),
{
    let one = seq![legacy_app(c)];
    reveal_with_fuel(first_problem, 2);
    assert(one[0] == legacy_app(c));
    assert(one.drop_first().len() == 0);
}

/// Where no configuration could be had, nothing is loaded, and the message says why
/// and names the file.
pub proof fn law_trouble_with_the_file(path: String, cause: String)
    ensures
        loaded(ConfigSource::Created(Err(cause))) == Err::<(Seq<AppModel>, Seq<char>), Seq<char>>(
            cause@,
        ),
        loaded(ConfigSource::Created(Ok(path))) == Err::<(Seq<AppModel>, Seq<char>), Seq<char>>(
            "未找到配置文件，已生成默认配置: "@ + path@ + "。请先按需修改配置后再运行。"@,
        ),
        loaded(ConfigSource::Found(path, FileOutcome::Missing)) == Err::<
            (Seq<AppModel>, Seq<char>),
            Seq<char>,
        >("配置文件路径不存在: "@ + path@),
        loaded(ConfigSource::Found(path, FileOutcome::Inaccessible)) == Err::<
            (Seq<AppModel>, Seq<char>),
            Seq<char>,
        >("无法访问配置文件: "@ + path@),
        loaded(ConfigSource::Found(path, FileOutcome::Unreadable(cause))) == Err::<
            (Seq<AppModel>, Seq<char>),
            Seq<char>,
        >("读取配置文件失败 ("@ + path@ + "): "@ + cause@),
        loaded(ConfigSource::Found(path, FileOutcome::Unparsable(cause))) == Err::<
            (Seq<AppModel>, Seq<char>),
            Seq<char>,
        >("解析 TOML 配置失败 ("@ + path@ + "): "@ + cause@),
{
}

/// What was loaded stands for its applications, one for each, in order, and the path;
/// or for the message.
pub proof fn law_result_of_loading(config: LaunchConfig, path: String, message: String)
    ensures
        load_view(Err(message)) == Err::<(Seq<AppModel>, Seq<char>), Seq<char>>(message@),
        load_view(Ok((config, path))) matches Ok((apps, p)) && p == path@ && apps.len()
            == config.apps@.len() && forall|i: int|
            0 <= i < apps.len() ==> #[trigger] apps[i] == config.apps@[i]@,
{
}

} // verus!
