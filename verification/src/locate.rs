//! Where the configuration file is looked for, and where a default one is put.

use vstd::hash_set::StringHashSet;
use vstd::prelude::*;

use crate::names::{lower_all, slice_texts};
use crate::text::{lower, opt_text, texts, trim_of};
use crate::winpath::{join, joined, parent, parent_of};

verus! {

/// The file names of a configuration.
pub open spec fn config_file_names() -> Seq<Seq<char>> {
    seq!["launch_apps.toml"@, "launch_wow.toml"@]
}

/// The file names of a configuration.
pub fn config_file_name_list() -> (r: Vec<&'static str>)
    ensures
        slice_texts(r@) == config_file_names(),
        r@.len() == 2,
        r@[0]@ == "launch_apps.toml"@,
        r@[1]@ == "launch_wow.toml"@,
{
    let r: Vec<&'static str> = vec!["launch_apps.toml", "launch_wow.toml"];
    assert(slice_texts(r@) == config_file_names());
    r
}

/// The environment variables that may name a configuration file.
pub open spec fn config_env_vars() -> Seq<Seq<char>> {
    seq!["LAUNCH_APPS_CONFIG"@, "LAUNCH_WOW_CONFIG"@]
}

/// The environment variables that may name a configuration file.
pub fn config_env_var_list() -> (r: Vec<&'static str>)
    ensures
        slice_texts(r@) == config_env_vars(),
        r@.len() == 2,
        r@[0]@ == "LAUNCH_APPS_CONFIG"@,
        r@[1]@ == "LAUNCH_WOW_CONFIG"@,
{
    let r: Vec<&'static str> = vec!["LAUNCH_APPS_CONFIG", "LAUNCH_WOW_CONFIG"];
    assert(slice_texts(r@) == config_env_vars());
    r
}

/// Of paths with equal keys, the first one; the order stays.
pub open spec fn first_of_each(paths: Seq<Seq<char>>, keys: Seq<Seq<char>>) -> Seq<Seq<char>>
    decreases paths.len(),
{
    if paths.len() == 0 {
        seq![]
    } else {
        let front = first_of_each(paths.drop_last(), keys.drop_last());
        if keys.drop_last().contains(keys.last()) {
            front
        } else {
            front.push(paths.last())
        }
    }
}

/// The paths without those that differ from an earlier one in case alone.
pub open spec fn dedup_of(paths: Seq<Seq<char>>) -> Seq<Seq<char>> {
    first_of_each(paths, lower_all(paths))
}

/// Of paths with equal keys, the first one; the order stays.
pub fn keep_first_of_each(paths: &Vec<String>, keys: &Vec<String>) -> (r: Vec<String>)
    requires
        paths.len() == keys.len(),
    ensures
        texts(r@) == first_of_each(texts(paths@), texts(keys@)),
{
    let ghost p = texts(paths@);
    let ghost k = texts(keys@);
    let mut seen = StringHashSet::new();
    let mut r: Vec<String> = Vec::new();
    let mut i: usize = 0;
    assert(texts(r@) == Seq::<Seq<char>>::empty());
    assert(k.take(0).to_set() == Set::<Seq<char>>::empty());
    while i < paths.len()
        invariant
            i <= paths.len(),
            paths.len() == keys.len(),
            p == texts(paths@),
            k == texts(keys@),
            seen@ == k.take(i as int).to_set(),
            texts(r@) == first_of_each(p.take(i as int), k.take(i as int)),
        decreases paths.len() - i,
    {
        let ghost before = texts(r@);
        let ghost done = k.take(i as int);
        proof {
            assert(p.take(i + 1).drop_last() == p.take(i as int));
            assert(k.take(i + 1).drop_last() == done);
            assert(p.take(i + 1).last() == paths@[i as int]@);
            assert(k.take(i + 1).last() == keys@[i as int]@);
            assert(k.take(i + 1) == done.push(keys@[i as int]@));
            assert(done.push(keys@[i as int]@).to_set() == done.to_set().insert(keys@[i as int]@))
                by {
                broadcast use vstd::seq_lib::group_seq_properties;

            }
        }
        if seen.insert(keys[i].clone()) {
            r.push(paths[i].clone());
            assert(texts(r@) == before.push(paths@[i as int]@));
        }
        i += 1;
    }
    assert(p.take(p.len() as int) == p);
    assert(k.take(k.len() as int) == k);
    r
}

/// The paths without those that differ from an earlier one in case alone.
pub fn dedup_paths(paths: Vec<String>) -> (r: Vec<String>)
    ensures
        texts(r@) == dedup_of(texts(paths@)),
{
    let mut keys: Vec<String> = Vec::new();
    let mut i: usize = 0;
    while i < paths.len()
        invariant
            i <= paths.len(),
            keys.len() == i,
            forall|k: int| 0 <= k < i ==> (#[trigger] keys@[k])@ == lower(paths@[k]@),
        decreases paths.len() - i,
    {
        keys.push(paths[i].as_str().to_lowercase());
        i += 1;
    }
    assert(texts(keys@) == lower_all(texts(paths@)));
    keep_first_of_each(&paths, &keys)
}

/// The paths that the values of environment variables name: each value that is set
/// and not blank, trimmed.
pub open spec fn env_paths(values: Seq<Option<String>>) -> Seq<Seq<char>>
    decreases values.len(),
{
    if values.len() == 0 {
        seq![]
    } else {
        let front = env_paths(values.drop_last());
        match values.last() {
            Some(v) => if trim_of(v@).len() > 0 {
                front.push(trim_of(v@))
            } else {
                front
            },
            None => front,
        }
    }
}

/// The directory of the running program, if its path is known and has one.
pub open spec fn program_dir(program: Option<Seq<char>>) -> Option<Seq<char>> {
    match program {
        Some(path) => parent_of(path),
        None => None,
    }
}

/// The file names in a directory, if it is known.
pub open spec fn in_dir(dir: Option<Seq<char>>, names: Seq<Seq<char>>) -> Seq<Seq<char>> {
    match dir {
        Some(d) => names.map_values(|n: Seq<char>| joined(d, n)),
        None => seq![],
    }
}

/// The places for files with the names, in the order in which they count: what the
/// environment names, then the program's directory, the working directory, and the
/// bare names.
pub open spec fn places(
    values: Seq<Option<String>>,
    program: Option<Seq<char>>,
    working_dir: Option<Seq<char>>,
    names: Seq<Seq<char>>,
) -> Seq<Seq<char>> {
    env_paths(values) + in_dir(program_dir(program), names) + in_dir(working_dir, names) + names
}

fn add_env_paths(out: &mut Vec<String>, values: &Vec<Option<String>>)
    ensures
        texts(final(out)@) == texts(old(out)@) + env_paths(values@),
{
    let ghost start = texts(out@);
    let mut i: usize = 0;
    assert(values@.take(0) == Seq::<Option<String>>::empty());
    assert(start + env_paths(values@.take(0)) == start);
    while i < values.len()
        invariant
            i <= values.len(),
            texts(out@) == start + env_paths(values@.take(i as int)),
        decreases values.len() - i,
    {
        let ghost before = texts(out@);
        let ghost done = env_paths(values@.take(i as int));
        proof {
            assert(values@.take(i + 1).drop_last() == values@.take(i as int));
            assert(values@.take(i + 1).last() == values@[i as int]);
        }
        match &values[i] {
            Some(v) => {
                let trimmed = v.as_str().trim();
                if !trimmed.is_empty() {
                    out.push(trimmed.to_owned());
                    assert(texts(out@) == before.push(trimmed@));
                    assert(before.push(trimmed@) == start + done.push(trimmed@));
                }
            },
            None => {},
        }
        i += 1;
    }
    assert(values@.take(values@.len() as int) == values@);
}

fn add_in_dir(out: &mut Vec<String>, dir: &Option<String>, names: &Vec<&str>)
    ensures
        texts(final(out)@) == texts(old(out)@) + in_dir(opt_text(*dir), slice_texts(names@)),
{
    let ghost start = texts(out@);
    match dir {
        Some(d) => {
            let ghost all = slice_texts(names@).map_values(|n: Seq<char>| joined(d@, n));
            let mut i: usize = 0;
            assert(start + all.take(0) == start);
            while i < names.len()
                invariant
                    i <= names.len(),
                    all == slice_texts(names@).map_values(|n: Seq<char>| joined(d@, n)),
                    texts(out@) == start + all.take(i as int),
                decreases names.len() - i,
            {
                let ghost before = texts(out@);
                let path = join(d.as_str(), names[i]);
                proof {
                    assert(all[i as int] == path@);
                    assert(all.take(i + 1) == all.take(i as int).push(path@));
                    assert(start + all.take(i + 1) == before.push(path@));
                }
                out.push(path);
                assert(texts(out@) == before.push(path@));
                i += 1;
            }
            assert(all.take(all.len() as int) == all);
        },
        None => {
            assert(start + Seq::<Seq<char>>::empty() == start);
        },
    }
}

fn all_places(
    values: &Vec<Option<String>>,
    program: &Option<String>,
    working_dir: &Option<String>,
    names: &Vec<&str>,
) -> (r: Vec<String>)
    ensures
        texts(r@) == places(values@, opt_text(*program), opt_text(*working_dir), slice_texts(names@)),
{
    let mut r: Vec<String> = Vec::new();
    assert(texts(r@) == Seq::<Seq<char>>::empty());
    add_env_paths(&mut r, values);
    assert(Seq::<Seq<char>>::empty() + env_paths(values@) == env_paths(values@));
    let dir: Option<String> = match program {
        Some(path) => parent(path.as_str()),
        None => None,
    };
    assert(opt_text(dir) == program_dir(opt_text(*program)));
    add_in_dir(&mut r, &dir, names);
    add_in_dir(&mut r, working_dir, names);
    let ghost start = texts(r@);
    let ghost all = slice_texts(names@);
    let mut i: usize = 0;
    assert(start + all.take(0) == start);
    while i < names.len()
        invariant
            i <= names.len(),
            all == slice_texts(names@),
            texts(r@) == start + all.take(i as int),
        decreases names.len() - i,
    {
        let ghost before = texts(r@);
        proof {
            assert(all.take(i + 1) == all.take(i as int).push(names@[i as int]@));
            assert(start + all.take(i + 1) == before.push(names@[i as int]@));
        }
        r.push(names[i].to_owned());
        assert(texts(r@) == before.push(names@[i as int]@));
        i += 1;
    }
    assert(all.take(all.len() as int) == all);
    r
}

/// Where a configuration file is looked for, first place first.
pub open spec fn candidates_of(
    values: Seq<Option<String>>,
    program: Option<Seq<char>>,
    working_dir: Option<Seq<char>>,
) -> Seq<Seq<char>> {
    dedup_of(places(values, program, working_dir, config_file_names()))
}

/// Where a configuration file is looked for, first place first.  `values` are those
/// of the environment variables, `program` is the path of the running program.
pub fn config_candidates(
    values: &Vec<Option<String>>,
    program: &Option<String>,
    working_dir: &Option<String>,
) -> (r: Vec<String>)
    ensures
        texts(r@) == candidates_of(values@, opt_text(*program), opt_text(*working_dir)),
{
    dedup_paths(all_places(values, program, working_dir, &config_file_name_list()))
}

/// Where a default configuration file may be put, first choice first.
pub open spec fn targets_of(
    values: Seq<Option<String>>,
    program: Option<Seq<char>>,
    working_dir: Option<Seq<char>>,
) -> Seq<Seq<char>> {
    dedup_of(places(values, program, working_dir, seq![config_file_names()[0]]))
}

/// Where a default configuration file may be put, first choice first.
pub fn default_config_targets(
    values: &Vec<Option<String>>,
    program: &Option<String>,
    working_dir: &Option<String>,
) -> (r: Vec<String>)
    ensures
        texts(r@) == targets_of(values@, opt_text(*program), opt_text(*working_dir)),
{
    let all = config_file_name_list();
    assert(slice_texts(all@).len() == all.len());
    let mut first: Vec<&str> = Vec::new();
    first.push(all[0]);
    assert(slice_texts(all@)[0] == all@[0]@);
    assert(slice_texts(first@) == seq![config_file_names()[0]]);
    dedup_paths(all_places(values, program, working_dir, &first))
}

/// The first path that exists, of paths marked with whether they do.
pub fn find_existing_config(candidates: &Vec<(String, bool)>) -> (r: Option<String>)
    ensures
        match r {
            Some(path) => exists|i: int|
                0 <= i < candidates@.len() && (#[trigger] candidates@[i]).1 && candidates@[i].0@
                    == path@ && forall|j: int| 0 <= j < i ==> !(#[trigger] candidates@[j]).1,
            None => forall|j: int| 0 <= j < candidates@.len() ==> !(#[trigger] candidates@[j]).1,
        },
{
    let mut i: usize = 0;
    while i < candidates.len()
        invariant
            i <= candidates.len(),
            forall|j: int| 0 <= j < i ==> !(#[trigger] candidates@[j]).1,
        decreases candidates.len() - i,
    {
        if candidates[i].1 {
            let path = candidates[i].0.clone();
            assert(candidates@[i as int].1 && candidates@[i as int].0@ == path@);
            return Some(path);
        }
        i += 1;
    }
    None
}

proof fn lemma_first_of_each(paths: Seq<Seq<char>>, keys: Seq<Seq<char>>, i: int)
    requires
        paths.len() == keys.len(),
        0 <= i < paths.len(),
    ensures
        exists|j: int|
            0 <= j <= i && #[trigger] keys[j] == keys[i] && first_of_each(paths, keys).contains(
                paths[j],
            ),
    decreases paths.len(),
{
    let p = paths.drop_last();
    let k = keys.drop_last();
    let front = first_of_each(p, k);
    if i < p.len() {
        lemma_first_of_each(p, k, i);
        let j = choose|j: int|
            0 <= j <= i && #[trigger] k[j] == k[i] && front.contains(p[j]);
        assert(keys[j] == keys[i]);
        let m = choose|m: int| 0 <= m < front.len() && front[m] == p[j];
        assert(first_of_each(paths, keys)[m] == paths[j]);
    } else if k.contains(keys.last()) {
        let i0 = choose|i0: int| 0 <= i0 < k.len() && k[i0] == keys.last();
        lemma_first_of_each(p, k, i0);
        let j = choose|j: int|
            0 <= j <= i0 && #[trigger] k[j] == k[i0] && front.contains(p[j]);
        assert(keys[j] == keys[i]);
        assert(paths[j] == p[j]);
    } else {
        assert(front.push(paths.last())[front.len() as int] == paths[i]);
        assert(keys[i] == keys[i]);
    }
}

proof fn lemma_from_paths(paths: Seq<Seq<char>>, keys: Seq<Seq<char>>, m: int)
    requires
        paths.len() == keys.len(),
        0 <= m < first_of_each(paths, keys).len(),
    ensures
        exists|i: int|
            0 <= i < paths.len() && #[trigger] paths[i] == first_of_each(paths, keys)[m]
                && !keys.take(i).contains(keys[i]),
    decreases paths.len(),
{
    let p = paths.drop_last();
    let k = keys.drop_last();
    let front = first_of_each(p, k);
    if m < front.len() {
        lemma_from_paths(p, k, m);
        let i = choose|i: int|
            0 <= i < p.len() && #[trigger] p[i] == front[m] && !k.take(i).contains(k[i]);
        assert(k.take(i) == keys.take(i));
        assert(paths[i] == first_of_each(paths, keys)[m]);
    } else {
        assert(keys.take(paths.len() - 1) == k);
        assert(paths[paths.len() - 1] == first_of_each(paths, keys)[m]);
    }
}

/// For every path of a list, `dedup_paths` keeps one that differs from it at most in
/// case and does not stand behind it.
pub proof fn law_dedup_keeps_every_place(paths: Seq<Seq<char>>, i: int)
    requires
        0 <= i < paths.len(),
    ensures
        exists|j: int|
            0 <= j <= i && lower(#[trigger] paths[j]) == lower(paths[i]) && dedup_of(
                paths,
            ).contains(paths[j]),
{
    let keys = lower_all(paths);
    lemma_first_of_each(paths, keys, i);
    let j = choose|j: int|
        0 <= j <= i && #[trigger] keys[j] == keys[i] && first_of_each(paths, keys).contains(
            paths[j],
        );
    assert(lower(paths[j]) == keys[j]);
}

/// What `dedup_paths` keeps is in the list.
pub proof fn law_dedup_adds_nothing(paths: Seq<Seq<char>>, path: Seq<char>)
    requires
        dedup_of(paths).contains(path),
    ensures
        paths.contains(path),
{
    let m = choose|m: int| 0 <= m < dedup_of(paths).len() && dedup_of(paths)[m] == path;
    lemma_from_paths(paths, lower_all(paths), m);
}

proof fn lemma_keys_distinct(paths: Seq<Seq<char>>)
    ensures
        lower_all(dedup_of(paths)).no_duplicates(),
    decreases paths.len(),
{
    if paths.len() > 0 {
        let p = paths.drop_last();
        let keys = lower_all(paths);
        assert(keys.drop_last() == lower_all(p));
        lemma_keys_distinct(p);
        let front = dedup_of(p);
        if !keys.drop_last().contains(keys.last()) {
            let all = lower_all(dedup_of(paths));
            assert(all == lower_all(front).push(keys.last()));
            assert forall|i: int, j: int|
                0 <= i < all.len() && 0 <= j < all.len() && i != j implies all[i] != all[j] by {
                if i < front.len() && j < front.len() {
                    assert(lower_all(front)[i] != lower_all(front)[j]);
                } else {
                    let m = if i < front.len() { i } else { j };
                    lemma_from_paths(p, lower_all(p), m);
                    let n = choose|n: int|
                        0 <= n < p.len() && #[trigger] p[n] == front[m] && !lower_all(p).take(
                            n,
                        ).contains(lower_all(p)[n]);
                    assert(lower_all(p)[n] == lower(front[m]));
                    assert(lower_all(front)[m] == lower(front[m]));
                    assert(keys.drop_last().contains(lower(front[m])));
                }
            }
        }
    }
}

/// No two paths that `dedup_paths` keeps differ in case alone.
pub proof fn law_dedup_has_no_repeats(paths: Seq<Seq<char>>, i: int, j: int)
    requires
        0 <= i < j < dedup_of(paths).len(),
    ensures
        lower(dedup_of(paths)[i]) != lower(dedup_of(paths)[j]),
{
    lemma_keys_distinct(paths);
    let all = lower_all(dedup_of(paths));
    assert(all[i] != all[j]);
}

proof fn lemma_distinct_kept(paths: Seq<Seq<char>>, keys: Seq<Seq<char>>)
    requires
        paths.len() == keys.len(),
        keys.no_duplicates(),
    ensures
        first_of_each(paths, keys) == paths,
    decreases paths.len(),
{
    if paths.len() > 0 {
        let k = keys.drop_last();
        assert(k.no_duplicates());
        lemma_distinct_kept(paths.drop_last(), k);
        if k.contains(keys.last()) {
            let i = choose|i: int| 0 <= i < k.len() && k[i] == keys.last();
            assert(keys[i] == keys[keys.len() - 1]);
        }
        assert(paths.drop_last().push(paths.last()) == paths);
    }
}

/// Deduplicating twice is deduplicating once.
pub proof fn law_dedup_is_idempotent(paths: Seq<Seq<char>>)
    ensures
        dedup_of(dedup_of(paths)) == dedup_of(paths),
{
    lemma_keys_distinct(paths);
    lemma_distinct_kept(dedup_of(paths), lower_all(dedup_of(paths)));
}

proof fn lemma_place_shared(
    values: Seq<Option<String>>,
    program: Option<Seq<char>>,
    working_dir: Option<Seq<char>>,
    place: Seq<char>,
)
    requires
        places(values, program, working_dir, seq![config_file_names()[0]]).contains(place),
    ensures
        places(values, program, working_dir, config_file_names()).contains(place),
{
    let one = seq![config_file_names()[0]];
    let names = config_file_names();
    let e = env_paths(values);
    let dir = program_dir(program);
    let a = in_dir(dir, one);
    let b = in_dir(working_dir, one);
    let a2 = in_dir(dir, names);
    let b2 = in_dir(working_dir, names);
    let small = e + a + b + one;
    let large = e + a2 + b2 + names;
    let i = choose|i: int| 0 <= i < small.len() && small[i] == place;
    if i < e.len() {
        assert(large[i] == place);
    } else if i < e.len() + a.len() {
        assert(a[i - e.len()] == joined(dir->0, names[0]));
        assert(a2[0] == joined(dir->0, names[0]));
        assert(large[e.len() as int] == place);
    } else if i < e.len() + a.len() + b.len() {
        assert(b[i - e.len() - a.len()] == joined(working_dir->0, names[0]));
        assert(b2[0] == joined(working_dir->0, names[0]));
        assert(large[(e.len() + a2.len()) as int] == place);
    } else {
        assert(large[(e.len() + a2.len() + b2.len()) as int] == place);
    }
}

/// A default configuration is put where it will be looked for: every target is, up
/// to case, one of the candidates.
pub proof fn law_targets_are_candidates(
    values: Seq<Option<String>>,
    program: Option<Seq<char>>,
    working_dir: Option<Seq<char>>,
    target: Seq<char>,
)
    requires
        targets_of(values, program, working_dir).contains(target),
    ensures
        exists|c: Seq<char>| #[trigger]
            candidates_of(values, program, working_dir).contains(c) && lower(c) == lower(target),
{
    let small = places(values, program, working_dir, seq![config_file_names()[0]]);
    let large = places(values, program, working_dir, config_file_names());
    law_dedup_adds_nothing(small, target);
    lemma_place_shared(values, program, working_dir, target);
    let i = choose|i: int| 0 <= i < large.len() && large[i] == target;
    law_dedup_keeps_every_place(large, i);
    let j = choose|j: int|
        0 <= j <= i && lower(#[trigger] large[j]) == lower(large[i]) && dedup_of(large).contains(
            large[j],
        );
    assert(candidates_of(values, program, working_dir).contains(large[j]));
}

/// What the environment names counts before everything else: the first candidate,
/// and the first target, is the first path that an environment variable names.
pub proof fn law_environment_comes_first(
    values: Seq<Option<String>>,
    program: Option<Seq<char>>,
    working_dir: Option<Seq<char>>,
)
    requires
        env_paths(values).len() > 0,
    ensures
        candidates_of(values, program, working_dir).len() > 0,
        candidates_of(values, program, working_dir)[0] == env_paths(values)[0],
        targets_of(values, program, working_dir).len() > 0,
        targets_of(values, program, working_dir)[0] == env_paths(values)[0],
{
    let large = places(values, program, working_dir, config_file_names());
    let small = places(values, program, working_dir, seq![config_file_names()[0]]);
    lemma_first_kept(large, lower_all(large));
    lemma_first_kept(small, lower_all(small));
}

proof fn lemma_first_kept(paths: Seq<Seq<char>>, keys: Seq<Seq<char>>)
    requires
        paths.len() == keys.len(),
        paths.len() > 0,
    ensures
        first_of_each(paths, keys).len() > 0,
        first_of_each(paths, keys)[0] == paths[0],
    decreases paths.len(),
{
    if paths.len() > 1 {
        lemma_first_kept(paths.drop_last(), keys.drop_last());
    } else {
        reveal_with_fuel(first_of_each, 2);
        assert(keys.drop_last() == Seq::<Seq<char>>::empty());
    }
}

/// The places of the keys that no earlier key equals, in order.
pub open spec fn first_places(keys: Seq<Seq<char>>) -> Seq<int>
    decreases keys.len(),
{
    if keys.len() == 0 {
        seq![]
    } else {
        let front = first_places(keys.drop_last());
        if keys.drop_last().contains(keys.last()) {
            front
        } else {
            front.push(keys.len() - 1)
        }
    }
}

proof fn lemma_first_places(paths: Seq<Seq<char>>, keys: Seq<Seq<char>>)
    requires
        paths.len() == keys.len(),
    ensures
        first_of_each(paths, keys) == first_places(keys).map_values(|i: int| paths[i]),
        forall|m: int| 0 <= m < first_places(keys).len() ==> 0 <= #[trigger] first_places(keys)[m]
            < keys.len(),
        forall|m: int, n: int|
            0 <= m < n < first_places(keys).len() ==> #[trigger] first_places(keys)[m]
                < #[trigger] first_places(keys)[n],
        forall|i: int| #[trigger]
            first_places(keys).contains(i) <==> 0 <= i < keys.len() && forall|j: int|
                0 <= j < i ==> #[trigger] keys[j] != keys[i],
    decreases paths.len(),
{
    let all = first_places(keys);
    if paths.len() == 0 {
        assert(first_of_each(paths, keys) == all.map_values(|i: int| paths[i]));
    } else {
        let p = paths.drop_last();
        let k = keys.drop_last();
        let front = first_places(k);
        lemma_first_places(p, k);
        assert(front.map_values(|i: int| p[i]) == front.map_values(|i: int| paths[i]));
        assert(first_of_each(paths, keys) == all.map_values(|i: int| paths[i]));
        assert forall|i: int| #[trigger]
            all.contains(i) <==> 0 <= i < keys.len() && forall|j: int|
                0 <= j < i ==> #[trigger] keys[j] != keys[i] by {
            if all.contains(i) {
                let m = choose|m: int| 0 <= m < all.len() && all[m] == i;
                if m < front.len() {
                    assert(front[m] == i);
                    assert(front.contains(i));
                    assert forall|j: int| 0 <= j < i implies #[trigger] keys[j] != keys[i] by {
                        assert(k[j] != k[i]);
                    }
                } else {
                    assert forall|j: int| 0 <= j < i implies #[trigger] keys[j] != keys[i] by {
                        assert(k[j] == keys[j]);
                    }
                }
            }
            if 0 <= i < keys.len() && (forall|j: int| 0 <= j < i ==> #[trigger] keys[j] != keys[i]) {
                if i < k.len() {
                    assert forall|j: int| 0 <= j < i implies #[trigger] k[j] != k[i] by {
                        assert(keys[j] != keys[i]);
                    }
                    assert(front.contains(i));
                    let m = choose|m: int| 0 <= m < front.len() && front[m] == i;
                    assert(all[m] == i);
                } else {
                    if k.contains(keys.last()) {
                        let j = choose|j: int| 0 <= j < k.len() && k[j] == keys.last();
                        assert(keys[j] == keys[i]);
                    }
                    assert(all[front.len() as int] == i);
                }
            }
        }
    }
}

/// What `dedup_paths` keeps stands in the order of the list: the kept paths are those
/// at certain places, from the front to the back; and these are exactly the places
/// whose path no earlier one equals up to case.
pub proof fn law_dedup_keeps_the_first_of_each(paths: Seq<Seq<char>>)
    ensures
        ({
            let kept = first_places(lower_all(paths));
            &&& dedup_of(paths) == kept.map_values(|i: int| paths[i])
            &&& forall|m: int, n: int|
                0 <= m < n < kept.len() ==> #[trigger] kept[m] < #[trigger] kept[n]
            &&& forall|i: int| #[trigger]
                kept.contains(i) <==> 0 <= i < paths.len() && forall|j: int|
                    0 <= j < i ==> lower(#[trigger] paths[j]) != lower(paths[i])
        }),
{
    let keys = lower_all(paths);
    let kept = first_places(keys);
    lemma_first_places(paths, keys);
    assert forall|i: int| #[trigger]
        kept.contains(i) <==> 0 <= i < paths.len() && forall|j: int|
            0 <= j < i ==> lower(#[trigger] paths[j]) != lower(paths[i]) by {
        if kept.contains(i) {
            assert forall|j: int| 0 <= j < i implies lower(#[trigger] paths[j]) != lower(paths[i]) by {
                assert(keys[j] != keys[i]);
            }
        }
        if 0 <= i < paths.len() && (forall|j: int|
            0 <= j < i ==> lower(#[trigger] paths[j]) != lower(paths[i])) {
            assert forall|j: int| 0 <= j < i implies #[trigger] keys[j] != keys[i] by {
                assert(lower(paths[j]) != lower(paths[i]));
            }
        }
    }
}

proof fn lemma_env_paths_filter(values: Seq<Option<String>>)
    ensures
        env_paths(values) == values.filter(
            |v: Option<String>| v is Some && trim_of(v->0@).len() > 0,
        ).map_values(|v: Option<String>| trim_of(v->0@)),
    decreases values.len(),
{
    reveal(Seq::filter);
    if values.len() > 0 {
        lemma_env_paths_filter(values.drop_last());
    }
    assert(env_paths(values) == values.filter(
        |v: Option<String>| v is Some && trim_of(v->0@).len() > 0,
    ).map_values(|v: Option<String>| trim_of(v->0@)));
}

/// A configuration is looked for at the paths that the environment names, trimmed,
/// in the order of the variables; then, under each of the two file names in turn, in
/// the program's directory, in the working directory, and as it stands.
pub proof fn law_places_that_are_searched(
    values: Seq<Option<String>>,
    program: Option<Seq<char>>,
    working_dir: Option<Seq<char>>,
)
    ensures
        ({
            let named = values.filter(
                |v: Option<String>| v is Some && trim_of(v->0@).len() > 0,
            ).map_values(|v: Option<String>| trim_of(v->0@));
            let beside = match program {
                Some(path) => match parent_of(path) {
                    Some(dir) => seq![
                        joined(dir, "launch_apps.toml"@),
                        joined(dir, "launch_wow.toml"@),
                    ],
                    None => seq![],
                },
                None => seq![],
            };
            let here = match working_dir {
                Some(dir) => seq![
                    joined(dir, "launch_apps.toml"@),
                    joined(dir, "launch_wow.toml"@),
                ],
                None => seq![],
            };
            candidates_of(values, program, working_dir) == dedup_of(
                named + beside + here + seq!["launch_apps.toml"@, "launch_wow.toml"@],
            )
        }),
{
    lemma_env_paths_filter(values);
    lemma_two_in_dir(program_dir(program));
    lemma_two_in_dir(working_dir);
}

proof fn lemma_two_in_dir(dir: Option<Seq<char>>)
    ensures
        dir matches Some(d) ==> in_dir(dir, config_file_names()) == seq![
            joined(d, "launch_apps.toml"@),
            joined(d, "launch_wow.toml"@),
        ],
        dir matches Some(d) ==> in_dir(dir, seq![config_file_names()[0]]) == seq![
            joined(d, "launch_apps.toml"@),
        ],
        dir is None ==> in_dir(dir, config_file_names()).len() == 0,
{
}

/// A default configuration may be put at the paths that the environment names; then,
/// as `launch_apps.toml`, in the program's directory, in the working directory, and as
/// it stands.
pub proof fn law_places_for_a_default(
    values: Seq<Option<String>>,
    program: Option<Seq<char>>,
    working_dir: Option<Seq<char>>,
)
    ensures
        ({
            let named = values.filter(
                |v: Option<String>| v is Some && trim_of(v->0@).len() > 0,
            ).map_values(|v: Option<String>| trim_of(v->0@));
            let beside = match program {
                Some(path) => match parent_of(path) {
                    Some(dir) => seq![joined(dir, "launch_apps.toml"@)],
                    None => seq![],
                },
                None => seq![],
            };
            let here = match working_dir {
                Some(dir) => seq![joined(dir, "launch_apps.toml"@)],
                None => seq![],
            };
            targets_of(values, program, working_dir) == dedup_of(
                named + beside + here + seq!["launch_apps.toml"@],
            )
        }),
{
    lemma_env_paths_filter(values);
    lemma_two_in_dir(program_dir(program));
    lemma_two_in_dir(working_dir);
}

} // verus!
