//! Normal forms of the texts in a configuration: arguments, window hints, process
//! names and application names.

use vstd::prelude::*;

use crate::order::{
    ascending, law_ascending_unique, law_sorted_unique, lemma_is_sorted_unique, same_members,
    sort_unique, sorted_unique,
};
use crate::text::{
    ascii_lower, ascii_lower_char, ends_with_text, is_ascii_text, is_space, law_lower_ascii,
    law_trim, lower, opt_text, texts, trim_end, trim_of, trim_start,
};
use crate::winpath::{
    body_start, components, drive_at, file_name, file_name_of, file_stem, file_stem_of, find_sep,
    is_sep, is_verbatim, lemma_body_start, lemma_find_sep, part, parts, prefix_of, starts_with_dot,
    Component,
};

verus! {

/// The texts that string slices hold.
pub open spec fn slice_texts(v: Seq<&str>) -> Seq<Seq<char>> {
    v.map_values(|s: &str| s@)
}

/// The texts of `s` that are not empty, in order.
pub open spec fn non_empty(s: Seq<Seq<char>>) -> Seq<Seq<char>>
    decreases s.len(),
{
    if s.len() == 0 {
        seq![]
    } else {
        let front = non_empty(s.drop_last());
        if s.last().len() > 0 {
            front.push(s.last())
        } else {
            front
        }
    }
}

/// Each text trimmed.
pub open spec fn trim_all(s: Seq<Seq<char>>) -> Seq<Seq<char>> {
    s.map_values(|t: Seq<char>| trim_of(t))
}

/// Each text in lower case.
pub open spec fn lower_all(s: Seq<Seq<char>>) -> Seq<Seq<char>> {
    s.map_values(|t: Seq<char>| lower(t))
}

/// Drops the empty texts.
pub fn keep_non_empty(parts: Vec<String>) -> (r: Vec<String>)
    ensures
        texts(r@) == non_empty(texts(parts@)),
{
    let ghost all = texts(parts@);
    let mut r: Vec<String> = Vec::new();
    let mut i: usize = 0;
    assert(all.take(0) == Seq::<Seq<char>>::empty());
    assert(texts(r@) == Seq::<Seq<char>>::empty());
    while i < parts.len()
        invariant
            i <= parts.len(),
            all == texts(parts@),
            texts(r@) == non_empty(all.take(i as int)),
        decreases parts.len() - i,
    {
        let ghost before = texts(r@);
        proof {
            assert(all.take(i + 1).drop_last() == all.take(i as int));
            assert(all.take(i + 1).last() == parts@[i as int]@);
        }
        if !parts[i].as_str().is_empty() {
            r.push(parts[i].clone());
            assert(texts(r@) == before.push(all[i as int]));
        }
        i += 1;
    }
    assert(all.take(all.len() as int) == all);
    r
}

/// The arguments, trimmed, without those that are blank.
pub fn trim_args(raw: Vec<String>) -> (r: Vec<String>)
    ensures
        texts(r@) == non_empty(trim_all(texts(raw@))),
{
    let mut parts: Vec<String> = Vec::new();
    let mut i: usize = 0;
    while i < raw.len()
        invariant
            i <= raw.len(),
            parts.len() == i,
            forall|k: int| 0 <= k < i ==> (#[trigger] parts@[k])@ == trim_of(raw@[k]@),
        decreases raw.len() - i,
    {
        parts.push(raw[i].as_str().trim().to_owned());
        i += 1;
    }
    assert(texts(parts@) == trim_all(texts(raw@)));
    keep_non_empty(parts)
}

/// The normal form of a list of window hints: trimmed, in lower case, without
/// blanks, in ascending order, each once.
pub open spec fn matchers_of(raw: Seq<Seq<char>>) -> Seq<Seq<char>> {
    sorted_unique(non_empty(lower_all(trim_all(raw))))
}

/// The normal form of a list of window hints.  It is empty only where every hint is
/// blank.
pub fn normalize_matchers(raw: Vec<String>) -> (r: Vec<String>)
    ensures
        texts(r@) == matchers_of(texts(raw@)),
        r@.len() == 0 <==> forall|i: int|
            0 <= i < raw@.len() ==> trim_of((#[trigger] raw@[i])@).len() == 0,
{
    let mut parts: Vec<String> = Vec::new();
    let mut i: usize = 0;
    while i < raw.len()
        invariant
            i <= raw.len(),
            parts.len() == i,
            forall|k: int| 0 <= k < i ==> (#[trigger] parts@[k])@ == lower(trim_of(raw@[k]@)),
            forall|k: int|
                0 <= k < i ==> ((#[trigger] parts@[k])@.len() == 0 <==> trim_of(raw@[k]@).len()
                    == 0),
        decreases raw.len() - i,
    {
        parts.push(raw[i].as_str().trim().to_lowercase());
        i += 1;
    }
    assert(texts(parts@) == lower_all(trim_all(texts(raw@))));
    proof {
        let all = texts(parts@);
        let normal = matchers_of(texts(raw@));
        law_sorted_unique(non_empty(all));
        if normal.len() > 0 {
            assert(normal.contains(normal[0]));
            lemma_non_empty(all, normal[0]);
            let k = choose|k: int| 0 <= k < all.len() && all[k] == normal[0];
            assert(parts@[k]@ == all[k]);
            assert(trim_of(raw@[k]@).len() > 0);
        }
        assert forall|i: int| 0 <= i < raw@.len() && normal.len() == 0 implies trim_of(
            (#[trigger] raw@[i])@,
        ).len() == 0 by {
            assert(parts@[i]@ == all[i]);
            assert(all.contains(all[i]));
            lemma_non_empty(all, all[i]);
            if all[i].len() > 0 {
                assert(normal.contains(all[i]));
            }
        }
    }
    let r = sort_unique(&keep_non_empty(parts));
    assert(texts(r@).len() == r@.len());
    r
}

/// The normal form of a list of window hints; where it is empty, the defaults in
/// lower case.
pub open spec fn matchers_with_defaults_of(
    raw: Seq<Seq<char>>,
    defaults: Seq<Seq<char>>,
) -> Seq<Seq<char>> {
    if matchers_of(raw).len() == 0 {
        lower_all(defaults)
    } else {
        matchers_of(raw)
    }
}

/// The normal form of a list of window hints; where it is empty, the defaults in
/// lower case.
pub fn normalize_matchers_with_defaults(raw: Vec<String>, defaults: &[&str]) -> (r: Vec<String>)
    ensures
        texts(r@) == matchers_with_defaults_of(texts(raw@), slice_texts(defaults@)),
{
    let normalized = normalize_matchers(raw);
    assert(normalized.len() == texts(normalized@).len());
    if normalized.len() == 0 {
        let mut r: Vec<String> = Vec::new();
        let mut i: usize = 0;
        while i < defaults.len()
            invariant
                i <= defaults.len(),
                r.len() == i,
                forall|k: int| 0 <= k < i ==> (#[trigger] r@[k])@ == lower(defaults@[k]@),
            decreases defaults.len() - i,
        {
            r.push(defaults[i].to_lowercase());
            i += 1;
        }
        assert(texts(r@) == lower_all(slice_texts(defaults@)));
        r
    } else {
        normalized
    }
}

/// The process name for a file name in lower case: with `.exe` at its end.
pub open spec fn with_exe(name: Seq<char>) -> Option<Seq<char>> {
    if name.len() == 0 {
        None
    } else if ".exe"@.is_suffix_of(name) {
        Some(name)
    } else {
        Some(name + ".exe"@)
    }
}

/// The process name for a file name in lower case: with `.exe` at its end.
pub fn with_exe_suffix(name: String) -> (r: Option<String>)
    ensures
        opt_text(r) == with_exe(name@),
{
    if name.as_str().is_empty() {
        return None;
    }
    if ends_with_text(name.as_str(), ".exe") {
        Some(name)
    } else {
        let mut full = name;
        full.append(".exe");
        Some(full)
    }
}

/// The file name of a path, or the path itself where it has none.
pub open spec fn last_name(path: Seq<char>) -> Seq<char> {
    match file_name_of(path) {
        Some(name) => name,
        None => path,
    }
}

/// The file name of the trimmed path, trimmed and in lower case.
pub open spec fn lower_file_name(raw: Seq<char>) -> Seq<char> {
    lower(trim_of(last_name(trim_of(raw))))
}

/// The process name that a text stands for: the file name of the trimmed path,
/// trimmed and in lower case, with `.exe` at its end; none for a blank text.
pub open spec fn canonical_of(raw: Seq<char>) -> Option<Seq<char>> {
    if trim_of(raw).len() == 0 {
        None
    } else {
        with_exe(lower_file_name(raw))
    }
}

/// The text, or the file name that it holds, is blank.
pub open spec fn is_nameless(raw: Seq<char>) -> bool {
    trim_of(raw).len() == 0 || trim_of(last_name(trim_of(raw))).len() == 0
}

/// The process name that a text stands for.  There is none only where the text, or
/// its file name, is blank.
pub fn canonical_process_name(raw: &str) -> (r: Option<String>)
    ensures
        opt_text(r) == canonical_of(raw@),
        r is None <==> is_nameless(raw@),
{
    let trimmed = raw.trim();
    if trimmed.is_empty() {
        return None;
    }
    let name = match file_name(trimmed) {
        Some(name) => name,
        None => trimmed.to_owned(),
    };
    with_exe_suffix(name.as_str().trim().to_lowercase())
}

/// No text of `s` has a name.
pub open spec fn all_nameless(s: Seq<Seq<char>>) -> bool {
    forall|i: int| 0 <= i < s.len() ==> is_nameless(#[trigger] s[i])
}

/// The process names that the texts of `s` stand for, in order.
pub open spec fn canonical_all(s: Seq<Seq<char>>) -> Seq<Seq<char>>
    decreases s.len(),
{
    if s.len() == 0 {
        seq![]
    } else {
        let front = canonical_all(s.drop_last());
        match canonical_of(s.last()) {
            Some(name) => front.push(name),
            None => front,
        }
    }
}

/// The process name of an executable, as a list of one or none.
pub fn default_process_names_for_exe(exe: &str) -> (r: Vec<String>)
    ensures
        texts(r@) == canonical_all(seq![exe@]),
        r@.len() == (if is_nameless(exe@) {
            0int
        } else {
            1int
        }),
{
    let mut r: Vec<String> = Vec::new();
    proof {
        reveal_with_fuel(canonical_all, 2);
        assert(seq![exe@].drop_last() == Seq::<Seq<char>>::empty());
    }
    match canonical_process_name(exe) {
        Some(name) => {
            r.push(name);
            assert(texts(r@) == Seq::<Seq<char>>::empty().push(name@));
        },
        None => {
            assert(texts(r@) == Seq::<Seq<char>>::empty());
        },
    }
    r
}

/// The process names to look for: those of `raw`; if it has none, the default
/// ones; if there are none, that of the executable.
pub open spec fn process_name_list(
    raw: Seq<Seq<char>>,
    exe: Seq<char>,
    defaults: Seq<Seq<char>>,
) -> Seq<Seq<char>> {
    if canonical_all(raw).len() > 0 {
        canonical_all(raw)
    } else if canonical_all(defaults).len() > 0 {
        canonical_all(defaults)
    } else {
        canonical_all(seq![exe])
    }
}

/// The process names to look for, in ascending order, each once.
pub open spec fn process_names_of(
    raw: Seq<Seq<char>>,
    exe: Seq<char>,
    defaults: Seq<Seq<char>>,
) -> Seq<Seq<char>> {
    sorted_unique(process_name_list(raw, exe, defaults))
}

/// The process names to look for.  There are none only where no text of the two
/// lists has a name, nor the executable.
pub fn normalize_process_names(raw: Vec<String>, exe: &str, defaults: &[&str]) -> (r: Vec<String>)
    ensures
        texts(r@) == process_names_of(texts(raw@), exe@, slice_texts(defaults@)),
        r@.len() == 0 <==> all_nameless(texts(raw@)) && all_nameless(slice_texts(defaults@))
            && is_nameless(exe@),
{
    let ghost all = texts(raw@);
    let ghost fallback = slice_texts(defaults@);
    let mut names: Vec<String> = Vec::new();
    let mut i: usize = 0;
    assert(all.take(0) == Seq::<Seq<char>>::empty());
    assert(texts(names@) == Seq::<Seq<char>>::empty());
    while i < raw.len()
        invariant
            i <= raw.len(),
            all == texts(raw@),
            texts(names@) == canonical_all(all.take(i as int)),
            names@.len() == 0 <==> forall|k: int| 0 <= k < i ==> is_nameless(#[trigger] all[k]),
        decreases raw.len() - i,
    {
        assert(all[i as int] == raw@[i as int]@);
        let ghost before = texts(names@);
        proof {
            assert(all.take(i + 1).drop_last() == all.take(i as int));
            assert(all.take(i + 1).last() == raw@[i as int]@);
        }
        match canonical_process_name(raw[i].as_str()) {
            Some(name) => {
                names.push(name);
                assert(texts(names@) == before.push(name@));
            },
            None => {},
        }
        i += 1;
    }
    assert(all.take(all.len() as int) == all);
    assert(texts(names@).len() == names.len());

    if names.len() == 0 {
        let mut j: usize = 0;
        assert(fallback.take(0) == Seq::<Seq<char>>::empty());
        assert(texts(names@) == Seq::<Seq<char>>::empty());
        while j < defaults.len()
            invariant
                j <= defaults.len(),
                fallback == slice_texts(defaults@),
                texts(names@) == canonical_all(fallback.take(j as int)),
                names@.len() == 0 <==> forall|k: int|
                    0 <= k < j ==> is_nameless(#[trigger] fallback[k]),
            decreases defaults.len() - j,
        {
            assert(fallback[j as int] == defaults@[j as int]@);
            let ghost before = texts(names@);
            proof {
                assert(fallback.take(j + 1).drop_last() == fallback.take(j as int));
                assert(fallback.take(j + 1).last() == defaults@[j as int]@);
            }
            match canonical_process_name(defaults[j]) {
                Some(name) => {
                    names.push(name);
                    assert(texts(names@) == before.push(name@));
                },
                None => {},
            }
            j += 1;
        }
        assert(fallback.take(fallback.len() as int) == fallback);
        assert(texts(names@).len() == names.len());
        if names.len() == 0 {
            names = default_process_names_for_exe(exe);
        }
    }
    let r = sort_unique(&names);
    proof {
        let list = texts(names@);
        law_sorted_unique(list);
        assert(texts(r@).len() == r@.len());
        if list.len() > 0 {
            assert(list.contains(list[0]));
            assert(texts(r@).contains(list[0]));
        }
        if r@.len() > 0 {
            assert(texts(r@).contains(texts(r@)[0]));
            assert(list.contains(texts(r@)[0]));
        }
    }
    r
}

/// The name of an application: the preferred one, trimmed, unless it is blank; else
/// the stem of the executable's path, unless that is blank; else `app`.
pub open spec fn app_name_of(preferred: Seq<char>, exe: Seq<char>) -> Seq<char> {
    if trim_of(preferred).len() > 0 {
        trim_of(preferred)
    } else {
        match file_stem_of(exe) {
            Some(name) => if trim_of(name).len() > 0 {
                name
            } else {
                "app"@
            },
            None => "app"@,
        }
    }
}

/// The name of an application.
pub fn infer_app_name(preferred: &str, exe: &str) -> (r: String)
    ensures
        r@ == app_name_of(preferred@, exe@),
{
    let trimmed = preferred.trim();
    if !trimmed.is_empty() {
        return trimmed.to_owned();
    }
    match file_stem(exe) {
        Some(name) => {
            if !name.as_str().trim().is_empty() {
                name
            } else {
                "app".to_owned()
            }
        },
        None => "app".to_owned(),
    }
}

proof fn lemma_non_empty(s: Seq<Seq<char>>, x: Seq<char>)
    ensures
        non_empty(s).contains(x) <==> s.contains(x) && x.len() > 0,
    decreases s.len(),
{
    if s.len() > 0 {
        let t = s.drop_last();
        let front = non_empty(t);
        lemma_non_empty(t, x);
        if s.contains(x) {
            let i = choose|i: int| 0 <= i < s.len() && s[i] == x;
            if i < t.len() {
                assert(t[i] == x);
            }
        }
        if t.contains(x) {
            let i = choose|i: int| 0 <= i < t.len() && t[i] == x;
            assert(s[i] == x);
        }
        if front.contains(x) && s.last().len() > 0 {
            let i = choose|i: int| 0 <= i < front.len() && front[i] == x;
            assert(front.push(s.last())[i] == x);
        }
        if s.last().len() > 0 && s.last() == x {
            assert(front.push(s.last())[front.len() as int] == x);
            assert(s[s.len() - 1] == x);
        }
        if s.last().len() > 0 && front.push(s.last()).contains(x) {
            let i = choose|i: int|
                0 <= i < front.push(s.last()).len() && front.push(s.last())[i] == x;
            if i < front.len() {
                assert(front[i] == x);
            } else {
                assert(s[s.len() - 1] == x);
            }
        }
    }
}

/// The hints of a normal form are in ascending order, each once, and none is empty;
/// they are exactly the given texts, trimmed and in lower case, without the empty
/// ones.
pub proof fn law_matchers_are_normal(raw: Seq<Seq<char>>)
    ensures
        ascending(matchers_of(raw)),
        forall|i: int| 0 <= i < matchers_of(raw).len() ==> (#[trigger] matchers_of(raw)[i]).len() > 0,
        forall|x: Seq<char>| #[trigger]
            matchers_of(raw).contains(x) <==> x.len() > 0 && exists|i: int|
                0 <= i < raw.len() && lower(trim_of(#[trigger] raw[i])) == x,
{
    let parts = lower_all(trim_all(raw));
    law_sorted_unique(non_empty(parts));
    let r = matchers_of(raw);
    assert forall|i: int| 0 <= i < r.len() implies (#[trigger] r[i]).len() > 0 by {
        assert(r.contains(r[i]));
        lemma_non_empty(parts, r[i]);
    }
    assert forall|x: Seq<char>| #[trigger]
        r.contains(x) <==> x.len() > 0 && exists|i: int|
            0 <= i < raw.len() && lower(trim_of(#[trigger] raw[i])) == x by {
        lemma_non_empty(parts, x);
        if parts.contains(x) {
            let k = choose|k: int| 0 <= k < parts.len() && parts[k] == x;
            assert(lower(trim_of(raw[k])) == x);
        }
        if exists|i: int| 0 <= i < raw.len() && lower(trim_of(#[trigger] raw[i])) == x {
            let k = choose|i: int| 0 <= i < raw.len() && lower(trim_of(#[trigger] raw[i])) == x;
            assert(parts[k] == x);
        }
    }
}

proof fn lemma_mapped_members(a: Seq<Seq<char>>, b: Seq<Seq<char>>, x: Seq<char>)
    requires
        same_members(a, b),
        lower_all(trim_all(a)).contains(x),
    ensures
        lower_all(trim_all(b)).contains(x),
{
    let pa = lower_all(trim_all(a));
    let pb = lower_all(trim_all(b));
    let i = choose|i: int| 0 <= i < pa.len() && pa[i] == x;
    assert(a.contains(a[i]));
    assert(b.contains(a[i]));
    let j = choose|j: int| 0 <= j < b.len() && b[j] == a[i];
    assert(pb[j] == x);
}

/// The normal form depends on which hints are given, not on their order or number.
pub proof fn law_matchers_ignore_order(a: Seq<Seq<char>>, b: Seq<Seq<char>>)
    requires
        same_members(a, b),
    ensures
        matchers_of(a) == matchers_of(b),
{
    let pa = non_empty(lower_all(trim_all(a)));
    let pb = non_empty(lower_all(trim_all(b)));
    assert(same_members(b, a));
    assert forall|x: Seq<char>| #[trigger] pa.contains(x) <==> pb.contains(x) by {
        lemma_non_empty(lower_all(trim_all(a)), x);
        lemma_non_empty(lower_all(trim_all(b)), x);
        if pa.contains(x) {
            lemma_mapped_members(a, b, x);
        }
        if pb.contains(x) {
            lemma_mapped_members(b, a, x);
        }
    }
    law_sorted_unique(pa);
    assert(same_members(sorted_unique(pa), pb));
    lemma_is_sorted_unique(sorted_unique(pa), pb);
}

/// A list in normal form, whose hints are trimmed and in lower case already, stays
/// as it is.
pub proof fn law_normal_matchers_stay(s: Seq<Seq<char>>)
    ensures
        ascending(s) && (forall|i: int|
            0 <= i < s.len() ==> (#[trigger] s[i]).len() > 0 && trim_of(s[i]) == s[i] && lower(s[i])
                == s[i]) ==> matchers_of(s) == s,
{
    if ascending(s) && (forall|i: int|
        0 <= i < s.len() ==> (#[trigger] s[i]).len() > 0 && trim_of(s[i]) == s[i] && lower(s[i])
            == s[i]) {
        let parts = lower_all(trim_all(s));
        assert(parts == s);
        assert forall|x: Seq<char>| #[trigger] s.contains(x) <==> non_empty(s).contains(x) by {
            lemma_non_empty(s, x);
        }
        lemma_is_sorted_unique(s, non_empty(s));
    }
}

/// Some text of `s` stands for the process name `x`.
pub open spec fn names_process(s: Seq<Seq<char>>, x: Seq<char>) -> bool {
    exists|i: int| 0 <= i < s.len() && canonical_of(#[trigger] s[i]) == Some(x)
}

/// Some text of `s` stands for a process name.
pub open spec fn names_any(s: Seq<Seq<char>>) -> bool {
    exists|i: int| 0 <= i < s.len() && canonical_of(#[trigger] s[i]) is Some
}

/// The list that the process names come from: the first of the three that names any.
pub open spec fn process_name_source(
    raw: Seq<Seq<char>>,
    exe: Seq<char>,
    defaults: Seq<Seq<char>>,
) -> Seq<Seq<char>> {
    if names_any(raw) {
        raw
    } else if names_any(defaults) {
        defaults
    } else {
        seq![exe]
    }
}

proof fn lemma_canonical_members(s: Seq<Seq<char>>, x: Seq<char>)
    ensures
        canonical_all(s).contains(x) <==> names_process(s, x),
    decreases s.len(),
{
    if s.len() > 0 {
        let t = s.drop_last();
        let front = canonical_all(t);
        let all = canonical_all(s);
        lemma_canonical_members(t, x);
        if all.contains(x) {
            let k = choose|k: int| 0 <= k < all.len() && all[k] == x;
            if k < front.len() {
                assert(front.contains(x)) by {
                    assert(front[k] == x);
                }
                let i = choose|i: int| 0 <= i < t.len() && canonical_of(#[trigger] t[i]) == Some(x);
                assert(canonical_of(s[i]) == Some(x));
            } else {
                assert(canonical_of(s[s.len() - 1]) == Some(x));
            }
        }
        if names_process(s, x) {
            let i = choose|i: int| 0 <= i < s.len() && canonical_of(#[trigger] s[i]) == Some(x);
            if i < t.len() {
                assert(canonical_of(t[i]) == Some(x));
                let k = choose|k: int| 0 <= k < front.len() && front[k] == x;
                assert(all[k] == x);
            } else {
                assert(all[front.len() as int] == x);
            }
        }
    }
}

proof fn lemma_names_any(s: Seq<Seq<char>>)
    ensures
        names_any(s) <==> canonical_all(s).len() > 0,
{
    if names_any(s) {
        let i = choose|i: int| 0 <= i < s.len() && canonical_of(#[trigger] s[i]) is Some;
        let x = canonical_of(s[i])->0;
        assert(names_process(s, x));
        lemma_canonical_members(s, x);
    }
    if canonical_all(s).len() > 0 {
        let x = canonical_all(s)[0];
        assert(canonical_all(s).contains(x));
        lemma_canonical_members(s, x);
        let i = choose|i: int| 0 <= i < s.len() && canonical_of(#[trigger] s[i]) == Some(x);
        assert(canonical_of(s[i]) is Some);
    }
}

proof fn lemma_process_name_list(raw: Seq<Seq<char>>, exe: Seq<char>, defaults: Seq<Seq<char>>)
    ensures
        process_name_list(raw, exe, defaults) == canonical_all(
            process_name_source(raw, exe, defaults),
        ),
{
    lemma_names_any(raw);
    lemma_names_any(defaults);
}

/// A process name ends with `.exe`.
pub proof fn law_canonical_name_ends_with_exe(raw: Seq<char>)
    ensures
        canonical_of(raw) matches Some(name) ==> ".exe"@.is_suffix_of(name),
{
    if let Some(name) = canonical_of(raw) {
        let l = lower_file_name(raw);
        if !".exe"@.is_suffix_of(l) {
            assert(name == l + ".exe"@);
            assert(".exe"@ == name.subrange(name.len() - ".exe"@.len(), name.len() as int));
        }
    }
}

/// The process names to look for are in ascending order, each once, each with
/// `.exe` at its end.  They are exactly the names that the first list to name any
/// stands for, of the given one, the defaults and the executable; so there are some
/// wherever the executable has a name.
pub proof fn law_process_names(raw: Seq<Seq<char>>, exe: Seq<char>, defaults: Seq<Seq<char>>)
    ensures
        ascending(process_names_of(raw, exe, defaults)),
        forall|i: int|
            0 <= i < process_names_of(raw, exe, defaults).len() ==> ".exe"@.is_suffix_of(
                #[trigger] process_names_of(raw, exe, defaults)[i],
            ),
        forall|x: Seq<char>| #[trigger]
            process_names_of(raw, exe, defaults).contains(x) <==> names_process(
                process_name_source(raw, exe, defaults),
                x,
            ),
        canonical_of(exe) is Some ==> process_names_of(raw, exe, defaults).len() > 0,
{
    let list = process_name_list(raw, exe, defaults);
    let source = process_name_source(raw, exe, defaults);
    let r = process_names_of(raw, exe, defaults);
    law_sorted_unique(list);
    lemma_process_name_list(raw, exe, defaults);
    assert forall|x: Seq<char>| #[trigger] r.contains(x) <==> names_process(source, x) by {
        lemma_canonical_members(source, x);
    }
    assert forall|i: int| 0 <= i < r.len() implies ".exe"@.is_suffix_of(#[trigger] r[i]) by {
        assert(r.contains(r[i]));
        let j = choose|j: int|
            0 <= j < source.len() && canonical_of(#[trigger] source[j]) == Some(r[i]);
        law_canonical_name_ends_with_exe(source[j]);
    }
    if canonical_of(exe) is Some {
        assert(canonical_of(seq![exe][0]) is Some);
        assert(names_any(source));
        lemma_names_any(source);
        assert(list.contains(list[0]));
        assert(r.contains(list[0]));
    }
}

proof fn lemma_same_names(a: Seq<Seq<char>>, b: Seq<Seq<char>>, x: Seq<char>)
    requires
        same_members(a, b),
        names_process(a, x),
    ensures
        names_process(b, x),
{
    let i = choose|i: int| 0 <= i < a.len() && canonical_of(#[trigger] a[i]) == Some(x);
    assert(a.contains(a[i]));
    assert(b.contains(a[i]));
    let j = choose|j: int| 0 <= j < b.len() && b[j] == a[i];
    assert(canonical_of(b[j]) == Some(x));
}

proof fn lemma_same_any(a: Seq<Seq<char>>, b: Seq<Seq<char>>)
    requires
        same_members(a, b),
        names_any(a),
    ensures
        names_any(b),
{
    let i = choose|i: int| 0 <= i < a.len() && canonical_of(#[trigger] a[i]) is Some;
    let x = canonical_of(a[i])->0;
    assert(names_process(a, x));
    lemma_same_names(a, b, x);
    let j = choose|j: int| 0 <= j < b.len() && canonical_of(#[trigger] b[j]) == Some(x);
    assert(canonical_of(b[j]) is Some);
}

/// The process names to look for depend on which texts are given, and which are the
/// defaults, not on their order or number.
pub proof fn law_process_names_ignore_order(
    a: Seq<Seq<char>>,
    b: Seq<Seq<char>>,
    exe: Seq<char>,
    defaults_a: Seq<Seq<char>>,
    defaults_b: Seq<Seq<char>>,
)
    requires
        same_members(a, b),
        same_members(defaults_a, defaults_b),
    ensures
        process_names_of(a, exe, defaults_a) == process_names_of(b, exe, defaults_b),
{
    let sa = process_name_source(a, exe, defaults_a);
    let sb = process_name_source(b, exe, defaults_b);
    let ra = process_names_of(a, exe, defaults_a);
    let rb = process_names_of(b, exe, defaults_b);
    assert(same_members(b, a));
    assert(same_members(defaults_b, defaults_a));
    if names_any(a) {
        lemma_same_any(a, b);
    } else if names_any(b) {
        lemma_same_any(b, a);
    } else if names_any(defaults_a) {
        lemma_same_any(defaults_a, defaults_b);
    } else if names_any(defaults_b) {
        lemma_same_any(defaults_b, defaults_a);
    }
    assert(same_members(sa, sb));
    assert(same_members(sb, sa));
    law_process_names(a, exe, defaults_a);
    law_process_names(b, exe, defaults_b);
    assert forall|x: Seq<char>| #[trigger] ra.contains(x) <==> rb.contains(x) by {
        if ra.contains(x) {
            lemma_same_names(sa, sb, x);
        }
        if rb.contains(x) {
            lemma_same_names(sb, sa, x);
        }
    }
    law_ascending_unique(ra, rb);
}

proof fn lemma_no_sep(s: Seq<char>, from: int)
    requires
        0 <= from <= s.len(),
        forall|i: int| 0 <= i < s.len() ==> !is_sep(#[trigger] s[i]),
    ensures
        find_sep(s, from, false) == s.len(),
    decreases s.len() - from,
{
    if from < s.len() {
        lemma_no_sep(s, from + 1);
    }
}

/// A bare file name: no separator in it, and no drive in front.
pub open spec fn is_bare(name: Seq<char>) -> bool {
    (forall|i: int| 0 <= i < name.len() ==> !is_sep(#[trigger] name[i])) && !drive_at(name, 0)
}

/// A bare file name, neither `.` nor `..`, is its own last component.
pub proof fn law_bare_name_is_its_file_name(name: Seq<char>)
    requires
        is_bare(name),
        name.len() > 0,
        name != seq!['.'],
        name != seq!['.', '.'],
    ensures
        file_name_of(name) == Some(name),
{
    assert(prefix_of(name) is None);
    lemma_no_sep(name, 0);
    if name.len() == 1 && name[0] == '.' {
        assert(name == seq!['.']);
    }
    if name.len() == 2 && name[0] == '.' && name[1] == '.' {
        assert(name == seq!['.', '.']);
    }
    assert(!starts_with_dot(name));
    assert(body_start(name) == 0);
    assert(name.subrange(0, name.len() as int) == name);
    assert(part(name, false) == seq![Component::Normal(name)]);
    assert(parts(name, 0, false) == seq![Component::Normal(name)]);
    assert(components(name) == seq![Component::Normal(name)]);
}

/// A process name in its normal form stays as it is: a trimmed bare file name in
/// lower case that ends with `.exe`.
pub proof fn law_canonical_name_stays(name: Seq<char>)
    requires
        is_bare(name),
        trim_of(name) == name,
        ".exe"@.is_suffix_of(name),
    ensures
        lower(name) == name ==> canonical_of(name) == Some(name),
{
    reveal_strlit(".exe");
    assert(".exe"@.len() == 4);
    assert(name.len() >= 4);
    assert(seq!['.'].len() == 1);
    assert(seq!['.', '.'].len() == 2);
    law_bare_name_is_its_file_name(name);
}

/// The name of an application is never blank.
pub proof fn law_app_name_is_not_blank(preferred: Seq<char>, exe: Seq<char>)
    ensures
        trim_of(app_name_of(preferred, exe)).len() > 0,
{
    law_trim(preferred);
    reveal_strlit("app");
    assert("app"@.len() == 3 && !is_space("app"@[0]) && !is_space("app"@[2]));
    assert(trim_start("app"@) == "app"@);
    assert(trim_end("app"@) == "app"@);
}

proof fn lemma_all_non_empty(s: Seq<Seq<char>>)
    requires
        forall|i: int| 0 <= i < s.len() ==> (#[trigger] s[i]).len() > 0,
    ensures
        non_empty(s) == s,
    decreases s.len(),
{
    if s.len() > 0 {
        let t = s.drop_last();
        assert forall|i: int| 0 <= i < t.len() implies (#[trigger] t[i]).len() > 0 by {
            assert(t[i] == s[i]);
        }
        lemma_all_non_empty(t);
        assert(s[s.len() - 1].len() > 0);
        assert(t.push(s.last()) == s);
    }
}

/// The arguments that are kept are trimmed and not empty, and trimming them again
/// changes nothing.
pub proof fn law_trimmed_args_stay(raw: Seq<Seq<char>>)
    ensures
        ({
            let args = non_empty(trim_all(raw));
            &&& forall|i: int|
                0 <= i < args.len() ==> (#[trigger] args[i]).len() > 0 && trim_of(args[i])
                    == args[i]
            &&& non_empty(trim_all(args)) == args
        }),
{
    let parts = trim_all(raw);
    let args = non_empty(parts);
    assert forall|i: int| 0 <= i < args.len() implies (#[trigger] args[i]).len() > 0 && trim_of(
        args[i],
    ) == args[i] by {
        assert(args.contains(args[i]));
        lemma_non_empty(parts, args[i]);
        let k = choose|k: int| 0 <= k < parts.len() && parts[k] == args[i];
        assert(parts[k] == trim_of(raw[k]));
        law_trim(raw[k]);
    }
    assert(trim_all(args) == args);
    lemma_all_non_empty(args);
}

/// A normal form of hints is its own normal form, where putting a hint in lower case
/// or trimming it a second time changes nothing.
pub proof fn law_matchers_are_idempotent(raw: Seq<Seq<char>>)
    requires
        forall|i: int|
            0 <= i < raw.len() ==> lower(lower(trim_of(#[trigger] raw[i]))) == lower(
                trim_of(raw[i]),
            ) && trim_of(lower(trim_of(raw[i]))) == lower(trim_of(raw[i])),
    ensures
        matchers_of(matchers_of(raw)) == matchers_of(raw),
{
    let r = matchers_of(raw);
    law_matchers_are_normal(raw);
    assert forall|i: int| 0 <= i < r.len() implies (#[trigger] r[i]).len() > 0 && trim_of(r[i])
        == r[i] && lower(r[i]) == r[i] by {
        assert(r.contains(r[i]));
    }
    law_normal_matchers_stay(r);
}

/// The normal form of ASCII hints is its own normal form.
pub proof fn law_ascii_matchers_are_idempotent(raw: Seq<Seq<char>>)
    requires
        forall|i: int| 0 <= i < raw.len() ==> is_ascii_text(#[trigger] raw[i]),
    ensures
        matchers_of(matchers_of(raw)) == matchers_of(raw),
{
    assert forall|i: int| 0 <= i < raw.len() implies lower(lower(trim_of(#[trigger] raw[i])))
        == lower(trim_of(raw[i])) && trim_of(lower(trim_of(raw[i]))) == lower(trim_of(raw[i])) by {
        law_lower_ascii(raw[i]);
        law_lower_ascii(trim_of(raw[i]));
    }
    law_matchers_are_idempotent(raw);
}

proof fn lemma_part_is_ascii(s: Seq<char>, from: int, verbatim: bool, i: int)
    requires
        is_ascii_text(s),
        0 <= from <= s.len(),
        0 <= i < parts(s, from, verbatim).len(),
    ensures
        parts(s, from, verbatim)[i] matches Component::Normal(t) ==> is_ascii_text(t),
        !(parts(s, from, verbatim)[i] is Prefix),
    decreases s.len() - from,
{
    lemma_find_sep(s, from, verbatim);
    let end = find_sep(s, from, verbatim);
    let t = s.subrange(from, end);
    let first = part(t, verbatim);
    if i < first.len() {
        assert forall|k: int| 0 <= k < t.len() implies (#[trigger] t[k] as int) < 128 by {
            assert(t[k] == s[from + k]);
        }
        assert(parts(s, from, verbatim)[i] == first[i]);
    } else {
        lemma_part_is_ascii(s, end + 1, verbatim, i - first.len());
    }
}

proof fn lemma_file_name_is_ascii(s: Seq<char>)
    requires
        is_ascii_text(s),
    ensures
        file_name_of(s) matches Some(t) ==> is_ascii_text(t),
{
    lemma_body_start(s);
    let body = parts(s, body_start(s), is_verbatim(s));
    if body.len() > 0 {
        lemma_part_is_ascii(s, body_start(s), is_verbatim(s), body.len() - 1);
    }
}

/// The process name of a text stands for itself, where it is a bare file name,
/// trimming the file name in lower case changes nothing, and the process name is its
/// own lower case.
pub proof fn law_canonical_is_idempotent(raw: Seq<char>)
    requires
        trim_of(lower_file_name(raw)) == lower_file_name(raw),
        canonical_of(raw) matches Some(name) ==> lower(name) == name,
    ensures
        canonical_of(raw) matches Some(name) ==> (is_bare(name) ==> canonical_of(name) == Some(
            name,
        )),
{
    if let Some(name) = canonical_of(raw) {
        let l = lower_file_name(raw);
        law_trim(l);
        law_canonical_name_ends_with_exe(raw);
        reveal_strlit(".exe");
        assert(!is_space(name[0]) && !is_space(name.last())) by {
            assert(name[0] == l[0]);
            if name != l {
                assert(name.last() == ".exe"@[3]);
            }
        }
        assert(trim_start(name) == name);
        assert(trim_end(name) == name);
        if is_bare(name) {
            law_canonical_name_stays(name);
        }
    }
}

/// The process name of a text stands for itself, where it is a bare file name and
/// the file name has its `.exe` already or is ASCII, if putting the file name in
/// lower case or trimming it a second time changes nothing.
pub proof fn law_lower_file_name_stays(raw: Seq<char>)
    requires
        lower(lower_file_name(raw)) == lower_file_name(raw),
        trim_of(lower_file_name(raw)) == lower_file_name(raw),
        ".exe"@.is_suffix_of(lower_file_name(raw)) || is_ascii_text(lower_file_name(raw)),
    ensures
        canonical_of(raw) matches Some(name) ==> (is_bare(name) ==> canonical_of(name) == Some(
            name,
        )),
{
    if let Some(name) = canonical_of(raw) {
        let l = lower_file_name(raw);
        if name != l {
            reveal_strlit(".exe");
            assert forall|i: int| 0 <= i < name.len() implies (#[trigger] name[i] as int) < 128
                && ascii_lower_char(name[i]) == name[i] by {
                if i < l.len() {
                    assert(name[i] == l[i]);
                    assert(ascii_lower(l)[i] == l[i]);
                } else {
                    assert(name[i] == ".exe"@[i - l.len()]);
                }
            }
            assert(is_ascii_text(name));
            assert(ascii_lower(name) == name);
        }
        law_canonical_is_idempotent(raw);
    }
}

/// The process name of an ASCII text stands for itself, where it is a bare file
/// name.
pub proof fn law_ascii_canonical_is_idempotent(raw: Seq<char>)
    requires
        is_ascii_text(raw),
    ensures
        canonical_of(raw) matches Some(name) ==> (is_bare(name) ==> canonical_of(name) == Some(
            name,
        )),
{
    let path = trim_of(raw);
    law_lower_ascii(raw);
    lemma_file_name_is_ascii(path);
    law_lower_ascii(last_name(path));
    law_lower_ascii(trim_of(last_name(path)));
    law_lower_file_name_stays(raw);
}

/// The arguments that are kept are the given ones in their order, each trimmed,
/// without those that are empty then.
pub proof fn law_kept_arguments(raw: Seq<Seq<char>>)
    ensures
        non_empty(trim_all(raw)) == raw.map_values(|t: Seq<char>| trim_of(t)).filter(
            |t: Seq<char>| t.len() > 0,
        ),
{
    lemma_non_empty_filters(trim_all(raw));
    assert(trim_all(raw) == raw.map_values(|t: Seq<char>| trim_of(t)));
}

proof fn lemma_non_empty_filters(s: Seq<Seq<char>>)
    ensures
        non_empty(s) == s.filter(|t: Seq<char>| t.len() > 0),
    decreases s.len(),
{
    reveal(Seq::filter);
    if s.len() > 0 {
        lemma_non_empty_filters(s.drop_last());
    }
}

/// Where some hint is not blank in lower case, the defaults have no influence; where
/// none is, the result is the defaults in lower case, in their order.
pub proof fn law_hints_before_defaults(raw: Seq<Seq<char>>, defaults: Seq<Seq<char>>)
    ensures
        ({
            let r = matchers_with_defaults_of(raw, defaults);
            let given = exists|i: int|
                0 <= i < raw.len() && lower(trim_of(#[trigger] raw[i])).len() > 0;
            &&& given ==> r == matchers_of(raw)
            &&& !given ==> r.len() == defaults.len() && forall|i: int|
                0 <= i < r.len() ==> #[trigger] r[i] == lower(defaults[i])
        }),
{
    law_matchers_are_normal(raw);
    let n = matchers_of(raw);
    if n.len() > 0 {
        assert(n.contains(n[0]));
    }
    if exists|i: int| 0 <= i < raw.len() && lower(trim_of(#[trigger] raw[i])).len() > 0 {
        let i = choose|i: int| 0 <= i < raw.len() && lower(trim_of(#[trigger] raw[i])).len() > 0;
        assert(n.contains(lower(trim_of(raw[i]))));
    }
}

/// A process name is the file name of the trimmed text, or all of it where it has
/// none, trimmed and in lower case, as it is where it ends with `.exe`, and with
/// `.exe` behind it where not; there is none where that is empty.
pub proof fn law_process_name_of_a_text(raw: Seq<char>)
    ensures
        ({
            let path = trim_of(raw);
            let name = match file_name_of(path) {
                Some(n) => lower(trim_of(n)),
                None => lower(trim_of(path)),
            };
            let n = name.len();
            let ends = n >= 4 && name[n - 4] == '.' && name[n - 3] == 'e' && name[n - 2] == 'x'
                && name[n - 1] == 'e';
            &&& path.len() == 0 || n == 0 ==> canonical_of(raw) is None
            &&& path.len() > 0 && n > 0 && ends ==> canonical_of(raw) == Some(name)
            &&& path.len() > 0 && n > 0 && !ends ==> canonical_of(raw) == Some(
                name + seq!['.', 'e', 'x', 'e'],
            )
        }),
{
    reveal_strlit(".exe");
    assert(".exe"@ == seq!['.', 'e', 'x', 'e']);
    let name = lower_file_name(raw);
    let n = name.len();
    if n >= 4 {
        let end = name.subrange(n - 4, n as int);
        if name[n - 4] == '.' && name[n - 3] == 'e' && name[n - 2] == 'x' && name[n - 1] == 'e' {
            assert(end == ".exe"@);
        } else if end == ".exe"@ {
            assert(end[0] == '.' && end[1] == 'e' && end[2] == 'x' && end[3] == 'e');
        }
    }
}

/// The names to look for come from the given texts where one of these has a process
/// name; else from the defaults where one of those has; else from the executable.
pub proof fn law_source_of_process_names(
    raw: Seq<Seq<char>>,
    exe: Seq<char>,
    defaults: Seq<Seq<char>>,
    x: Seq<char>,
)
    ensures
        ({
            let given = exists|i: int| 0 <= i < raw.len() && canonical_of(#[trigger] raw[i]) is Some;
            let fallback = exists|i: int|
                0 <= i < defaults.len() && canonical_of(#[trigger] defaults[i]) is Some;
            let r = process_names_of(raw, exe, defaults);
            &&& given ==> (r.contains(x) <==> exists|i: int|
                0 <= i < raw.len() && canonical_of(#[trigger] raw[i]) == Some(x))
            &&& !given && fallback ==> (r.contains(x) <==> exists|i: int|
                0 <= i < defaults.len() && canonical_of(#[trigger] defaults[i]) == Some(x))
            &&& !given && !fallback ==> (r.contains(x) <==> canonical_of(exe) == Some(x))
        }),
{
    law_process_names(raw, exe, defaults);
    assert(seq![exe][0] == exe);
}

/// The name of an application is the preferred one, trimmed, where that is not
/// blank; else the stem of the executable, as it is, where that is not blank; else
/// `app`.
pub proof fn law_name_of_an_application(preferred: Seq<char>, exe: Seq<char>)
    ensures
        ({
            let name = app_name_of(preferred, exe);
            &&& trim_of(preferred).len() > 0 ==> name == trim_of(preferred)
            &&& trim_of(preferred).len() == 0 ==> (file_stem_of(exe) matches Some(t) ==> (trim_of(
                t,
            ).len() > 0 ==> name == t))
            &&& trim_of(preferred).len() == 0 ==> (file_stem_of(exe) matches Some(t) ==> (trim_of(
                t,
            ).len() == 0 ==> name == seq!['a', 'p', 'p']))
            &&& trim_of(preferred).len() == 0 && file_stem_of(exe) is None ==> name == seq![
                'a',
                'p',
                'p',
            ]
        }),
{
    reveal_strlit("app");
    assert("app"@ == seq!['a', 'p', 'p']);
}

} // verus!
