//! The syntax of Windows path texts: prefixes, components, and the operations
//! that the launcher needs on them.
//!
//! A path text starts with an optional prefix (`C:`, `\\server\share`,
//! `\\.\device`, `\\?\...`), then an optional root separator, then components.
//! Both `\` and `/` separate components, except behind a verbatim prefix
//! (`\\?\`), where only `\` does.

use vstd::prelude::*;

use crate::text::{chars_of, opt_text};

verus! {

/// A path separator.
pub open spec fn is_sep(c: char) -> bool {
    c == '\\' || c == '/'
}

/// What separates components; `/` is an ordinary character in a verbatim path.
pub open spec fn separates(c: char, verbatim: bool) -> bool {
    c == '\\' || (c == '/' && !verbatim)
}

/// The place of the first separator at or behind `from`, or the end of `s`.
pub open spec fn find_sep(s: Seq<char>, from: int, verbatim: bool) -> int
    decreases s.len() - from,
{
    if from >= s.len() {
        s.len() as int
    } else if separates(s[from], verbatim) {
        from
    } else {
        find_sep(s, from + 1, verbatim)
    }
}

pub proof fn lemma_find_sep(s: Seq<char>, from: int, verbatim: bool)
    requires
        0 <= from <= s.len(),
    ensures
        from <= find_sep(s, from, verbatim) <= s.len(),
    decreases s.len() - from,
{
    if from < s.len() && !separates(s[from], verbatim) {
        lemma_find_sep(s, from + 1, verbatim);
    }
}

/// A separator stands at place `i`.
pub open spec fn sep_at(s: Seq<char>, i: int) -> bool {
    0 <= i < s.len() && is_sep(s[i])
}

/// The character `c` stands at place `i`.
pub open spec fn char_at(s: Seq<char>, i: int, c: char) -> bool {
    0 <= i < s.len() && s[i] == c
}

/// A drive letter and a colon stand at place `i`.
pub open spec fn drive_at(s: Seq<char>, i: int) -> bool {
    &&& 0 <= i
    &&& i + 1 < s.len()
    &&& ('a' <= s[i] <= 'z' || 'A' <= s[i] <= 'Z')
    &&& s[i + 1] == ':'
}

/// What there is to know of a prefix.
pub struct PrefixModel {
    /// How many characters it takes.
    pub len: int,
    /// It starts with `\\?\`.
    pub verbatim: bool,
    /// It is a bare drive such as `C:`.
    pub drive: bool,
}

/// The end of `server\share` at place `from`: the end of the share, or the end of
/// the server where the share is empty.
pub open spec fn share_end(s: Seq<char>, from: int, verbatim: bool) -> int {
    let server_end = find_sep(s, from, verbatim);
    let end = find_sep(s, server_end + 1, verbatim);
    if server_end + 1 < end {
        end
    } else {
        server_end
    }
}

/// The prefix of a path text.
pub open spec fn prefix_of(s: Seq<char>) -> Option<PrefixModel> {
    if sep_at(s, 0) && sep_at(s, 1) {
        if char_at(s, 0, '\\') && char_at(s, 1, '\\') && char_at(s, 2, '?') && char_at(
            s,
            3,
            '\\',
        ) {
            let len = if char_at(s, 4, 'U') && char_at(s, 5, 'N') && char_at(s, 6, 'C') && sep_at(
                s,
                7,
            ) {
                // \\?\UNC\server\share
                share_end(s, 8, true)
            } else if drive_at(s, 4) && (s.len() == 6 || sep_at(s, 6)) {
                // \\?\C:
                6
            } else {
                // \\?\name
                find_sep(s, 4, true)
            };
            Some(PrefixModel { len, verbatim: true, drive: false })
        } else if char_at(s, 2, '.') && sep_at(s, 3) {
            // \\.\device
            Some(PrefixModel { len: find_sep(s, 4, false), verbatim: false, drive: false })
        } else {
            // \\server\share, where neither name is empty
            let server_end = find_sep(s, 2, false);
            let end = share_end(s, 2, false);
            if server_end > 2 && end > server_end {
                Some(PrefixModel { len: end, verbatim: false, drive: false })
            } else {
                None
            }
        }
    } else if drive_at(s, 0) {
        Some(PrefixModel { len: 2, verbatim: false, drive: true })
    } else {
        None
    }
}

/// The length of the prefix, zero where there is none.
pub open spec fn prefix_len(s: Seq<char>) -> int {
    match prefix_of(s) {
        Some(p) => p.len,
        None => 0,
    }
}

/// The prefix is a verbatim one.
pub open spec fn is_verbatim(s: Seq<char>) -> bool {
    prefix_of(s) matches Some(p) && p.verbatim
}

/// A separator follows the prefix.
pub open spec fn has_root_sep(s: Seq<char>) -> bool {
    sep_at(s, prefix_len(s))
}

/// The path starts at a root: behind its prefix stands a separator, or the prefix
/// is not a bare drive and implies one.
pub open spec fn has_root(s: Seq<char>) -> bool {
    has_root_sep(s) || (prefix_of(s) matches Some(p) && !p.drive)
}

/// The path has a prefix and starts at a root.
pub open spec fn absolute(s: Seq<char>) -> bool {
    has_root(s) && prefix_of(s) is Some
}

/// The unrooted path starts with a `.` component.
pub open spec fn starts_with_dot(s: Seq<char>) -> bool {
    let n = prefix_len(s);
    !has_root(s) && char_at(s, n, '.') && (s.len() == n + 1 || sep_at(s, n + 1))
}

/// Where the components behind prefix, root and leading `.` start.
pub open spec fn body_start(s: Seq<char>) -> int {
    if has_root_sep(s) || starts_with_dot(s) {
        prefix_len(s) + 1
    } else {
        prefix_len(s)
    }
}

/// A component of a path.
pub enum Component {
    Prefix(Seq<char>),
    Root,
    CurDir,
    ParentDir,
    Normal(Seq<char>),
}

/// What a stretch of text between two separators contributes.
pub open spec fn part(t: Seq<char>, verbatim: bool) -> Seq<Component> {
    if t.len() == 0 {
        seq![]
    } else if t.len() == 1 && t[0] == '.' {
        if verbatim {
            seq![Component::CurDir]
        } else {
            seq![]
        }
    } else if t.len() == 2 && t[0] == '.' && t[1] == '.' {
        seq![Component::ParentDir]
    } else {
        seq![Component::Normal(t)]
    }
}

/// The components of `s` from place `from` on.
pub open spec fn parts(s: Seq<char>, from: int, verbatim: bool) -> Seq<Component>
    decreases s.len() - from,
{
    if from < 0 || from >= s.len() {
        seq![]
    } else {
        proof {
            lemma_find_sep(s, from, verbatim);
        }
        let end = find_sep(s, from, verbatim);
        part(s.subrange(from, end), verbatim) + if end < s.len() {
            parts(s, end + 1, verbatim)
        } else {
            seq![]
        }
    }
}

/// The components in front of the body.
pub open spec fn head(s: Seq<char>) -> Seq<Component> {
    match prefix_of(s) {
        Some(p) => seq![Component::Prefix(s.take(p.len))] + if has_root_sep(s) || (!p.drive
            && !p.verbatim) {
            seq![Component::Root]
        } else {
            seq![]
        },
        None => if has_root_sep(s) {
            seq![Component::Root]
        } else if starts_with_dot(s) {
            seq![Component::CurDir]
        } else {
            seq![]
        },
    }
}

/// The components of a path.
pub open spec fn components(s: Seq<char>) -> Seq<Component> {
    head(s) + parts(s, body_start(s), is_verbatim(s))
}

/// The last component, where it is an ordinary name.
pub open spec fn file_name_of(s: Seq<char>) -> Option<Seq<char>> {
    let c = components(s);
    if c.len() > 0 {
        match c.last() {
            Component::Normal(t) => Some(t),
            _ => None,
        }
    } else {
        None
    }
}

/// The place of the last dot, or -1.
pub open spec fn last_dot(s: Seq<char>) -> int
    decreases s.len(),
{
    if s.len() == 0 {
        -1
    } else if s.last() == '.' {
        s.len() - 1
    } else {
        last_dot(s.drop_last())
    }
}

/// A file name up to its last dot; all of it where the only dot leads or none is
/// there.
pub open spec fn stem(name: Seq<char>) -> Seq<char> {
    if last_dot(name) > 0 {
        name.take(last_dot(name))
    } else {
        name
    }
}

/// The stem of the last component, where that is an ordinary name.
pub open spec fn file_stem_of(s: Seq<char>) -> Option<Seq<char>> {
    match file_name_of(s) {
        Some(name) => Some(stem(name)),
        None => None,
    }
}

/// Where the stretch that ends at `end` starts: behind the last separator, but not
/// before `start`.
pub open spec fn stretch_start(s: Seq<char>, start: int, end: int, verbatim: bool) -> int
    decreases end - start,
{
    if end <= start {
        start
    } else if separates(s[end - 1], verbatim) {
        end
    } else {
        stretch_start(s, start, end - 1, verbatim)
    }
}

pub proof fn lemma_stretch_start(s: Seq<char>, start: int, end: int, verbatim: bool)
    requires
        start <= end,
    ensures
        start <= stretch_start(s, start, end, verbatim) <= end,
        start < end ==> start <= cut(s, start, end, verbatim) < end,
    decreases end - start,
{
    if start < end && !separates(s[end - 1], verbatim) {
        lemma_stretch_start(s, start, end - 1, verbatim);
    }
}

/// `s[start..end]` without its last stretch and the separator in front of that.
pub open spec fn cut(s: Seq<char>, start: int, end: int, verbatim: bool) -> int {
    let b = stretch_start(s, start, end, verbatim);
    if b > start {
        b - 1
    } else {
        start
    }
}

/// The end of `s[start..end]` without the stretches at its end that contribute no
/// component.
pub open spec fn trim_right(s: Seq<char>, start: int, end: int, verbatim: bool) -> int
    decreases end - start,
{
    if end <= start {
        end
    } else {
        proof {
            lemma_stretch_start(s, start, end, verbatim);
        }
        let b = stretch_start(s, start, end, verbatim);
        if part(s.subrange(b, end), verbatim).len() == 0 {
            trim_right(s, start, cut(s, start, end, verbatim), verbatim)
        } else {
            end
        }
    }
}

/// The path without its last component; none where that is a root or a prefix, or
/// where there is no component.
pub open spec fn parent_of(s: Seq<char>) -> Option<Seq<char>> {
    let start = body_start(s);
    let v = is_verbatim(s);
    let end = trim_right(s, start, s.len() as int, v);
    if end > start {
        Some(s.take(trim_right(s, start, cut(s, start, end, v), v)))
    } else if prefix_of(s) is None && starts_with_dot(s) {
        Some(seq![])
    } else {
        None
    }
}

/// `c` resolved against the components `base` of a verbatim path.
pub open spec fn push_component(base: Seq<Component>, c: Component) -> Seq<Component> {
    match c {
        Component::Root => if base.len() > 1 {
            base.take(1).push(c)
        } else {
            base.push(c)
        },
        Component::CurDir => base,
        Component::ParentDir => if base.len() > 0 && base.last() is Normal {
            base.drop_last()
        } else {
            base
        },
        _ => base.push(c),
    }
}

/// The components `added`, resolved one by one against `base`.
pub open spec fn push_components(base: Seq<Component>, added: Seq<Component>) -> Seq<Component>
    decreases added.len(),
{
    if added.len() == 0 {
        base
    } else {
        push_component(push_components(base, added.drop_last()), added.last())
    }
}

/// The text of a component.
pub open spec fn component_text(c: Component) -> Seq<char> {
    match c {
        Component::Prefix(t) => t,
        Component::Root => seq!['\\'],
        Component::CurDir => seq!['.'],
        Component::ParentDir => seq!['.', '.'],
        Component::Normal(t) => t,
    }
}

/// The text of a path from its components: a separator between two of them, except
/// next to a root.
pub open spec fn render(c: Seq<Component>) -> Seq<char>
    decreases c.len(),
{
    if c.len() == 0 {
        seq![]
    } else {
        let front = render(c.drop_last());
        let sep = c.len() > 1 && !(c[c.len() - 2] is Root) && !(c.last() is Root);
        (if sep {
            front.push('\\')
        } else {
            front
        }) + component_text(c.last())
    }
}

/// A separator has to stand between `base` and a relative path that follows it.
pub open spec fn needs_sep(base: Seq<char>) -> bool {
    &&& base.len() > 0
    &&& !is_sep(base.last())
    &&& !(prefix_of(base) matches Some(p) && p.drive && p.len == base.len())
}

/// `path`, taken from the directory `base`.
pub open spec fn joined(base: Seq<char>, path: Seq<char>) -> Seq<char> {
    if prefix_of(path) is Some {
        path
    } else if is_verbatim(base) && path.len() > 0 {
        render(push_components(components(base), components(path)))
    } else if has_root(path) {
        base.take(prefix_len(base)) + path
    } else if needs_sep(base) {
        base.push('\\') + path
    } else {
        base + path
    }
}

/// The lengths that a prefix can have.
proof fn lemma_prefix(s: Seq<char>)
    ensures
        0 <= prefix_len(s) <= s.len(),
        prefix_of(s) is Some ==> prefix_len(s) >= 2,
        0 <= body_start(s) <= s.len(),
        is_verbatim(s) ==> has_root(s),
{
    if 8 <= s.len() {
        lemma_find_sep(s, 8, true);
        if find_sep(s, 8, true) < s.len() {
            lemma_find_sep(s, find_sep(s, 8, true) + 1, true);
        }
    }
    if 4 <= s.len() {
        lemma_find_sep(s, 4, true);
        lemma_find_sep(s, 4, false);
    }
    if 2 <= s.len() {
        lemma_find_sep(s, 2, false);
        if find_sep(s, 2, false) < s.len() {
            lemma_find_sep(s, find_sep(s, 2, false) + 1, false);
        }
    }
}

/// The body starts within the text.
pub proof fn lemma_body_start(s: Seq<char>)
    ensures
        0 <= body_start(s) <= s.len(),
{
    lemma_prefix(s);
}

/// How a path text is laid out.
struct Layout {
    has_prefix: bool,
    prefix_len: usize,
    verbatim: bool,
    drive: bool,
    root_sep: bool,
    dot: bool,
}

impl Layout {
    spec fn of(self, s: Seq<char>) -> bool {
        &&& self.has_prefix == prefix_of(s) is Some
        &&& prefix_of(s) == (if self.has_prefix {
            Some(
                PrefixModel {
                    len: self.prefix_len as int,
                    verbatim: self.verbatim,
                    drive: self.drive,
                },
            )
        } else {
            None
        })
        &&& self.prefix_len == prefix_len(s)
        &&& self.verbatim == is_verbatim(s)
        &&& self.root_sep == has_root_sep(s)
        &&& self.dot == starts_with_dot(s)
    }

    fn body_start(&self, s: &Vec<char>) -> (r: usize)
        requires
            self.of(s@),
        ensures
            r == body_start(s@),
            r <= s.len(),
    {
        proof {
            lemma_prefix(s@);
            assert(s.len() == s@.len());
        }
        if self.root_sep || self.dot {
            self.prefix_len + 1
        } else {
            self.prefix_len
        }
    }

    fn rooted(&self, s: &Vec<char>) -> (r: bool)
        requires
            self.of(s@),
        ensures
            r == has_root(s@),
    {
        self.root_sep || (self.has_prefix && !self.drive)
    }
}

fn separator(c: char) -> (r: bool)
    ensures
        r == is_sep(c),
{
    c == '\\' || c == '/'
}

fn separator_at(s: &Vec<char>, i: usize) -> (r: bool)
    ensures
        r == sep_at(s@, i as int),
{
    i < s.len() && separator(s[i])
}

fn stands_at(s: &Vec<char>, i: usize, c: char) -> (r: bool)
    ensures
        r == char_at(s@, i as int, c),
{
    i < s.len() && s[i] == c
}

fn drive_stands_at(s: &Vec<char>, i: usize) -> (r: bool)
    requires
        i < usize::MAX,
    ensures
        r == drive_at(s@, i as int),
{
    i < s.len() && i + 1 < s.len() && (('a' <= s[i] && s[i] <= 'z') || ('A' <= s[i] && s[i]
        <= 'Z')) && s[i + 1] == ':'
}

fn next_sep(s: &Vec<char>, from: usize, verbatim: bool) -> (r: usize)
    requires
        from <= s.len(),
    ensures
        r == find_sep(s@, from as int, verbatim),
        from <= r <= s.len(),
{
    let mut i = from;
    while i < s.len()
        invariant
            from <= i <= s.len(),
            find_sep(s@, from as int, verbatim) == find_sep(s@, i as int, verbatim),
        decreases s.len() - i,
    {
        if s[i] == '\\' || (s[i] == '/' && !verbatim) {
            return i;
        }
        i += 1;
    }
    i
}

/// The ends of the server name and of `server\share`.
fn share_ends(s: &Vec<char>, from: usize, verbatim: bool) -> (r: (usize, usize))
    requires
        from <= s.len(),
    ensures
        r.0 == find_sep(s@, from as int, verbatim),
        r.1 == share_end(s@, from as int, verbatim),
        r.1 <= s.len(),
{
    let server_end = next_sep(s, from, verbatim);
    if server_end < s.len() {
        let end = next_sep(s, server_end + 1, verbatim);
        if server_end + 1 < end {
            (server_end, end)
        } else {
            (server_end, server_end)
        }
    } else {
        (server_end, server_end)
    }
}

/// The length of the prefix, and whether it is verbatim and whether a bare drive.
fn find_prefix(s: &Vec<char>) -> (r: Option<(usize, bool, bool)>)
    ensures
        prefix_of(s@) == (match r {
            Some(p) => Some(PrefixModel { len: p.0 as int, verbatim: p.1, drive: p.2 }),
            None => None,
        }),
{
    if separator_at(s, 0) && separator_at(s, 1) {
        if stands_at(s, 0, '\\') && stands_at(s, 1, '\\') && stands_at(s, 2, '?') && stands_at(
            s,
            3,
            '\\',
        ) {
            if stands_at(s, 4, 'U') && stands_at(s, 5, 'N') && stands_at(s, 6, 'C')
                && separator_at(s, 7) {
                let ends = share_ends(s, 8, true);
                Some((ends.1, true, false))
            } else if drive_stands_at(s, 4) && (s.len() == 6 || separator_at(s, 6)) {
                Some((6, true, false))
            } else {
                Some((next_sep(s, 4, true), true, false))
            }
        } else if stands_at(s, 2, '.') && separator_at(s, 3) {
            Some((next_sep(s, 4, false), false, false))
        } else {
            let ends = share_ends(s, 2, false);
            if ends.0 > 2 && ends.1 > ends.0 {
                Some((ends.1, false, false))
            } else {
                None
            }
        }
    } else if drive_stands_at(s, 0) {
        Some((2, false, true))
    } else {
        None
    }
}

fn layout(s: &Vec<char>) -> (r: Layout)
    ensures
        r.of(s@),
{
    proof {
        lemma_prefix(s@);
    }
    let (has_prefix, prefix_len, verbatim, drive): (bool, usize, bool, bool) = match find_prefix(
        s,
    ) {
        Some((n, v, d)) => (true, n, v, d),
        None => (false, 0, false, false),
    };
    let root_sep = separator_at(s, prefix_len);
    let rooted = root_sep || (has_prefix && !drive);
    let dot = !rooted && stands_at(s, prefix_len, '.') && (s.len() == prefix_len + 1
        || separator_at(s, prefix_len + 1));
    Layout { has_prefix, prefix_len, verbatim, drive, root_sep, dot }
}

/// A component of a path.
enum Part {
    Prefix(String),
    Root,
    CurDir,
    ParentDir,
    Normal(String),
}

impl View for Part {
    type V = Component;

    closed spec fn view(&self) -> Component {
        match self {
            Part::Prefix(t) => Component::Prefix(t@),
            Part::Root => Component::Root,
            Part::CurDir => Component::CurDir,
            Part::ParentDir => Component::ParentDir,
            Part::Normal(t) => Component::Normal(t@),
        }
    }
}

spec fn views(v: Seq<Part>) -> Seq<Component> {
    v.map_values(|p: Part| p@)
}

/// Adds what `s[from..to]`, a stretch without separators, contributes.
fn add_part(out: &mut Vec<Part>, s: &str, c: &Vec<char>, from: usize, to: usize, verbatim: bool)
    requires
        c@ == s@,
        from <= to <= c.len(),
    ensures
        views(final(out)@) == views(old(out)@) + part(s@.subrange(from as int, to as int), verbatim),
{
    let ghost t = s@.subrange(from as int, to as int);
    let ghost before = views(out@);
    if from == to {
        assert(before + part(t, verbatim) == before);
    } else if to - from == 1 && c[from] == '.' {
        if verbatim {
            out.push(Part::CurDir);
            assert(views(out@) == before.push(Component::CurDir));
            assert(before + part(t, verbatim) == before.push(Component::CurDir));
        } else {
            assert(before + part(t, verbatim) == before);
        }
    } else if to - from == 2 && c[from] == '.' && c[from + 1] == '.' {
        out.push(Part::ParentDir);
        assert(views(out@) == before.push(Component::ParentDir));
        assert(before + part(t, verbatim) == before.push(Component::ParentDir));
    } else {
        out.push(Part::Normal(s.substring_char(from, to).to_owned()));
        assert(views(out@) == before.push(Component::Normal(t)));
        assert(before + part(t, verbatim) == before.push(Component::Normal(t)));
    }
}

/// The components of a path.
fn split(s: &str, c: &Vec<char>, l: &Layout) -> (out: Vec<Part>)
    requires
        c@ == s@,
        l.of(s@),
    ensures
        views(out@) == components(s@),
{
    proof {
        lemma_prefix(s@);
    }
    let mut out: Vec<Part> = Vec::new();
    if l.has_prefix {
        out.push(Part::Prefix(s.substring_char(0, l.prefix_len).to_owned()));
        assert(s@.subrange(0, l.prefix_len as int) == s@.take(l.prefix_len as int));
        if l.root_sep || (!l.drive && !l.verbatim) {
            out.push(Part::Root);
        }
    } else if l.root_sep {
        out.push(Part::Root);
    } else if l.dot {
        out.push(Part::CurDir);
    }
    assert(views(out@) == head(s@));
    let mut from: usize = l.body_start(c);
    while from < c.len()
        invariant
            c@ == s@,
            from <= c.len(),
            views(out@) + parts(s@, from as int, l.verbatim) == head(s@) + parts(
                s@,
                body_start(s@),
                l.verbatim,
            ),
        decreases c.len() - from,
    {
        let end = next_sep(c, from, l.verbatim);
        let ghost before = views(out@);
        let ghost p = part(s@.subrange(from as int, end as int), l.verbatim);
        add_part(&mut out, s, c, from, end, l.verbatim);
        if end < c.len() {
            proof {
                let rest = parts(s@, end + 1, l.verbatim);
                assert(parts(s@, from as int, l.verbatim) == p + rest);
                assert(before + (p + rest) == (before + p) + rest);
            }
            from = end + 1;
        } else {
            proof {
                assert(parts(s@, from as int, l.verbatim) == p + seq![]);
                assert(p + seq![] == p);
                assert((before + p) + Seq::<Component>::empty() == before + p);
            }
            from = end;
        }
    }
    assert(views(out@) + Seq::<Component>::empty() == views(out@));
    out
}

/// The last component, where it is an ordinary name.
pub fn file_name(path: &str) -> (r: Option<String>)
    ensures
        opt_text(r) == file_name_of(path@),
{
    let c = chars_of(path);
    let l = layout(&c);
    let mut all = split(path, &c, &l);
    assert(all@.len() == components(path@).len());
    let ghost whole = all@;
    match all.pop() {
        Some(Part::Normal(t)) => {
            assert(views(whole).last() == Component::Normal(t@));
            Some(t)
        },
        Some(p) => {
            assert(views(whole).last() == p@);
            None
        },
        None => None,
    }
}

proof fn lemma_last_dot(s: Seq<char>, n: int)
    requires
        0 <= n <= s.len(),
        forall|i: int| n <= i < s.len() ==> s[i] != '.',
    ensures
        last_dot(s) == last_dot(s.take(n)),
    decreases s.len() - n,
{
    if n < s.len() {
        lemma_last_dot(s.drop_last(), n);
        assert(s.drop_last().take(n) == s.take(n));
    } else {
        assert(s.take(n) == s);
    }
}

/// The stem of the last component, where that is an ordinary name.
pub fn file_stem(path: &str) -> (r: Option<String>)
    ensures
        opt_text(r) == file_stem_of(path@),
{
    match file_name(path) {
        Some(name) => {
            let c = chars_of(name.as_str());
            let mut n: usize = c.len();
            while n > 0
                invariant
                    c@ == name@,
                    n <= c.len(),
                    forall|i: int| n <= i < c.len() ==> c@[i] != '.',
                    file_name_of(path@) == Some(name@),
                decreases n,
            {
                if c[n - 1] == '.' {
                    proof {
                        lemma_last_dot(name@, n as int);
                        assert(name@.take(n as int).last() == '.');
                        assert(last_dot(name@) == n - 1);
                        assert(name@.subrange(0, n - 1) == name@.take(n - 1));
                    }
                    if n > 1 {
                        return Some(name.as_str().substring_char(0, n - 1).to_owned());
                    } else {
                        return Some(name);
                    }
                }
                n -= 1;
            }
            proof {
                lemma_last_dot(name@, 0);
            }
            Some(name)
        },
        None => None,
    }
}

/// Whether a path is absolute.
pub fn is_absolute(path: &str) -> (r: bool)
    ensures
        r == absolute(path@),
{
    let c = chars_of(path);
    let l = layout(&c);
    l.has_prefix && l.rooted(&c)
}

fn find_stretch_start(c: &Vec<char>, start: usize, end: usize, verbatim: bool) -> (r: usize)
    requires
        start <= end <= c.len(),
    ensures
        r == stretch_start(c@, start as int, end as int, verbatim),
        start <= r <= end,
{
    let mut i = end;
    while i > start
        invariant
            start <= i <= end <= c.len(),
            stretch_start(c@, start as int, end as int, verbatim) == stretch_start(
                c@,
                start as int,
                i as int,
                verbatim,
            ),
        decreases i,
    {
        if c[i - 1] == '\\' || (c[i - 1] == '/' && !verbatim) {
            return i;
        }
        i -= 1;
    }
    i
}

/// Whether a stretch contributes no component.
fn is_silent(c: &Vec<char>, from: usize, to: usize, verbatim: bool) -> (r: bool)
    requires
        from <= to <= c.len(),
    ensures
        r == (part(c@.subrange(from as int, to as int), verbatim).len() == 0),
{
    let ghost t = c@.subrange(from as int, to as int);
    if from == to {
        assert(t.len() == 0);
        true
    } else {
        assert(t.len() == to - from && t[0] == c@[from as int]);
        !verbatim && to - from == 1 && c[from] == '.'
    }
}

fn trimmed_end(c: &Vec<char>, start: usize, end: usize, verbatim: bool) -> (r: usize)
    requires
        start <= end <= c.len(),
    ensures
        r == trim_right(c@, start as int, end as int, verbatim),
        start <= r <= end,
{
    let mut e = end;
    while e > start
        invariant
            start <= e <= end <= c.len(),
            trim_right(c@, start as int, end as int, verbatim) == trim_right(
                c@,
                start as int,
                e as int,
                verbatim,
            ),
        decreases e,
    {
        proof {
            lemma_stretch_start(c@, start as int, e as int, verbatim);
        }
        let b = find_stretch_start(c, start, e, verbatim);
        if !is_silent(c, b, e, verbatim) {
            return e;
        }
        e = if b > start {
            b - 1
        } else {
            start
        };
    }
    e
}

/// The path without its last component; none where that is a root or a prefix, or
/// where there is no component.
pub fn parent(path: &str) -> (r: Option<String>)
    ensures
        opt_text(r) == parent_of(path@),
{
    let c = chars_of(path);
    let l = layout(&c);
    let start = l.body_start(&c);
    let end = trimmed_end(&c, start, c.len(), l.verbatim);
    if end > start {
        proof {
            lemma_stretch_start(c@, start as int, end as int, l.verbatim);
        }
        let b = find_stretch_start(&c, start, end, l.verbatim);
        let n = trimmed_end(
            &c,
            start,
            if b > start {
                b - 1
            } else {
                start
            },
            l.verbatim,
        );
        assert(path@.subrange(0, n as int) == path@.take(n as int));
        Some(path.substring_char(0, n).to_owned())
    } else if !l.has_prefix && l.dot {
        Some(String::new())
    } else {
        None
    }
}

fn is_normal(p: &Part) -> (r: bool)
    ensures
        r == (p@ is Normal),
{
    match p {
        Part::Normal(_) => true,
        _ => false,
    }
}

fn is_root(p: &Part) -> (r: bool)
    ensures
        r == (p@ is Root),
{
    match p {
        Part::Root => true,
        _ => false,
    }
}

/// Resolves `p` against the components `base` of a verbatim path.
fn resolve_part(base: &mut Vec<Part>, p: Part)
    ensures
        views(final(base)@) == push_component(views(old(base)@), p@),
{
    let ghost before = views(base@);
    match p {
        Part::Root => {
            if base.len() > 1 {
                base.truncate(1);
                assert(views(base@) == before.take(1));
            }
            base.push(Part::Root);
        },
        Part::CurDir => {},
        Part::ParentDir => {
            if base.len() > 0 {
                assert(before.last() == base@.last()@);
                if is_normal(&base[base.len() - 1]) {
                    base.pop();
                    assert(views(base@) == before.drop_last());
                }
            }
        },
        Part::Prefix(t) => {
            base.push(Part::Prefix(t));
            assert(views(base@) == before.push(Component::Prefix(t@)));
        },
        Part::Normal(t) => {
            base.push(Part::Normal(t));
            assert(views(base@) == before.push(Component::Normal(t@)));
        },
    }
}

fn append_part_text(out: &mut String, p: &Part)
    ensures
        final(out)@ == old(out)@ + component_text(p@),
{
    proof {
        reveal_strlit("\\");
        reveal_strlit(".");
        reveal_strlit("..");
        assert("\\"@ == seq!['\\']);
        assert("."@ == seq!['.']);
        assert(".."@ == seq!['.', '.']);
    }
    match p {
        Part::Prefix(t) => out.append(t.as_str()),
        Part::Root => out.append("\\"),
        Part::CurDir => out.append("."),
        Part::ParentDir => out.append(".."),
        Part::Normal(t) => out.append(t.as_str()),
    }
}

/// The text of a path from its components.
fn rendered(all: &Vec<Part>) -> (out: String)
    ensures
        out@ == render(views(all@)),
{
    let ghost v = views(all@);
    let mut out = String::new();
    let mut i: usize = 0;
    assert(v.take(0) == Seq::<Component>::empty());
    while i < all.len()
        invariant
            v == views(all@),
            i <= all.len(),
            out@ == render(v.take(i as int)),
        decreases all.len() - i,
    {
        proof {
            let t = v.take(i + 1);
            assert(t.drop_last() == v.take(i as int));
            assert(t.last() == all@[i as int]@);
            assert(i > 0 ==> t[i - 1] == all@[i - 1]@);
            reveal_strlit("\\");
            assert(render(v.take(i as int)).push('\\') == render(v.take(i as int)) + "\\"@);
        }
        if i > 0 && !is_root(&all[i - 1]) && !is_root(&all[i]) {
            out.append("\\");
        }
        append_part_text(&mut out, &all[i]);
        i += 1;
    }
    assert(v.take(v.len() as int) == v);
    out
}

/// `path`, taken from the directory `base`.
pub fn join(base: &str, path: &str) -> (r: String)
    ensures
        r@ == joined(base@, path@),
{
    let bc = chars_of(base);
    let pc = chars_of(path);
    let bl = layout(&bc);
    let pl = layout(&pc);
    proof {
        lemma_prefix(base@);
        reveal_strlit("\\");
        assert(base@.push('\\') == base@ + "\\"@);
        assert(base@.subrange(0, bl.prefix_len as int) == base@.take(bl.prefix_len as int));
    }
    if pl.has_prefix {
        path.to_owned()
    } else if bl.verbatim && pc.len() > 0 {
        let mut all = split(base, &bc, &bl);
        let added = split(path, &pc, &pl);
        let ghost start = views(all@);
        let ghost extra = views(added@);
        assert(extra.take(0) == Seq::<Component>::empty());
        let mut rest = added;
        let mut i: usize = 0;
        let n = rest.len();
        while i < n
            invariant
                i <= n,
                rest.len() == n - i,
                extra.len() == n,
                views(rest@) == extra.skip(i as int),
                views(all@) == push_components(start, extra.take(i as int)),
            decreases n - i,
        {
            let ghost r0 = rest@;
            let p = rest.remove(0);
            proof {
                assert(p@ == views(r0)[0]);
                assert(p@ == extra[i as int]);
                assert forall|k: int| 0 <= k < rest.len() implies #[trigger] views(rest@)[k]
                    == extra.skip(i + 1)[k] by {
                    assert(rest@[k] == r0[k + 1]);
                    assert(views(r0)[k + 1] == extra.skip(i as int)[k + 1]);
                }
                assert(views(rest@) == extra.skip(i + 1));
                assert(extra.take(i + 1).drop_last() == extra.take(i as int));
                assert(extra.take(i + 1).last() == p@);
            }
            resolve_part(&mut all, p);
            i += 1;
        }
        assert(extra.take(n as int) == extra);
        rendered(&all)
    } else if pl.rooted(&pc) {
        let mut r = base.substring_char(0, bl.prefix_len).to_owned();
        r.append(path);
        r
    } else if bc.len() > 0 && !separator(bc[bc.len() - 1]) && !(bl.has_prefix && bl.drive
        && bl.prefix_len == bc.len()) {
        let mut r = base.to_owned();
        r.append("\\");
        r.append(path);
        r
    } else {
        let mut r = base.to_owned();
        r.append(path);
        r
    }
}

proof fn lemma_find_sep_in_front(s: Seq<char>, from: int, n: int, verbatim: bool)
    requires
        0 <= from <= n <= s.len(),
    ensures
        find_sep(s.take(n), from, verbatim) == if find_sep(s, from, verbatim) < n {
            find_sep(s, from, verbatim)
        } else {
            n
        },
    decreases n - from,
{
    lemma_find_sep(s, from, verbatim);
    if from < n && !separates(s[from], verbatim) {
        lemma_find_sep_in_front(s, from + 1, n, verbatim);
    }
}

/// The separator that `find_sep` finds, and that none stands in front of it.
proof fn lemma_found_sep(s: Seq<char>, from: int, verbatim: bool)
    requires
        0 <= from <= s.len(),
    ensures
        find_sep(s, from, verbatim) < s.len() ==> separates(
            s[find_sep(s, from, verbatim)],
            verbatim,
        ),
        forall|i: int|
            from <= i < find_sep(s, from, verbatim) ==> !separates(#[trigger] s[i], verbatim),
    decreases s.len() - from,
{
    if from < s.len() && !separates(s[from], verbatim) {
        lemma_found_sep(s, from + 1, verbatim);
    }
}

/// Without separators from `from` on there is one stretch.
proof fn lemma_last_stretch(s: Seq<char>, from: int, verbatim: bool)
    requires
        0 <= from <= s.len(),
        forall|i: int| from <= i < s.len() ==> !separates(#[trigger] s[i], verbatim),
    ensures
        parts(s, from, verbatim) == part(s.subrange(from, s.len() as int), verbatim),
{
    lemma_find_sep(s, from, verbatim);
    lemma_found_sep(s, from, verbatim);
    let t = s.subrange(from, s.len() as int);
    if from == s.len() {
        assert(t == Seq::<char>::empty());
    } else {
        assert(find_sep(s, from, verbatim) == s.len());
        assert(part(t, verbatim) + Seq::<Component>::empty() == part(t, verbatim));
    }
}

/// The components up to the last separator, and the stretch behind it.
proof fn lemma_split_at_last_sep(s: Seq<char>, from: int, q: int, verbatim: bool)
    requires
        0 <= from <= q < s.len(),
        separates(s[q], verbatim),
        forall|i: int| q < i < s.len() ==> !separates(#[trigger] s[i], verbatim),
    ensures
        parts(s, from, verbatim) == parts(s.take(q), from, verbatim) + part(
            s.subrange(q + 1, s.len() as int),
            verbatim,
        ),
    decreases q - from,
{
    let front = s.take(q);
    let tail = part(s.subrange(q + 1, s.len() as int), verbatim);
    let e = find_sep(s, from, verbatim);
    lemma_find_sep(s, from, verbatim);
    lemma_found_sep(s, from, verbatim);
    lemma_find_sep_in_front(s, from, q, verbatim);
    assert(e <= q);
    let first = part(s.subrange(from, e), verbatim);
    assert(parts(s, from, verbatim) == first + parts(s, e + 1, verbatim));
    if e == q {
        lemma_last_stretch(s, q + 1, verbatim);
        if from == q {
            assert(s.subrange(from, e) == Seq::<char>::empty());
            assert(parts(front, from, verbatim) == Seq::<Component>::empty());
            assert(first + tail == Seq::<Component>::empty() + tail);
        } else {
            assert(front.subrange(from, q) == s.subrange(from, q));
            assert(parts(front, from, verbatim) == first + Seq::<Component>::empty());
            assert(first + Seq::<Component>::empty() == first);
        }
    } else {
        lemma_split_at_last_sep(s, e + 1, q, verbatim);
        assert(front.subrange(from, e) == s.subrange(from, e));
        assert(parts(front, from, verbatim) == first + parts(front, e + 1, verbatim));
        assert(first + (parts(front, e + 1, verbatim) + tail) == (first + parts(
            front,
            e + 1,
            verbatim,
        )) + tail);
    }
}

proof fn lemma_stretch(s: Seq<char>, start: int, end: int, verbatim: bool)
    requires
        0 <= start <= end <= s.len(),
    ensures
        ({
            let b = stretch_start(s, start, end, verbatim);
            &&& forall|i: int| b <= i < end ==> !separates(#[trigger] s[i], verbatim)
            &&& b > start ==> separates(s[b - 1], verbatim)
        }),
    decreases end - start,
{
    if start < end && !separates(s[end - 1], verbatim) {
        lemma_stretch(s, start, end - 1, verbatim);
    }
}

/// The components without the last stretch, and that stretch.
proof fn lemma_cut(s: Seq<char>, start: int, end: int, verbatim: bool)
    requires
        0 <= start < end <= s.len(),
    ensures
        parts(s.take(end), start, verbatim) == parts(
            s.take(cut(s, start, end, verbatim)),
            start,
            verbatim,
        ) + part(s.subrange(stretch_start(s, start, end, verbatim), end), verbatim),
        cut(s, start, end, verbatim) == start || separates(
            s[cut(s, start, end, verbatim)],
            verbatim,
        ),
{
    let t = s.take(end);
    let b = stretch_start(s, start, end, verbatim);
    lemma_stretch_start(s, start, end, verbatim);
    lemma_stretch(s, start, end, verbatim);
    assert(t.subrange(b, end) == s.subrange(b, end));
    if b > start {
        assert(t.take(b - 1) == s.take(b - 1));
        lemma_split_at_last_sep(t, start, b - 1, verbatim);
    } else {
        lemma_last_stretch(t, start, verbatim);
        assert(parts(s.take(start), start, verbatim) == Seq::<Component>::empty());
        assert(Seq::<Component>::empty() + part(s.subrange(b, end), verbatim) == part(
            s.subrange(b, end),
            verbatim,
        ));
    }
}

proof fn lemma_trim_right(s: Seq<char>, start: int, end: int, verbatim: bool)
    requires
        0 <= start <= end <= s.len(),
    ensures
        ({
            let e = trim_right(s, start, end, verbatim);
            &&& start <= e <= end
            &&& parts(s.take(e), start, verbatim) == parts(s.take(end), start, verbatim)
            &&& e == end || e == start || separates(s[e], verbatim)
            &&& e > start ==> part(
                s.subrange(stretch_start(s, start, e, verbatim), e),
                verbatim,
            ).len() > 0
        }),
    decreases end - start,
{
    if start < end {
        lemma_stretch_start(s, start, end, verbatim);
        let b = stretch_start(s, start, end, verbatim);
        let c = cut(s, start, end, verbatim);
        if part(s.subrange(b, end), verbatim).len() == 0 {
            lemma_cut(s, start, end, verbatim);
            lemma_trim_right(s, start, c, verbatim);
            assert(parts(s.take(c), start, verbatim) + part(s.subrange(b, end), verbatim) == parts(
                s.take(c),
                start,
                verbatim,
            ));
        }
    }
}

proof fn lemma_same_share(s: Seq<char>, from: int, n: int, verbatim: bool)
    requires
        0 <= from <= n <= s.len(),
    ensures
        share_end(s, from, verbatim) <= n ==> share_end(s.take(n), from, verbatim) == share_end(
            s,
            from,
            verbatim,
        ),
        share_end(s, from, verbatim) <= n ==> find_sep(s.take(n), from, verbatim) == find_sep(
            s,
            from,
            verbatim,
        ),
        from <= find_sep(s, from, verbatim) <= share_end(s, from, verbatim) <= s.len(),
        find_sep(s, from, verbatim) == share_end(s, from, verbatim) ==> find_sep(
            s.take(n),
            from,
            verbatim,
        ) == share_end(s.take(n), from, verbatim),
{
    lemma_find_sep_in_front(s, from, n, verbatim);
    lemma_find_sep(s, from, verbatim);
    let server_end = find_sep(s, from, verbatim);
    if server_end < s.len() {
        lemma_find_sep(s, server_end + 1, verbatim);
        if server_end + 1 <= n {
            lemma_find_sep_in_front(s, server_end + 1, n, verbatim);
        }
    }
}

/// The front of a path has the prefix of the path.
proof fn lemma_same_prefix(s: Seq<char>, n: int)
    requires
        prefix_len(s) <= n <= s.len(),
    ensures
        prefix_of(s.take(n)) == prefix_of(s),
{
    let t = s.take(n);
    lemma_prefix(s);
    assert(t.len() == n);
    assert forall|i: int| 0 <= i < n implies #[trigger] t[i] == s[i] by {}
    if sep_at(s, 0) && sep_at(s, 1) {
        if char_at(s, 0, '\\') && char_at(s, 1, '\\') && char_at(s, 2, '?') && char_at(
            s,
            3,
            '\\',
        ) {
            lemma_find_sep(s, 4, true);
            if char_at(s, 4, 'U') && char_at(s, 5, 'N') && char_at(s, 6, 'C') && sep_at(s, 7) {
                lemma_find_sep(s, 8, true);
                lemma_same_share_end(s, 8, true);
                lemma_same_share(s, 8, n, true);
            } else if drive_at(s, 4) && (s.len() == 6 || sep_at(s, 6)) {
                assert(drive_at(t, 4));
                assert(!char_at(t, 5, 'N'));
            } else {
                assert(n >= 4);
                lemma_find_sep_in_front(s, 4, n, true);
                lemma_found_sep(s, 4, true);
                if drive_at(t, 4) {
                    assert(drive_at(s, 4));
                    assert(n >= 6);
                }
                if sep_at(t, 7) {
                    assert(sep_at(s, 7));
                }
            }
        } else if char_at(s, 2, '.') && sep_at(s, 3) {
            lemma_find_sep(s, 4, false);
            lemma_find_sep_in_front(s, 4, n, false);
            assert(!char_at(t, 2, '?'));
        } else {
            assert(!(char_at(t, 0, '\\') && char_at(t, 1, '\\') && char_at(t, 2, '?') && char_at(
                t,
                3,
                '\\',
            )));
            assert(!(char_at(t, 2, '.') && sep_at(t, 3)));
            if n >= 2 {
                lemma_same_share(s, 2, n, false);
                lemma_same_share(s, 2, s.len() as int, false);
                lemma_find_sep_in_front(s, 2, n, false);
            }
        }
    } else {
        assert(!(sep_at(t, 0) && sep_at(t, 1)));
        assert(drive_at(t, 0) ==> drive_at(s, 0));
        if drive_at(s, 0) {
            assert(drive_at(t, 0));
        }
    }
}

proof fn lemma_same_share_end(s: Seq<char>, from: int, verbatim: bool)
    requires
        0 <= from <= s.len(),
    ensures
        from <= share_end(s, from, verbatim),
{
    lemma_same_share(s, from, s.len() as int, verbatim);
}

/// The front of a path, cut at a separator behind the head, has the head of the
/// path.
proof fn lemma_same_head(s: Seq<char>, n: int)
    requires
        body_start(s) <= n < s.len(),
        n == body_start(s) || separates(s[n], is_verbatim(s)),
    ensures
        head(s.take(n)) == head(s),
        body_start(s.take(n)) == body_start(s),
        is_verbatim(s.take(n)) == is_verbatim(s),
{
    let dir = s.take(n);
    let plen = prefix_len(s);
    lemma_prefix(s);
    lemma_same_prefix(s, n);
    assert(prefix_len(dir) == plen);
    assert(dir.len() == n);
    assert(has_root_sep(dir) == has_root_sep(s)) by {
        if plen < n {
            assert(dir[plen] == s[plen]);
        } else {
            assert(!has_root_sep(s));
        }
    }
    assert(has_root(dir) == has_root(s));
    assert(starts_with_dot(dir) == starts_with_dot(s)) by {
        if starts_with_dot(s) {
            assert(n >= plen + 1);
            assert(dir[plen] == s[plen]);
            if n > plen + 1 {
                assert(dir[plen + 1] == s[plen + 1]);
            }
        } else if starts_with_dot(dir) {
            assert(s[plen] == '.');
            if n > plen + 1 {
                assert(dir[plen + 1] == s[plen + 1]);
            } else {
                assert(body_start(s) == plen);
                assert(separates(s[n], is_verbatim(s)));
            }
        }
    }
    if prefix_of(s) is Some {
        assert(dir.take(plen) == s.take(plen));
    }
}

/// The parent of a path has all its components but the last.
pub proof fn law_parent_drops_last_component(s: Seq<char>)
    ensures
        parent_of(s) matches Some(dir) ==> components(s).len() > 0 && components(dir)
            == components(s).drop_last(),
{
    let start = body_start(s);
    let v = is_verbatim(s);
    let len = s.len() as int;
    lemma_prefix(s);
    lemma_trim_right(s, start, len, v);
    assert(s.take(len) == s);
    let end = trim_right(s, start, len, v);
    if end > start {
        lemma_cut(s, start, end, v);
        lemma_stretch_start(s, start, end, v);
        let c = cut(s, start, end, v);
        lemma_trim_right(s, start, c, v);
        let n = trim_right(s, start, c, v);
        let dir = s.take(n);
        let last = part(s.subrange(stretch_start(s, start, end, v), end), v);
        assert(last.len() == 1);
        let front = parts(dir, start, v);
        assert(parts(s, start, v) == front + last);
        lemma_same_head(s, n);
        assert(components(dir) == head(s) + front);
        assert(components(s) == head(s) + (front + last));
        assert((head(s) + (front + last)).drop_last() == head(s) + front);
    } else if prefix_of(s) is None && starts_with_dot(s) {
        lemma_lone_dot(s);
    }
}

proof fn lemma_lone_dot(s: Seq<char>)
    requires
        prefix_of(s) is None,
        starts_with_dot(s),
        trim_right(s, body_start(s), s.len() as int, is_verbatim(s)) <= body_start(s),
    ensures
        components(s) == seq![Component::CurDir],
        components(Seq::empty()) == Seq::<Component>::empty(),
{
    let start = body_start(s);
    let v = is_verbatim(s);
    let end = trim_right(s, start, s.len() as int, v);
    lemma_prefix(s);
    lemma_trim_right(s, start, s.len() as int, v);
    assert(s.take(s.len() as int) == s);
    assert(parts(s.take(end), start, v) == Seq::<Component>::empty());
    assert(seq![Component::CurDir] + Seq::<Component>::empty() == seq![Component::CurDir]);
    let none = Seq::<char>::empty();
    assert(prefix_of(none) is None);
    assert(head(none) == Seq::<Component>::empty());
    assert(parts(none, body_start(none), is_verbatim(none)) == Seq::<Component>::empty());
    assert(components(none) == Seq::<Component>::empty());
}

/// Whether a path is absolute.  One that does not start with two separators is where
/// a drive letter, a colon and a separator open it.  One that does is where it opens
/// with `\\?\`, or goes on with a dot and a separator, or with a server's name, a
/// separator and a share's name.
pub proof fn law_absolute_paths(s: Seq<char>)
    ensures
        ({
            let twice = s.len() >= 2 && (s[0] == '\\' || s[0] == '/') && (s[1] == '\\' || s[1]
                == '/');
            let drive = s.len() >= 3 && ('a' <= s[0] <= 'z' || 'A' <= s[0] <= 'Z') && s[1] == ':'
                && (s[2] == '\\' || s[2] == '/');
            let verbatim = s.len() >= 4 && s[0] == '\\' && s[1] == '\\' && s[2] == '?' && s[3]
                == '\\';
            let device = s.len() >= 4 && s[2] == '.' && (s[3] == '\\' || s[3] == '/');
            let share = exists|k: int|
                2 < k && k + 1 < s.len() && (#[trigger] s[k] == '\\' || s[k] == '/') && s[k + 1]
                    != '\\' && s[k + 1] != '/' && forall|i: int|
                    2 <= i < k ==> s[i] != '\\' && s[i] != '/';
            &&& !twice ==> (absolute(s) <==> drive)
            &&& twice ==> (absolute(s) <==> verbatim || device || share)
            &&& is_verbatim(s) <==> verbatim
        }),
{
    if sep_at(s, 0) && sep_at(s, 1) {
        lemma_find_sep(s, 2, false);
        lemma_found_sep(s, 2, false);
        let k = find_sep(s, 2, false);
        if k < s.len() {
            lemma_find_sep(s, k + 1, false);
            lemma_found_sep(s, k + 1, false);
            let e = find_sep(s, k + 1, false);
            if 2 < k && e > k + 1 {
                assert(!separates(s[k + 1], false));
                assert(separates(s[k], false));
                assert forall|i: int| 2 <= i < k implies s[i] != '\\' && s[i] != '/' by {
                    assert(!separates(s[i], false));
                }
                assert(s[k] == '\\' || s[k] == '/');
            }
        }
        if exists|k: int|
            2 < k && k + 1 < s.len() && (#[trigger] s[k] == '\\' || s[k] == '/') && s[k + 1] != '\\'
                && s[k + 1] != '/' && forall|i: int| 2 <= i < k ==> s[i] != '\\' && s[i] != '/' {
            let q = choose|k: int|
                2 < k && k + 1 < s.len() && (#[trigger] s[k] == '\\' || s[k] == '/') && s[k + 1]
                    != '\\' && s[k + 1] != '/' && forall|i: int|
                    2 <= i < k ==> s[i] != '\\' && s[i] != '/';
            assert(separates(s[q], false));
            assert(k == q) by {
                if k > q {
                    assert(!separates(s[q], false));
                }
                if k < q {
                    assert(separates(s[k], false));
                }
            }
            assert(find_sep(s, k + 1, false) > k + 1) by {
                lemma_find_sep(s, k + 2, false);
            }
        }
    }
}

/// A name that can be a path's last component: no separator in it, neither empty nor
/// one or two dots.
pub open spec fn is_plain_name(n: Seq<char>) -> bool {
    &&& n.len() > 0
    &&& forall|i: int| 0 <= i < n.len() ==> #[trigger] n[i] != '\\' && n[i] != '/'
    &&& !(n.len() == 1 && n[0] == '.')
    &&& !(n.len() == 2 && n[0] == '.' && n[1] == '.')
}

/// The text opens with two separators, as prefixes other than a drive do.
pub open spec fn opens_twice(s: Seq<char>) -> bool {
    s.len() >= 2 && (s[0] == '\\' || s[0] == '/') && (s[1] == '\\' || s[1] == '/')
}

proof fn lemma_body_before_name(s: Seq<char>, q: int)
    requires
        !opens_twice(s),
        0 <= q < s.len(),
        is_sep(s[q]),
    ensures
        body_start(s) <= q + 1,
        !is_verbatim(s),
        prefix_of(s) is Some ==> q >= 2,
{
}

proof fn lemma_name_in_path(a: Seq<char>, c: char, n: Seq<char>)
    requires
        is_sep(c),
        is_plain_name(n),
        !opens_twice(a.push(c) + n),
    ensures
        file_name_of(a.push(c) + n) == Some(n),
{
    let s = a.push(c) + n;
    let q = a.len() as int;
    assert(s[q] == c);
    lemma_body_before_name(s, q);
    lemma_prefix(s);
    let from = body_start(s);
    assert forall|i: int| q < i < s.len() implies !separates(#[trigger] s[i], false) by {
        assert(s[i] == n[i - q - 1]);
    }
    assert(s.subrange(q + 1, s.len() as int) == n);
    assert(part(n, false) == seq![Component::Normal(n)]);
    if from <= q {
        lemma_split_at_last_sep(s, from, q, false);
    } else {
        lemma_last_stretch(s, from, false);
    }
    assert(parts(s, from, false).last() == Component::Normal(n));
    assert(components(s).last() == parts(s, from, false).last());
}

/// The file name of a path is what stands behind its last separator; separators at
/// its end, and a dot behind one, change nothing.
pub proof fn law_file_name_of_a_path(a: Seq<char>, c: char, n: Seq<char>, d: char)
    requires
        c == '\\' || c == '/',
        d == '\\' || d == '/',
        is_plain_name(n),
        !opens_twice(a.push(c) + n),
    ensures
        file_name_of(a.push(c) + n) == Some(n),
        file_name_of((a.push(c) + n).push(d)) == Some(n),
        file_name_of((a.push(c) + n).push(d).push('.')) == Some(n),
{
    lemma_name_in_path(a, c, n);
    let s = a.push(c) + n;
    lemma_silent_tail(s, d, Seq::empty(), a.len() as int);
    lemma_silent_tail(s, d, seq!['.'], a.len() as int);
    assert(s.push(d) + Seq::<char>::empty() == s.push(d));
    assert(s.push(d) + seq!['.'] == s.push(d).push('.'));
}

proof fn lemma_silent_tail(s: Seq<char>, d: char, tail: Seq<char>, q: int)
    requires
        is_sep(d),
        tail.len() == 0 || (tail.len() == 1 && tail[0] == '.'),
        0 <= q < s.len() - 1,
        is_sep(s[q]),
        !opens_twice(s),
    ensures
        components(s.push(d) + tail) == components(s),
{
    let t = s.push(d) + tail;
    let m = s.len() as int;
    assert(t[q] == s[q] && t[m] == d);
    assert(t[0] == s[0] && t[1] == s[1]);
    lemma_body_before_name(t, q);
    lemma_prefix(t);
    assert(t.take(m) == s);
    lemma_same_head(t, m);
    assert forall|i: int| m < i < t.len() implies !separates(#[trigger] t[i], false) by {
        assert(t[i] == tail[i - m - 1]);
    }
    lemma_split_at_last_sep(t, body_start(t), m, false);
    assert(t.subrange(m + 1, t.len() as int) == tail);
    assert(part(tail, false) == Seq::<Component>::empty());
    assert(parts(t, body_start(t), false) == parts(s, body_start(s), false));
}

/// A path whose last stretch is two dots has no file name.
pub proof fn law_no_file_name_behind_dots(a: Seq<char>, c: char)
    requires
        c == '\\' || c == '/',
        !opens_twice(a.push(c) + seq!['.', '.']),
    ensures
        file_name_of(a.push(c) + seq!['.', '.']) is None,
{
    let n = seq!['.', '.'];
    let s = a.push(c) + n;
    let q = a.len() as int;
    assert(s[q] == c);
    lemma_body_before_name(s, q);
    lemma_prefix(s);
    let from = body_start(s);
    assert forall|i: int| q < i < s.len() implies !separates(#[trigger] s[i], false) by {
        assert(s[i] == n[i - q - 1]);
    }
    assert(s.subrange(q + 1, s.len() as int) == n);
    assert(part(n, false) == seq![Component::ParentDir]);
    if from <= q {
        lemma_split_at_last_sep(s, from, q, false);
    } else {
        lemma_last_stretch(s, from, false);
    }
    assert(components(s).last() == Component::ParentDir);
}

/// A plain name alone is its own file name, also behind a drive without a separator.
pub proof fn law_file_name_alone(n: Seq<char>, letter: char)
    requires
        is_plain_name(n),
        n.len() < 2 || n[1] != ':',
        'a' <= letter <= 'z' || 'A' <= letter <= 'Z',
    ensures
        file_name_of(n) == Some(n),
        file_name_of(seq![letter, ':'] + n) == Some(n),
        parent_of(n) == Some(Seq::<char>::empty()),
        parent_of(seq![letter, ':'] + n) == Some(seq![letter, ':']),
{
    assert(n.subrange(0, n.len() as int) == n);
    lemma_name_alone(n, n, 0);
    let s = seq![letter, ':'] + n;
    assert forall|i: int| 0 <= i < n.len() implies s[i + 2] == n[i] by {}
    assert(s[2] == n[0]);
    assert(!starts_with_dot(s)) by {
        if s.len() > 3 {
            assert(s[3] == n[1]);
        }
    }
    assert(s.subrange(2, s.len() as int) == n);
    lemma_name_alone(s, n, 2);
    assert(n.take(0) == Seq::<char>::empty());
    assert(s.take(2) == seq![letter, ':']);
}

proof fn lemma_name_alone(s: Seq<char>, n: Seq<char>, from: int)
    requires
        is_plain_name(n),
        0 <= from,
        s.len() == from + n.len(),
        s.subrange(from, s.len() as int) == n,
        body_start(s) == from,
        !is_verbatim(s),
    ensures
        file_name_of(s) == Some(n),
        parent_of(s) == Some(s.take(from)),
{
    assert forall|i: int| from <= i < s.len() implies !separates(#[trigger] s[i], false) by {
        assert(s.subrange(from, s.len() as int)[i - from] == n[i - from]);
    }
    lemma_last_stretch(s, from, false);
    assert(part(n, false) == seq![Component::Normal(n)]);
    assert(components(s).last() == Component::Normal(n));
    let len = s.len() as int;
    lemma_stretch_start(s, from, len, false);
    lemma_stretch(s, from, len, false);
    let b = stretch_start(s, from, len, false);
    assert(b == from) by {
        if b > from {
            assert(!separates(s[b - 1], false));
        }
    }
    assert(trim_right(s, from, len, false) == len);
    assert(cut(s, from, len, false) == from);
    assert(trim_right(s, from, from, false) == from);
}

/// The parent of a path is what stands in front of its last separator, where a name
/// stands there that does not end with a dot; where a drive stands there, the
/// separator stays with it.
pub proof fn law_parent_of_a_path(a: Seq<char>, c: char, n: Seq<char>)
    requires
        c == '\\' || c == '/',
        is_plain_name(n),
        !opens_twice(a.push(c) + n),
        a.len() > 0,
        a.last() != '\\' && a.last() != '/' && a.last() != '.',
    ensures
        !(a.len() == 2 && ('a' <= a[0] <= 'z' || 'A' <= a[0] <= 'Z') && a[1] == ':') ==> parent_of(
            a.push(c) + n,
        ) == Some(a),
        a.len() == 2 && ('a' <= a[0] <= 'z' || 'A' <= a[0] <= 'Z') && a[1] == ':' ==> parent_of(
            a.push(c) + n,
        ) == Some(a.push(c)),
{
    let s = a.push(c) + n;
    let q = a.len() as int;
    let len = s.len() as int;
    assert(s[q] == c);
    assert forall|i: int| 0 <= i < q implies s[i] == a[i] by {}
    lemma_body_before_name(s, q);
    lemma_prefix(s);
    let start = body_start(s);
    assert forall|i: int| q < i < len implies !separates(#[trigger] s[i], false) by {
        assert(s[i] == n[i - q - 1]);
    }
    if start == q + 1 {
        assert(s.subrange(start, len) == n);
        lemma_name_alone(s, n, start);
        assert(s.take(start) == a.push(c));
        assert(a.len() == 2 && drive_at(a, 0));
    } else {
        lemma_stretch_start(s, start, len, false);
        lemma_stretch(s, start, len, false);
        let b = stretch_start(s, start, len, false);
        assert(separates(s[q], false));
        assert(b == q + 1) by {
            if b > q + 1 {
                assert(!separates(s[b - 1], false));
            }
        }
        assert(s.subrange(b, len) == n);
        assert(trim_right(s, start, len, false) == len);
        assert(cut(s, start, len, false) == q);
        assert(s.take(q) == a);
        assert(trim_right(s, start, q, false) == q) by {
            if start < q {
                lemma_stretch_start(s, start, q, false);
                lemma_stretch(s, start, q, false);
                let b2 = stretch_start(s, start, q, false);
                assert(s[q - 1] == a.last());
                assert(!separates(s[q - 1], false));
                assert(b2 < q);
                let t = s.subrange(b2, q);
                assert(t.last() == s[q - 1]);
            }
        }
        assert(!(a.len() == 2 && drive_at(a, 0))) by {
            if a.len() == 2 && drive_at(a, 0) {
                assert(drive_at(s, 0));
                assert(has_root_sep(s));
            }
        }
    }
}

/// The stem of a file name is what stands in front of its last dot; all of it where it
/// has no dot but perhaps its first character.
pub proof fn law_stem_of_a_name(t: Seq<char>, e: Seq<char>)
    requires
        forall|i: int| 0 <= i < e.len() ==> #[trigger] e[i] != '.',
    ensures
        t.len() > 0 ==> stem(t.push('.') + e) == t,
        stem(e) == e,
        stem(seq!['.'] + e) == seq!['.'] + e,
{
    let name = t.push('.') + e;
    let n = t.len() + 1;
    assert forall|i: int| n <= i < name.len() implies name[i] != '.' by {
        assert(name[i] == e[i - n]);
    }
    lemma_last_dot(name, n as int);
    assert(name.take(n as int) == t.push('.'));
    assert(last_dot(t.push('.')) == t.len());
    assert(name.take(t.len() as int) == t);
    lemma_last_dot(e, 0);
    assert(e.take(0).len() == 0);
    let h = seq!['.'] + e;
    assert forall|i: int| 1 <= i < h.len() implies h[i] != '.' by {
        assert(h[i] == e[i - 1]);
    }
    lemma_last_dot(h, 1);
    assert(h.take(1) == seq!['.']);
    assert(last_dot(seq!['.']) == 0);
}

/// The stem of a path is that of its file name.
pub proof fn law_stem_of_a_path(s: Seq<char>)
    ensures
        file_name_of(s) matches Some(n) ==> file_stem_of(s) == Some(stem(n)),
        file_name_of(s) is None ==> file_stem_of(s) is None,
{
}

/// A path with a drive, or an absolute one, takes the place of the base.  One that
/// starts at a root keeps the base's drive.  Any other stands behind the base, with
/// `\` between, unless the base is empty, ends with a separator or is a bare drive.
/// A base that opens with `\\?\` is not meant here.
pub proof fn law_joined_paths(base: Seq<char>, path: Seq<char>)
    requires
        !(base.len() >= 4 && base[0] == '\\' && base[1] == '\\' && base[2] == '?' && base[3]
            == '\\'),
    ensures
        ({
            let drive = |s: Seq<char>|
                s.len() >= 2 && ('a' <= s[0] <= 'z' || 'A' <= s[0] <= 'Z') && s[1] == ':';
            let root = path.len() > 0 && (path[0] == '\\' || path[0] == '/');
            let bare = base.len() == 0 || base.last() == '\\' || base.last() == '/' || (base.len()
                == 2 && drive(base));
            &&& drive(path) || absolute(path) ==> joined(base, path) == path
            &&& !drive(path) && !root && bare ==> joined(base, path) == base + path
            &&& !drive(path) && !root && !bare ==> joined(base, path) == base + seq!['\\'] + path
            &&& root && !absolute(path) && drive(base) ==> joined(base, path) == seq![
                base[0],
                base[1],
            ] + path
            &&& root && !absolute(path) && !drive(base) && !opens_twice(base) ==> joined(base, path)
                == path
        }),
{
    law_absolute_paths(base);
    law_absolute_paths(path);
    assert(base.push('\\') == base + seq!['\\']);
    assert(base.take(0) + path == path);
    if base.len() >= 2 {
        assert(base.take(2) == seq![base[0], base[1]]);
    }
    if prefix_of(base) is Some && prefix_len(base) == base.len() {
        lemma_prefix(base);
    }
}

/// A path behind a base that opens with `\\?\` is put together from components: each
/// name is added, a dot is dropped, two dots take a name away and nothing else, and a
/// root takes everything away but the prefix.
pub proof fn law_components_behind_a_verbatim_base(
    base: Seq<Component>,
    added: Seq<Component>,
    t: Seq<char>,
)
    ensures
        push_components(base, seq![]) == base,
        ({
            let r = push_components(base, added);
            &&& push_components(base, added.push(Component::Normal(t))) == r.push(
                Component::Normal(t),
            )
            &&& push_components(base, added.push(Component::CurDir)) == r
            &&& r.len() > 0 && r.last() is Normal ==> push_components(
                base,
                added.push(Component::ParentDir),
            ) == r.drop_last()
            &&& r.len() == 0 || !(r.last() is Normal) ==> push_components(
                base,
                added.push(Component::ParentDir),
            ) == r
            &&& r.len() > 0 ==> push_components(base, added.push(Component::Root)) == seq![
                r[0],
                Component::Root,
            ]
        }),
{
    assert(added.push(Component::Normal(t)).drop_last() == added);
    assert(added.push(Component::CurDir).drop_last() == added);
    assert(added.push(Component::ParentDir).drop_last() == added);
    assert(added.push(Component::Root).drop_last() == added);
    let r = push_components(base, added);
    if r.len() > 0 {
        assert(r.take(1).push(Component::Root) == seq![r[0], Component::Root]);
        if r.len() == 1 {
            assert(r.push(Component::Root) == seq![r[0], Component::Root]);
        }
    }
}

/// Behind a base that opens with `\\?\` a path without a prefix gives the text of the
/// two lists of components, resolved.
pub proof fn law_joined_to_a_verbatim_base(base: Seq<char>, path: Seq<char>)
    requires
        base.len() >= 4 && base[0] == '\\' && base[1] == '\\' && base[2] == '?' && base[3] == '\\',
        path.len() > 0,
        prefix_of(path) is None,
    ensures
        joined(base, path) == render(push_components(components(base), components(path))),
{
    law_absolute_paths(base);
}

/// The text of components: each name behind those before it with `\` between, but not
/// next to a root, whose text is `\`.
pub proof fn law_text_of_components(c: Seq<Component>, t: Seq<char>)
    ensures
        render(seq![]) == Seq::<char>::empty(),
        render(seq![Component::Prefix(t)]) == t,
        render(seq![Component::Normal(t)]) == t,
        c.len() > 0 ==> render(c.push(Component::Root)) == render(c).push('\\'),
        c.len() > 0 && c.last() is Root ==> render(c.push(Component::Normal(t))) == render(c) + t,
        c.len() > 0 && !(c.last() is Root) ==> render(c.push(Component::Normal(t))) == render(c)
            + seq!['\\'] + t,
        c.len() > 0 && !(c.last() is Root) ==> render(c.push(Component::ParentDir)) == render(c)
            + seq!['\\', '.', '.'],
{
    reveal_with_fuel(render, 2);
    let none = Seq::<Component>::empty();
    assert(seq![Component::Prefix(t)].drop_last() == none);
    assert(seq![Component::Normal(t)].drop_last() == none);
    assert(Seq::<char>::empty() + t == t);
    assert(c.push(Component::Root).drop_last() == c);
    assert(c.push(Component::Normal(t)).drop_last() == c);
    assert(c.push(Component::ParentDir).drop_last() == c);
    assert(render(c) + seq!['\\'] == render(c).push('\\'));
    assert(render(c).push('\\') + seq!['.', '.'] == render(c) + seq!['\\', '.', '.']);
}

/// One more stretch behind a separator adds a component where it is a name or two
/// dots, and none where it is empty or a dot.
pub proof fn law_components_grow(a: Seq<char>, c: char, t: Seq<char>)
    requires
        c == '\\' || c == '/',
        forall|i: int| 0 <= i < t.len() ==> #[trigger] t[i] != '\\' && t[i] != '/',
        !opens_twice(a.push(c) + t),
        a.len() > 0,
        a.last() != '\\' && a.last() != '/',
        !(a.len() == 2 && ('a' <= a[0] <= 'z' || 'A' <= a[0] <= 'Z') && a[1] == ':'),
    ensures
        is_plain_name(t) ==> components(a.push(c) + t) == components(a).push(Component::Normal(t)),
        t == seq!['.', '.'] ==> components(a.push(c) + t) == components(a).push(
            Component::ParentDir,
        ),
        t.len() == 0 || t == seq!['.'] ==> components(a.push(c) + t) == components(a),
{
    let s = a.push(c) + t;
    let q = a.len() as int;
    assert(s[q] == c);
    assert forall|i: int| 0 <= i < q implies s[i] == a[i] by {}
    lemma_body_before_name(s, q);
    lemma_prefix(s);
    assert(body_start(s) <= q) by {
        if body_start(s) == q + 1 {
            assert(s[q - 1] == a.last());
            if has_root_sep(s) {
                assert(prefix_len(s) == q);
                assert(drive_at(s, 0));
            } else {
                assert(starts_with_dot(s));
            }
        }
    }
    assert(s.take(q) == a);
    assert forall|i: int| q < i < s.len() implies !separates(#[trigger] s[i], false) by {
        assert(s[i] == t[i - q - 1]);
    }
    lemma_same_head(s, q);
    lemma_split_at_last_sep(s, body_start(s), q, false);
    assert(s.subrange(q + 1, s.len() as int) == t);
    let front = parts(a, body_start(a), false);
    assert(components(a) == head(a) + front);
    assert(components(s) == head(a) + (front + part(t, false)));
    if is_plain_name(t) {
        assert(part(t, false) == seq![Component::Normal(t)]);
        assert(head(a) + (front + seq![Component::Normal(t)]) == (head(a) + front).push(
            Component::Normal(t),
        ));
    }
    if t == seq!['.', '.'] {
        assert(part(t, false) == seq![Component::ParentDir]);
        assert(head(a) + (front + seq![Component::ParentDir]) == (head(a) + front).push(
            Component::ParentDir,
        ));
    }
    if t.len() == 0 || t == seq!['.'] {
        assert(part(t, false) == Seq::<Component>::empty());
        assert(front + Seq::<Component>::empty() == front);
    }
}

/// A server and a share make a prefix together: such a path has no file name and no
/// parent, and a name behind it is its file name.
pub proof fn law_shares_are_prefixes(
    c: char,
    d: char,
    server: Seq<char>,
    e: char,
    share: Seq<char>,
)
    requires
        c == '\\' || c == '/',
        d == '\\' || d == '/',
        e == '\\' || e == '/',
        is_plain_name(server),
        is_plain_name(share),
        server != seq!['?'],
    ensures
        ({
            let s = seq![c, d] + server + seq![e] + share;
            &&& absolute(s)
            &&& file_name_of(s) is None
            &&& parent_of(s) is None
        }),
{
    let s = seq![c, d] + server + seq![e] + share;
    let k = 2 + server.len() as int;
    let len = s.len() as int;
    assert(s[0] == c && s[1] == d && s[k] == e);
    assert forall|i: int| 2 <= i < k implies s[i] == server[i - 2] by {}
    assert forall|i: int| k < i < len implies s[i] == share[i - k - 1] by {}
    lemma_find_sep(s, 2, false);
    lemma_found_sep(s, 2, false);
    let f = find_sep(s, 2, false);
    assert(f == k) by {
        if f > k {
            assert(!separates(s[k], false));
        }
        if f < k {
            assert(s[f] == server[f - 2]);
        }
    }
    lemma_find_sep(s, k + 1, false);
    lemma_found_sep(s, k + 1, false);
    let g = find_sep(s, k + 1, false);
    assert(g == len) by {
        if g < len {
            assert(s[g] == share[g - k - 1]);
        }
    }
    assert(!(char_at(s, 2, '?') && char_at(s, 3, '\\'))) by {
        if char_at(s, 2, '?') && char_at(s, 3, '\\') {
            assert(s[2] == server[0]);
            if server.len() > 1 {
                assert(s[3] == server[1]);
            } else {
                assert(server == seq!['?']);
            }
        }
    }
    assert(!(char_at(s, 2, '.') && sep_at(s, 3))) by {
        if char_at(s, 2, '.') && sep_at(s, 3) {
            assert(s[2] == server[0]);
            if server.len() > 1 {
                assert(s[3] == server[1]);
            }
        }
    }
    assert(prefix_len(s) == len);
    assert(body_start(s) == len);
    assert(parts(s, len, false) == Seq::<Component>::empty());
    assert(components(s).last() == Component::Root);
}

proof fn lemma_first_sep(s: Seq<char>, from: int, k: int, verbatim: bool)
    requires
        0 <= from <= k <= s.len(),
        forall|i: int| from <= i < k ==> !separates(#[trigger] s[i], verbatim),
        k == s.len() || separates(s[k], verbatim),
    ensures
        find_sep(s, from, verbatim) == k,
    decreases k - from,
{
    if from < k {
        lemma_first_sep(s, from + 1, k, verbatim);
    }
}

/// A path that does not open with two separators has a drive for a prefix, or none.
pub proof fn law_drives_are_prefixes(s: Seq<char>)
    requires
        !opens_twice(s),
    ensures
        s.len() >= 2 && ('a' <= s[0] <= 'z' || 'A' <= s[0] <= 'Z') && s[1] == ':' ==> prefix_len(s)
            == 2 && prefix_of(s) is Some,
        !(s.len() >= 2 && ('a' <= s[0] <= 'z' || 'A' <= s[0] <= 'Z') && s[1] == ':') ==> prefix_of(
            s,
        ) is None && prefix_len(s) == 0,
{
}

/// Behind two separators, a dot and a separator, the prefix ends at the next separator
/// `k`, or with the path.
pub proof fn law_devices_are_prefixes(s: Seq<char>, k: int)
    requires
        opens_twice(s),
        4 <= k <= s.len(),
        s[2] == '.',
        s[3] == '\\' || s[3] == '/',
        forall|i: int| 4 <= i < k ==> #[trigger] s[i] != '\\' && s[i] != '/',
        k == s.len() || s[k] == '\\' || s[k] == '/',
    ensures
        prefix_of(s) is Some,
        prefix_len(s) == k,
{
    lemma_first_sep(s, 4, k, false);
}

/// Behind two separators, a server's name that ends at the separator `k` and a share's
/// name that ends at `e`, neither empty, are the prefix; where either is empty there is
/// none.
pub proof fn law_share_prefix_ends_with_the_share(s: Seq<char>, k: int, e: int)
    requires
        opens_twice(s),
        2 <= k < s.len(),
        forall|i: int| 2 <= i < k ==> #[trigger] s[i] != '\\' && s[i] != '/',
        s[k] == '\\' || s[k] == '/',
        k + 1 <= e <= s.len(),
        forall|i: int| k < i < e ==> #[trigger] s[i] != '\\' && s[i] != '/',
        e == s.len() || s[e] == '\\' || s[e] == '/',
        !(k == 3 && (s[2] == '?' || s[2] == '.')),
    ensures
        2 < k && k + 1 < e ==> prefix_of(s) is Some && prefix_len(s) == e,
        !(2 < k && k + 1 < e) ==> prefix_of(s) is None && prefix_len(s) == 0,
{
    lemma_first_sep(s, 2, k, false);
    lemma_first_sep(s, k + 1, e, false);
    assert(!(char_at(s, 2, '?') && char_at(s, 3, '\\'))) by {
        if char_at(s, 2, '?') && char_at(s, 3, '\\') && k > 3 {
            assert(s[3] != '\\');
        }
    }
    assert(!(char_at(s, 2, '.') && sep_at(s, 3))) by {
        if char_at(s, 2, '.') && sep_at(s, 3) && k > 3 {
            assert(s[3] != '\\' && s[3] != '/');
        }
    }
}

/// Behind `\\?\`, the prefix is a drive that a separator or nothing follows; else,
/// where `UNC` and a separator follow, the server and the share behind them; else what
/// stands in front of the next `\`.
pub proof fn law_verbatim_prefixes(s: Seq<char>, k: int, e: int)
    requires
        s.len() >= 4 && s[0] == '\\' && s[1] == '\\' && s[2] == '?' && s[3] == '\\',
    ensures
        ({
            let unc = s.len() >= 8 && s[4] == 'U' && s[5] == 'N' && s[6] == 'C' && (s[7] == '\\'
                || s[7] == '/');
            let drive = s.len() >= 6 && ('a' <= s[4] <= 'z' || 'A' <= s[4] <= 'Z') && s[5] == ':'
                && (s.len() == 6 || s[6] == '\\' || s[6] == '/');
            &&& prefix_of(s) is Some && is_verbatim(s)
            &&& drive ==> prefix_len(s) == 6
            &&& !drive && !unc && 4 <= k <= s.len() && (forall|i: int|
                4 <= i < k ==> #[trigger] s[i] != '\\') && (k == s.len() || s[k] == '\\')
                ==> prefix_len(s) == k
            &&& unc && 8 <= k < s.len() && (forall|i: int| 8 <= i < k ==> #[trigger] s[i] != '\\')
                && s[k] == '\\' && k + 1 < e <= s.len() && (forall|i: int|
                k < i < e ==> #[trigger] s[i] != '\\') && (e == s.len() || s[e] == '\\')
                ==> prefix_len(s) == e
        }),
{
    let unc = s.len() >= 8 && s[4] == 'U' && s[5] == 'N' && s[6] == 'C' && (s[7] == '\\' || s[7]
        == '/');
    if 4 <= k <= s.len() && (forall|i: int| 4 <= i < k ==> #[trigger] s[i] != '\\') && (k == s.len()
        || s[k] == '\\') {
        lemma_first_sep(s, 4, k, true);
    }
    if unc && 8 <= k < s.len() && (forall|i: int| 8 <= i < k ==> #[trigger] s[i] != '\\') && s[k]
        == '\\' && k + 1 < e <= s.len() && (forall|i: int| k < i < e ==> #[trigger] s[i] != '\\')
        && (e == s.len() || s[e] == '\\') {
        lemma_first_sep(s, 8, k, true);
        lemma_first_sep(s, k + 1, e, true);
    }
}

/// Behind a prefix that opens with `\\?\`, one more stretch adds what it is: `/` is a
/// character as any other, and a dot counts.
pub proof fn law_verbatim_components_grow(a: Seq<char>, t: Seq<char>)
    requires
        a.len() >= 4 && a[0] == '\\' && a[1] == '\\' && a[2] == '?' && a[3] == '\\',
        forall|i: int| 0 <= i < t.len() ==> #[trigger] t[i] != '\\',
        body_start(a.push('\\') + t) <= a.len(),
    ensures
        ({
            let c = components(a.push('\\') + t);
            &&& t.len() == 0 ==> c == components(a)
            &&& t == seq!['.'] ==> c == components(a).push(Component::CurDir)
            &&& t == seq!['.', '.'] ==> c == components(a).push(Component::ParentDir)
            &&& t.len() > 0 && t != seq!['.'] && t != seq!['.', '.'] ==> c == components(a).push(
                Component::Normal(t),
            )
        }),
{
    let s = a.push('\\') + t;
    let q = a.len() as int;
    assert(s[q] == '\\');
    assert forall|i: int| 0 <= i < q implies s[i] == a[i] by {}
    law_absolute_paths(s);
    lemma_prefix(s);
    assert(s.take(q) == a);
    assert forall|i: int| q < i < s.len() implies !separates(#[trigger] s[i], true) by {
        assert(s[i] == t[i - q - 1]);
    }
    lemma_same_head(s, q);
    lemma_split_at_last_sep(s, body_start(s), q, true);
    assert(s.subrange(q + 1, s.len() as int) == t);
    let front = parts(a, body_start(a), true);
    let last = part(t, true);
    assert(components(s) == head(a) + (front + last));
    if t.len() == 0 {
        assert(front + last == front);
    } else {
        if t.len() == 1 && t[0] == '.' {
            assert(t == seq!['.']);
        }
        if t.len() == 2 && t[0] == '.' && t[1] == '.' {
            assert(t == seq!['.', '.']);
        }
        assert(last.len() == 1);
        assert(head(a) + (front + last) == (head(a) + front).push(last[0]));
    }
}

} // verus!
