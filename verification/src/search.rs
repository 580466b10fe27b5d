//! The search for an application's windows among those on the screen.

use std::collections::HashSet;

use vstd::prelude::*;

use crate::text::{
    contains_text, law_text_stands_in_another, lower, occurs_in, texts, utf16_lossy,
};

verus! {

/// What to look for, and the windows found so far.
pub struct SearchContext {
    pub pids: HashSet<u32>,
    pub class_hints: Vec<String>,
    pub title_hints: Vec<String>,
    pub found: Vec<isize>,
}

/// What a `SearchContext` stands for.
pub struct SearchModel {
    pub pids: Set<u32>,
    pub class_hints: Seq<Seq<char>>,
    pub title_hints: Seq<Seq<char>>,
    pub found: Seq<isize>,
}

impl View for SearchContext {
    type V = SearchModel;

    open spec fn view(&self) -> SearchModel {
        SearchModel {
            pids: self.pids@,
            class_hints: texts(self.class_hints@),
            title_hints: texts(self.title_hints@),
            found: self.found@,
        }
    }
}

/// What is known of a window so far.  The names are UTF-16 code units, none where
/// the window has no such name.
pub struct WindowInfo {
    pub visible: bool,
    pub pid: Option<u32>,
    pub class_name: Option<Vec<u16>>,
    pub title: Option<Vec<u16>>,
}

/// Some hint stands in the text.
pub open spec fn hint_occurs(hints: Seq<Seq<char>>, text: Seq<char>) -> bool {
    exists|i: int| 0 <= i < hints.len() && occurs_in(text, #[trigger] hints[i])
}

/// The window has a name, and some hint stands in it, read in lower case.
pub open spec fn name_matches(hints: Seq<Seq<char>>, units: Seq<u16>) -> bool {
    units.len() > 0 && hint_occurs(hints, lower(utf16_lossy(units)))
}

/// The window is one to look for: it is visible, and its process is one of the
/// application's, or its class name or its title matches a hint.
pub open spec fn window_matches(
    m: SearchModel,
    visible: bool,
    pid: u32,
    class_name: Seq<u16>,
    title: Seq<u16>,
) -> bool {
    visible && (m.pids.contains(pid) || name_matches(m.class_hints, class_name) || name_matches(
        m.title_hints,
        title,
    ))
}

/// What the search needs to know next of a window, or its verdict.
#[derive(Clone, Copy, Debug, PartialEq, Eq, Structural)]
pub enum WindowQuestion {
    AskPid,
    AskClassName,
    AskTitle,
    Decided(bool),
}

/// The class name decides for the window.
pub open spec fn class_decides(m: SearchModel, info: WindowInfo) -> bool {
    info.class_name matches Some(units) && name_matches(m.class_hints, units@)
}

/// The title decides for the window.
pub open spec fn title_decides(m: SearchModel, info: WindowInfo) -> bool {
    info.title matches Some(units) && name_matches(m.title_hints, units@)
}

/// The course of the search for one window: nothing is asked that cannot change the
/// verdict.
pub open spec fn question_of(m: SearchModel, info: WindowInfo) -> WindowQuestion {
    if !info.visible {
        WindowQuestion::Decided(false)
    } else if info.pid is None {
        WindowQuestion::AskPid
    } else if m.pids.contains(info.pid->0) {
        WindowQuestion::Decided(true)
    } else if m.class_hints.len() > 0 && info.class_name is None {
        WindowQuestion::AskClassName
    } else if class_decides(m, info) {
        WindowQuestion::Decided(true)
    } else if m.title_hints.len() > 0 && info.title is None {
        WindowQuestion::AskTitle
    } else {
        WindowQuestion::Decided(title_decides(m, info))
    }
}

/// Whether some hint stands in the text.
pub fn any_hint_occurs(hints: &Vec<String>, text: &str) -> (r: bool)
    ensures
        r == hint_occurs(texts(hints@), text@),
{
    let ghost all = texts(hints@);
    let mut i: usize = 0;
    while i < hints.len()
        invariant
            i <= hints.len(),
            all == texts(hints@),
            forall|k: int| 0 <= k < i ==> !occurs_in(text@, #[trigger] all[k]),
        decreases hints.len() - i,
    {
        assert(all[i as int] == hints@[i as int]@);
        if contains_text(text, hints[i].as_str()) {
            return true;
        }
        i += 1;
    }
    false
}

fn name_fits(hints: &Vec<String>, units: &Vec<u16>) -> (r: bool)
    ensures
        r == name_matches(texts(hints@), units@),
{
    if units.len() == 0 {
        return false;
    }
    let name = String::from_utf16_lossy(units.as_slice()).as_str().to_lowercase();
    any_hint_occurs(hints, name.as_str())
}

/// Starts the search for the windows of an application; none where nothing is there
/// to look for.
pub fn find_windows(pids: &Vec<u32>, class_hints: &Vec<String>, title_hints: &Vec<String>) -> (r:
    Option<SearchContext>)
    ensures
        r is None <==> pids@.len() == 0 && class_hints@.len() == 0 && title_hints@.len() == 0,
        r matches Some(context) ==> context@ == (SearchModel {
            pids: pids@.to_set(),
            class_hints: texts(class_hints@),
            title_hints: texts(title_hints@),
            found: seq![],
        }),
        r matches Some(context) ==> {
            &&& forall|pid: u32| #[trigger] context.pids@.contains(pid) <==> pids@.contains(pid)
            &&& texts(context.class_hints@) == texts(class_hints@)
            &&& texts(context.title_hints@) == texts(title_hints@)
            &&& context.found@.len() == 0
        },
{
    if pids.len() == 0 && class_hints.len() == 0 && title_hints.len() == 0 {
        return None;
    }
    let mut set: HashSet<u32> = HashSet::new();
    let mut i: usize = 0;
    assert(pids@.take(0).to_set() == Set::<u32>::empty());
    while i < pids.len()
        invariant
            i <= pids.len(),
            set@ == pids@.take(i as int).to_set(),
        decreases pids.len() - i,
    {
        set.insert(pids[i]);
        proof {
            let t = pids@.take(i as int);
            assert(pids@.take(i + 1) == t.push(pids@[i as int]));
            assert(t.push(pids@[i as int]).to_set() == t.to_set().insert(pids@[i as int])) by {
                broadcast use vstd::seq_lib::group_seq_properties;

            }
        }
        i += 1;
    }
    assert(pids@.take(pids@.len() as int) == pids@);
    let classes = class_hints.clone();
    let titles = title_hints.clone();
    assert(texts(classes@) == texts(class_hints@));
    assert(texts(titles@) == texts(title_hints@));
    let found: Vec<isize> = Vec::new();
    assert(found@ == Seq::<isize>::empty());
    Some(SearchContext { pids: set, class_hints: classes, title_hints: titles, found })
}

/// What the search needs to know next of a window, or its verdict.
pub fn next_question(context: &SearchContext, info: &WindowInfo) -> (r: WindowQuestion)
    ensures
        r == question_of(context@, *info),
{
    assert(texts(context.class_hints@).len() == context.class_hints.len());
    assert(texts(context.title_hints@).len() == context.title_hints.len());
    if !info.visible {
        return WindowQuestion::Decided(false);
    }
    match info.pid {
        None => {
            return WindowQuestion::AskPid;
        },
        Some(pid) => {
            if context.pids.contains(&pid) {
                return WindowQuestion::Decided(true);
            }
        },
    }
    match &info.class_name {
        None => {
            if context.class_hints.len() > 0 {
                return WindowQuestion::AskClassName;
            }
        },
        Some(units) => {
            if name_fits(&context.class_hints, units) {
                return WindowQuestion::Decided(true);
            }
        },
    }
    match &info.title {
        None => {
            if context.title_hints.len() > 0 {
                WindowQuestion::AskTitle
            } else {
                WindowQuestion::Decided(false)
            }
        },
        Some(units) => WindowQuestion::Decided(name_fits(&context.title_hints, units)),
    }
}

/// The search after a look at a window: the window is kept if what is known decides
/// for it.
pub open spec fn looked_at(m: SearchModel, window: isize, info: WindowInfo) -> SearchModel {
    SearchModel {
        found: if question_of(m, info) == WindowQuestion::Decided(true) {
            m.found.push(window)
        } else {
            m.found
        },
        ..m
    }
}

/// Looks at a window: keeps it if what is known decides for it, and says what the
/// search needs to know next, or its verdict.
pub fn enum_windows_callback(
    context: &mut SearchContext,
    window: isize,
    info: &WindowInfo,
) -> (r: WindowQuestion)
    ensures
        r == question_of(old(context)@, *info),
        final(context)@ == looked_at(old(context)@, window, *info),
        r == WindowQuestion::Decided(true) ==> final(context).found@ == old(context).found@.push(
            window,
        ),
        r != WindowQuestion::Decided(true) ==> final(context).found@ == old(context).found@,
        final(context).pids@ == old(context).pids@,
        texts(final(context).class_hints@) == texts(old(context).class_hints@),
        texts(final(context).title_hints@) == texts(old(context).title_hints@),
{
    let question = next_question(context, info);
    if question == WindowQuestion::Decided(true) {
        context.found.push(window);
    }
    question
}

/// What is known of a window agrees with what holds of it.
pub open spec fn agrees(
    info: WindowInfo,
    visible: bool,
    pid: u32,
    class_name: Seq<u16>,
    title: Seq<u16>,
) -> bool {
    &&& info.visible == visible
    &&& info.pid matches Some(p) ==> p == pid
    &&& info.class_name matches Some(units) ==> units@ == class_name
    &&& info.title matches Some(units) ==> units@ == title
}

/// A verdict of the search is right, whatever the answers that it did not ask for;
/// and it never asks what it has been told.
pub proof fn law_verdict_is_right(
    m: SearchModel,
    info: WindowInfo,
    visible: bool,
    pid: u32,
    class_name: Seq<u16>,
    title: Seq<u16>,
)
    requires
        agrees(info, visible, pid, class_name, title),
    ensures
        question_of(m, info) matches WindowQuestion::Decided(verdict) ==> verdict
            == window_matches(m, visible, pid, class_name, title),
        question_of(m, info) is AskPid ==> info.pid is None,
        question_of(m, info) is AskClassName ==> info.class_name is None,
        question_of(m, info) is AskTitle ==> info.title is None,
{
}

/// Where nothing is there to look for, no window matches: the search that
/// `find_windows` does not start would find nothing.
pub proof fn law_empty_search_matches_nothing(
    m: SearchModel,
    visible: bool,
    pid: u32,
    class_name: Seq<u16>,
    title: Seq<u16>,
)
    requires
        m.pids == Set::<u32>::empty(),
        m.class_hints.len() == 0,
        m.title_hints.len() == 0,
    ensures
        !window_matches(m, visible, pid, class_name, title),
{
}

/// A window on the screen, and what holds of it.
pub struct ScreenWindow {
    pub window: isize,
    pub visible: bool,
    pub pid: u32,
    pub class_name: Vec<u16>,
    pub title: Vec<u16>,
}

/// The window is one to look for.
pub open spec fn belongs(m: SearchModel, w: ScreenWindow) -> bool {
    window_matches(m, w.visible, w.pid, w.class_name@, w.title@)
}

/// What is known of a window at first.
pub open spec fn first_info(w: ScreenWindow) -> WindowInfo {
    WindowInfo { visible: w.visible, pid: None, class_name: None, title: None }
}

/// What is known of a window when the question has been answered.
pub open spec fn answered(info: WindowInfo, question: WindowQuestion, w: ScreenWindow) -> WindowInfo {
    match question {
        WindowQuestion::AskPid => WindowInfo { pid: Some(w.pid), ..info },
        WindowQuestion::AskClassName => WindowInfo { class_name: Some(w.class_name), ..info },
        WindowQuestion::AskTitle => WindowInfo { title: Some(w.title), ..info },
        WindowQuestion::Decided(_) => info,
    }
}

/// How many things are not known of a window.
pub open spec fn unknowns(info: WindowInfo) -> nat {
    (if info.pid is None {
        1nat
    } else {
        0nat
    }) + (if info.class_name is None {
        1nat
    } else {
        0nat
    }) + (if info.title is None {
        1nat
    } else {
        0nat
    })
}

/// The search after a visit to a window: looks at it and answers in turn, from what
/// is known, until the verdict.
pub open spec fn visited(m: SearchModel, w: ScreenWindow, info: WindowInfo) -> SearchModel
    decreases unknowns(info),
{
    let question = question_of(m, info);
    let next = looked_at(m, w.window, info);
    if question is Decided {
        next
    } else {
        visited(next, w, answered(info, question, w))
    }
}

/// The search after a visit to each of the windows, in their order.
pub open spec fn searched(m: SearchModel, windows: Seq<ScreenWindow>) -> SearchModel
    decreases windows.len(),
{
    if windows.len() == 0 {
        m
    } else {
        let w = windows.last();
        visited(searched(m, windows.drop_last()), w, first_info(w))
    }
}

/// Those of the windows that are to be looked for, in their order.
pub open spec fn belonging(m: SearchModel, windows: Seq<ScreenWindow>) -> Seq<isize> {
    windows.filter(|w: ScreenWindow| belongs(m, w)).map_values(|w: ScreenWindow| w.window)
}

proof fn lemma_visited(m: SearchModel, w: ScreenWindow, info: WindowInfo)
    requires
        agrees(info, w.visible, w.pid, w.class_name@, w.title@),
    ensures
        visited(m, w, info) == (SearchModel {
            found: if belongs(m, w) {
                m.found.push(w.window)
            } else {
                m.found
            },
            ..m
        }),
    decreases unknowns(info),
{
    let question = question_of(m, info);
    law_verdict_is_right(m, info, w.visible, w.pid, w.class_name@, w.title@);
    if !(question is Decided) {
        assert(looked_at(m, w.window, info) == m);
        lemma_visited(m, w, answered(info, question, w));
    }
}

/// When all windows have been visited, those found are exactly the ones to look for,
/// in the order of the list and behind what was found before; and what is looked for
/// has stayed the same.
pub proof fn law_search_finds_what_belongs(m: SearchModel, windows: Seq<ScreenWindow>)
    ensures
        searched(m, windows) == (SearchModel { found: m.found + belonging(m, windows), ..m }),
    decreases windows.len(),
{
    reveal(Seq::filter);
    if windows.len() == 0 {
        assert(m.found + belonging(m, windows) == m.found);
    } else {
        let front = windows.drop_last();
        let w = windows.last();
        let before = searched(m, front);
        law_search_finds_what_belongs(m, front);
        lemma_visited(before, w, first_info(w));
        assert(belongs(before, w) == belongs(m, w));
        if belongs(m, w) {
            assert(belonging(m, windows) == belonging(m, front).push(w.window));
            assert(m.found + belonging(m, front).push(w.window) == (m.found + belonging(
                m,
                front,
            )).push(w.window));
        } else {
            assert(belonging(m, windows) == belonging(m, front));
        }
    }
}

/// A window is found if and only if one of the list has its handle and is to be
/// looked for; and where no two windows of the list share a handle, each is found
/// once.
pub proof fn law_search_finds_each_once(m: SearchModel, windows: Seq<ScreenWindow>)
    requires
        m.found.len() == 0,
    ensures
        forall|h: isize| #[trigger]
            searched(m, windows).found.contains(h) <==> exists|i: int|
                0 <= i < windows.len() && (#[trigger] windows[i]).window == h && belongs(
                    m,
                    windows[i],
                ),
        (forall|i: int, j: int|
            0 <= i < j < windows.len() ==> (#[trigger] windows[i]).window != (
            #[trigger] windows[j]).window) ==> searched(m, windows).found.no_duplicates(),
    decreases windows.len(),
{
    law_search_finds_what_belongs(m, windows);
    let found = searched(m, windows).found;
    if windows.len() > 0 {
        let front = windows.drop_last();
        let w = windows.last();
        let before = searched(m, front).found;
        law_search_finds_each_once(m, front);
        law_search_finds_what_belongs(m, front);
        lemma_visited(searched(m, front), w, first_info(w));
        assert(found == if belongs(m, w) {
            before.push(w.window)
        } else {
            before
        });
        assert forall|h: isize| #[trigger]
            found.contains(h) <==> exists|i: int|
                0 <= i < windows.len() && (#[trigger] windows[i]).window == h && belongs(
                    m,
                    windows[i],
                ) by {
            if found.contains(h) {
                let k = choose|k: int| 0 <= k < found.len() && found[k] == h;
                if k < before.len() {
                    assert(before[k] == h);
                    assert(before.contains(h));
                    let i = choose|i: int|
                        0 <= i < front.len() && (#[trigger] front[i]).window == h && belongs(
                            m,
                            front[i],
                        );
                    assert(windows[i] == front[i]);
                } else {
                    assert(windows[windows.len() - 1].window == h);
                }
            }
            if exists|i: int|
                0 <= i < windows.len() && (#[trigger] windows[i]).window == h && belongs(
                    m,
                    windows[i],
                ) {
                let i = choose|i: int|
                    0 <= i < windows.len() && (#[trigger] windows[i]).window == h && belongs(
                        m,
                        windows[i],
                    );
                if i < front.len() {
                    assert(front[i].window == h);
                    assert(before.contains(h));
                    let k = choose|k: int| 0 <= k < before.len() && before[k] == h;
                    assert(found[k] == h);
                } else {
                    assert(found[before.len() as int] == h);
                }
            }
        }
        if forall|i: int, j: int|
            0 <= i < j < windows.len() ==> (#[trigger] windows[i]).window != (
            #[trigger] windows[j]).window {
            assert forall|i: int, j: int| 0 <= i < j < front.len() implies (
            #[trigger] front[i]).window != (#[trigger] front[j]).window by {
                assert(windows[i].window != windows[j].window);
            }
            if before.contains(w.window) {
                let i = choose|i: int|
                    0 <= i < front.len() && (#[trigger] front[i]).window == w.window && belongs(
                        m,
                        front[i],
                    );
                assert(windows[i].window != windows[windows.len() - 1].window);
            }
        }
    }
}

/// A window is one to look for exactly where it is visible and its process is one of
/// those given, or it has a class name and, read in lower case, some class hint stands
/// in that, or it has a title and some title hint stands in that.
pub proof fn law_window_to_look_for(
    m: SearchModel,
    visible: bool,
    pid: u32,
    class_name: Seq<u16>,
    title: Seq<u16>,
)
    ensures
        window_matches(m, visible, pid, class_name, title) <==> visible && {
            ||| m.pids.contains(pid)
            ||| class_name.len() > 0 && exists|i: int, a: Seq<char>, b: Seq<char>|
                0 <= i < m.class_hints.len() && lower(utf16_lossy(class_name)) == #[trigger] ((a
                    + m.class_hints[i]) + b)
            ||| title.len() > 0 && exists|i: int, a: Seq<char>, b: Seq<char>|
                0 <= i < m.title_hints.len() && lower(utf16_lossy(title)) == #[trigger] ((a
                    + m.title_hints[i]) + b)
        },
{
    lemma_hint_stands_in(m.class_hints, lower(utf16_lossy(class_name)));
    lemma_hint_stands_in(m.title_hints, lower(utf16_lossy(title)));
}

proof fn lemma_hint_stands_in(hints: Seq<Seq<char>>, text: Seq<char>)
    ensures
        hint_occurs(hints, text) <==> exists|i: int, a: Seq<char>, b: Seq<char>|
            0 <= i < hints.len() && text == #[trigger] ((a + hints[i]) + b),
{
    if hint_occurs(hints, text) {
        let i = choose|i: int| 0 <= i < hints.len() && occurs_in(text, #[trigger] hints[i]);
        law_text_stands_in_another(text, hints[i]);
        let part = hints[i];
        let (a, b) = choose|a: Seq<char>, b: Seq<char>| text == #[trigger] ((a + part) + b);
        assert(text == ((a + hints[i]) + b));
    }
    if exists|i: int, a: Seq<char>, b: Seq<char>|
        0 <= i < hints.len() && text == #[trigger] ((a + hints[i]) + b) {
        let (i, a, b) = choose|i: int, a: Seq<char>, b: Seq<char>|
            0 <= i < hints.len() && text == #[trigger] ((a + hints[i]) + b);
        let part = hints[i];
        law_text_stands_in_another(text, part);
        assert(text == ((a + part) + b));
        assert(occurs_in(text, hints[i]));
    }
}

/// The search asks first for the process, then for the class name, then for the
/// title; for a name only where there are hints for it, and only where nothing has
/// decided yet.  An invisible window is turned down, and one of a given process is
/// kept, without a question about names.
pub proof fn law_order_of_questions(m: SearchModel, info: WindowInfo)
    ensures
        !info.visible ==> question_of(m, info) == WindowQuestion::Decided(false),
        question_of(m, info) is AskPid <==> info.visible && info.pid is None,
        info.visible ==> (info.pid matches Some(pid) ==> (m.pids.contains(pid) ==> question_of(
            m,
            info,
        ) == WindowQuestion::Decided(true))),
        question_of(m, info) is AskClassName <==> info.visible && (info.pid matches Some(pid)
            && !m.pids.contains(pid)) && m.class_hints.len() > 0 && info.class_name is None,
        question_of(m, info) is AskTitle ==> info.visible && (info.pid matches Some(pid)
            && !m.pids.contains(pid)) && (m.class_hints.len() == 0 || info.class_name is Some)
            && m.title_hints.len() > 0 && info.title is None,
{
}

/// A look at a window adds that window behind those found, or nothing, and leaves what
/// is looked for as it is.
pub proof fn law_look_adds_one_window(m: SearchModel, window: isize, info: WindowInfo)
    ensures
        ({
            let next = looked_at(m, window, info);
            &&& next.pids == m.pids
            &&& next.class_hints == m.class_hints
            &&& next.title_hints == m.title_hints
            &&& question_of(m, info) == WindowQuestion::Decided(true) ==> next.found
                == m.found.push(window)
            &&& question_of(m, info) != WindowQuestion::Decided(true) ==> next.found == m.found
        }),
{
}

/// A search stands for what its fields hold, each under its own name.
pub proof fn law_fields_of_a_search(c: SearchContext)
    ensures
        c@.pids == c.pids@,
        c@.class_hints == texts(c.class_hints@),
        c@.title_hints == texts(c.title_hints@),
        c@.found == c.found@,
{
}

/// The windows that a whole search finds, in plain words: a handle is found exactly
/// where a window of the list has it that is visible and is of a given process, or has
/// a class name in which, read in lower case, some class hint stands, or a title in
/// which some title hint stands.
pub proof fn law_windows_that_are_found(m: SearchModel, windows: Seq<ScreenWindow>, h: isize)
    requires
        m.found.len() == 0,
    ensures
        searched(m, windows).found.contains(h) <==> exists|i: int|
            0 <= i < windows.len() && (#[trigger] windows[i]).window == h && windows[i].visible && {
                ||| m.pids.contains(windows[i].pid)
                ||| windows[i].class_name@.len() > 0 && exists|j: int|
                    0 <= j < m.class_hints.len() && occurs_in(
                        lower(utf16_lossy(windows[i].class_name@)),
                        #[trigger] m.class_hints[j],
                    )
                ||| windows[i].title@.len() > 0 && exists|j: int|
                    0 <= j < m.title_hints.len() && occurs_in(
                        lower(utf16_lossy(windows[i].title@)),
                        #[trigger] m.title_hints[j],
                    )
            },
{
    law_search_finds_each_once(m, windows);
}

} // verus!
