//! Processes: names from the system's snapshot, and the processes whose windows
//! belong to a launched application.

use std::collections::HashSet;

use vstd::prelude::*;
use vstd::slice::slice_subrange;

use crate::text::{
    char_units, law_utf16_round_trip, lemma_char_range, lower, texts, utf16_lossy, utf16_units,
};

verus! {

/// An entry of the system's process snapshot, its file name as UTF-16 code units
/// in a buffer that a zero unit ends.
pub struct ProcessEntry {
    pub pid: u32,
    pub parent_pid: u32,
    pub exe_file: Vec<u16>,
}

/// A process: its id, its parent's id and its executable's name in lower case.
#[derive(Clone)]
pub struct ProcessInfo {
    pub pid: u32,
    pub parent_pid: u32,
    pub exe_name: String,
}

/// What a `ProcessInfo` stands for.
pub struct ProcessModel {
    pub pid: u32,
    pub parent_pid: u32,
    pub exe_name: Seq<char>,
}

impl View for ProcessInfo {
    type V = ProcessModel;

    open spec fn view(&self) -> ProcessModel {
        ProcessModel { pid: self.pid, parent_pid: self.parent_pid, exe_name: self.exe_name@ }
    }
}

/// What a list of processes stands for.
pub open spec fn processes_view(v: Seq<ProcessInfo>) -> Seq<ProcessModel> {
    v.map_values(|p: ProcessInfo| p@)
}

/// The code units in front of the first zero unit.
pub open spec fn before_nul(units: Seq<u16>) -> Seq<u16>
    decreases units.len(),
{
    if units.len() == 0 || units[0] == 0 {
        seq![]
    } else {
        seq![units[0]] + before_nul(units.drop_first())
    }
}

proof fn lemma_before_nul(units: Seq<u16>, end: int)
    requires
        0 <= end <= units.len(),
        forall|i: int| 0 <= i < end ==> units[i] != 0,
        end < units.len() ==> units[end] == 0,
    ensures
        before_nul(units) == units.take(end),
    decreases end,
{
    if end > 0 {
        lemma_before_nul(units.drop_first(), end - 1);
        assert(units.take(end) == seq![units[0]] + units.drop_first().take(end - 1));
    } else {
        assert(units.take(0) == Seq::<u16>::empty());
    }
}

/// The text in a buffer of UTF-16 code units, up to the first zero unit.
pub fn wide_to_string(buf: &[u16]) -> (r: String)
    ensures
        r@ == utf16_lossy(before_nul(buf@)),
{
    let mut end: usize = 0;
    while end < buf.len() && buf[end] != 0
        invariant
            end <= buf.len(),
            forall|i: int| 0 <= i < end ==> buf@[i] != 0,
        decreases buf.len() - end,
    {
        end += 1;
    }
    proof {
        lemma_before_nul(buf@, end as int);
        assert(buf@.subrange(0, end as int) == buf@.take(end as int));
    }
    String::from_utf16_lossy(slice_subrange(buf, 0, end))
}

/// The process that a snapshot entry describes.
pub open spec fn process_of(e: ProcessEntry) -> ProcessModel {
    ProcessModel {
        pid: e.pid,
        parent_pid: e.parent_pid,
        exe_name: lower(utf16_lossy(before_nul(e.exe_file@))),
    }
}

/// The processes of a snapshot, in its order.
pub fn collect_processes(entries: &Vec<ProcessEntry>) -> (r: Vec<ProcessInfo>)
    ensures
        processes_view(r@) == entries@.map_values(|e: ProcessEntry| process_of(e)),
        r@.len() == entries@.len(),
        forall|i: int|
            0 <= i < r@.len() ==> (#[trigger] r@[i]).pid == entries@[i].pid && r@[i].parent_pid
                == entries@[i].parent_pid && r@[i].exe_name@ == lower(
                utf16_lossy(before_nul(entries@[i].exe_file@)),
            ),
{
    let mut r: Vec<ProcessInfo> = Vec::new();
    let mut i: usize = 0;
    while i < entries.len()
        invariant
            i <= entries.len(),
            r.len() == i,
            forall|k: int| 0 <= k < i ==> (#[trigger] r@[k])@ == process_of(entries@[k]),
        decreases entries.len() - i,
    {
        let name = wide_to_string(entries[i].exe_file.as_slice());
        r.push(
            ProcessInfo {
                pid: entries[i].pid,
                parent_pid: entries[i].parent_pid,
                exe_name: name.to_lowercase(),
            },
        );
        i += 1;
    }
    assert(processes_view(r@) == entries@.map_values(|e: ProcessEntry| process_of(e)));
    r
}

/// The ids of the processes.
pub open spec fn ids(processes: Seq<ProcessModel>) -> Set<u32> {
    processes.map_values(|p: ProcessModel| p.pid).to_set()
}

/// The ids of the processes.
pub fn process_ids(processes: &Vec<ProcessInfo>) -> (r: HashSet<u32>)
    ensures
        r@ == ids(processes_view(processes@)),
        forall|pid: u32| #[trigger]
            r@.contains(pid) <==> exists|i: int|
                0 <= i < processes@.len() && (#[trigger] processes@[i]).pid == pid,
{
    let ghost all = processes_view(processes@).map_values(|p: ProcessModel| p.pid);
    let mut r: HashSet<u32> = HashSet::new();
    let mut i: usize = 0;
    assert(all.take(0).to_set() == Set::<u32>::empty());
    while i < processes.len()
        invariant
            i <= processes.len(),
            all == processes_view(processes@).map_values(|p: ProcessModel| p.pid),
            r@ == all.take(i as int).to_set(),
        decreases processes.len() - i,
    {
        r.insert(processes[i].pid);
        proof {
            let t = all.take(i as int);
            assert(all.take(i + 1) == t.push(all[i as int]));
            assert(t.push(all[i as int]).to_set() == t.to_set().insert(all[i as int])) by {
                broadcast use vstd::seq_lib::group_seq_properties;

            }
        }
        i += 1;
    }
    assert(all.take(all.len() as int) == all);
    proof {
        assert forall|pid: u32| #[trigger]
            r@.contains(pid) <==> exists|i: int|
                0 <= i < processes@.len() && (#[trigger] processes@[i]).pid == pid by {
            if r@.contains(pid) {
                let i = choose|i: int| 0 <= i < all.len() && all[i] == pid;
                assert(processes@[i].pid == pid);
            }
            if exists|i: int| 0 <= i < processes@.len() && (#[trigger] processes@[i]).pid == pid {
                let i = choose|i: int|
                    0 <= i < processes@.len() && (#[trigger] processes@[i]).pid == pid;
                assert(all[i] == pid);
                assert(all.contains(pid));
            }
        }
    }
    r
}

/// `child` was not there before the launch, and `parent` started it.
pub open spec fn started_by(
    processes: Seq<ProcessModel>,
    before: Set<u32>,
    parent: u32,
    child: u32,
) -> bool {
    !before.contains(child) && exists|i: int|
        0 <= i < processes.len() && (#[trigger] processes[i]).pid == child
            && processes[i].parent_pid == parent
}

/// Each process in the line was started by the one in front of it.
pub open spec fn is_lineage(
    processes: Seq<ProcessModel>,
    before: Set<u32>,
    line: Seq<u32>,
) -> bool {
    forall|k: int|
        0 < k < line.len() ==> started_by(processes, before, line[k - 1], #[trigger] line[k])
}

/// `pid` is `root`, or a chain of processes started since the launch leads from
/// `root` to it.
pub open spec fn descends(
    processes: Seq<ProcessModel>,
    before: Set<u32>,
    root: u32,
    pid: u32,
) -> bool {
    exists|line: Seq<u32>|
        #![trigger is_lineage(processes, before, line)]
        is_lineage(processes, before, line) && line.len() > 0 && line[0] == root && line.last()
            == pid
}

/// `pid` was not there before the launch, and its executable has one of the names.
pub open spec fn is_named(
    processes: Seq<ProcessModel>,
    before: Set<u32>,
    names: Seq<Seq<char>>,
    pid: u32,
) -> bool {
    !before.contains(pid) && exists|i: int|
        0 <= i < processes.len() && (#[trigger] processes[i]).pid == pid && names.contains(
            processes[i].exe_name,
        )
}

/// The process belongs to the launched application.
pub open spec fn is_candidate(
    processes: Seq<ProcessModel>,
    before: Set<u32>,
    names: Seq<Seq<char>>,
    launched: u32,
    pid: u32,
) -> bool {
    descends(processes, before, launched, pid) || is_named(processes, before, names, pid)
}

/// Each number is below all that follow it.
pub open spec fn increasing(v: Seq<u32>) -> bool {
    forall|i: int, j: int| 0 <= i < j < v.len() ==> v[i] < v[j]
}

/// The ids of the processes that belong to the launched application, in increasing
/// order.
pub open spec fn candidates_of(
    processes: Seq<ProcessModel>,
    before: Set<u32>,
    names: Seq<Seq<char>>,
    launched: u32,
) -> Seq<u32> {
    choose|r: Seq<u32>| #[trigger]
        increasing(r) && forall|pid: u32| #[trigger]
            r.contains(pid) <==> is_candidate(processes, before, names, launched, pid)
}

proof fn lemma_increasing_unique(a: Seq<u32>, b: Seq<u32>)
    requires
        increasing(a),
        increasing(b),
        forall|x: u32| #[trigger] a.contains(x) <==> b.contains(x),
    ensures
        a == b,
    decreases a.len(),
{
    if a.len() == 0 {
        if b.len() > 0 {
            assert(b.contains(b[0]));
            assert(a.contains(b[0]));
        }
        assert(a == b);
    } else {
        assert(a.contains(a[0]));
        assert(b.len() > 0);
        let x = a.last();
        let y = b.last();
        assert(a.contains(x) && b.contains(y));
        assert(b.contains(x) && a.contains(y));
        let i = choose|i: int| 0 <= i < a.len() && a[i] == y;
        let j = choose|j: int| 0 <= j < b.len() && b[j] == x;
        assert(x == y);
        let fa = a.drop_last();
        let fb = b.drop_last();
        assert forall|p: u32| #[trigger] fa.contains(p) <==> fb.contains(p) by {
            if fa.contains(p) {
                let k = choose|k: int| 0 <= k < fa.len() && fa[k] == p;
                assert(a[k] == p && a[k] < x);
                assert(a.contains(p));
                let l = choose|l: int| 0 <= l < b.len() && b[l] == p;
                assert(fb[l] == p);
            }
            if fb.contains(p) {
                let k = choose|k: int| 0 <= k < fb.len() && fb[k] == p;
                assert(b[k] == p && b[k] < y);
                assert(b.contains(p) && a.contains(p));
                let l = choose|l: int| 0 <= l < a.len() && a[l] == p;
                assert(fa[l] == p);
            }
        }
        lemma_increasing_unique(fa, fb);
        assert(a == fa.push(x));
        assert(b == fb.push(y));
    }
}

/// How many list places hold a process that is not in `found`.
spec fn missing(processes: Seq<ProcessModel>, found: Set<u32>) -> nat
    decreases processes.len(),
{
    if processes.len() == 0 {
        0
    } else {
        missing(processes.drop_last(), found) + if found.contains(processes.last().pid) {
            0nat
        } else {
            1nat
        }
    }
}

proof fn lemma_missing(processes: Seq<ProcessModel>, found: Set<u32>, pid: u32)
    ensures
        missing(processes, found.insert(pid)) <= missing(processes, found),
        (!found.contains(pid) && exists|i: int|
            0 <= i < processes.len() && (#[trigger] processes[i]).pid == pid) ==> missing(
            processes,
            found.insert(pid),
        ) < missing(processes, found),
    decreases processes.len(),
{
    if processes.len() > 0 {
        let front = processes.drop_last();
        lemma_missing(front, found, pid);
        if !found.contains(pid) && exists|i: int|
            0 <= i < processes.len() && (#[trigger] processes[i]).pid == pid {
            let i = choose|i: int| 0 <= i < processes.len() && (#[trigger] processes[i]).pid == pid;
            if i < front.len() {
                assert(front[i].pid == pid);
            }
        }
    }
}

proof fn lemma_descends_step(
    processes: Seq<ProcessModel>,
    before: Set<u32>,
    root: u32,
    parent: u32,
    child: u32,
)
    requires
        descends(processes, before, root, parent),
        started_by(processes, before, parent, child),
    ensures
        descends(processes, before, root, child),
{
    let line = choose|line: Seq<u32>|
        #![trigger is_lineage(processes, before, line)]
        is_lineage(processes, before, line) && line.len() > 0 && line[0] == root && line.last()
            == parent;
    let longer = line.push(child);
    assert forall|k: int| 0 < k < longer.len() implies started_by(
        processes,
        before,
        longer[k - 1],
        #[trigger] longer[k],
    ) by {
        if k < line.len() {
            assert(started_by(processes, before, line[k - 1], line[k]));
        }
    }
    assert(is_lineage(processes, before, longer));
}

proof fn lemma_closed(
    processes: Seq<ProcessModel>,
    before: Set<u32>,
    found: Set<u32>,
    line: Seq<u32>,
    k: int,
)
    requires
        is_lineage(processes, before, line),
        0 <= k < line.len(),
        found.contains(line[0]),
        forall|i: int|
            0 <= i < processes.len() && !before.contains((#[trigger] processes[i]).pid)
                && found.contains(processes[i].parent_pid) ==> found.contains(processes[i].pid),
    ensures
        found.contains(line[k]),
    decreases k,
{
    if k > 0 {
        lemma_closed(processes, before, found, line, k - 1);
        assert(started_by(processes, before, line[k - 1], line[k]));
    }
}

/// Puts `x` into the increasing list `v`, unless it is there already.
fn insert_id(v: &mut Vec<u32>, x: u32)
    requires
        increasing(old(v)@),
    ensures
        increasing(final(v)@),
        forall|z: u32| #[trigger] final(v)@.contains(z) <==> old(v)@.contains(z) || z == x,
{
    let ghost before = v@;
    let mut at: usize = 0;
    while at < v.len() && v[at] < x
        invariant
            at <= v.len(),
            v@ == before,
            forall|i: int| 0 <= i < at ==> before[i] < x,
        decreases v.len() - at,
    {
        at += 1;
    }
    if at < v.len() && v[at] == x {
        assert(before[at as int] == x);
        return ;
    }
    v.insert(at, x);
    proof {
        let w = v@;
        assert(w == before.insert(at as int, x));
        assert forall|i: int, j: int| 0 <= i < j < w.len() implies w[i] < w[j] by {
            let i0 = if i < at { i } else { i - 1 };
            let j0 = if j < at { j } else { j - 1 };
            if i != at && j != at {
                assert(before[i0] < before[j0]);
            } else if i == at {
                assert(x < before[at as int]);
                assert(before[at as int] <= before[j0]);
            }
        }
        assert forall|z: u32| #[trigger] w.contains(z) <==> before.contains(z) || z == x by {
            if before.contains(z) {
                let k = choose|k: int| 0 <= k < before.len() && before[k] == z;
                if k < at {
                    assert(w[k] == z);
                } else {
                    assert(w[k + 1] == z);
                }
            }
            assert(w[at as int] == x);
            if w.contains(z) && z != x {
                let k = choose|k: int| 0 <= k < w.len() && w[k] == z;
                let k0 = if k < at { k } else { k - 1 };
                assert(before[k0] == z);
            }
        }
    }
}

/// Whether `name` is one of `names`.
fn is_one_of(name: &String, names: &Vec<String>) -> (r: bool)
    ensures
        r == texts(names@).contains(name@),
{
    let ghost all = texts(names@);
    let mut i: usize = 0;
    while i < names.len()
        invariant
            i <= names.len(),
            all == texts(names@),
            forall|k: int| 0 <= k < i ==> all[k] != name@,
        decreases names.len() - i,
    {
        if *name == names[i] {
            assert(all[i as int] == name@);
            return true;
        }
        i += 1;
    }
    false
}

/// The ids of the processes that belong to a launched application, in increasing
/// order: the launched process and everything it started, directly or through
/// others, and every process since the launch that has one of the names.
pub fn collect_candidate_pids(
    processes: &Vec<ProcessInfo>,
    launched_pid: u32,
    before_launch: &HashSet<u32>,
    process_names: &Vec<String>,
) -> (r: Vec<u32>)
    ensures
        r@ == candidates_of(
            processes_view(processes@),
            before_launch@,
            texts(process_names@),
            launched_pid,
        ),
        increasing(r@),
        forall|i: int, j: int| 0 <= i < j < r@.len() ==> r@[i] < r@[j],
        r@.contains(launched_pid),
        forall|pid: u32| #[trigger]
            r@.contains(pid) <==> is_candidate(
                processes_view(processes@),
                before_launch@,
                texts(process_names@),
                launched_pid,
                pid,
            ),
{
    let ghost all = processes_view(processes@);
    let ghost before = before_launch@;
    let ghost names = texts(process_names@);
    let mut found: HashSet<u32> = HashSet::new();
    found.insert(launched_pid);
    proof {
        let line = seq![launched_pid];
        assert(is_lineage(all, before, line));
        assert(line[0] == launched_pid && line.last() == launched_pid);
    }

    let mut changed = true;
    while changed
        invariant
            all == processes_view(processes@),
            before == before_launch@,
            found@.contains(launched_pid),
            forall|p: u32| #[trigger] found@.contains(p) ==> descends(all, before, launched_pid, p),
            forall|p: u32| #[trigger]
                found@.contains(p) ==> p == launched_pid || exists|i: int|
                    0 <= i < all.len() && (#[trigger] all[i]).pid == p,
            !changed ==> forall|i: int|
                0 <= i < all.len() && !before.contains((#[trigger] all[i]).pid) && found@.contains(
                    all[i].parent_pid,
                ) ==> found@.contains(all[i].pid),
        decreases
                missing(all, found@),
                if changed {
                    1int
                } else {
                    0int
                },
    {
        changed = false;
        let ghost start = found@;
        let mut i: usize = 0;
        while i < processes.len()
            invariant
                i <= processes.len(),
                all == processes_view(processes@),
                before == before_launch@,
                found@.contains(launched_pid),
                forall|p: u32| #[trigger]
                    found@.contains(p) ==> descends(all, before, launched_pid, p),
                forall|p: u32| #[trigger]
                    found@.contains(p) ==> p == launched_pid || exists|i: int|
                        0 <= i < all.len() && (#[trigger] all[i]).pid == p,
                !changed ==> found@ == start,
                changed ==> missing(all, found@) < missing(all, start),
                !changed ==> forall|k: int|
                    0 <= k < i && !before.contains((#[trigger] all[k]).pid) && found@.contains(
                        all[k].parent_pid,
                    ) ==> found@.contains(all[k].pid),
            decreases processes.len() - i,
        {
            let pid = processes[i].pid;
            let parent_pid = processes[i].parent_pid;
            assert(all[i as int].pid == pid && all[i as int].parent_pid == parent_pid);
            if !before_launch.contains(&pid) && found.contains(&parent_pid) {
                proof {
                    lemma_missing(all, found@, pid);
                    assert(started_by(all, before, parent_pid, pid));
                    lemma_descends_step(all, before, launched_pid, parent_pid, pid);
                }
                if found.insert(pid) {
                    changed = true;
                }
            }
            i += 1;
        }
    }
    proof {
        assert forall|p: u32| descends(all, before, launched_pid, p) implies found@.contains(p) by {
            let line = choose|line: Seq<u32>|
                #![trigger is_lineage(all, before, line)]
                is_lineage(all, before, line) && line.len() > 0 && line[0] == launched_pid
                    && line.last() == p;
            lemma_closed(all, before, found@, line, line.len() - 1);
        }
    }

    let mut r: Vec<u32> = Vec::new();
    insert_id(&mut r, launched_pid);
    let mut i: usize = 0;
    while i < processes.len()
        invariant
            i <= processes.len(),
            all == processes_view(processes@),
            before == before_launch@,
            names == texts(process_names@),
            increasing(r@),
            forall|p: u32| #[trigger]
                r@.contains(p) ==> found@.contains(p) || is_named(all, before, names, p),
            r@.contains(launched_pid),
            forall|k: int|
                0 <= k < i && found@.contains((#[trigger] all[k]).pid) ==> r@.contains(all[k].pid),
            forall|k: int|
                0 <= k < i && !before.contains((#[trigger] all[k]).pid) && names.contains(
                    all[k].exe_name,
                ) ==> r@.contains(all[k].pid),
            found@.contains(launched_pid),
        decreases processes.len() - i,
    {
        let pid = processes[i].pid;
        assert(all[i as int] == processes@[i as int]@);
        let named = !before_launch.contains(&pid) && is_one_of(
            &processes[i].exe_name,
            process_names,
        );
        if found.contains(&pid) || named {
            assert(named ==> is_named(all, before, names, pid));
            insert_id(&mut r, pid);
        }
        i += 1;
    }
    proof {
        assert forall|pid: u32| #[trigger] r@.contains(pid) <==> is_candidate(
            all,
            before,
            names,
            launched_pid,
            pid,
        ) by {}
        lemma_increasing_unique(r@, candidates_of(all, before, names, launched_pid));
    }
    r
}

/// The launched process is always a candidate.
pub proof fn law_launched_is_candidate(
    processes: Seq<ProcessModel>,
    before: Set<u32>,
    names: Seq<Seq<char>>,
    launched: u32,
)
    ensures
        is_candidate(processes, before, names, launched, launched),
{
    let line = seq![launched];
    assert(is_lineage(processes, before, line));
    assert(line[0] == launched && line.last() == launched);
}

/// A process that ran before the launch is never a candidate, unless it is the
/// launched process itself.
pub proof fn law_bystanders_are_left_alone(
    processes: Seq<ProcessModel>,
    before: Set<u32>,
    names: Seq<Seq<char>>,
    launched: u32,
    pid: u32,
)
    requires
        before.contains(pid),
        pid != launched,
    ensures
        !is_candidate(processes, before, names, launched, pid),
{
    if descends(processes, before, launched, pid) {
        let line = choose|line: Seq<u32>|
            #![trigger is_lineage(processes, before, line)]
            is_lineage(processes, before, line) && line.len() > 0 && line[0] == launched
                && line.last() == pid;
        let k = line.len() - 1;
        assert(started_by(processes, before, line[k - 1], line[k]));
    }
}

/// What a descendant of the launched process starts is a candidate too.
pub proof fn law_children_follow(
    processes: Seq<ProcessModel>,
    before: Set<u32>,
    names: Seq<Seq<char>>,
    launched: u32,
    parent: u32,
    child: u32,
)
    requires
        descends(processes, before, launched, parent),
        started_by(processes, before, parent, child),
    ensures
        is_candidate(processes, before, names, launched, child),
{
    lemma_descends_step(processes, before, launched, parent, child);
}

/// Every candidate is the launched process or one of the list.
pub proof fn law_candidates_exist(
    processes: Seq<ProcessModel>,
    before: Set<u32>,
    names: Seq<Seq<char>>,
    launched: u32,
    pid: u32,
)
    requires
        is_candidate(processes, before, names, launched, pid),
    ensures
        pid == launched || ids(processes).contains(pid),
{
    if pid != launched {
        if descends(processes, before, launched, pid) {
            let line = choose|line: Seq<u32>|
                #![trigger is_lineage(processes, before, line)]
                is_lineage(processes, before, line) && line.len() > 0 && line[0] == launched
                    && line.last() == pid;
            let k = line.len() - 1;
            assert(started_by(processes, before, line[k - 1], line[k]));
        }
        let i = choose|i: int| 0 <= i < processes.len() && (#[trigger] processes[i]).pid == pid;
        let all = processes.map_values(|p: ProcessModel| p.pid);
        assert(all[i] == pid);
        assert(all.contains(pid));
    }
}

proof fn lemma_no_zero_unit(s: Seq<char>, i: int)
    requires
        forall|k: int| 0 <= k < s.len() ==> #[trigger] s[k] != '\0',
        0 <= i < utf16_units(s).len(),
    ensures
        utf16_units(s)[i] != 0,
    decreases s.len(),
{
    let first = char_units(s[0]);
    lemma_char_range(s[0]);
    assert(s[0] != '\0');
    if i >= first.len() {
        lemma_no_zero_unit(s.drop_first(), i - first.len());
    }
}

/// A text without a zero character is read back from its UTF-16 code units, whether
/// they fill the buffer or a zero unit and any others stand behind them.
pub proof fn law_wide_text_is_read_back(s: Seq<char>, tail: Seq<u16>)
    requires
        forall|k: int| 0 <= k < s.len() ==> #[trigger] s[k] != '\0',
    ensures
        utf16_lossy(before_nul(utf16_units(s))) == s,
        utf16_lossy(before_nul(utf16_units(s) + seq![0u16] + tail)) == s,
{
    let units = utf16_units(s);
    let buffer = units + seq![0u16] + tail;
    assert forall|i: int| 0 <= i < units.len() implies units[i] != 0 by {
        lemma_no_zero_unit(s, i);
    }
    lemma_before_nul(units, units.len() as int);
    lemma_before_nul(buffer, units.len() as int);
    assert(units.take(units.len() as int) == units);
    assert(buffer.take(units.len() as int) == units);
    law_utf16_round_trip(s);
}

/// The units that are read are those in front of the first zero unit, or all of them
/// where there is none.
pub proof fn law_text_ends_at_the_first_zero(units: Seq<u16>, end: int)
    requires
        0 <= end <= units.len(),
        forall|i: int| 0 <= i < end ==> units[i] != 0,
        end == units.len() || units[end] == 0,
    ensures
        before_nul(units) == units.subrange(0, end),
{
    lemma_before_nul(units, end);
    assert(units.take(end) == units.subrange(0, end));
}

/// A process is read with its own id, its parent's id and its name in lower case.
pub proof fn law_process_of_an_entry(e: ProcessEntry)
    ensures
        process_of(e).pid == e.pid,
        process_of(e).parent_pid == e.parent_pid,
        process_of(e).exe_name == lower(utf16_lossy(before_nul(e.exe_file@))),
{
}

/// A process that was not there before the launch is a candidate where its name is
/// one of those looked for.
pub proof fn law_named_processes_are_candidates(
    processes: Seq<ProcessModel>,
    before: Set<u32>,
    names: Seq<Seq<char>>,
    launched: u32,
    i: int,
)
    requires
        0 <= i < processes.len(),
        !before.contains(processes[i].pid),
        names.contains(processes[i].exe_name),
    ensures
        is_candidate(processes, before, names, launched, processes[i].pid),
{
}

/// A process that was not there before the launch is a candidate where its parent is
/// the launched process or was started by it, directly or through others.
pub proof fn law_started_processes_are_candidates(
    processes: Seq<ProcessModel>,
    before: Set<u32>,
    names: Seq<Seq<char>>,
    launched: u32,
    i: int,
)
    requires
        0 <= i < processes.len(),
        !before.contains(processes[i].pid),
        descends(processes, before, launched, processes[i].parent_pid),
    ensures
        descends(processes, before, launched, processes[i].pid),
        is_candidate(processes, before, names, launched, processes[i].pid),
{
    let p = processes[i];
    assert(started_by(processes, before, p.parent_pid, p.pid));
    lemma_descends_step(processes, before, launched, p.parent_pid, p.pid);
}

/// There are no other candidates: the launched process descends from itself, and
/// whatever else does is in every set that holds the launched process and, with a
/// process, all that this started since the launch; a candidate that does not descend
/// is not from before the launch and has one of the names.
pub proof fn law_no_other_candidates(
    processes: Seq<ProcessModel>,
    before: Set<u32>,
    names: Seq<Seq<char>>,
    launched: u32,
    pid: u32,
    family: Set<u32>,
)
    requires
        family.contains(launched),
        forall|i: int|
            0 <= i < processes.len() && !before.contains((#[trigger] processes[i]).pid)
                && family.contains(processes[i].parent_pid) ==> family.contains(processes[i].pid),
        is_candidate(processes, before, names, launched, pid),
    ensures
        descends(processes, before, launched, launched),
        descends(processes, before, launched, pid) ==> family.contains(pid),
        family.contains(pid) || (!before.contains(pid) && exists|i: int|
            0 <= i < processes.len() && (#[trigger] processes[i]).pid == pid && names.contains(
                processes[i].exe_name,
            )),
{
    let one = seq![launched];
    assert(is_lineage(processes, before, one));
    assert(one[0] == launched && one.last() == launched);
    if descends(processes, before, launched, pid) {
        let line = choose|line: Seq<u32>|
            #![trigger is_lineage(processes, before, line)]
            is_lineage(processes, before, line) && line.len() > 0 && line[0] == launched
                && line.last() == pid;
        lemma_closed(processes, before, family, line, line.len() - 1);
    }
}

/// A list of processes stands for its processes, one for each, in order, each with its
/// own id, its parent's id and its name.
pub proof fn law_list_of_processes(v: Seq<ProcessInfo>)
    ensures
        processes_view(v).len() == v.len(),
        forall|i: int|
            0 <= i < v.len() ==> (#[trigger] processes_view(v)[i]).pid == v[i].pid && processes_view(
                v,
            )[i].parent_pid == v[i].parent_pid && processes_view(v)[i].exe_name == v[i].exe_name@,
        forall|pid: u32| #[trigger]
            ids(processes_view(v)).contains(pid) <==> exists|i: int|
                0 <= i < v.len() && (#[trigger] v[i]).pid == pid,
{
    let all = processes_view(v).map_values(|p: ProcessModel| p.pid);
    assert forall|pid: u32| #[trigger]
        ids(processes_view(v)).contains(pid) <==> exists|i: int|
            0 <= i < v.len() && (#[trigger] v[i]).pid == pid by {
        if all.contains(pid) {
            let i = choose|i: int| 0 <= i < all.len() && all[i] == pid;
            assert(v[i].pid == pid);
        }
        if exists|i: int| 0 <= i < v.len() && (#[trigger] v[i]).pid == pid {
            let i = choose|i: int| 0 <= i < v.len() && (#[trigger] v[i]).pid == pid;
            assert(all[i] == pid);
            assert(all.contains(pid));
        }
    }
}

} // verus!
