//! The course of putting a default configuration file in place: one target after
//! the other, until a file is written.

use vstd::prelude::*;

use crate::template::{default_config_template, template_text};
use crate::text::{opt_text, texts};
use crate::winpath::{parent, parent_of};

verus! {

/// How far the attempt has come: the target that is tried, whether its directory is
/// there and the file is being written, and the failures so far.
pub struct CreateState {
    pub targets: Vec<String>,
    pub at: usize,
    pub writing: bool,
    pub errors: Vec<String>,
}

/// What a `CreateState` stands for.
pub struct CreateModel {
    pub targets: Seq<Seq<char>>,
    pub at: int,
    pub writing: bool,
    pub errors: Seq<Seq<char>>,
}

impl View for CreateState {
    type V = CreateModel;

    open spec fn view(&self) -> CreateModel {
        CreateModel {
            targets: texts(self.targets@),
            at: self.at as int,
            writing: self.writing,
            errors: texts(self.errors@),
        }
    }
}

/// What to do next.
pub enum CreateAction {
    /// Make this directory and those above it.
    CreateDir(String),
    /// Write to this file the text of the default configuration.
    Write(String, String),
    /// The file was written.
    Created(String),
    /// No target worked, and this is why.
    Failed(String),
}

/// What a `CreateAction` stands for.
pub enum CreateActionModel {
    CreateDir(Seq<char>),
    Write(Seq<char>, Seq<char>),
    Created(Seq<char>),
    Failed(Seq<char>),
}

impl View for CreateAction {
    type V = CreateActionModel;

    open spec fn view(&self) -> CreateActionModel {
        match self {
            CreateAction::CreateDir(t) => CreateActionModel::CreateDir(t@),
            CreateAction::Write(t, content) => CreateActionModel::Write(t@, content@),
            CreateAction::Created(t) => CreateActionModel::Created(t@),
            CreateAction::Failed(t) => CreateActionModel::Failed(t@),
        }
    }
}

/// The texts as lines.
pub open spec fn lines(s: Seq<Seq<char>>) -> Seq<char>
    decreases s.len(),
{
    if s.len() == 0 {
        seq![]
    } else if s.len() == 1 {
        s[0]
    } else {
        lines(s.drop_last()) + "\n"@ + s.last()
    }
}

/// The message that no target worked.
pub open spec fn not_created_text(errors: Seq<Seq<char>>) -> Seq<char> {
    "无法自动创建配置文件 launch_apps.toml。尝试结果:\n"@ + lines(errors)
}

/// The directory that has to be there for a target, if one has to.
pub open spec fn needed_dir(target: Seq<char>) -> Option<Seq<char>> {
    match parent_of(target) {
        Some(dir) => if dir.len() > 0 {
            Some(dir)
        } else {
            None
        },
        None => None,
    }
}

/// The attempt at target number `at`: its directory first, if one has to be there,
/// then the file.
pub open spec fn attempt(targets: Seq<Seq<char>>, at: int, errors: Seq<Seq<char>>) -> (
    CreateModel,
    CreateActionModel,
) {
    if at >= targets.len() {
        (
            CreateModel { targets, at, writing: false, errors },
            CreateActionModel::Failed(not_created_text(errors)),
        )
    } else {
        match needed_dir(targets[at]) {
            Some(dir) => (
                CreateModel { targets, at, writing: false, errors },
                CreateActionModel::CreateDir(dir),
            ),
            None => (
                CreateModel { targets, at, writing: true, errors },
                CreateActionModel::Write(targets[at], template_text()),
            ),
        }
    }
}

/// The directory that is being made.
pub open spec fn dir_in_work(m: CreateModel) -> Seq<char> {
    match needed_dir(m.targets[m.at]) {
        Some(dir) => dir,
        None => seq![],
    }
}

/// The course of the attempt; `failure` is the system's word where the last action
/// failed.
pub open spec fn create_next(m: CreateModel, failure: Option<Seq<char>>) -> (
    CreateModel,
    CreateActionModel,
) {
    match failure {
        None => if m.writing {
            (m, CreateActionModel::Created(m.targets[m.at]))
        } else {
            (
                CreateModel { writing: true, ..m },
                CreateActionModel::Write(m.targets[m.at], template_text()),
            )
        },
        Some(cause) => {
            let error = if m.writing {
                "写入失败 "@ + m.targets[m.at] + ": "@ + cause
            } else {
                "创建目录失败 "@ + dir_in_work(m) + ": "@ + cause
            };
            attempt(m.targets, m.at + 1, m.errors.push(error))
        },
    }
}

/// A target is being tried, and a directory is being made only where one has to be.
pub open spec fn create_valid(m: CreateModel) -> bool {
    0 <= m.at < m.targets.len() && (!m.writing ==> needed_dir(m.targets[m.at]) is Some)
}

fn join_lines(v: &Vec<String>) -> (r: String)
    ensures
        r@ == lines(texts(v@)),
{
    let ghost all = texts(v@);
    let mut r = String::new();
    let mut i: usize = 0;
    assert(all.take(0) == Seq::<Seq<char>>::empty());
    while i < v.len()
        invariant
            i <= v.len(),
            all == texts(v@),
            r@ == lines(all.take(i as int)),
        decreases v.len() - i,
    {
        proof {
            let t = all.take(i + 1);
            assert(t.drop_last() == all.take(i as int));
            assert(t.last() == v@[i as int]@);
            if i == 0 {
                assert(t[0] == v@[0]@);
                assert(Seq::<char>::empty() + v@[0]@ == v@[0]@);
            }
        }
        if i > 0 {
            r.append("\n");
        }
        r.append(v[i].as_str());
        i += 1;
    }
    assert(all.take(all.len() as int) == all);
    r
}

fn dir_for(target: &str) -> (r: Option<String>)
    ensures
        opt_text(r) == needed_dir(target@),
{
    match parent(target) {
        Some(dir) => {
            if dir.as_str().is_empty() {
                None
            } else {
                Some(dir)
            }
        },
        None => None,
    }
}

fn begin(targets: Vec<String>, at: usize, errors: Vec<String>) -> (r: (CreateState, CreateAction))
    requires
        at <= targets.len(),
    ensures
        (r.0@, r.1@) == attempt(texts(targets@), at as int, texts(errors@)),
        at < targets.len() ==> create_valid(r.0@),
{
    assert(texts(targets@).len() == targets.len());
    if at >= targets.len() {
        let mut message = "无法自动创建配置文件 launch_apps.toml。尝试结果:\n".to_owned();
        message.append(join_lines(&errors).as_str());
        (CreateState { targets, at, writing: false, errors }, CreateAction::Failed(message))
    } else {
        assert(texts(targets@)[at as int] == targets@[at as int]@);
        match dir_for(targets[at].as_str()) {
            Some(dir) => (
                CreateState { targets, at, writing: false, errors },
                CreateAction::CreateDir(dir),
            ),
            None => {
                let target = targets[at].clone();
                (
                    CreateState { targets, at, writing: true, errors },
                    CreateAction::Write(target, default_config_template()),
                )
            },
        }
    }
}

/// Starts to put a default configuration file in place.
pub fn create_default_config(targets: Vec<String>) -> (r: (CreateState, CreateAction))
    ensures
        (r.0@, r.1@) == attempt(texts(targets@), 0, seq![]),
        r.1@ is Failed || create_valid(r.0@),
{
    let errors: Vec<String> = Vec::new();
    assert(texts(errors@) == Seq::<Seq<char>>::empty());
    assert(texts(targets@).len() == targets.len());
    begin(targets, 0, errors)
}

/// Whether the attempt can be taken a step on.
pub fn can_step_create(state: &CreateState) -> (r: bool)
    ensures
        r == create_valid(state@),
{
    assert(texts(state.targets@).len() == state.targets.len());
    if state.at >= state.targets.len() {
        return false;
    }
    assert(texts(state.targets@)[state.at as int] == state.targets@[state.at as int]@);
    state.writing || dir_for(state.targets[state.at].as_str()).is_some()
}

/// Takes the attempt one step on; `failure` is the system's word where the last
/// action failed.
pub fn step_create(state: CreateState, failure: Option<String>) -> (r: (CreateState, CreateAction))
    requires
        create_valid(state@),
    ensures
        (r.0@, r.1@) == create_next(state@, opt_text(failure)),
        r.1@ is Failed || create_valid(r.0@),
        r.1 matches CreateAction::Write(target, content) ==> r.0.writing && r.0.at
            < r.0.targets@.len() && target@ == r.0.targets@[r.0.at as int]@ && content@
            == template_text(),
        r.1 matches CreateAction::Created(target) ==> state.writing && failure is None && target@
            == state.targets@[state.at as int]@,
        failure is Some ==> r.0.at == state.at + 1 && r.0.errors@.len() == state.errors@.len() + 1,
        failure is None ==> r.0.at == state.at && texts(r.0.errors@) == texts(state.errors@),
        texts(r.0.targets@) == texts(state.targets@),
{
    assert(texts(state.targets@).len() == state.targets.len());
    assert(texts(state.targets@)[state.at as int] == state.targets@[state.at as int]@);
    let target = state.targets[state.at].clone();
    match failure {
        None => {
            if state.writing {
                (state, CreateAction::Created(target))
            } else {
                let CreateState { targets, at, writing: _, errors } = state;
                (
                    CreateState { targets, at, writing: true, errors },
                    CreateAction::Write(target, default_config_template()),
                )
            }
        },
        Some(cause) => {
            let mut error: String;
            if state.writing {
                error = "写入失败 ".to_owned();
                error.append(target.as_str());
            } else {
                error = "创建目录失败 ".to_owned();
                match dir_for(target.as_str()) {
                    Some(dir) => {
                        error.append(dir.as_str());
                    },
                    None => {},
                }
            }
            error.append(": ");
            error.append(cause.as_str());
            let ghost before = texts(state.errors@);
            let CreateState { targets, at, writing: _, errors } = state;
            let mut errors = errors;
            errors.push(error);
            assert(texts(errors@) == before.push(error@));
            begin(targets, at + 1, errors)
        },
    }
}

/// How many steps the attempt can still take.
pub open spec fn create_steps_left(m: CreateModel) -> int {
    2 * (m.targets.len() - m.at) - if m.writing {
        1int
    } else {
        0int
    }
}

/// The attempt ends: each step that does not end it leaves fewer.
pub proof fn law_create_ends(m: CreateModel, failure: Option<Seq<char>>)
    requires
        create_valid(m),
    ensures
        ({
            let next = create_next(m, failure);
            next.1 is Created || (0 <= create_steps_left(next.0) < create_steps_left(m))
        }),
{
}

/// Only a file that was written counts as created, and it is one of the targets.
pub proof fn law_created_file_is_a_target(m: CreateModel, failure: Option<Seq<char>>)
    requires
        create_valid(m),
        create_next(m, failure).1 is Created,
    ensures
        m.writing && failure is None,
        create_next(m, failure).1 == CreateActionModel::Created(m.targets[m.at]),
        m.targets.contains(m.targets[m.at]),
{
}

/// What the system says to the attempts: for each target the cause, if there is one,
/// why its directory cannot be made, and why its file cannot be written.
pub struct CreateWorld {
    pub dirs: Seq<Option<Seq<char>>>,
    pub writes: Seq<Option<Seq<char>>>,
}

/// The directory of target number `i` is there or can be made.
pub open spec fn dir_works(targets: Seq<Seq<char>>, world: CreateWorld, i: int) -> bool {
    needed_dir(targets[i]) is Some ==> world.dirs[i] is None
}

/// A file can be put at target number `i`.
pub open spec fn target_works(targets: Seq<Seq<char>>, world: CreateWorld, i: int) -> bool {
    dir_works(targets, world, i) && world.writes[i] is None
}

/// Why no file can be put at target number `i`.
pub open spec fn target_error(targets: Seq<Seq<char>>, world: CreateWorld, i: int) -> Seq<char> {
    if dir_works(targets, world, i) {
        "写入失败 "@ + targets[i] + ": "@ + world.writes[i]->0
    } else {
        "创建目录失败 "@ + needed_dir(targets[i])->0 + ": "@ + world.dirs[i]->0
    }
}

/// What the system says to the action of the attempt.
pub open spec fn world_answer(world: CreateWorld, m: CreateModel) -> Option<Seq<char>> {
    if m.writing {
        world.writes[m.at]
    } else {
        world.dirs[m.at]
    }
}

/// Nothing is left to do behind the action.
pub open spec fn create_ended(action: CreateActionModel) -> bool {
    action is Created || action is Failed
}

/// How far the attempt is after so many steps from its start.
pub open spec fn create_course(targets: Seq<Seq<char>>, world: CreateWorld, steps: nat) -> (
    CreateModel,
    CreateActionModel,
)
    decreases steps,
{
    if steps == 0 {
        attempt(targets, 0, seq![])
    } else {
        let (m, action) = create_course(targets, world, (steps - 1) as nat);
        if create_ended(action) {
            (m, action)
        } else {
            create_next(m, world_answer(world, m))
        }
    }
}

/// The world has a say on every target.
pub open spec fn world_covers(targets: Seq<Seq<char>>, world: CreateWorld) -> bool {
    world.dirs.len() == targets.len() && world.writes.len() == targets.len()
}

/// At every step the targets before the one that is tried have failed, and their
/// errors are kept, one for each, in order.  A target is written only where its
/// directory did not fail, with the text of the default configuration, and one counts as created only where its file was
/// written.
pub proof fn law_create_course(targets: Seq<Seq<char>>, world: CreateWorld, steps: nat)
    requires
        world_covers(targets, world),
    ensures
        ({
            let (m, action) = create_course(targets, world, steps);
            &&& m.targets == targets
            &&& 0 <= m.at <= targets.len()
            &&& m.errors == Seq::new(m.at as nat, |i: int| target_error(targets, world, i))
            &&& forall|i: int| 0 <= i < m.at ==> !#[trigger] target_works(targets, world, i)
            &&& !(action is Failed) ==> create_valid(m)
            &&& match action {
                CreateActionModel::CreateDir(dir) => !m.writing && needed_dir(targets[m.at])
                    == Some(dir),
                CreateActionModel::Write(target, content) => m.writing && target == targets[m.at]
                    && content == template_text() && dir_works(targets, world, m.at),
                CreateActionModel::Created(target) => target == targets[m.at] && target_works(
                    targets,
                    world,
                    m.at,
                ),
                CreateActionModel::Failed(message) => m.at == targets.len() && message
                    == not_created_text(m.errors),
            }
        }),
    decreases steps,
{
    let errors = |n: int| Seq::new(n as nat, |i: int| target_error(targets, world, i));
    if steps == 0 {
        assert(errors(0) == Seq::<Seq<char>>::empty());
    } else {
        law_create_course(targets, world, (steps - 1) as nat);
        let (m, action) = create_course(targets, world, (steps - 1) as nat);
        if !create_ended(action) && world_answer(world, m) is Some {
            assert(!target_works(targets, world, m.at));
            assert(errors(m.at + 1) == m.errors.push(target_error(targets, world, m.at)));
        }
    }
}

proof fn lemma_course_ends(targets: Seq<Seq<char>>, world: CreateWorld, steps: nat)
    requires
        world_covers(targets, world),
    ensures
        ({
            let (m, action) = create_course(targets, world, steps);
            create_ended(action) || create_steps_left(m) + steps <= 2 * targets.len()
        }),
    decreases steps,
{
    if steps > 0 {
        let (m, action) = create_course(targets, world, (steps - 1) as nat);
        lemma_course_ends(targets, world, (steps - 1) as nat);
        law_create_course(targets, world, (steps - 1) as nat);
        if !create_ended(action) {
            law_create_ends(m, world_answer(world, m));
        }
    }
}

/// The first target whose directory and file succeed is created.  If none does, the
/// attempt fails with one error for each target, in their order.  Two steps for each
/// target are enough.
pub proof fn law_first_working_target_is_created(
    targets: Seq<Seq<char>>,
    world: CreateWorld,
    steps: nat,
)
    requires
        world_covers(targets, world),
        steps >= 2 * targets.len(),
    ensures
        forall|i: int|
            0 <= i < targets.len() && #[trigger] target_works(targets, world, i) && (forall|j: int|
                0 <= j < i ==> !#[trigger] target_works(targets, world, j)) ==> create_course(
                targets,
                world,
                steps,
            ).1 == CreateActionModel::Created(targets[i]),
        (forall|i: int| 0 <= i < targets.len() ==> !#[trigger] target_works(targets, world, i))
            ==> create_course(targets, world, steps).1 == CreateActionModel::Failed(
            "无法自动创建配置文件 launch_apps.toml。尝试结果:\n"@ + lines(
                Seq::new(targets.len(), |i: int| target_error(targets, world, i)),
            ),
        ),
{
    law_create_course(targets, world, steps);
    lemma_course_ends(targets, world, steps);
    let (m, action) = create_course(targets, world, steps);
    assert(create_ended(action));
    if action is Created {
        assert(target_works(targets, world, m.at));
    }
}

/// Texts as lines: one text is its own line, and another is put behind those before
/// it with a line break between.
pub proof fn law_lines(s: Seq<Seq<char>>, x: Seq<char>)
    ensures
        lines(seq![]) == Seq::<char>::empty(),
        s.len() == 0 ==> lines(s.push(x)) == x,
        s.len() > 0 ==> lines(s.push(x)) == lines(s) + seq!['\n'] + x,
{
    reveal_strlit("\n");
    assert("\n"@ == seq!['\n']);
    assert(s.push(x).drop_last() == s);
}

/// A target needs a directory where its parent has a name; that parent is it.
pub proof fn law_directory_of_a_target(target: Seq<char>)
    ensures
        parent_of(target) is None ==> needed_dir(target) is None,
        parent_of(target) matches Some(dir) ==> (dir.len() == 0 ==> needed_dir(target) is None),
        parent_of(target) matches Some(dir) ==> (dir.len() > 0 ==> needed_dir(target) == Some(dir)),
{
}

/// The first thing to do is to make the first target's directory where it needs one,
/// and else to write the target.
pub proof fn law_attempt_starts_in_front(targets: Seq<Seq<char>>)
    requires
        targets.len() > 0,
    ensures
        ({
            let first = attempt(targets, 0, seq![]);
            &&& first.0.at == 0 && first.0.errors.len() == 0 && first.0.targets == targets
            &&& parent_of(targets[0]) matches Some(dir) ==> (dir.len() > 0 ==> first.1
                == CreateActionModel::CreateDir(dir))
            &&& parent_of(targets[0]) is None || parent_of(targets[0])->0.len() == 0 ==> first.1
                == CreateActionModel::Write(targets[0], template_text())
        }),
{
}

/// An attempt and its actions stand for what their fields hold.
pub proof fn law_fields_of_an_attempt(state: CreateState, t: String, content: String)
    ensures
        state@.targets == texts(state.targets@),
        state@.at == state.at,
        state@.writing == state.writing,
        state@.errors == texts(state.errors@),
        CreateAction::CreateDir(t)@ == CreateActionModel::CreateDir(t@),
        CreateAction::Write(t, content)@ == CreateActionModel::Write(t@, content@),
        CreateAction::Created(t)@ == CreateActionModel::Created(t@),
        CreateAction::Failed(t)@ == CreateActionModel::Failed(t@),
{
}

/// A file can be put at a target where its directory, if it has one with a name, can
/// be made, and the file can be written.  Else the error names the directory and why
/// it cannot be made, or, where it can, the target and why that cannot be written.
pub proof fn law_what_a_target_comes_to(targets: Seq<Seq<char>>, world: CreateWorld, i: int)
    ensures
        ({
            let dir = match parent_of(targets[i]) {
                Some(d) => d,
                None => seq![],
            };
            let no_dir = dir.len() > 0 && world.dirs[i] is Some;
            &&& target_works(targets, world, i) <==> !no_dir && world.writes[i] is None
            &&& no_dir ==> target_error(targets, world, i) == "创建目录失败 "@ + dir + ": "@
                + world.dirs[i]->0
            &&& !no_dir ==> target_error(targets, world, i) == "写入失败 "@ + targets[i] + ": "@
                + world.writes[i]->0
        }),
{
}

} // verus!
