//! The commands that the program runs: which there are, when each may start and what becomes
//! of it.

use vstd::prelude::*;

use crate::app::App;
use crate::app::AppTask;
use crate::app::AppTaskView;
use crate::app::tasks_map;
use crate::app_state::AppState;
use crate::app_state::AppStateView;
use crate::app_state::StateEvent;
use crate::app_state::StatusChangeEvent;
use crate::app_state::TaskStatus;
use crate::env::Env;
use crate::env::contents_view;
use crate::env::with_files;
use crate::pnpm::PnpmProjectView;
use crate::pnpm::Project;
use crate::strmap::StrMap;
use crate::strmap::text_lists;
use crate::task_runner::put;
use crate::task_runner::text_map;
use crate::text;
use crate::watch_manager::before_colon;
use crate::watch_manager::project_of_task;

verus! {

/// The name of the task that runs a command of a project.
pub open spec fn joined(project: Seq<char>, command: Seq<char>) -> Seq<char> {
    project + ":"@ + command
}

/// A task that is to be taken in.
pub struct PlannedCommand {
    pub name: String,
    pub task: AppTask,
    /// The tasks that it depends on.
    pub depend_on: Vec<String>,
}

/// What a [`PlannedCommand`] says.
#[verifier::ext_equal]
pub struct PlannedView {
    pub name: Seq<char>,
    pub task: AppTaskView,
    pub depend_on: Seq<Seq<char>>,
}

impl View for PlannedCommand {
    type V = PlannedView;

    open spec fn view(&self) -> PlannedView {
        PlannedView {
            name: self.name@,
            task: self.task@,
            depend_on: text::texts(self.depend_on@),
        }
    }
}

/// What planned tasks say.
pub open spec fn planned_view(v: Seq<PlannedCommand>) -> Seq<PlannedView> {
    v.map_values(|p: PlannedCommand| p@)
}

/// The tasks of a command of the given projects.
pub open spec fn all_joined(deps: Seq<Seq<char>>, command: Seq<char>) -> Seq<Seq<char>> {
    deps.map_values(|d: Seq<char>| joined(d, command))
}

/// The task of a command of a project.
pub open spec fn command_plan(
    name: Seq<char>,
    project: PnpmProjectView,
    command: Seq<char>,
) -> PlannedView {
    PlannedView {
        name: joined(name, command),
        task: AppTaskView { name, command, path: project.path },
        depend_on: all_joined(project.deps, command),
    }
}

/// The tasks of a project: one for each of the commands that is among its scripts.
pub open spec fn project_plan(
    name: Seq<char>,
    project: PnpmProjectView,
    commands: Seq<Seq<char>>,
) -> Seq<PlannedView>
    decreases commands.len(),
{
    if commands.len() == 0 {
        Seq::empty()
    } else {
        let before = project_plan(name, project, commands.drop_last());
        if project.scripts.contains(commands.last()) {
            before.push(command_plan(name, project, commands.last()))
        } else {
            before
        }
    }
}

/// The tasks of the first `n` projects.
pub open spec fn plan(
    names: Seq<Seq<char>>,
    projects: Seq<PnpmProjectView>,
    commands: Seq<Seq<char>>,
    n: int,
) -> Seq<PlannedView>
    decreases n,
{
    if n <= 0 {
        Seq::empty()
    } else {
        plan(names, projects, commands, n - 1) + project_plan(
            names[n - 1],
            projects[n - 1],
            commands,
        )
    }
}

/// The tasks by name, after the first `n` of a plan.
pub open spec fn with_planned(
    tasks: Map<Seq<char>, AppTaskView>,
    plan: Seq<PlannedView>,
    n: int,
) -> Map<Seq<char>, AppTaskView>
    decreases n,
{
    if n <= 0 {
        tasks
    } else {
        with_planned(tasks, plan, n - 1).insert(plan[n - 1].name, plan[n - 1].task)
    }
}

/// What the first `n` tasks of a plan depend on, by name.
pub open spec fn dependencies(plan: Seq<PlannedView>, n: int) -> Map<Seq<char>, Seq<Seq<char>>>
    decreases n,
{
    if n <= 0 {
        Map::empty()
    } else {
        dependencies(plan, n - 1).insert(plan[n - 1].name, plan[n - 1].depend_on)
    }
}

/// The names of the first `n` tasks of a plan, each once, in their order.
pub open spec fn plan_names(plan: Seq<PlannedView>, n: int) -> Seq<Seq<char>>
    decreases n,
{
    if n <= 0 {
        Seq::empty()
    } else {
        let before = plan_names(plan, n - 1);
        if dependencies(plan, n - 1).contains_key(plan[n - 1].name) {
            before
        } else {
            before.push(plan[n - 1].name)
        }
    }
}

fn join(project: &str, command: &str) -> (r: String)
    ensures
        r@ == joined(project@, command@),
{
    text::concat3(project, ":", command)
}

fn join_all(deps: &Vec<String>, command: &str) -> (r: Vec<String>)
    ensures
        text::texts(r@) == all_joined(text::texts(deps@), command@),
{
    let ghost want = all_joined(text::texts(deps@), command@);
    let mut out: Vec<String> = Vec::new();
    let mut i: usize = 0;
    assert(text::texts(out@) =~= want.take(0));
    while i < deps.len()
        invariant
            i <= deps@.len(),
            want == all_joined(text::texts(deps@), command@),
            text::texts(out@) == want.take(i as int),
        decreases deps@.len() - i,
    {
        let ghost before = text::texts(out@);
        out.push(join(deps[i].as_str(), command));
        proof {
            assert(text::texts(deps@)[i as int] == deps@[i as int]@);
            assert(text::texts(out@) =~= before.push(want[i as int]));
            assert(want.take(i + 1) =~= want.take(i as int).push(want[i as int]));
        }
        i += 1;
    }
    assert(want.take(i as int) =~= want);
    out
}

fn plan_project(
    name: &String,
    project: &Project,
    commands: &Vec<String>,
    out: &mut Vec<PlannedCommand>,
)
    ensures
        planned_view(final(out)@) == planned_view(old(out)@) + project_plan(
            name@,
            project@,
            text::texts(commands@),
        ),
{
    let ghost start = planned_view(out@);
    let ghost all = text::texts(commands@);
    let mut i: usize = 0;
    assert(start + project_plan(name@, project@, all.take(0)) =~= start);
    while i < commands.len()
        invariant
            i <= commands@.len(),
            all == text::texts(commands@),
            planned_view(out@) == start + project_plan(name@, project@, all.take(i as int)),
        decreases commands@.len() - i,
    {
        let ghost before = planned_view(out@);
        let command = &commands[i];
        proof {
            assert(all.take(i + 1).drop_last() =~= all.take(i as int));
            assert(all.take(i + 1).last() == command@);
        }
        if text::contains_text(&project._scripts, command.as_str()) {
            let p = PlannedCommand {
                name: join(name.as_str(), command.as_str()),
                task: AppTask::new(name.clone(), command.clone(), project._path.clone()),
                depend_on: join_all(&project._deps, command.as_str()),
            };
            assert(p@ =~= command_plan(name@, project@, command@));
            out.push(p);
            assert(planned_view(out@) =~= before.push(command_plan(name@, project@, command@)));
            assert(planned_view(out@) =~= start + project_plan(name@, project@, all.take(i + 1)));
        }
        i += 1;
    }
    assert(all.take(i as int) =~= all);
}

/// The tasks that some commands make of the projects.
pub fn plan_commands(projects: &StrMap<Project>, commands: &Vec<String>) -> (r: Vec<PlannedCommand>)
    requires
        projects.wf(),
    ensures
        planned_view(r@) == plan(
            projects.keys(),
            projects.values().map_values(|p: Project| p@),
            text::texts(commands@),
            projects.keys().len() as int,
        ),
{
    let ghost names = projects.keys();
    let ghost views = projects.values().map_values(|p: Project| p@);
    let mut out: Vec<PlannedCommand> = Vec::new();
    let mut i: usize = 0;
    proof {
        projects.lemma_entries();
        assert(planned_view(out@) =~= Seq::empty());
    }
    while i < projects.len()
        invariant
            i <= names.len(),
            names == projects.keys(),
            projects.values().len() == names.len(),
            views == projects.values().map_values(|p: Project| p@),
            planned_view(out@) == plan(names, views, text::texts(commands@), i as int),
        decreases names.len() - i,
    {
        assert(views[i as int] == projects.values()[i as int]@);
        plan_project(projects.key_at(i), projects.value_at(i), commands, &mut out);
        i += 1;
    }
    out
}

/// The part of the name of a task behind its first colon: its command.
pub open spec fn after_colon(name: Seq<char>) -> Seq<char> {
    name.skip(before_colon(name).len() as int + 1)
}

/// Whether a name has a colon and what stands before it names a project that was found.
pub open spec fn names_project(found: Map<Seq<char>, PnpmProjectView>, name: Seq<char>) -> bool {
    name.contains(':') && found.contains_key(before_colon(name))
}

/// Whether a task may start: it is to be started, and those tasks that it depends on and that
/// are there have finished.
pub open spec fn startable(
    statuses: Map<Seq<char>, TaskStatus>,
    tasks: Set<Seq<char>>,
    found: Map<Seq<char>, PnpmProjectView>,
    name: Seq<char>,
) -> bool {
    &&& statuses[name] is Initialized
    &&& forall|i: int|
        0 <= i < found[before_colon(name)].deps.len() ==> {
            let dep = joined(
                #[trigger] found[before_colon(name)].deps[i],
                after_colon(name),
            );
            tasks.contains(dep) ==> statuses[dep] is Finished
        }
}

proof fn lemma_before_colon(name: Seq<char>)
    ensures
        before_colon(name).len() <= name.len(),
        before_colon(name) == name.take(before_colon(name).len() as int),
        !before_colon(name).contains(':'),
        name.contains(':') ==> before_colon(name).len() < name.len()
            && name[before_colon(name).len() as int] == ':',
    decreases name.len(),
{
    if name.len() == 0 || name[0] == ':' {
        assert(before_colon(name) =~= name.take(0));
    } else {
        let rest = name.drop_first();
        lemma_before_colon(rest);
        let b = before_colon(rest);
        assert(before_colon(name) =~= name.take(b.len() as int + 1));
        if before_colon(name).contains(':') {
            let i = choose|i: int| 0 <= i < before_colon(name).len() && before_colon(name)[i] == ':';
            assert(i > 0);
            assert(b[i - 1] == ':');
        }
        if name.contains(':') {
            let i = choose|i: int| 0 <= i < name.len() && name[i] == ':';
            assert(rest[i - 1] == ':');
            assert(rest.contains(':'));
            assert(name[b.len() as int + 1] == rest[b.len() as int]);
        }
    }
}

/// The name of a task is taken apart into its project and its command, unless the name of the
/// project holds a colon.
pub proof fn lemma_parts(project: Seq<char>, command: Seq<char>)
    requires
        !project.contains(':'),
    ensures
        joined(project, command).contains(':'),
        before_colon(joined(project, command)) == project,
        after_colon(joined(project, command)) == command,
{
    reveal_strlit(":");
    let name = joined(project, command);
    let n = project.len() as int;
    assert(name[n] == ':');
    lemma_before_colon(name);
    let b = before_colon(name);
    if b.len() < n {
        assert(project[b.len() as int] == name[b.len() as int]);
        assert(false);
    }
    if b.len() > n {
        assert(b[n] == name[n]);
        assert(b.contains(':'));
        assert(false);
    }
    assert(b =~= project);
    assert(after_colon(name) =~= command);
}

fn command_of_task(name: &str) -> (r: String)
    requires
        name@.contains(':'),
    ensures
        r@ == after_colon(name@),
{
    let cs = text::chars_of(name);
    let n = text::chars_of(project_of_task(name).as_str()).len();
    proof {
        lemma_before_colon(name@);
    }
    let end: usize = cs.len();
    let r = text::string_of(&cs, n + 1, end);
    assert(r@ =~= after_colon(name@));
    r
}

impl App {
    /// Takes in the tasks that the commands make of the projects that were found. How often a
    /// task would be taken in, it is there once.
    pub fn init_tasks(&mut self)
        requires
            old(self).wf(),
        ensures
            final(self).wf(),
            final(self).pnpm == old(self).pnpm,
            final(self).cli == old(self).cli,
            ({
                let projects = old(self).pnpm._projects;
                let p = plan(
                    projects.keys(),
                    projects.values().map_values(|p: Project| p@),
                    text::texts(old(self).cli.commands@),
                    projects.keys().len() as int,
                );
                let n = p.len() as int;
                &&& tasks_map(final(self).tasks@) == with_planned(
                    tasks_map(old(self).tasks@),
                    p,
                    n,
                )
                &&& final(self).state@ == old(self).state@.with_tasks(
                    plan_names(p, n),
                    dependencies(p, n),
                    plan_names(p, n).len() as int,
                )
            }),
    {
        let planned = plan_commands(&self.pnpm._projects, &self.cli.commands);
        let ghost p = planned_view(planned@);
        let ghost start = tasks_map(self.tasks@);
        let mut depends: StrMap<Vec<String>> = StrMap::new();
        let mut i: usize = 0;
        proof {
            assert(text_lists(depends@) =~= dependencies(p, 0));
            assert(depends.keys() =~= plan_names(p, 0));
        }
        while i < planned.len()
            invariant
                i <= planned@.len(),
                p == planned_view(planned@),
                self.tasks.wf(),
                depends.wf(),
                self.pnpm == old(self).pnpm,
                self.cli == old(self).cli,
                self.state == old(self).state,
                tasks_map(self.tasks@) == with_planned(start, p, i as int),
                forall|k: Seq<char>| #[trigger]
                    self.tasks@.contains_key(k) ==> old(self).tasks@.contains_key(k)
                        || depends@.contains_key(k),
                text_lists(depends@) == dependencies(p, i as int),
                depends.keys() == plan_names(p, i as int),
            decreases planned@.len() - i,
        {
            let c = &planned[i];
            assert(p[i as int] == c@);
            let ghost before = tasks_map(self.tasks@);
            let ghost deps = text_lists(depends@);
            let task = AppTask::new(
                c.task.name.clone(),
                c.task.command.clone(),
                c.task.path.clone(),
            );
            let ghost tv = task@;
            self.tasks.insert(c.name.clone(), task);
            assert(tasks_map(self.tasks@) =~= before.insert(c.name@, tv));
            assert(depends@.contains_key(c.name@) == deps.contains_key(c.name@));
            depends.insert(c.name.clone(), text::clone_texts(&c.depend_on));
            assert(text_lists(depends@) =~= deps.insert(c.name@, c@.depend_on));
            i += 1;
        }
        self.state.add_tasks(&depends);
        proof {
            assert(p.len() == planned@.len());
            depends.lemma_entries();
            let names = depends.keys();
            lemma_with_tasks(old(self).state@, names, text_lists(depends@), names.len() as int);
            assert forall|k: Seq<char>| #[trigger] self.tasks@.contains_key(k) implies
                self.state@.statuses.contains_key(k) && self.state@.outputs.contains_key(k) by {
                if depends@.contains_key(k) {
                    let j = choose|j: int| 0 <= j < names.len() && names[j] == k;
                    assert(self.state@.statuses.contains_key(names[j]));
                }
            }
        }
    }

    /// Whether a task may start.
    pub fn may_start(&self, task_name: &str) -> (r: bool)
        requires
            self.wf(),
            self.tasks@.contains_key(task_name@),
            names_project(self.pnpm.found(), task_name@),
        ensures
            r == startable(
                self.state@.statuses,
                self.tasks@.dom(),
                self.pnpm.found(),
                task_name@,
            ),
    {
        let task = self.state.get_task_state(task_name);
        if *task.status() != TaskStatus::Initialized {
            return false;
        }
        let project_name = project_of_task(task_name);
        let command = command_of_task(task_name);
        let project = match self.pnpm._projects.get(project_name.as_str()) {
            Some(p) => p,
            None => vstd::pervasive::unreached(),
        };
        let ghost deps = self.pnpm.found()[before_colon(task_name@)].deps;
        assert(deps == project@.deps);
        let mut i: usize = 0;
        while i < project._deps.len()
            invariant
                i <= project._deps@.len(),
                self.wf(),
                command@ == after_colon(task_name@),
                deps == text::texts(project._deps@),
                deps == self.pnpm.found()[before_colon(task_name@)].deps,
                forall|k: int|
                    0 <= k < i ==> {
                        let dep = joined(#[trigger] deps[k], after_colon(task_name@));
                        self.tasks@.dom().contains(dep) ==> self.state@.statuses[dep] is Finished
                    },
            decreases project._deps@.len() - i,
        {
            let dep = join(project._deps[i].as_str(), command.as_str());
            assert(deps[i as int] == project._deps@[i as int]@);
            if self.tasks.contains_key(dep.as_str()) {
                let dep_task = self.state.get_task_state(dep.as_str());
                if *dep_task.status() != TaskStatus::Finished {
                    assert(self.tasks@.dom().contains(joined(deps[i as int], command@)));
                    return false;
                }
            }
            i += 1;
        }
        true
    }

    /// A task is started by hand. The result is what is to be run, and what those who wait for
    /// a change are told.
    pub fn run_task(&mut self, task_name: &str) -> (r: (&AppTask, Option<StatusChangeEvent>))
        requires
            old(self).wf(),
            old(self).tasks@.contains_key(task_name@),
        ensures
            final(self).wf(),
            final(self).tasks == old(self).tasks,
            final(self).pnpm == old(self).pnpm,
            final(self).cli == old(self).cli,
            final(self).state@ == (AppStateView {
                statuses: old(self).state@.statuses.insert(task_name@, TaskStatus::Starting),
                status_changed: true,
                ..old(self).state@
            }),
            *r.0 == old(self).tasks@[task_name@],
            r.1 == Some(StatusChangeEvent::StatusChanged),
    {
        let told = self.state.emit(
            StateEvent::Status { task_name: task_name.to_owned(), status: TaskStatus::Starting },
        );
        match self.tasks.get(task_name) {
            Some(t) => (t, told),
            None => vstd::pervasive::unreached(),
        }
    }

    /// A task was told to stop and its process is gone. The result is what those who wait for
    /// a change are told.
    pub fn stop_task(&mut self, task_name: &str) -> (r: Option<StatusChangeEvent>)
        requires
            old(self).wf(),
            old(self).tasks@.contains_key(task_name@),
        ensures
            final(self).wf(),
            final(self).tasks == old(self).tasks,
            final(self).pnpm == old(self).pnpm,
            final(self).cli == old(self).cli,
            final(self).state@ == (AppStateView {
                statuses: old(self).state@.statuses.insert(task_name@, TaskStatus::Stopped),
                status_changed: true,
                ..old(self).state@
            }),
            r == Some(StatusChangeEvent::StatusChanged),
    {
        self.state.emit(
            StateEvent::Status { task_name: task_name.to_owned(), status: TaskStatus::Stopped },
        )
    }
}

proof fn lemma_with_tasks(
    s: AppStateView,
    names: Seq<Seq<char>>,
    deps: Map<Seq<char>, Seq<Seq<char>>>,
    n: int,
)
    requires
        0 <= n <= names.len(),
    ensures
        forall|k: Seq<char>| #[trigger]
            s.statuses.contains_key(k) ==> s.with_tasks(names, deps, n).statuses.contains_key(k),
        forall|k: Seq<char>| #[trigger]
            s.outputs.contains_key(k) ==> s.with_tasks(names, deps, n).outputs.contains_key(k),
        forall|i: int|
            0 <= i < n ==> #[trigger] s.with_tasks(names, deps, n).statuses.contains_key(names[i])
                && s.with_tasks(names, deps, n).outputs.contains_key(names[i]),
    decreases n,
{
    if n > 0 {
        lemma_with_tasks(s, names, deps, n - 1);
        let before = s.with_tasks(names, deps, n - 1);
        assert forall|i: int| 0 <= i < n implies #[trigger] s.with_tasks(
            names,
            deps,
            n,
        ).statuses.contains_key(names[i]) && s.with_tasks(names, deps, n).outputs.contains_key(
            names[i],
        ) by {
            if i < n - 1 {
                assert(before.statuses.contains_key(names[i]));
            }
        }
    }
}

/// The first of some tasks that has a given status.
pub open spec fn first_with(
    tasks: Seq<Seq<char>>,
    statuses: Map<Seq<char>, TaskStatus>,
    status: TaskStatus,
) -> Option<Seq<char>>
    decreases tasks.len(),
{
    if tasks.len() == 0 {
        None
    } else if statuses[tasks[0]] == status {
        Some(tasks[0])
    } else {
        first_with(tasks.drop_first(), statuses, status)
    }
}

/// Those of some tasks that may start.
pub open spec fn startable_of(
    tasks: Seq<Seq<char>>,
    statuses: Map<Seq<char>, TaskStatus>,
    known: Set<Seq<char>>,
    found: Map<Seq<char>, PnpmProjectView>,
) -> Seq<Seq<char>>
    decreases tasks.len(),
{
    if tasks.len() == 0 {
        Seq::empty()
    } else {
        let before = startable_of(tasks.drop_last(), statuses, known, found);
        if startable(statuses, known, found, tasks.last()) {
            before.push(tasks.last())
        } else {
            before
        }
    }
}

/// What the loop that starts tasks does next.
pub enum StartStep {
    /// A task has failed, and with it the program.
    Failed(String),
    /// Wait until a status has changed.
    Await,
    /// Nothing is started any more: see [`StartLoop::finish`].
    Finish,
    /// Wait for some time.
    Sleep,
}

/// What a [`StartStep`] says.
pub enum StartStepView {
    Failed(Seq<char>),
    Await,
    Finish,
    Sleep,
}

impl View for StartStep {
    type V = StartStepView;

    open spec fn view(&self) -> StartStepView {
        match *self {
            StartStep::Failed(name) => StartStepView::Failed(name@),
            StartStep::Await => StartStepView::Await,
            StartStep::Finish => StartStepView::Finish,
            StartStep::Sleep => StartStepView::Sleep,
        }
    }
}

/// What is done while the last tasks run.
pub enum FinishStep {
    /// Look once more.
    Again,
    /// A task has failed, and with it the program.
    Failed(String),
    /// No task runs any more: the program is told to quit.
    Quit,
}

/// The loop that starts tasks.
pub struct StartLoop {
    pub tasks: Vec<String>,
    pub all_started_once: bool,
}

impl StartLoop {
    /// Every task of the loop is a task of the program.
    pub open spec fn fits(&self, app: &App) -> bool {
        forall|i: int|
            0 <= i < self.tasks@.len() ==> app.tasks@.contains_key(
                #[trigger] text::texts(self.tasks@)[i],
            )
    }

    /// A loop over all tasks of a program, of which none has started yet.
    pub fn new(app: &App) -> (r: Self)
        requires
            app.wf(),
        ensures
            r.fits(app),
            text::texts(r.tasks@) == app.tasks.keys(),
            !r.all_started_once,
    {
        let mut tasks: Vec<String> = Vec::new();
        let ghost names = app.tasks.keys();
        let mut i: usize = 0;
        assert(text::texts(tasks@) =~= names.take(0));
        while i < app.tasks.len()
            invariant
                i <= names.len(),
                names == app.tasks.keys(),
                text::texts(tasks@) == names.take(i as int),
            decreases names.len() - i,
        {
            let ghost before = text::texts(tasks@);
            tasks.push(app.tasks.key_at(i).clone());
            proof {
                assert(text::texts(tasks@) =~= before.push(names[i as int]));
                assert(names.take(i + 1) =~= names.take(i as int).push(names[i as int]));
            }
            i += 1;
        }
        proof {
            assert(names.take(i as int) =~= names);
            app.tasks.lemma_entries();
            assert(text::texts(tasks@).len() == tasks@.len());
            assert forall|k: int| 0 <= k < tasks@.len() implies app.tasks@.contains_key(
                #[trigger] text::texts(tasks@)[k],
            ) by {
                assert(app.tasks@.contains_key(app.tasks.keys()[k]));
            }
        }
        StartLoop { tasks, all_started_once: false }
    }

    fn first(&self, app: &App, status: TaskStatus) -> (r: Option<String>)
        requires
            app.wf(),
            self.fits(app),
        ensures
            text::opt_text(r) == first_with(
                text::texts(self.tasks@),
                app.state@.statuses,
                status,
            ),
    {
        let ghost all = text::texts(self.tasks@);
        let ghost statuses = app.state@.statuses;
        let mut i: usize = 0;
        assert(all.skip(0) =~= all);
        while i < self.tasks.len()
            invariant
                i <= self.tasks@.len(),
                app.wf(),
                self.fits(app),
                all == text::texts(self.tasks@),
                statuses == app.state@.statuses,
                first_with(all, statuses, status) == first_with(
                    all.skip(i as int),
                    statuses,
                    status,
                ),
            decreases self.tasks@.len() - i,
        {
            proof {
                assert(all[i as int] == self.tasks@[i as int]@);
                assert(app.tasks@.contains_key(text::texts(self.tasks@)[i as int]));
                assert(all.skip(i as int)[0] == all[i as int]);
                assert(all.skip(i as int).drop_first() =~= all.skip(i + 1));
            }
            let task = app.state.get_task_state(self.tasks[i].as_str());
            if *task.status() == status {
                return Some(self.tasks[i].clone());
            }
            i += 1;
        }
        None
    }

    /// The tasks that a pass starts: those that may start. Nothing where the program has ended,
    /// and with it the loop.
    pub fn ready(&self, app: &App) -> (r: Option<Vec<String>>)
        requires
            app.wf(),
            self.fits(app),
            forall|i: int|
                0 <= i < self.tasks@.len() ==> names_project(
                    app.pnpm.found(),
                    #[trigger] text::texts(self.tasks@)[i],
                ),
        ensures
            text::opt_texts(r) == (if app.state@.running {
                Some(
                    startable_of(
                        text::texts(self.tasks@),
                        app.state@.statuses,
                        app.tasks@.dom(),
                        app.pnpm.found(),
                    ),
                )
            } else {
                None
            }),
    {
        if !app.state.is_running() {
            return None;
        }
        let ghost all = text::texts(self.tasks@);
        let ghost statuses = app.state@.statuses;
        let ghost known = app.tasks@.dom();
        let ghost found = app.pnpm.found();
        let mut out: Vec<String> = Vec::new();
        let mut i: usize = 0;
        assert(text::texts(out@) =~= startable_of(all.take(0), statuses, known, found));
        while i < self.tasks.len()
            invariant
                i <= self.tasks@.len(),
                app.wf(),
                self.fits(app),
                all == text::texts(self.tasks@),
                statuses == app.state@.statuses,
                known == app.tasks@.dom(),
                found == app.pnpm.found(),
                forall|k: int|
                    0 <= k < self.tasks@.len() ==> names_project(found, #[trigger] all[k]),
                text::texts(out@) == startable_of(all.take(i as int), statuses, known, found),
            decreases self.tasks@.len() - i,
        {
            let ghost before = text::texts(out@);
            let name = &self.tasks[i];
            proof {
                assert(all[i as int] == name@);
                assert(app.tasks@.contains_key(text::texts(self.tasks@)[i as int]));
                assert(all.take(i + 1).drop_last() =~= all.take(i as int));
                assert(all.take(i + 1).last() == name@);
            }
            if app.may_start(name.as_str()) {
                out.push(name.clone());
                assert(text::texts(out@) =~= before.push(name@));
            }
            i += 1;
        }
        assert(all.take(i as int) =~= all);
        Some(out)
    }

    /// What follows a pass over the tasks in which those were started that may start. Without
    /// watching, a task that fails before all have started ends the program.
    pub fn start(&mut self, app: &App) -> (r: StartStep)
        requires
            app.wf(),
            old(self).fits(app),
        ensures
            final(self).fits(app),
            final(self).tasks == old(self).tasks,
            ({
                let tasks = text::texts(old(self).tasks@);
                let statuses = app.state@.statuses;
                let failed = first_with(tasks, statuses, TaskStatus::Failed);
                let all_started = first_with(tasks, statuses, TaskStatus::Initialized) is None;
                if !old(self).all_started_once && !app.cli.watch && failed is Some {
                    r@ == StartStepView::Failed(failed->0) && !final(self).all_started_once
                } else {
                    &&& final(self).all_started_once == (old(self).all_started_once || all_started)
                    &&& r@ == (if !final(self).all_started_once {
                        StartStepView::Sleep
                    } else if app.cli.watch {
                        StartStepView::Await
                    } else {
                        StartStepView::Finish
                    })
                }
            }),
    {
        if !self.all_started_once {
            if !app.cli.watch {
                match self.first(app, TaskStatus::Failed) {
                    Some(name) => {
                        return StartStep::Failed(name);
                    },
                    None => {},
                }
            }
            if self.first(app, TaskStatus::Initialized).is_none() {
                self.all_started_once = true;
            }
        }
        if self.all_started_once {
            if app.cli.watch {
                StartStep::Await
            } else {
                StartStep::Finish
            }
        } else {
            StartStep::Sleep
        }
    }

    /// Whether the last tasks still run. One that failed ends the program.
    pub fn finish(&self, app: &App) -> (r: FinishStep)
        requires
            app.wf(),
            self.fits(app),
        ensures
            ({
                let tasks = text::texts(self.tasks@);
                let statuses = app.state@.statuses;
                match r {
                    FinishStep::Failed(name) => first_with(tasks, statuses, TaskStatus::Failed)
                        == Some(name@),
                    FinishStep::Again => first_with(tasks, statuses, TaskStatus::Failed) is None
                        && first_with(tasks, statuses, TaskStatus::Running) is Some,
                    FinishStep::Quit => first_with(tasks, statuses, TaskStatus::Failed) is None
                        && first_with(tasks, statuses, TaskStatus::Running) is None,
                }
            }),
    {
        match self.first(app, TaskStatus::Failed) {
            Some(name) => FinishStep::Failed(name),
            None => if self.first(app, TaskStatus::Running).is_some() {
                FinishStep::Again
            } else {
                FinishStep::Quit
            },
        }
    }

    /// Whether what those who wait are told ends the waiting.
    pub fn is_change(told: Option<StatusChangeEvent>) -> (r: bool)
        ensures
            r == (told == Some(StatusChangeEvent::StatusChanged)),
    {
        match told {
            Some(e) => e == StatusChangeEvent::StatusChanged,
            None => false,
        }
    }
}

/// What can happen while a task runs.
pub enum RunEvent {
    /// The task was told to stop.
    Stop,
    /// The task printed a line; nothing where its output has ended or cannot be read.
    Stdout(Option<String>),
    /// The task printed a line to its error output; nothing where none could be read.
    Stderr(Option<String>),
    /// Some time has passed.
    Tick,
}

/// What is to be done after an event.
#[derive(Debug, Clone, Copy, PartialEq, Eq, Structural)]
pub enum RunAction {
    /// Kill the process and stop reading.
    Kill,
    /// Go on reading.
    Continue,
    /// Stop reading.
    Break,
}

/// What a task is known to have printed after an event.
pub open spec fn after_run_event(
    s: AppStateView,
    task: Seq<char>,
    event: RunEvent,
) -> AppStateView {
    let line = match event {
        RunEvent::Stdout(Some(l)) => if text::trimmed(l@).len() > 0 {
            Some("[OUT]: "@ + l@)
        } else {
            None
        },
        RunEvent::Stderr(Some(l)) => Some("[ERR]: "@ + l@),
        _ => None,
    };
    match line {
        Some(l) => AppStateView {
            outputs: if s.outputs.contains_key(task) {
                s.outputs.insert(task, s.outputs[task].push(l))
            } else {
                s.outputs
            },
            status_changed: true,
            ..s
        },
        None => s,
    }
}

/// What the package manager is called with to run a task.
pub fn run_args(task: &AppTask) -> (r: Vec<String>)
    ensures
        text::texts(r@) == seq!["--filter"@, task@.name, task@.command],
{
    let r = vec!["--filter".to_owned(), task.name.clone(), task.command.clone()];
    assert(text::texts(r@) =~= seq!["--filter"@, task@.name, task@.command]);
    r
}

/// The variables that a task gets from environment files. `contents` is what the common files
/// hold, those of the current directory first.
pub fn get_envs(env: &Env, contents: &Vec<Option<String>>) -> (r: StrMap<String>)
    requires
        env.wf(),
    ensures
        r.wf(),
        text_map(r@) == with_files(
            Map::<Seq<char>, Seq<char>>::empty().insert("PNPM_TASK_TUI"@, "1"@),
            contents_view(contents@),
            contents@.len() as int,
        ),
{
    let mut envs: StrMap<String> = StrMap::new();
    assert(text_map(envs@) =~= Map::<Seq<char>, Seq<char>>::empty());
    put(&mut envs, "PNPM_TASK_TUI", "1".to_owned());
    env.read_files(&mut envs, contents);
    envs
}

/// Adds the variables that keep colours out of what a task prints.
pub fn without_colors(envs: &mut StrMap<String>)
    requires
        old(envs).wf(),
    ensures
        final(envs).wf(),
        text_map(final(envs)@) == text_map(old(envs)@).insert("NO_COLOR"@, "1"@).insert(
            "TERM"@,
            "dumb"@,
        ).insert("FORCE_COLOR"@, "0"@),
{
    put(envs, "NO_COLOR", "1".to_owned());
    put(envs, "TERM", "dumb".to_owned());
    put(envs, "FORCE_COLOR", "0".to_owned());
}

/// The process of a task has started.
pub fn run_started(state: &mut AppState, task_name: &str) -> (r: Option<StatusChangeEvent>)
    requires
        old(state).wf(),
    ensures
        final(state).wf(),
        final(state)@ == (AppStateView {
            statuses: old(state)@.statuses.insert(task_name@, TaskStatus::Running),
            status_changed: true,
            ..old(state)@
        }),
        r == Some(StatusChangeEvent::StatusChanged),
{
    state.emit(StateEvent::Status { task_name: task_name.to_owned(), status: TaskStatus::Running })
}

/// Takes in an event of a task: what it prints is noted, without the lines of its standard
/// output that are blank. Reading ends with the standard output.
pub fn run_event(state: &mut AppState, task_name: &str, event: &RunEvent) -> (r: RunAction)
    requires
        old(state).wf(),
    ensures
        final(state).wf(),
        final(state)@ == after_run_event(old(state)@, task_name@, *event),
        r == (match *event {
            RunEvent::Stop => RunAction::Kill,
            RunEvent::Stdout(None) => RunAction::Break,
            _ => RunAction::Continue,
        }),
{
    match event {
        RunEvent::Stop => RunAction::Kill,
        RunEvent::Stdout(Some(line)) => {
            let bare = text::trim(line.as_str());
            if !bare.as_str().is_empty() {
                let output = text::concat("[OUT]: ", line.as_str());
                let _ = state.emit(
                    StateEvent::Output { task_name: task_name.to_owned(), output },
                );
            }
            RunAction::Continue
        },
        RunEvent::Stdout(None) => RunAction::Break,
        RunEvent::Stderr(Some(line)) => {
            let output = text::concat("[ERR]: ", line.as_str());
            let _ = state.emit(StateEvent::Output { task_name: task_name.to_owned(), output });
            RunAction::Continue
        },
        RunEvent::Stderr(None) => RunAction::Continue,
        RunEvent::Tick => RunAction::Continue,
    }
}

/// The process of a task has ended, with success or without, or could not be waited for: a
/// task has failed where its process ended without success.
pub fn run_finished(state: &mut AppState, task_name: &str, success: Option<bool>) -> (r: TaskStatus)
    requires
        old(state).wf(),
    ensures
        final(state).wf(),
        r == (if success == Some(false) {
            TaskStatus::Failed
        } else {
            TaskStatus::Finished
        }),
        final(state)@ == (AppStateView {
            statuses: old(state)@.statuses.insert(task_name@, r),
            status_changed: true,
            ..old(state)@
        }),
{
    let status = match success {
        Some(false) => TaskStatus::Failed,
        _ => TaskStatus::Finished,
    };
    let _ = state.emit(StateEvent::Status { task_name: task_name.to_owned(), status });
    status
}

/// A task starts only when all tasks that it depends on, and that are there, have finished.
pub proof fn lemma_dependencies_first(
    statuses: Map<Seq<char>, TaskStatus>,
    tasks: Set<Seq<char>>,
    found: Map<Seq<char>, PnpmProjectView>,
    project: Seq<char>,
    command: Seq<char>,
    dep: Seq<char>,
)
    requires
        !project.contains(':'),
        startable(statuses, tasks, found, joined(project, command)),
        found[project].deps.contains(dep),
        tasks.contains(joined(dep, command)),
    ensures
        statuses[joined(dep, command)] is Finished,
{
    lemma_parts(project, command);
    let i = found[project].deps.index_of(dep);
    assert(found[project].deps[i] == dep);
}

/// Tasks that depend on each other in a circle never start.
pub proof fn lemma_circle_never_starts(
    statuses: Map<Seq<char>, TaskStatus>,
    tasks: Set<Seq<char>>,
    found: Map<Seq<char>, PnpmProjectView>,
    a: Seq<char>,
    b: Seq<char>,
    command: Seq<char>,
)
    requires
        !a.contains(':'),
        !b.contains(':'),
        found[a].deps.contains(b),
        found[b].deps.contains(a),
        tasks.contains(joined(a, command)),
        tasks.contains(joined(b, command)),
        statuses[joined(a, command)] is Initialized,
        statuses[joined(b, command)] is Initialized,
    ensures
        !startable(statuses, tasks, found, joined(a, command)),
        !startable(statuses, tasks, found, joined(b, command)),
{
    if startable(statuses, tasks, found, joined(a, command)) {
        lemma_dependencies_first(statuses, tasks, found, a, command, b);
    }
    if startable(statuses, tasks, found, joined(b, command)) {
        lemma_dependencies_first(statuses, tasks, found, b, command, a);
    }
}

/// Every task that is taken in names a project that was found, so that it can be checked
/// whether it may start: provided that no project has a colon in its name.
pub proof fn lemma_planned_names_project(
    names: Seq<Seq<char>>,
    projects: Seq<PnpmProjectView>,
    commands: Seq<Seq<char>>,
    n: int,
    found: Map<Seq<char>, PnpmProjectView>,
    i: int,
)
    requires
        0 <= n <= names.len(),
        forall|k: int|
            0 <= k < names.len() ==> found.contains_key(#[trigger] names[k])
                && !names[k].contains(':'),
        0 <= i < plan(names, projects, commands, n).len(),
    ensures
        names_project(found, plan(names, projects, commands, n)[i].name),
    decreases n,
{
    let before = plan(names, projects, commands, n - 1);
    if i < before.len() {
        lemma_planned_names_project(names, projects, commands, n - 1, found, i);
    } else {
        let own = project_plan(names[n - 1], projects[n - 1], commands);
        assert(plan(names, projects, commands, n)[i] == own[i - before.len()]);
        lemma_project_plan_names(names[n - 1], projects[n - 1], commands, i - before.len());
        let command = own[i - before.len()].task.command;
        lemma_parts(names[n - 1], command);
    }
}

proof fn lemma_project_plan_names(
    name: Seq<char>,
    project: PnpmProjectView,
    commands: Seq<Seq<char>>,
    i: int,
)
    requires
        0 <= i < project_plan(name, project, commands).len(),
    ensures
        ({
            let c = project_plan(name, project, commands)[i];
            c.name == joined(name, c.task.command)
        }),
    decreases commands.len(),
{
    let before = project_plan(name, project, commands.drop_last());
    if i < before.len() {
        lemma_project_plan_names(name, project, commands.drop_last(), i);
    }
}

} // verus!
