//! Which tasks of a workspace are started, in which order, and what is known of them.

use vstd::prelude::*;

use crate::app_state::AppStateView;
use crate::app_state::StateEvent;
use crate::app_state::TaskStatus;
use crate::laws::texts::is_blank;
use crate::laws::texts::lemma_begins_with;
use crate::laws::texts::lemma_blank;
use crate::pnpm::PnpmProjectView;
use crate::task_manager::PlannedView;
use crate::task_manager::RunEvent;
use crate::task_manager::after_run_event;
use crate::task_manager::dependencies;
use crate::task_manager::first_with;
use crate::task_manager::joined;
use crate::task_manager::lemma_parts;
use crate::task_manager::plan;
use crate::task_manager::plan_names;
use crate::task_manager::project_plan;
use crate::task_manager::startable;
use crate::task_manager::startable_of;
use crate::task_manager::with_planned;
use crate::text;

verus! {

/// A task `project:command` is started exactly where it is to be started and every task of the
/// same command of a project that its own depends on is finished, as far as there is one.
pub proof fn lemma_started(
    tasks: Seq<Seq<char>>,
    statuses: Map<Seq<char>, TaskStatus>,
    known: Set<Seq<char>>,
    found: Map<Seq<char>, PnpmProjectView>,
    project: Seq<char>,
    command: Seq<char>,
)
    requires
        !project.contains(':'),
    ensures
        ({
            let name = project + ":"@ + command;
            let deps = found[project].deps;
            startable_of(tasks, statuses, known, found).contains(name) <==> {
                &&& exists|i: int| 0 <= i < tasks.len() && #[trigger] tasks[i] == name
                &&& statuses[name] == TaskStatus::Initialized
                &&& forall|d: int|
                    0 <= d < deps.len() && known.contains(#[trigger] deps[d] + ":"@ + command)
                        ==> statuses[deps[d] + ":"@ + command] == TaskStatus::Finished
            }
        }),
{
    let name = project + ":"@ + command;
    let deps = found[project].deps;
    assert(name == joined(project, command));
    lemma_parts(project, command);
    lemma_startable_of(tasks, statuses, known, found, name);
    if startable(statuses, known, found, name) {
        assert forall|d: int|
            0 <= d < deps.len() && known.contains(#[trigger] deps[d] + ":"@ + command) implies statuses[deps[d]
            + ":"@ + command] == TaskStatus::Finished by {
            assert(known.contains(joined(deps[d], command)));
        }
    }
}

proof fn lemma_startable_of(
    tasks: Seq<Seq<char>>,
    statuses: Map<Seq<char>, TaskStatus>,
    known: Set<Seq<char>>,
    found: Map<Seq<char>, PnpmProjectView>,
    name: Seq<char>,
)
    ensures
        startable_of(tasks, statuses, known, found).contains(name) <==> (exists|i: int|
            0 <= i < tasks.len() && #[trigger] tasks[i] == name) && startable(
            statuses,
            known,
            found,
            name,
        ),
    decreases tasks.len(),
{
    if tasks.len() > 0 {
        let less = tasks.drop_last();
        lemma_startable_of(less, statuses, known, found, name);
        let before = startable_of(less, statuses, known, found);
        let all = startable_of(tasks, statuses, known, found);
        assert(tasks[tasks.len() - 1] == tasks.last());
        if before.contains(name) {
            let i = choose|i: int| 0 <= i < before.len() && before[i] == name;
            assert(all[i] == name);
            let k = choose|k: int| 0 <= k < less.len() && #[trigger] less[k] == name;
            assert(tasks[k] == name);
        }
        if all.contains(name) {
            let i = choose|i: int| 0 <= i < all.len() && all[i] == name;
            if i < before.len() {
                assert(before[i] == name);
            }
        }
        if (exists|i: int| 0 <= i < tasks.len() && #[trigger] tasks[i] == name) && startable(
            statuses,
            known,
            found,
            name,
        ) {
            let i = choose|i: int| 0 <= i < tasks.len() && #[trigger] tasks[i] == name;
            if i < less.len() {
                assert(less[i] == name);
            } else {
                assert(all[before.len() as int] == name);
            }
        }
    }
}

/// A search for a status finds a task exactly where one has it, and then one that has it, with
/// none before it.
pub proof fn lemma_first_with(
    tasks: Seq<Seq<char>>,
    statuses: Map<Seq<char>, TaskStatus>,
    status: TaskStatus,
    i: int,
)
    requires
        0 <= i <= tasks.len(),
        forall|k: int| 0 <= k < i ==> statuses[#[trigger] tasks[k]] != status,
    ensures
        i == tasks.len() ==> first_with(tasks, statuses, status) is None,
        i < tasks.len() && statuses[tasks[i]] == status ==> first_with(tasks, statuses, status)
            == Some(tasks[i]),
    decreases i,
{
    if i > 0 {
        assert(statuses[tasks[0]] != status);
        let rest = tasks.drop_first();
        assert forall|k: int| 0 <= k < i - 1 implies statuses[#[trigger] rest[k]] != status by {
            assert(rest[k] == tasks[k + 1]);
        }
        lemma_first_with(rest, statuses, status, i - 1);
    }
}

/// Whether `t` is the task of a command of a project.
pub open spec fn is_task_of(
    t: PlannedView,
    name: Seq<char>,
    project: PnpmProjectView,
    command: Seq<char>,
) -> bool {
    &&& t.name == name + ":"@ + command
    &&& t.task.name == name
    &&& t.task.command == command
    &&& t.task.path == project.path
    &&& t.depend_on.len() == project.deps.len()
    &&& forall|d: int|
        0 <= d < project.deps.len() ==> #[trigger] t.depend_on[d] == project.deps[d] + ":"@
            + command
}

proof fn lemma_project_plan(
    name: Seq<char>,
    project: PnpmProjectView,
    commands: Seq<Seq<char>>,
    command: Seq<char>,
)
    ensures
        (exists|i: int|
            0 <= i < project_plan(name, project, commands).len() && is_task_of(
                #[trigger] project_plan(name, project, commands)[i],
                name,
                project,
                command,
            )) <==> commands.contains(command) && project.scripts.contains(command),
        forall|i: int|
            0 <= i < project_plan(name, project, commands).len() ==> is_task_of(
                #[trigger] project_plan(name, project, commands)[i],
                name,
                project,
                project_plan(name, project, commands)[i].task.command,
            ) && commands.contains(project_plan(name, project, commands)[i].task.command)
                && project.scripts.contains(project_plan(name, project, commands)[i].task.command),
    decreases commands.len(),
{
    if commands.len() > 0 {
        let less = commands.drop_last();
        let last = commands.last();
        lemma_project_plan(name, project, less, command);
        let before = project_plan(name, project, less);
        let all = project_plan(name, project, commands);
        assert(commands[commands.len() - 1] == last);
        assert forall|x: Seq<char>| #[trigger] less.contains(x) implies commands.contains(x) by {
            let k = choose|k: int| 0 <= k < less.len() && less[k] == x;
            assert(commands[k] == x);
        }
        assert forall|i: int| 0 <= i < all.len() implies is_task_of(
            #[trigger] all[i],
            name,
            project,
            all[i].task.command,
        ) && commands.contains(all[i].task.command) && project.scripts.contains(
            all[i].task.command,
        ) by {
            if i < before.len() {
                assert(all[i] == before[i]);
            }
        }
        if exists|i: int|
            0 <= i < before.len() && is_task_of(#[trigger] before[i], name, project, command) {
            let i = choose|i: int|
                0 <= i < before.len() && is_task_of(#[trigger] before[i], name, project, command);
            assert(is_task_of(all[i], name, project, command));
        }
        if commands.contains(command) && project.scripts.contains(command) {
            let k = choose|k: int| 0 <= k < commands.len() && commands[k] == command;
            if k < less.len() {
                assert(less[k] == command);
                assert(less.contains(command));
            } else {
                assert(is_task_of(all[before.len() as int], name, project, command));
            }
        }
    }
}

/// Each project has a task for exactly those of the given commands that are among its scripts.
/// It depends on the same command of each project that its own depends on.
pub proof fn lemma_planned(
    names: Seq<Seq<char>>,
    projects: Seq<PnpmProjectView>,
    commands: Seq<Seq<char>>,
    n: int,
    p: int,
    command: Seq<char>,
)
    requires
        0 <= p < n <= names.len(),
        names.len() == projects.len(),
    ensures
        commands.contains(command) && projects[p].scripts.contains(command) ==> exists|i: int|
            0 <= i < plan(names, projects, commands, n).len() && is_task_of(
                #[trigger] plan(names, projects, commands, n)[i],
                names[p],
                projects[p],
                command,
            ),
    decreases n,
{
    let before = plan(names, projects, commands, n - 1);
    let own = project_plan(names[n - 1], projects[n - 1], commands);
    let all = plan(names, projects, commands, n);
    lemma_project_plan(names[n - 1], projects[n - 1], commands, command);
    if p < n - 1 {
        lemma_planned(names, projects, commands, n - 1, p, command);
        if commands.contains(command) && projects[p].scripts.contains(command) {
            let i = choose|i: int|
                0 <= i < before.len() && is_task_of(
                    #[trigger] before[i],
                    names[p],
                    projects[p],
                    command,
                );
            assert(all[i] == before[i]);
        }
    } else if commands.contains(command) && projects[p].scripts.contains(command) {
        let i = choose|i: int|
            0 <= i < own.len() && is_task_of(#[trigger] own[i], names[p], projects[p], command);
        assert(all[before.len() + i] == own[i]);
    }
}

/// Nothing else is planned.
pub proof fn lemma_nothing_else_planned(
    names: Seq<Seq<char>>,
    projects: Seq<PnpmProjectView>,
    commands: Seq<Seq<char>>,
    n: int,
    i: int,
)
    requires
        0 <= n <= names.len(),
        names.len() == projects.len(),
        0 <= i < plan(names, projects, commands, n).len(),
    ensures
        ({
            let t = plan(names, projects, commands, n)[i];
            exists|p: int|
                0 <= p < n && is_task_of(t, names[p], #[trigger] projects[p], t.task.command)
                    && commands.contains(t.task.command) && projects[p].scripts.contains(
                    t.task.command,
                )
        }),
    decreases n,
{
    let before = plan(names, projects, commands, n - 1);
    let own = project_plan(names[n - 1], projects[n - 1], commands);
    let t = plan(names, projects, commands, n)[i];
    lemma_project_plan(names[n - 1], projects[n - 1], commands, t.task.command);
    if i < before.len() {
        assert(t == before[i]);
        lemma_nothing_else_planned(names, projects, commands, n - 1, i);
    } else {
        assert(t == own[i - before.len()]);
        assert(is_task_of(t, names[n - 1], projects[n - 1], t.task.command));
    }
}

/// Every planned task is known by its name once, with what the last of its name says of it.
pub proof fn lemma_taken_in(plan: Seq<PlannedView>, n: int, name: Seq<char>)
    requires
        0 <= n <= plan.len(),
    ensures
        dependencies(plan, n).contains_key(name) <==> exists|i: int|
            0 <= i < n && (#[trigger] plan[i]).name == name,
        plan_names(plan, n).contains(name) <==> exists|i: int|
            0 <= i < n && (#[trigger] plan[i]).name == name,
        plan_names(plan, n).no_duplicates(),
        with_planned(Map::empty(), plan, n).contains_key(name) <==> exists|i: int|
            0 <= i < n && (#[trigger] plan[i]).name == name,
    decreases n,
{
    if n > 0 {
        lemma_taken_in(plan, n - 1, name);
        lemma_taken_in(plan, n - 1, plan[n - 1].name);
        let before = plan_names(plan, n - 1);
        let all = plan_names(plan, n);
        let last = plan[n - 1].name;
        if before.contains(name) {
            let k = choose|k: int| 0 <= k < before.len() && before[k] == name;
            assert(all[k] == name);
        }
        if !before.contains(last) {
            assert(all[before.len() as int] == last);
        }
        if all.contains(name) {
            let k = choose|k: int| 0 <= k < all.len() && all[k] == name;
            if k < before.len() {
                assert(before[k] == name);
            }
        }
    }
}

/// What the last planned task of a name says is what counts of that name.
pub proof fn lemma_last_of_a_name(plan: Seq<PlannedView>, n: int, i: int)
    requires
        0 <= i < n <= plan.len(),
        forall|k: int| i < k < n ==> (#[trigger] plan[k]).name != plan[i].name,
    ensures
        dependencies(plan, n).contains_key(plan[i].name),
        dependencies(plan, n)[plan[i].name] == plan[i].depend_on,
        with_planned(Map::empty(), plan, n).contains_key(plan[i].name),
        with_planned(Map::empty(), plan, n)[plan[i].name] == plan[i].task,
    decreases n,
{
    if i < n - 1 {
        lemma_last_of_a_name(plan, n - 1, i);
    }
}

/// Tasks that were taken in are to be started and have printed nothing; the others stay as they
/// were.
pub proof fn lemma_with_tasks(
    s: AppStateView,
    names: Seq<Seq<char>>,
    depend_on: Map<Seq<char>, Seq<Seq<char>>>,
    n: int,
    task: Seq<char>,
)
    requires
        0 <= n <= names.len(),
    ensures
        ({
            let after = s.with_tasks(names, depend_on, n);
            let taken = exists|i: int| 0 <= i < n && #[trigger] names[i] == task;
            &&& after.tasks == s.tasks + names.take(n)
            &&& taken ==> after.statuses.contains_key(task) && after.statuses[task]
                == TaskStatus::Initialized && after.outputs.contains_key(task)
                && after.outputs[task].len() == 0 && after.depend_on.contains_key(task)
                && after.depend_on[task] == depend_on[task]
            &&& !taken ==> after.statuses.contains_key(task) == s.statuses.contains_key(task)
                && after.outputs.contains_key(task) == s.outputs.contains_key(task)
                && after.depend_on.contains_key(task) == s.depend_on.contains_key(task)
            &&& !taken && s.statuses.contains_key(task) ==> after.statuses[task]
                == s.statuses[task]
            &&& !taken && s.outputs.contains_key(task) ==> after.outputs[task] == s.outputs[task]
            &&& !taken && s.depend_on.contains_key(task) ==> after.depend_on[task]
                == s.depend_on[task]
            &&& after.running == s.running
            &&& after.failed == s.failed
            &&& after.status_changed == s.status_changed
            &&& after.logs == s.logs
        }),
    decreases n,
{
    if n > 0 {
        lemma_with_tasks(s, names, depend_on, n - 1, task);
        assert(s.tasks + names.take(n) =~= (s.tasks + names.take(n - 1)).push(names[n - 1]));
        if exists|i: int| 0 <= i < n - 1 && #[trigger] names[i] == task {
            let i = choose|i: int| 0 <= i < n - 1 && #[trigger] names[i] == task;
            assert(names[i] == task);
        }
    } else {
        assert(s.tasks + names.take(0) =~= s.tasks);
    }
}

/// A change of a project makes a task start once more exactly where the task had finished, and
/// its name or that of a task that it depends on begins with the name of the project.
pub proof fn lemma_change(s: AppStateView, changed: String, task: Seq<char>)
    requires
        s.statuses.contains_key(task),
        s.depend_on.contains_key(task),
    ensures
        ({
            let after = s.after(StateEvent::FileChanged { task_name: changed });
            let own = exists|rest: Seq<char>| #[trigger] (changed@ + rest) == task;
            let other = exists|d: int, rest: Seq<char>|
                0 <= d < s.depend_on[task].len() && #[trigger] (changed@ + rest)
                    == #[trigger] s.depend_on[task][d];
            &&& after.statuses.contains_key(task)
            &&& s.statuses[task] == TaskStatus::Finished && (own || other) ==> after.statuses[task]
                == TaskStatus::Initialized
            &&& s.statuses[task] == TaskStatus::Finished && !(own || other)
                ==> after.statuses[task] == TaskStatus::Finished
            &&& s.statuses[task] != TaskStatus::Finished ==> after.statuses[task]
                == s.statuses[task]
            &&& after.outputs == s.outputs
            &&& after.running == s.running
            &&& after.failed == s.failed
        }),
{
    let deps = s.depend_on[task];
    lemma_begins_with(task, changed@);
    if exists|i: int| 0 <= i < deps.len() && text::begins_with(#[trigger] deps[i], changed@) {
        let i = choose|i: int| 0 <= i < deps.len() && text::begins_with(#[trigger] deps[i], changed@);
        lemma_begins_with(deps[i], changed@);
        let rest = choose|rest: Seq<char>| #[trigger] (changed@ + rest) == deps[i];
        assert((changed@ + rest) == s.depend_on[task][i]);
    }
    if exists|d: int, rest: Seq<char>|
        0 <= d < deps.len() && #[trigger] (changed@ + rest) == #[trigger] s.depend_on[task][d] {
        let (d, rest) = choose|d: int, rest: Seq<char>|
            0 <= d < deps.len() && #[trigger] (changed@ + rest)
                == #[trigger] s.depend_on[task][d];
        assert((changed@ + rest) == deps[d]);
        lemma_begins_with(deps[d], changed@);
    }
}

/// A program ends when it is told to quit or has failed, and is a failure only then. No other
/// event ends it.
pub proof fn lemma_end_of_program(s: AppStateView, event: StateEvent)
    ensures
        event is Quit ==> !s.after(event).running && s.after(event).failed == s.failed,
        event is Failed ==> !s.after(event).running && s.after(event).failed,
        !(event is Quit) && !(event is Failed) ==> s.after(event).running == s.running && s.after(
            event,
        ).failed == s.failed,
        s.after(event).status_changed == (s.status_changed || event is Output || event is Status),
        s.after(event).tasks == s.tasks,
        s.after(event).depend_on == s.depend_on,
{
}

/// Of what a task prints every line is kept behind the mark of its stream, but for blank lines
/// of the standard output, and only where the task is known.
pub proof fn lemma_output(s: AppStateView, task: Seq<char>, event: RunEvent)
    ensures
        match event {
            RunEvent::Stdout(Some(line)) => {
                &&& is_blank(line@) ==> after_run_event(s, task, event) == s
                &&& !is_blank(line@) && s.outputs.contains_key(task) ==> after_run_event(
                    s,
                    task,
                    event,
                ).outputs == s.outputs.insert(task, s.outputs[task].push("[OUT]: "@ + line@))
            },
            RunEvent::Stderr(Some(line)) => s.outputs.contains_key(task) ==> after_run_event(
                s,
                task,
                event,
            ).outputs == s.outputs.insert(task, s.outputs[task].push("[ERR]: "@ + line@)),
            _ => after_run_event(s, task, event) == s,
        },
        !s.outputs.contains_key(task) ==> after_run_event(s, task, event).outputs == s.outputs,
        after_run_event(s, task, event).statuses == s.statuses,
        after_run_event(s, task, event).running == s.running,
{
    if let RunEvent::Stdout(Some(line)) = event {
        lemma_blank(line@);
    }
}

} // verus!
