//! What the program with one task for each project does.

use vstd::prelude::*;

use crate::classic::app::after_change;
use crate::classic::app::after_event;
use crate::classic::app::change_told;
use crate::classic::app::dependents_told;
use crate::classic::app::ended_by;
use crate::classic::app::is_ready;
use crate::classic::app::is_reset;
use crate::classic::app::ready_of;
use crate::classic::app::task_of;
use crate::classic::app::with_command;
use crate::classic::app::with_process;
use crate::classic::share::AppEventView;
use crate::classic::share::TaskStatus;
use crate::classic::task::TaskView;
use crate::pnpm::PnpmProjectView;

verus! {

/// A project has a task that runs the command where the command is among its scripts, and one
/// that has nothing to run where it is not.
pub proof fn lemma_task_of(name: Seq<char>, project: PnpmProjectView, command: Seq<char>)
    ensures
        ({
            let t = task_of(name, project, command);
            let listed = exists|i: int|
                0 <= i < project.scripts.len() && #[trigger] project.scripts[i] == command;
            &&& listed ==> t.cmd == Some(command) && t.status == TaskStatus::NotStarted
            &&& !listed ==> t.cmd is None && t.status == TaskStatus::NoCommand
            &&& t.name == name
            &&& t.path == project.path
            &&& t.project == project
            &&& !t.handle
        }),
{
    assert(project.scripts.contains(command) <==> exists|i: int|
        0 <= i < project.scripts.len() && #[trigger] project.scripts[i] == command);
}

/// The tasks that are started are exactly those that have a command, have not started, and
/// depend only on tasks that are there and have finished or have no command.
pub proof fn lemma_started(
    names: Seq<Seq<char>>,
    tasks: Map<Seq<char>, TaskView>,
    name: Seq<char>,
)
    ensures
        ready_of(names, tasks).contains(name) <==> {
            let deps = tasks[name].project.deps;
            &&& exists|i: int| 0 <= i < names.len() && #[trigger] names[i] == name
            &&& tasks[name].status == TaskStatus::NotStarted
            &&& tasks[name].cmd is Some
            &&& forall|d: int|
                0 <= d < deps.len() ==> tasks.contains_key(#[trigger] deps[d]) && (
                tasks[deps[d]].status == TaskStatus::Finished || tasks[deps[d]].status
                    == TaskStatus::NoCommand)
        },
    decreases names.len(),
{
    if names.len() > 0 {
        let less = names.drop_last();
        lemma_started(less, tasks, name);
        let before = ready_of(less, tasks);
        let all = ready_of(names, tasks);
        assert(names[names.len() - 1] == names.last());
        if before.contains(name) {
            let i = choose|i: int| 0 <= i < before.len() && before[i] == name;
            assert(all[i] == name);
            let k = choose|k: int| 0 <= k < less.len() && #[trigger] less[k] == name;
            assert(names[k] == name);
        }
        if all.contains(name) {
            let i = choose|i: int| 0 <= i < all.len() && all[i] == name;
            if i < before.len() {
                assert(before[i] == name);
            } else {
                assert(is_ready(tasks, name));
            }
        }
        if (exists|i: int| 0 <= i < names.len() && #[trigger] names[i] == name) && is_ready(
            tasks,
            name,
        ) {
            let i = choose|i: int| 0 <= i < names.len() && #[trigger] names[i] == name;
            if i < less.len() {
                assert(less[i] == name);
                assert(before.contains(name));
            } else {
                assert(all[before.len() as int] == name);
            }
        }
    }
}

/// A change counts only where the changed task had finished. Then that task and every finished
/// task that depends on it are to start once more, and no other task changes.
pub proof fn lemma_change(tasks: Map<Seq<char>, TaskView>, changed: Seq<char>, name: Seq<char>)
    requires
        tasks.contains_key(name),
    ensures
        ({
            let after = after_change(tasks, changed);
            let depends = exists|d: int|
                0 <= d < tasks[name].project.deps.len() && #[trigger] tasks[name].project.deps[d]
                    == changed;
            let counts = tasks.contains_key(changed) && tasks[changed].status
                == TaskStatus::Finished;
            let again = counts && tasks[name].status == TaskStatus::Finished && (name == changed
                || depends);
            &&& after.contains_key(name)
            &&& again ==> after[name].status == TaskStatus::NotStarted
            &&& !again ==> after[name].status == tasks[name].status
            &&& after[name].cmd == tasks[name].cmd
            &&& after[name].handle == tasks[name].handle
            &&& after[name].project == tasks[name].project
            &&& after[name].name == tasks[name].name
            &&& after[name].path == tasks[name].path
        }),
{
    let deps = tasks[name].project.deps;
    assert(deps.contains(changed) <==> exists|d: int|
        0 <= d < tasks[name].project.deps.len() && #[trigger] tasks[name].project.deps[d]
            == changed);
}

/// Whoever listens is told of a task that is to start once more, exactly where it is.
pub proof fn lemma_change_told(
    names: Seq<Seq<char>>,
    tasks: Map<Seq<char>, TaskView>,
    changed: Seq<char>,
    name: Seq<char>,
)
    requires
        tasks.contains_key(changed),
        forall|i: int, j: int|
            0 <= i < names.len() && 0 <= j < names.len() && tasks[#[trigger] names[i]].name
                == tasks[#[trigger] names[j]].name ==> names[i] == names[j],
        names.contains(changed),
        names.contains(name),
        forall|i: int| 0 <= i < names.len() ==> tasks.contains_key(#[trigger] names[i]),
    ensures
        change_told(names, tasks, changed).contains(
            AppEventView::TaskStatus { name: tasks[name].name, status: TaskStatus::NotStarted },
        ) <==> tasks[changed].status == TaskStatus::Finished && tasks[name].status
            == TaskStatus::Finished && (name == changed || tasks[name].project.deps.contains(
            changed,
        )),
        !(tasks[changed].status == TaskStatus::Finished) ==> change_told(
            names,
            tasks,
            changed,
        ).len() == 0,
{
    let event = AppEventView::TaskStatus {
        name: tasks[name].name,
        status: TaskStatus::NotStarted,
    };
    if tasks[changed].status == TaskStatus::Finished {
        lemma_dependents_told(names, tasks, changed, event);
        let rest = dependents_told(names, tasks, changed);
        let first = tasks[changed].told(TaskStatus::NotStarted);
        let all = change_told(names, tasks, changed);
        assert(all == seq![first] + rest);
        assert(all[0] == first);
        let c = choose|c: int| 0 <= c < names.len() && names[c] == changed;
        let n = choose|n: int| 0 <= n < names.len() && names[n] == name;
        if all.contains(event) {
            let i = choose|i: int| 0 <= i < all.len() && all[i] == event;
            if i == 0 {
                assert(tasks[names[c]].name == tasks[names[n]].name);
            } else {
                assert(rest[i - 1] == event);
                assert(rest.contains(event));
                let k = choose|k: int|
                    0 <= k < names.len() && #[trigger] names[k] != changed && is_reset(
                        tasks,
                        changed,
                        names[k],
                    ) && tasks[names[k]].told(TaskStatus::NotStarted) == event;
                assert(tasks[names[k]].name == tasks[names[n]].name);
            }
        }
        if tasks[name].status == TaskStatus::Finished && (name == changed
            || tasks[name].project.deps.contains(changed)) {
            if name != changed {
                assert(names[n] != changed && is_reset(tasks, changed, names[n]));
                assert(rest.contains(event));
                let i = choose|i: int| 0 <= i < rest.len() && rest[i] == event;
                assert(all[i + 1] == event);
            }
        }
    }
}

proof fn lemma_dependents_told(
    names: Seq<Seq<char>>,
    tasks: Map<Seq<char>, TaskView>,
    changed: Seq<char>,
    event: AppEventView,
)
    ensures
        dependents_told(names, tasks, changed).contains(event) <==> exists|k: int|
            0 <= k < names.len() && #[trigger] names[k] != changed && is_reset(
                tasks,
                changed,
                names[k],
            ) && tasks[names[k]].told(TaskStatus::NotStarted) == event,
    decreases names.len(),
{
    if names.len() > 0 {
        let less = names.drop_last();
        let last = names.last();
        lemma_dependents_told(less, tasks, changed, event);
        let before = dependents_told(less, tasks, changed);
        let all = dependents_told(names, tasks, changed);
        assert(names[names.len() - 1] == last);
        if before.contains(event) {
            let i = choose|i: int| 0 <= i < before.len() && before[i] == event;
            assert(all[i] == event);
            let k = choose|k: int|
                0 <= k < less.len() && #[trigger] less[k] != changed && is_reset(
                    tasks,
                    changed,
                    less[k],
                ) && tasks[less[k]].told(TaskStatus::NotStarted) == event;
            assert(names[k] == less[k]);
        }
        if all.contains(event) {
            let i = choose|i: int| 0 <= i < all.len() && all[i] == event;
            if i < before.len() {
                assert(before[i] == event);
            }
        }
        if exists|k: int|
            0 <= k < names.len() && #[trigger] names[k] != changed && is_reset(
                tasks,
                changed,
                names[k],
            ) && tasks[names[k]].told(TaskStatus::NotStarted) == event {
            let k = choose|k: int|
                0 <= k < names.len() && #[trigger] names[k] != changed && is_reset(
                    tasks,
                    changed,
                    names[k],
                ) && tasks[names[k]].told(TaskStatus::NotStarted) == event;
            if k < less.len() {
                assert(less[k] == names[k]);
                assert(before.contains(event));
            } else {
                assert(all[before.len() as int] == event);
            }
        }
    }
}

/// A task that is stopped by hand has no process and stays stopped; one that is restarted has no
/// process and is to start once more; one that is started is to start, unless it runs. Only a
/// process that is there is ended. No other task changes.
pub proof fn lemma_by_hand(
    names: Seq<Seq<char>>,
    tasks: Map<Seq<char>, TaskView>,
    name: Seq<char>,
    other: Seq<char>,
)
    requires
        tasks.contains_key(name),
        other != name,
    ensures
        ({
            let stop = AppEventView::TuiStop(name);
            let after = after_event(names, tasks, stop).0;
            &&& after.contains_key(name)
            &&& after[name].status == TaskStatus::Stoped
            &&& !after[name].handle
            &&& after[name].cmd == tasks[name].cmd
            &&& after[name].project == tasks[name].project
            &&& after.contains_key(other) == tasks.contains_key(other)
            &&& tasks.contains_key(other) ==> after[other] == tasks[other]
            &&& tasks[name].handle ==> ended_by(tasks, stop) == Some(name)
            &&& !tasks[name].handle ==> ended_by(tasks, stop) is None
            &&& after_event(names, tasks, stop).1.len() > 0
            &&& after_event(names, tasks, stop).1.last() == (AppEventView::TaskStatus {
                name: tasks[name].name,
                status: TaskStatus::Stoped,
            })
        }),
        ({
            let restart = AppEventView::TuiRestart(name);
            let after = after_event(names, tasks, restart).0;
            &&& after.contains_key(name)
            &&& after[name].status == TaskStatus::NotStarted
            &&& !after[name].handle
            &&& after[name].cmd == tasks[name].cmd
            &&& after[name].project == tasks[name].project
            &&& after.contains_key(other) == tasks.contains_key(other)
            &&& tasks.contains_key(other) ==> after[other] == tasks[other]
            &&& tasks[name].handle ==> ended_by(tasks, restart) == Some(name)
            &&& !tasks[name].handle ==> ended_by(tasks, restart) is None
            &&& after_event(names, tasks, restart).1.len() > 0
            &&& after_event(names, tasks, restart).1.last() == (AppEventView::TaskStatus {
                name: tasks[name].name,
                status: TaskStatus::NotStarted,
            })
        }),
        ({
            let start = AppEventView::TuiStart(name);
            let after = after_event(names, tasks, start).0;
            &&& after.contains_key(name)
            &&& tasks[name].status == TaskStatus::Running ==> after[name] == tasks[name]
            &&& tasks[name].status != TaskStatus::Running ==> after[name].status
                == TaskStatus::NotStarted && after_event(names, tasks, start).1.len() == 1
                && after_event(names, tasks, start).1[0] == (AppEventView::TaskStatus {
                name: tasks[name].name,
                status: TaskStatus::NotStarted,
            })
            &&& after[name].handle == tasks[name].handle
            &&& after[name].cmd == tasks[name].cmd
            &&& after.contains_key(other) == tasks.contains_key(other)
            &&& tasks.contains_key(other) ==> after[other] == tasks[other]
            &&& ended_by(tasks, start) is None
        }),
{
}

/// What is said of a task that is not there changes nothing and tells nobody.
pub proof fn lemma_unknown_task(
    names: Seq<Seq<char>>,
    tasks: Map<Seq<char>, TaskView>,
    name: Seq<char>,
)
    requires
        !tasks.contains_key(name),
    ensures
        after_event(names, tasks, AppEventView::TuiStop(name)).0 == tasks,
        after_event(names, tasks, AppEventView::TuiStop(name)).1.len() == 0,
        after_event(names, tasks, AppEventView::TuiStart(name)).0 == tasks,
        after_event(names, tasks, AppEventView::TuiStart(name)).1.len() == 0,
        after_event(names, tasks, AppEventView::TuiRestart(name)).0 == tasks,
        after_event(names, tasks, AppEventView::TuiRestart(name)).1.len() == 0,
        ended_by(tasks, AppEventView::TuiStop(name)) is None,
        ended_by(tasks, AppEventView::TuiRestart(name)) is None,
{
}

/// A task that is asked to start runs and has a process, unless it runs already, or has no
/// command, which it then says.
pub proof fn lemma_start(t: TaskView)
    ensures
        t.status == TaskStatus::Running ==> t.started().0 == t && t.started().1.len() == 0,
        t.status != TaskStatus::Running && t.cmd is None ==> t.started().0.status
            == TaskStatus::NoCommand && t.started().0.handle == t.handle,
        t.status != TaskStatus::Running && t.cmd is Some ==> t.started().0.status
            == TaskStatus::Running && t.started().0.handle && t.started().1.len() == 2,
        t.status != TaskStatus::Running ==> t.started().1.len() > 0 && t.started().1.last() == (
        AppEventView::TaskStatus { name: t.name, status: t.started().0.status }),
        t.started().0.cmd == t.cmd,
        t.started().0.project == t.project,
        t.started().0.name == t.name,
        t.started().0.path == t.path,
{
}

/// Those that have a command, and those that have a process, are told apart by exactly that.
pub proof fn lemma_chosen(names: Seq<Seq<char>>, tasks: Map<Seq<char>, TaskView>, name: Seq<char>)
    ensures
        with_command(names, tasks).contains(name) <==> tasks[name].cmd is Some && exists|i: int|
            0 <= i < names.len() && #[trigger] names[i] == name,
        with_process(names, tasks).contains(name) <==> tasks[name].handle && exists|i: int|
            0 <= i < names.len() && #[trigger] names[i] == name,
    decreases names.len(),
{
    if names.len() > 0 {
        let less = names.drop_last();
        lemma_chosen(less, tasks, name);
        assert(names[names.len() - 1] == names.last());
        lemma_push_keeps(with_command(less, tasks), with_command(names, tasks), names.last(), name);
        lemma_push_keeps(with_process(less, tasks), with_process(names, tasks), names.last(), name);
        if exists|i: int| 0 <= i < less.len() && #[trigger] less[i] == name {
            let i = choose|i: int| 0 <= i < less.len() && #[trigger] less[i] == name;
            assert(names[i] == name);
        }
        if exists|i: int| 0 <= i < names.len() && #[trigger] names[i] == name {
            let i = choose|i: int| 0 <= i < names.len() && #[trigger] names[i] == name;
            if i < less.len() {
                assert(less[i] == name);
            }
        }
    }
}

proof fn lemma_push_keeps(
    before: Seq<Seq<char>>,
    after: Seq<Seq<char>>,
    last: Seq<char>,
    x: Seq<char>,
)
    requires
        after == before || after == before.push(last),
    ensures
        after == before ==> (after.contains(x) <==> before.contains(x)),
        after == before.push(last) ==> (after.contains(x) <==> before.contains(x) || x == last),
{
    if after == before.push(last) {
        assert(after[before.len() as int] == last);
        if before.contains(x) {
            let i = choose|i: int| 0 <= i < before.len() && before[i] == x;
            assert(after[i] == x);
        }
        if after.contains(x) {
            let i = choose|i: int| 0 <= i < after.len() && after[i] == x;
            if i < before.len() {
                assert(before[i] == x);
            }
        }
    }
}

} // verus!
