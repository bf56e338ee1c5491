//! The store of the tasks of one run: which tasks there are, in which status each command
//! is, what the commands printed and which commands may run next.

use vstd::prelude::*;

use crate::strmap::StrMap;
use crate::task::CommandView;
use crate::task::DetailsView;
use crate::task::InternalTaskStatus;
use crate::task::RunnableView;
use crate::task::Task;
use crate::task::TaskCommand;
use crate::task::TaskCommandRunnable;
use crate::task::TaskStatus;
use crate::task::TaskView;
use crate::task::TaskWithDetails;
use crate::task::clone_commands;
use crate::task::clone_ids;
use crate::task::command_ids;
use crate::task::commands_view;
use crate::task::runnable;
use crate::text;

verus! {

/// The tasks of one run. Where the same id is stored again it takes the place of the old
/// entry.
pub struct TaskStore {
    pub _tasks: Vec<Task>,
    pub _statuses: StrMap<TaskStatus>,
    pub _logs: StrMap<Vec<String>>,
    /// When a command of a task last ended, in nanoseconds since 1970.
    pub _last_run_time: StrMap<i64>,
    pub _show_colors: bool,
}

/// What a [`TaskStore`] holds.
#[verifier::ext_equal]
pub struct StoreView {
    pub tasks: Seq<TaskView>,
    pub statuses: Map<Seq<char>, TaskStatus>,
    pub logs: Map<Seq<char>, Seq<Seq<char>>>,
    pub last_run_time: Map<Seq<char>, i64>,
    pub show_colors: bool,
}

/// What the tasks of a list say.
pub open spec fn tasks_view(v: Seq<Task>) -> Seq<TaskView> {
    v.map_values(|t: Task| t@)
}

/// The ids of tasks.
pub open spec fn task_ids(v: Seq<TaskView>) -> Seq<Seq<char>> {
    v.map_values(|t: TaskView| t.id)
}

/// The names of tasks.
pub open spec fn task_names(v: Seq<TaskView>) -> Seq<Seq<char>> {
    v.map_values(|t: TaskView| t.name)
}

/// The labels of commands.
pub open spec fn labels(v: Seq<CommandView>) -> Seq<Seq<char>> {
    v.map_values(|c: CommandView| c.command.label())
}

impl View for TaskStore {
    type V = StoreView;

    open spec fn view(&self) -> StoreView {
        StoreView {
            tasks: tasks_view(self._tasks@),
            statuses: self._statuses@,
            logs: self._logs@.map_values(|v: Vec<String>| text::texts(v@)),
            last_run_time: self._last_run_time@,
            show_colors: self._show_colors,
        }
    }
}

/// `tasks` with `t` in the place of the task with its id, or at the end where there is none.
pub open spec fn with_task(tasks: Seq<TaskView>, t: TaskView) -> Seq<TaskView> {
    let at = text::first_at(task_ids(tasks), t.id);
    if at < tasks.len() {
        tasks.update(at, t)
    } else {
        tasks.push(t)
    }
}

/// `statuses` with the status `Init` for each of `ids`.
pub open spec fn with_init(
    statuses: Map<Seq<char>, TaskStatus>,
    ids: Seq<Seq<char>>,
) -> Map<Seq<char>, TaskStatus> {
    Map::new(
        |k: Seq<char>| statuses.contains_key(k) || ids.contains(k),
        |k: Seq<char>|
            if ids.contains(k) {
                TaskStatus::Init
            } else {
                statuses[k]
            },
    )
}

/// The task with a given id.
pub open spec fn task_by_id(tasks: Seq<TaskView>, id: Seq<char>) -> TaskView {
    tasks[text::first_at(task_ids(tasks), id)]
}

/// The command of a task with a given id.
pub open spec fn command_by_id(commands: Seq<CommandView>, id: Seq<char>) -> CommandView {
    commands[text::first_at(command_ids(commands), id)]
}

/// The ids of the tasks with one of the given names, in the order of the store.
pub open spec fn ids_of_names(tasks: Seq<TaskView>, names: Seq<Seq<char>>) -> Seq<Seq<char>>
    decreases tasks.len(),
{
    if tasks.len() == 0 {
        Seq::empty()
    } else {
        let before = ids_of_names(tasks.drop_last(), names);
        if names.contains(tasks.last().name) {
            before.push(tasks.last().id)
        } else {
            before
        }
    }
}

/// `tasks` where the first task of a given name waits for `children`.
pub open spec fn with_children(
    tasks: Seq<TaskView>,
    name: Seq<char>,
    children: Seq<Seq<char>>,
) -> Seq<TaskView> {
    let at = text::first_at(task_names(tasks), name);
    tasks.update(at, TaskView { children_id: Some(children), ..tasks[at] })
}

/// `tasks` where the first command with a given id has a given status.
pub open spec fn with_status(
    tasks: Seq<TaskView>,
    id: Seq<char>,
    status: TaskStatus,
) -> Seq<TaskView>
    decreases tasks.len(),
{
    if tasks.len() == 0 {
        tasks
    } else {
        let first = tasks[0];
        let at = text::first_at(command_ids(first.commands), id);
        if at < first.commands.len() {
            seq![
                TaskView {
                    commands: first.commands.update(
                        at,
                        CommandView { status, ..first.commands[at] },
                    ),
                    ..first
                },
            ] + tasks.drop_first()
        } else {
            seq![first] + with_status(tasks.drop_first(), id, status)
        }
    }
}

/// Whether a task has run all of its commands with a given label with success. One without such
/// a command has.
pub open spec fn has_run(task: TaskView, label: Seq<char>) -> bool {
    forall|k: int|
        0 <= k < task.commands.len() && (#[trigger] task.commands[k]).command.label() == label
            ==> task.commands[k].status is Successed
}

/// Whether a child lets a command with a given label run: it has run all of its own with that
/// label with success.
pub open spec fn child_done(tasks: Seq<TaskView>, child: Seq<char>, label: Seq<char>) -> bool {
    has_run(task_by_id(tasks, child), label)
}

/// Whether every child of a task lets a command with a given label run.
pub open spec fn children_done(tasks: Seq<TaskView>, task: TaskView, label: Seq<char>) -> bool {
    task.children_id matches Some(ids) ==> forall|i: int|
        0 <= i < ids.len() ==> child_done(tasks, #[trigger] ids[i], label)
}

/// Whether a task has a command with a given label that waits for its turn.
pub open spec fn waits(task: TaskView, label: Seq<char>) -> bool {
    exists|k: int|
        0 <= k < task.commands.len() && (#[trigger] task.commands[k]).command.label() == label
            && task.commands[k].status is Init
}

/// Whether the commands of a task with a given label may run.
pub open spec fn may_run(tasks: Seq<TaskView>, task: TaskView, label: Seq<char>) -> bool {
    children_done(tasks, task, label) && waits(task, label)
}

/// Whether every child that a task waits for is in the store.
pub open spec fn children_known(tasks: Seq<TaskView>) -> bool {
    forall|t: int, i: int|
        0 <= t < tasks.len() && (#[trigger] tasks[t]).children_id is Some && 0 <= i
            < tasks[t].children_id->0.len() ==> task_ids(tasks).contains(
            #[trigger] tasks[t].children_id->0[i],
        )
}

/// Whether some task has at place `i` a command that has not succeeded.
pub open spec fn pending_at(tasks: Seq<TaskView>, i: int) -> bool {
    exists|t: int|
        0 <= t < tasks.len() && i < (#[trigger] tasks[t]).commands.len()
            && !(tasks[t].commands[i].status is Successed)
}

/// The lowest place from `i` to `last` with a command that has not succeeded: 0 where there
/// is none.
pub open spec fn lowest_pending(tasks: Seq<TaskView>, i: int, last: int) -> int
    decreases last - i + 1,
{
    if i > last {
        0
    } else if pending_at(tasks, i) {
        i
    } else {
        lowest_pending(tasks, i + 1, last)
    }
}

/// Whether the command at place `c` of the task at place `t` is to be run next. With
/// `sequential` at least 0, only the commands at the lowest place that is not done are.
pub open spec fn is_next(tasks: Seq<TaskView>, sequential: i8, t: int, c: int) -> bool {
    let cmd = tasks[t].commands[c];
    &&& sequential > -1 ==> (c as usize) as i8 == lowest_pending(tasks, 0, sequential as int)
    &&& cmd.status is Init || cmd.status.finished()
    &&& may_run(tasks, tasks[t], cmd.command.label())
}

/// Those of the first `n` commands of the task at place `t` that are to be run next.
pub open spec fn next_of_task(tasks: Seq<TaskView>, sequential: i8, t: int, n: int) -> Seq<
    RunnableView,
>
    decreases n,
{
    if n <= 0 {
        Seq::empty()
    } else {
        let before = next_of_task(tasks, sequential, t, n - 1);
        if is_next(tasks, sequential, t, n - 1) {
            before.push(runnable(tasks[t].commands[n - 1], tasks[t]))
        } else {
            before
        }
    }
}

/// The commands of the first `n` tasks that are to be run next.
pub open spec fn next_commands(tasks: Seq<TaskView>, sequential: i8, n: int) -> Seq<RunnableView>
    decreases n,
{
    if n <= 0 {
        Seq::empty()
    } else {
        next_commands(tasks, sequential, n - 1) + next_of_task(
            tasks,
            sequential,
            n - 1,
            tasks[n - 1].commands.len() as int,
        )
    }
}

/// Whether a task is shown at the top: a command of it is under way, was stopped or failed.
pub open spec fn task_status(task: TaskView) -> InternalTaskStatus {
    if exists|k: int|
        0 <= k < task.commands.len() && {
            let s = (#[trigger] task.commands[k]).status;
            s is Running || s is Starting || s is Stopping || s is Stopped || s is Failed
        } {
        InternalTaskStatus::Running
    } else {
        InternalTaskStatus::Other
    }
}

/// A task with what the list shows of it.
pub open spec fn details(task: TaskView, last_run_time: Map<Seq<char>, i64>) -> DetailsView {
    DetailsView {
        task,
        status: task_status(task),
        last_run_time: if last_run_time.contains_key(task.id) {
            Some(last_run_time[task.id])
        } else {
            None
        },
    }
}

/// The tasks of a store with what the list shows of them.
pub open spec fn all_details(s: StoreView) -> Seq<DetailsView> {
    s.tasks.map_values(|t: TaskView| details(t, s.last_run_time))
}

/// Nanoseconds of one day.
pub const DAY: i64 = 86_400_000_000_000;

/// When a task last ran: one day before `now` where that is not known.
pub open spec fn last_run(d: DetailsView, now: int) -> int {
    match d.last_run_time {
        Some(t) => t as int,
        None => now - DAY,
    }
}

/// Whether `a` comes before `b` in the list: those at the top by name, the others with the
/// latest run first.
pub open spec fn listed_before(a: DetailsView, b: DetailsView, now: int) -> bool {
    match (a.status, b.status) {
        (InternalTaskStatus::Running, InternalTaskStatus::Running) => text::text_lt(
            a.task.name,
            b.task.name,
        ),
        (InternalTaskStatus::Other, InternalTaskStatus::Other) => last_run(a, now) > last_run(
            b,
            now,
        ),
        (InternalTaskStatus::Running, InternalTaskStatus::Other) => true,
        (InternalTaskStatus::Other, InternalTaskStatus::Running) => false,
    }
}

/// Whether no task comes in the list before one that stands ahead of it.
pub open spec fn in_list_order(s: Seq<DetailsView>, now: int) -> bool {
    forall|i: int, j: int|
        0 <= i < j < s.len() ==> !listed_before(#[trigger] s[j], #[trigger] s[i], now)
}

/// What a list of tasks with details says.
pub open spec fn details_view(v: Seq<TaskWithDetails>) -> Seq<DetailsView> {
    v.map_values(|d: TaskWithDetails| d@)
}

impl TaskStore {
    /// No two tasks have the same id, and no two commands of one task do.
    pub open spec fn wf(&self) -> bool {
        &&& self._statuses.wf()
        &&& self._logs.wf()
        &&& self._last_run_time.wf()
        &&& task_ids(self@.tasks).no_duplicates()
        &&& forall|t: int|
            0 <= t < self@.tasks.len() ==> command_ids(
                (#[trigger] self@.tasks[t]).commands,
            ).no_duplicates()
    }

    /// A store without tasks.
    pub fn new(show_colors: bool) -> (r: Self)
        ensures
            r.wf(),
            r@ == (StoreView {
                tasks: Seq::empty(),
                statuses: Map::empty(),
                logs: Map::empty(),
                last_run_time: Map::empty(),
                show_colors,
            }),
    {
        let r = TaskStore {
            _tasks: Vec::new(),
            _statuses: StrMap::new(),
            _logs: StrMap::new(),
            _last_run_time: StrMap::new(),
            _show_colors: show_colors,
        };
        assert(r@.logs =~= Map::<Seq<char>, Seq<Seq<char>>>::empty());
        assert(r@.tasks =~= Seq::<TaskView>::empty());
        r
    }

    /// The place of the task with a given id: the number of tasks where there is none.
    fn place_of(&self, id: &str) -> (r: usize)
        ensures
            r == text::first_at(task_ids(self@.tasks), id@),
            r <= self._tasks@.len(),
    {
        let mut i: usize = 0;
        while i < self._tasks.len()
            invariant
                i <= self._tasks@.len(),
                forall|k: int| 0 <= k < i ==> task_ids(self@.tasks)[k] != id@,
            decreases self._tasks@.len() - i,
        {
            if *self._tasks[i]._id.as_str() == *id {
                proof {
                    text::lemma_is_first_at(task_ids(self@.tasks), id@, i as int);
                }
                return i;
            }
            i += 1;
        }
        proof {
            text::lemma_is_first_at(task_ids(self@.tasks), id@, i as int);
        }
        i
    }

    /// Stores a task, in the place of the task with its id where there is one. Its commands
    /// get the status `Init`.
    pub fn add_task(&mut self, task: Task)
        requires
            old(self).wf(),
            command_ids(task@.commands).no_duplicates(),
        ensures
            final(self).wf(),
            final(self)@ == (StoreView {
                tasks: with_task(old(self)@.tasks, task@),
                statuses: with_init(old(self)@.statuses, command_ids(task@.commands)),
                ..old(self)@
            }),
    {
        let at = self.place_of(task._id.as_str());
        let ghost view = task@;
        let ghost ids = command_ids(view.commands);
        let mut i: usize = 0;
        proof {
            assert(with_init(self@.statuses, ids.take(0)) =~= self@.statuses);
        }
        while i < task._commands.len()
            invariant
                i <= task._commands@.len(),
                ids == command_ids(task@.commands),
                self.wf(),
                self._tasks == old(self)._tasks,
                self._logs == old(self)._logs,
                self._last_run_time == old(self)._last_run_time,
                self._show_colors == old(self)._show_colors,
                self@.statuses == with_init(old(self)@.statuses, ids.take(i as int)),
            decreases task._commands@.len() - i,
        {
            let ghost before = self@.statuses;
            self._statuses.insert(task._commands[i]._id.clone(), TaskStatus::Init);
            proof {
                let next = ids.take(i + 1);
                assert(ids[i as int] == task._commands@[i as int]._id@);
                assert(next =~= ids.take(i as int).push(ids[i as int]));
                assert forall|k: Seq<char>| next.contains(k) == (ids.take(i as int).contains(k)
                    || k == ids[i as int]) by {
                    lemma_push_contains(ids.take(i as int), ids[i as int], k);
                }
                assert(self@.statuses =~= with_init(old(self)@.statuses, next));
            }
            i += 1;
        }
        proof {
            assert(ids.take(i as int) =~= ids);
            text::lemma_first_at(task_ids(old(self)@.tasks), view.id);
        }
        if at < self._tasks.len() {
            self._tasks[at] = task;
            proof {
                assert(self@.tasks =~= with_task(old(self)@.tasks, view));
                assert(task_ids(self@.tasks) =~= task_ids(old(self)@.tasks));
            }
        } else {
            self._tasks.push(task);
            proof {
                assert(self@.tasks =~= with_task(old(self)@.tasks, view));
                assert(task_ids(self@.tasks) =~= task_ids(old(self)@.tasks).push(view.id));
            }
        }
    }

    /// The task with a given id.
    pub fn get_task(&self, id: &str) -> (r: Task)
        requires
            task_ids(self@.tasks).contains(id@),
        ensures
            r@ == task_by_id(self@.tasks, id@),
    {
        proof {
            text::lemma_first_at(task_ids(self@.tasks), id@);
        }
        let at = self.place_of(id);
        self._tasks[at].clone()
    }

    /// Whether there is a task with a given id.
    pub fn has_task(&self, id: &str) -> (r: bool)
        ensures
            r == task_ids(self@.tasks).contains(id@),
    {
        proof {
            text::lemma_first_at(task_ids(self@.tasks), id@);
        }
        self.place_of(id) < self._tasks.len()
    }

    /// Whether there is a task with a given name.
    pub fn task_exists(&self, name: &str) -> (r: bool)
        ensures
            r == task_names(self@.tasks).contains(name@),
    {
        proof {
            text::lemma_first_at(task_names(self@.tasks), name@);
        }
        self.place_of_name(name) < self._tasks.len()
    }

    fn place_of_name(&self, name: &str) -> (r: usize)
        ensures
            r == text::first_at(task_names(self@.tasks), name@),
            r <= self._tasks@.len(),
    {
        let mut i: usize = 0;
        while i < self._tasks.len()
            invariant
                i <= self._tasks@.len(),
                forall|k: int| 0 <= k < i ==> task_names(self@.tasks)[k] != name@,
            decreases self._tasks@.len() - i,
        {
            if *self._tasks[i]._name.as_str() == *name {
                proof {
                    text::lemma_is_first_at(task_names(self@.tasks), name@, i as int);
                }
                return i;
            }
            i += 1;
        }
        proof {
            text::lemma_is_first_at(task_names(self@.tasks), name@, i as int);
        }
        i
    }

    /// Makes the task of a given name wait for the tasks whose names are given.
    pub fn update_task_childs(&mut self, task_name: &str, childs_id: Vec<String>)
        requires
            old(self).wf(),
            task_names(old(self)@.tasks).contains(task_name@),
        ensures
            final(self).wf(),
            final(self)@ == (StoreView {
                tasks: with_children(
                    old(self)@.tasks,
                    task_name@,
                    ids_of_names(old(self)@.tasks, text::texts(childs_id@)),
                ),
                ..old(self)@
            }),
    {
        let mut childs: Vec<String> = Vec::new();
        let ghost names = text::texts(childs_id@);
        let ghost tasks = self@.tasks;
        let mut i: usize = 0;
        assert(text::texts(childs@) =~= ids_of_names(tasks.take(0), names));
        while i < self._tasks.len()
            invariant
                i <= self._tasks@.len(),
                names == text::texts(childs_id@),
                tasks == self@.tasks,
                text::texts(childs@) == ids_of_names(tasks.take(i as int), names),
            decreases self._tasks@.len() - i,
        {
            let ghost before = childs@;
            proof {
                assert(tasks.take(i + 1).drop_last() =~= tasks.take(i as int));
                assert(tasks.take(i + 1).last() == self._tasks@[i as int]@);
            }
            if text::contains_text(&childs_id, self._tasks[i]._name.as_str()) {
                childs.push(self._tasks[i]._id.clone());
                assert(text::texts(childs@) =~= text::texts(before).push(
                    self._tasks@[i as int]._id@,
                ));
            }
            i += 1;
        }
        proof {
            assert(tasks.take(i as int) =~= tasks);
            text::lemma_first_at(task_names(tasks), task_name@);
        }
        let at = self.place_of_name(task_name);
        self._tasks[at]._children_id = Some(childs);
        proof {
            assert(self@.tasks =~= with_children(tasks, task_name@, text::texts(childs@)));
            assert(task_ids(self@.tasks) =~= task_ids(tasks));
            assert forall|t: int| 0 <= t < self@.tasks.len() implies command_ids(
                (#[trigger] self@.tasks[t]).commands,
            ).no_duplicates() by {
                assert(self@.tasks[t].commands == tasks[t].commands);
            }
        }
    }

    /// Whether every child that a task waits for is in the store.
    pub fn knows_all_children(&self) -> (r: bool)
        ensures
            r == children_known(self@.tasks),
    {
        let ghost tasks = self@.tasks;
        let mut t: usize = 0;
        while t < self._tasks.len()
            invariant
                t <= self._tasks@.len(),
                tasks == self@.tasks,
                forall|u: int, i: int|
                    0 <= u < t && (#[trigger] tasks[u]).children_id is Some && 0 <= i
                        < tasks[u].children_id->0.len() ==> task_ids(tasks).contains(
                        #[trigger] tasks[u].children_id->0[i],
                    ),
            decreases self._tasks@.len() - t,
        {
            assert(tasks[t as int] == self._tasks@[t as int]@);
            if let Some(childs) = &self._tasks[t]._children_id {
                let mut i: usize = 0;
                while i < childs.len()
                    invariant
                        t < self._tasks@.len(),
                        i <= childs@.len(),
                        tasks == self@.tasks,
                        tasks[t as int].children_id == Some(text::texts(childs@)),
                        forall|k: int|
                            0 <= k < i ==> task_ids(tasks).contains(
                                #[trigger] tasks[t as int].children_id->0[k],
                            ),
                    decreases childs@.len() - i,
                {
                    assert(tasks[t as int].children_id->0[i as int] == childs@[i as int]@);
                    if !self.has_task(childs[i].as_str()) {
                        return false;
                    }
                    i += 1;
                }
            }
            t += 1;
        }
        true
    }

    /// Whether the commands with the label of `task_cmd` may run in `task`: each child has
    /// run all of its own with success, and one of the task's waits for its turn.
    fn can_run(&self, task: &Task, task_cmd: &TaskCommand) -> (r: bool)
        requires
            task@.children_id matches Some(ids) ==> forall|i: int|
                0 <= i < ids.len() ==> task_ids(self@.tasks).contains(#[trigger] ids[i]),
        ensures
            r == may_run(self@.tasks, task@, task_cmd@.command.label()),
    {
        let ghost label = task_cmd@.command.label();
        let ghost tasks = self@.tasks;
        if let Some(childs) = &task._children_id {
            let ghost ids = task@.children_id->0;
            let mut i: usize = 0;
            while i < childs.len()
                invariant
                    i <= childs@.len(),
                    ids == text::texts(childs@),
                    task@.children_id == Some(ids),
                    tasks == self@.tasks,
                    label == task_cmd@.command.label(),
                    forall|k: int|
                        0 <= k < ids.len() ==> task_ids(self@.tasks).contains(#[trigger] ids[k]),
                    forall|k: int| 0 <= k < i ==> child_done(tasks, #[trigger] ids[k], label),
                decreases childs@.len() - i,
            {
                let at = self.place_of(childs[i].as_str());
                proof {
                    assert(ids[i as int] == childs@[i as int]@);
                    text::lemma_first_at(task_ids(tasks), ids[i as int]);
                }
                let child = &self._tasks[at];
                assert(task_by_id(tasks, ids[i as int]) == child@);
                if !has_run_all(child, task_cmd) {
                    assert(!child_done(tasks, task@.children_id->0[i as int], label));
                    assert(!children_done(tasks, task@, label));
                    return false;
                }
                assert(child_done(tasks, ids[i as int], label));
                i += 1;
            }
        }
        assert(children_done(tasks, task@, label));
        let mut k: usize = 0;
        while k < task._commands.len()
            invariant
                k <= task._commands@.len(),
                tasks == self@.tasks,
                label == task_cmd@.command.label(),
                children_done(tasks, task@, label),
                forall|m: int|
                    0 <= m < k ==> !((#[trigger] task@.commands[m]).command.label() == label
                        && task@.commands[m].status is Init),
            decreases task._commands@.len() - k,
        {
            assert(task@.commands[k as int] == task._commands@[k as int]@);
            if task._commands[k] == *task_cmd && task._commands[k]._status.is_init() {
                assert(waits(task@, label));
                return true;
            }
            k += 1;
        }
        false
    }

    /// The lowest place with a command that has not succeeded, among the places up to
    /// `sequential`: 0 where there is none.
    fn min_index(&self, sequential: i8) -> (r: i8)
        requires
            sequential > -1,
        ensures
            r == lowest_pending(self@.tasks, 0, sequential as int),
            0 <= r <= sequential,
    {
        let mut i: i8 = 0;
        loop
            invariant
                0 <= i <= sequential,
                lowest_pending(self@.tasks, 0, sequential as int) == lowest_pending(
                    self@.tasks,
                    i as int,
                    sequential as int,
                ),
            decreases sequential - i,
        {
            let mut t: usize = 0;
            let mut found = false;
            while t < self._tasks.len() && !found
                invariant
                    t <= self._tasks@.len(),
                    0 <= i,
                    found ==> pending_at(self@.tasks, i as int),
                    !found ==> forall|k: int|
                        0 <= k < t ==> !(i < (#[trigger] self@.tasks[k]).commands.len() && !(
                        self@.tasks[k].commands[i as int].status is Successed)),
                decreases self._tasks@.len() - t + (if found {
                    0int
                } else {
                    1
                }),
            {
                let cmds = &self._tasks[t]._commands;
                assert(self@.tasks[t as int].commands == commands_view(cmds@));
                if (i as usize) < cmds.len() && !cmds[i as usize]._status.is_successed() {
                    found = true;
                }
                t += 1;
            }
            if found {
                return i;
            }
            assert(!pending_at(self@.tasks, i as int));
            if i == sequential {
                assert(lowest_pending(self@.tasks, i + 1, sequential as int) == 0);
                return 0;
            }
            i += 1;
        }
    }

    /// The commands that are to be run next. With `sequential` at least 0, only those at the
    /// lowest place that is not done.
    pub fn get_runnable_commands(&self, sequential: i8) -> (r: Vec<TaskCommandRunnable>)
        requires
            children_known(self@.tasks),
        ensures
            r@.map_values(|c: TaskCommandRunnable| c@) == next_commands(
                self@.tasks,
                sequential,
                self@.tasks.len() as int,
            ),
    {
        let min_index: i8 = if sequential > -1 {
            self.min_index(sequential)
        } else {
            0
        };
        let ghost tasks = self@.tasks;
        let mut out: Vec<TaskCommandRunnable> = Vec::new();
        let mut t: usize = 0;
        assert(out@.map_values(|c: TaskCommandRunnable| c@) =~= next_commands(
            tasks,
            sequential,
            0,
        ));
        while t < self._tasks.len()
            invariant
                t <= self._tasks@.len(),
                tasks == self@.tasks,
                children_known(tasks),
                sequential > -1 ==> min_index == lowest_pending(tasks, 0, sequential as int),
                out@.map_values(|c: TaskCommandRunnable| c@) == next_commands(
                    tasks,
                    sequential,
                    t as int,
                ),
            decreases self._tasks@.len() - t,
        {
            let task = &self._tasks[t];
            let ghost start = out@.map_values(|c: TaskCommandRunnable| c@);
            let mut c: usize = 0;
            assert(start + next_of_task(tasks, sequential, t as int, 0) =~= start);
            while c < task._commands.len()
                invariant
                    t < self._tasks@.len(),
                    c <= task._commands@.len(),
                    tasks == self@.tasks,
                    task == self._tasks@[t as int],
                    children_known(tasks),
                    sequential > -1 ==> min_index == lowest_pending(tasks, 0, sequential as int),
                    out@.map_values(|c: TaskCommandRunnable| c@) == start + next_of_task(
                        tasks,
                        sequential,
                        t as int,
                        c as int,
                    ),
                decreases task._commands@.len() - c,
            {
                let cmd = &task._commands[c];
                let ghost before = out@;
                proof {
                    assert(tasks[t as int] == task@);
                    assert(tasks[t as int].commands[c as int] == cmd@);
                }
                let in_turn = sequential <= -1 || c as i8 == min_index;
                if in_turn && (cmd._status.is_init() || cmd._status.is_finished()) {
                    if self.can_run(task, cmd) {
                        out.push(TaskCommandRunnable::new(cmd, task));
                        proof {
                            assert(out@.map_values(|c: TaskCommandRunnable| c@)
                                =~= before.map_values(|c: TaskCommandRunnable| c@).push(
                                runnable(cmd@, task@),
                            ));
                            assert(start + next_of_task(tasks, sequential, t as int, c as int).push(
                                runnable(cmd@, task@),
                            ) =~= (start + next_of_task(
                                tasks,
                                sequential,
                                t as int,
                                c as int,
                            )).push(runnable(cmd@, task@)));
                        }
                    }
                }
                c += 1;
            }
            t += 1;
        }
        out
    }

    /// The command with a given id of the task with a given id.
    pub fn get_task_command(&self, task_id: &str, command_id: &str) -> (r: TaskCommand)
        requires
            task_ids(self@.tasks).contains(task_id@),
            command_ids(task_by_id(self@.tasks, task_id@).commands).contains(command_id@),
        ensures
            r@ == command_by_id(task_by_id(self@.tasks, task_id@).commands, command_id@),
    {
        proof {
            text::lemma_first_at(task_ids(self@.tasks), task_id@);
        }
        let at = self.place_of(task_id);
        let cmds = &self._tasks[at]._commands;
        proof {
            text::lemma_first_at(command_ids(commands_view(cmds@)), command_id@);
        }
        let k = place_of_command(cmds, command_id);
        cmds[k].clone()
    }

    /// Whether the task is shown at the top of the list.
    fn get_task_status(&self, task: &Task) -> (r: InternalTaskStatus)
        ensures
            r == task_status(task@),
    {
        let mut k: usize = 0;
        while k < task._commands.len()
            invariant
                k <= task._commands@.len(),
                forall|m: int|
                    0 <= m < k ==> !{
                        let s = (#[trigger] task@.commands[m]).status;
                        s is Running || s is Starting || s is Stopping || s is Stopped
                            || s is Failed
                    },
            decreases task._commands@.len() - k,
        {
            let s = &task._commands[k]._status;
            assert(task@.commands[k as int].status == *s);
            if s.is_running() || s.is_starting() || s.is_stopping() || s.is_stopped()
                || s.is_failed() {
                return InternalTaskStatus::Running;
            }
            k += 1;
        }
        InternalTaskStatus::Other
    }

    /// Every task with its details, in the order of the list.
    pub fn get_all_tasks_with_details(&self, now: i64) -> (r: Vec<TaskWithDetails>)
        requires
            self.wf(),
            now >= i64::MIN + DAY,
        ensures
            in_list_order(details_view(r@), now as int),
            details_view(r@).to_multiset() == all_details(self@).to_multiset(),
            r@.len() == self@.tasks.len(),
    {
        let ghost all = all_details(self@);
        let mut out: Vec<TaskWithDetails> = Vec::new();
        let mut i: usize = 0;
        assert(details_view(out@) =~= all.take(0));
        while i < self._tasks.len()
            invariant
                i <= self._tasks@.len(),
                out@.len() == i,
                all == all_details(self@),
                self.wf(),
                now >= i64::MIN + DAY,
                in_list_order(details_view(out@), now as int),
                details_view(out@).to_multiset() == all.take(i as int).to_multiset(),
            decreases self._tasks@.len() - i,
        {
            let task = &self._tasks[i];
            let d = TaskWithDetails {
                _id: task._id.clone(),
                _name: task._name.clone(),
                _path: task._path.clone(),
                _commands: clone_commands(&task._commands),
                _parent_id: task._parent_id.clone(),
                _children_id: clone_ids(&task._children_id),
                _status: self.get_task_status(task),
                last_run_time: self.get_last_run_time(task._id.as_str()),
            };
            proof {
                assert(self@.tasks[i as int] == task@);
                assert(d@.task =~= task@);
                assert(d@ == all[i as int]);
            }
            let mut at: usize = out.len();
            while at > 0 && is_listed_before(&d, &out[at - 1], now)
                invariant
                    at <= out@.len(),
                    now >= i64::MIN + DAY,
                    forall|k: int|
                        at <= k < out@.len() ==> listed_before(
                            d@,
                            #[trigger] out@[k]@,
                            now as int,
                        ),
                decreases at,
            {
                at -= 1;
            }
            let ghost before = out@;
            let ghost dv = d@;
            out.insert(at, d);
            proof {
                let old_view = details_view(before);
                let new_view = details_view(out@);
                assert(new_view =~= old_view.insert(at as int, dv));
                all.take(i as int).to_multiset_ensures();
                assert(all.take(i + 1) =~= all.take(i as int).push(dv));
                vstd::seq_lib::to_multiset_insert(old_view, at as int, dv);
                assert forall|a: int, b: int| 0 <= a < b < new_view.len() implies !listed_before(
                    #[trigger] new_view[b],
                    #[trigger] new_view[a],
                    now as int,
                ) by {
                    if at > 0 {
                        assert(old_view[at - 1] == before[at - 1]@);
                    }
                    if b == at {
                        assert(new_view[a] == old_view[a]);
                        if a < at - 1 {
                            lemma_listed_trans(old_view[a], old_view[at - 1], dv, now as int);
                        }
                    } else if a == at {
                        assert(new_view[b] == old_view[b - 1]);
                        assert(before[b - 1]@ == old_view[b - 1]);
                        lemma_listed_asym(dv, old_view[b - 1], now as int);
                    } else {
                        let x = if a < at {
                            a
                        } else {
                            a - 1
                        };
                        let y = if b < at {
                            b
                        } else {
                            b - 1
                        };
                        assert(new_view[a] == old_view[x]);
                        assert(new_view[b] == old_view[y]);
                    }
                }
            }
            i += 1;
        }
        assert(all.take(i as int) =~= all);
        out
    }

    /// Every task.
    pub fn get_all_tasks(&self) -> (r: Vec<Task>)
        ensures
            tasks_view(r@) == self@.tasks,
    {
        let r = self._tasks.clone();
        assert(tasks_view(r@) =~= self@.tasks);
        r
    }

    /// Whether every command has ended.
    pub fn is_all_finished(&self) -> (r: bool)
        requires
            self.wf(),
        ensures
            r == forall|k: Seq<char>| #[trigger]
                self@.statuses.contains_key(k) ==> self@.statuses[k].finished(),
    {
        proof {
            self._statuses.lemma_entries();
        }
        let mut i: usize = 0;
        while i < self._statuses.len()
            invariant
                i <= self._statuses.keys().len(),
                self.wf(),
                self._statuses.keys().len() == self._statuses.values().len(),
                forall|k: int| 0 <= k < i ==> (#[trigger] self._statuses.values()[k]).finished(),
            decreases self._statuses.keys().len() - i,
        {
            if !self._statuses.value_at(i).is_finished() {
                proof {
                    self._statuses.lemma_entries();
                    assert(self@.statuses.contains_key(self._statuses.keys()[i as int]));
                }
                return false;
            }
            i += 1;
        }
        proof {
            lemma_all_values(&self._statuses, |s: TaskStatus| s.finished());
        }
        true
    }

    /// Whether some command runs.
    pub fn is_any_running(&self) -> (r: bool)
        requires
            self.wf(),
        ensures
            r == exists|k: Seq<char>| #[trigger]
                self@.statuses.contains_key(k) && self@.statuses[k] is Running,
    {
        proof {
            self._statuses.lemma_entries();
        }
        let mut i: usize = 0;
        while i < self._statuses.len()
            invariant
                i <= self._statuses.keys().len(),
                self.wf(),
                self._statuses.keys().len() == self._statuses.values().len(),
                forall|k: int| 0 <= k < i ==> !(#[trigger] self._statuses.values()[k] is Running),
            decreases self._statuses.keys().len() - i,
        {
            if self._statuses.value_at(i).is_running() {
                proof {
                    self._statuses.lemma_entries();
                    assert(self@.statuses.contains_key(self._statuses.keys()[i as int]));
                }
                return true;
            }
            i += 1;
        }
        proof {
            lemma_all_values(&self._statuses, |s: TaskStatus| !(s is Running));
        }
        false
    }

    /// Whether every command runs or has ended.
    pub fn is_all_running_or_finished(&self) -> (r: bool)
        requires
            self.wf(),
        ensures
            r == forall|k: Seq<char>| #[trigger]
                self@.statuses.contains_key(k) ==> self@.statuses[k] is Running
                    || self@.statuses[k].finished(),
    {
        proof {
            self._statuses.lemma_entries();
        }
        let mut i: usize = 0;
        while i < self._statuses.len()
            invariant
                i <= self._statuses.keys().len(),
                self.wf(),
                self._statuses.keys().len() == self._statuses.values().len(),
                forall|k: int|
                    0 <= k < i ==> (#[trigger] self._statuses.values()[k] is Running
                        || self._statuses.values()[k].finished()),
            decreases self._statuses.keys().len() - i,
        {
            let s = self._statuses.value_at(i);
            if !(s.is_running() || s.is_finished()) {
                proof {
                    self._statuses.lemma_entries();
                    assert(self@.statuses.contains_key(self._statuses.keys()[i as int]));
                }
                return false;
            }
            i += 1;
        }
        proof {
            lemma_all_values(&self._statuses, |s: TaskStatus| s is Running || s.finished());
        }
        true
    }

    /// Whether no command waits for its turn.
    pub fn is_all_not_init(&self) -> (r: bool)
        requires
            self.wf(),
        ensures
            r == forall|k: Seq<char>| #[trigger]
                self@.statuses.contains_key(k) ==> !(self@.statuses[k] is Init),
    {
        proof {
            self._statuses.lemma_entries();
        }
        let mut i: usize = 0;
        while i < self._statuses.len()
            invariant
                i <= self._statuses.keys().len(),
                self.wf(),
                self._statuses.keys().len() == self._statuses.values().len(),
                forall|k: int| 0 <= k < i ==> !(#[trigger] self._statuses.values()[k] is Init),
            decreases self._statuses.keys().len() - i,
        {
            if self._statuses.value_at(i).is_init() {
                proof {
                    self._statuses.lemma_entries();
                    assert(self@.statuses.contains_key(self._statuses.keys()[i as int]));
                }
                return false;
            }
            i += 1;
        }
        proof {
            lemma_all_values(&self._statuses, |s: TaskStatus| !(s is Init));
        }
        true
    }

    /// Whether some command has failed.
    pub fn is_any_failed(&self) -> (r: bool)
        requires
            self.wf(),
        ensures
            r == exists|k: Seq<char>| #[trigger]
                self@.statuses.contains_key(k) && self@.statuses[k] is Failed,
    {
        proof {
            self._statuses.lemma_entries();
        }
        let mut i: usize = 0;
        while i < self._statuses.len()
            invariant
                i <= self._statuses.keys().len(),
                self.wf(),
                self._statuses.keys().len() == self._statuses.values().len(),
                forall|k: int| 0 <= k < i ==> !(#[trigger] self._statuses.values()[k] is Failed),
            decreases self._statuses.keys().len() - i,
        {
            if self._statuses.value_at(i).is_failed() {
                proof {
                    self._statuses.lemma_entries();
                    assert(self@.statuses.contains_key(self._statuses.keys()[i as int]));
                }
                return true;
            }
            i += 1;
        }
        proof {
            lemma_all_values(&self._statuses, |s: TaskStatus| !(s is Failed));
        }
        false
    }

    /// Remembers when a command of a task last ended.
    pub fn set_last_run_time(&mut self, id: &str, time: i64)
        requires
            old(self).wf(),
        ensures
            final(self).wf(),
            final(self)@ == (StoreView {
                last_run_time: old(self)@.last_run_time.insert(id@, time),
                ..old(self)@
            }),
    {
        self._last_run_time.insert(id.to_owned(), time);
    }

    /// When a command of a task last ended.
    pub fn get_last_run_time(&self, id: &str) -> (r: Option<i64>)
        requires
            self._last_run_time.wf(),
        ensures
            r == (if self@.last_run_time.contains_key(id@) {
                Some(self@.last_run_time[id@])
            } else {
                None
            }),
    {
        match self._last_run_time.get(id) {
            Some(t) => Some(*t),
            None => None,
        }
    }

    /// Gives a command a status.
    pub fn set_status(&mut self, id: &str, status: TaskStatus)
        requires
            old(self).wf(),
        ensures
            final(self).wf(),
            final(self)@ == (StoreView {
                tasks: with_status(old(self)@.tasks, id@, status),
                statuses: old(self)@.statuses.insert(id@, status),
                ..old(self)@
            }),
    {
        let ghost tasks = self@.tasks;
        let mut t: usize = 0;
        let mut found = false;
        proof {
            assert(tasks.skip(0) =~= tasks);
            assert(tasks.take(0) + with_status(tasks.skip(0), id@, status) =~= with_status(
                tasks,
                id@,
                status,
            ));
        }
        while t < self._tasks.len() && !found
            invariant
                t <= self._tasks@.len(),
                tasks == old(self)@.tasks,
                old(self).wf(),
                self._statuses == old(self)._statuses,
                self._logs == old(self)._logs,
                self._last_run_time == old(self)._last_run_time,
                self._show_colors == old(self)._show_colors,
                self._tasks@.len() == tasks.len(),
                !found ==> self@.tasks == tasks && with_status(tasks, id@, status) == tasks.take(
                    t as int,
                ) + with_status(tasks.skip(t as int), id@, status),
                found ==> self@.tasks == with_status(tasks, id@, status),
            decreases self._tasks@.len() - t + (if found {
                0int
            } else {
                1
            }),
        {
            let k = place_of_command(&self._tasks[t]._commands, id);
            let ghost first = tasks[t as int];
            proof {
                assert(first.commands == commands_view(self._tasks@[t as int]._commands@));
                assert(tasks.skip(t as int)[0] == first);
                assert(tasks.skip(t as int).drop_first() =~= tasks.skip(t + 1));
            }
            if k < self._tasks[t]._commands.len() {
                self._tasks[t]._commands[k]._status = status;
                found = true;
                proof {
                    let changed = TaskView {
                        commands: first.commands.update(
                            k as int,
                            CommandView { status, ..first.commands[k as int] },
                        ),
                        ..first
                    };
                    assert(self@.tasks[t as int].commands =~= changed.commands);
                    assert(self@.tasks[t as int] == changed);
                    assert(self@.tasks =~= tasks.update(t as int, changed));
                    assert(with_status(tasks.skip(t as int), id@, status) == seq![changed]
                        + tasks.skip(t + 1));
                    assert(tasks.update(t as int, changed) =~= tasks.take(t as int) + (
                    seq![changed] + tasks.skip(t + 1)));
                }
            } else {
                proof {
                    assert(tasks.take(t as int) + (seq![first] + with_status(
                        tasks.skip(t + 1),
                        id@,
                        status,
                    )) =~= tasks.take(t + 1) + with_status(tasks.skip(t + 1), id@, status));
                }
                t += 1;
            }
        }
        proof {
            if !found {
                assert(tasks.skip(t as int) =~= Seq::<TaskView>::empty());
                assert(tasks.take(t as int) + Seq::<TaskView>::empty() =~= tasks);
            }
            lemma_with_status(tasks, id@, status);
            assert(task_ids(self@.tasks) =~= task_ids(tasks));
            assert forall|t: int| 0 <= t < self@.tasks.len() implies command_ids(
                (#[trigger] self@.tasks[t]).commands,
            ).no_duplicates() by {
                assert(command_ids(self@.tasks[t].commands) == command_ids(tasks[t].commands));
                assert(command_ids(tasks[t].commands).no_duplicates());
            }
        }
        self._statuses.insert(id.to_owned(), status);
    }

    /// The status of a command.
    pub fn get_status(&self, id: &str) -> (r: TaskStatus)
        requires
            self.wf(),
            self@.statuses.contains_key(id@),
        ensures
            r == self@.statuses[id@],
    {
        match self._statuses.get(id) {
            Some(s) => *s,
            None => TaskStatus::Init,
        }
    }

    /// Adds a line to the output of a command.
    pub fn add_log(&mut self, id: &str, log: String)
        requires
            old(self).wf(),
        ensures
            final(self).wf(),
            final(self)@ == (StoreView {
                logs: old(self)@.logs.insert(id@, logs_of(old(self)@, id@).push(log@)),
                ..old(self)@
            }),
    {
        let ghost before = self._logs@;
        match self._logs.get_mut(id) {
            Some(lines) => {
                let ghost had = lines@;
                lines.push(log);
                assert(text::texts(lines@) =~= text::texts(had).push(log@));
            },
            None => {
                let lines = vec![log];
                assert(text::texts(lines@) =~= Seq::<Seq<char>>::empty().push(log@));
                self._logs.insert(id.to_owned(), lines);
            },
        }
        assert(self@.logs =~= old(self)@.logs.insert(
            id@,
            logs_of(old(self)@, id@).push(log@),
        ));
    }

    /// The output of a command so far.
    pub fn get_logs(&self, id: &str) -> (r: Vec<String>)
        requires
            self.wf(),
        ensures
            text::texts(r@) == logs_of(self@, id@),
    {
        match self._logs.get(id) {
            Some(lines) => text::clone_texts(lines),
            None => {
                let none: Vec<String> = Vec::new();
                assert(text::texts(none@) =~= logs_of(self@, id@));
                none
            },
        }
    }
}

impl Default for TaskStore {
    fn default() -> (r: Self)
        ensures
            r.wf(),
            r@ == (StoreView {
                tasks: Seq::empty(),
                statuses: Map::empty(),
                logs: Map::empty(),
                last_run_time: Map::empty(),
                show_colors: true,
            }),
    {
        TaskStore::new(true)
    }
}

/// The output of a command so far.
pub open spec fn logs_of(s: StoreView, id: Seq<char>) -> Seq<Seq<char>> {
    if s.logs.contains_key(id) {
        s.logs[id]
    } else {
        Seq::empty()
    }
}

fn place_of_command(cmds: &Vec<TaskCommand>, id: &str) -> (r: usize)
    ensures
        r == text::first_at(command_ids(commands_view(cmds@)), id@),
        r <= cmds@.len(),
{
    let ghost ids = command_ids(commands_view(cmds@));
    let mut i: usize = 0;
    while i < cmds.len()
        invariant
            i <= cmds@.len(),
            ids == command_ids(commands_view(cmds@)),
            forall|k: int| 0 <= k < i ==> ids[k] != id@,
        decreases cmds@.len() - i,
    {
        assert(ids[i as int] == cmds@[i as int]._id@);
        if *cmds[i]._id.as_str() == *id {
            proof {
                text::lemma_is_first_at(ids, id@, i as int);
            }
            return i;
        }
        i += 1;
    }
    proof {
        text::lemma_is_first_at(ids, id@, i as int);
    }
    i
}

fn has_run_all(task: &Task, cmd: &TaskCommand) -> (r: bool)
    ensures
        r == has_run(task@, cmd@.command.label()),
{
    let ghost label = cmd@.command.label();
    let cmds = &task._commands;
    let mut i: usize = 0;
    while i < cmds.len()
        invariant
            i <= cmds@.len(),
            cmds@ == task._commands@,
            label == cmd@.command.label(),
            forall|k: int|
                0 <= k < i && (#[trigger] task@.commands[k]).command.label() == label
                    ==> task@.commands[k].status is Successed,
        decreases cmds@.len() - i,
    {
        assert(task@.commands[i as int] == cmds@[i as int]@);
        if cmds[i] == *cmd && !cmds[i]._status.is_successed() {
            return false;
        }
        i += 1;
    }
    true
}

fn is_listed_before(a: &TaskWithDetails, b: &TaskWithDetails, now: i64) -> (r: bool)
    requires
        now >= i64::MIN + DAY,
    ensures
        r == listed_before(a@, b@, now as int),
{
    match (a._status, b._status) {
        (InternalTaskStatus::Running, InternalTaskStatus::Running) => text::text_before(
            a._name.as_str(),
            b._name.as_str(),
        ),
        (InternalTaskStatus::Other, InternalTaskStatus::Other) => ran_later(a, b, now),
        (InternalTaskStatus::Running, InternalTaskStatus::Other) => true,
        (InternalTaskStatus::Other, InternalTaskStatus::Running) => false,
    }
}

fn ran_later(a: &TaskWithDetails, b: &TaskWithDetails, now: i64) -> (r: bool)
    requires
        now >= i64::MIN + DAY,
    ensures
        r == (last_run(a@, now as int) > last_run(b@, now as int)),
{
    let default_time: i64 = now - DAY;
    let a_time: i64 = match a.last_run_time {
        Some(t) => t,
        None => default_time,
    };
    let b_time: i64 = match b.last_run_time {
        Some(t) => t,
        None => default_time,
    };
    a_time > b_time
}

proof fn lemma_listed_asym(a: DetailsView, b: DetailsView, now: int)
    requires
        listed_before(a, b, now),
    ensures
        !listed_before(b, a, now),
{
    text::lemma_text_lt_total(a.task.name, b.task.name);
}

proof fn lemma_listed_trans(a: DetailsView, b: DetailsView, c: DetailsView, now: int)
    requires
        !listed_before(b, a, now),
        !listed_before(c, b, now),
    ensures
        !listed_before(c, a, now),
{
    let (x, y, z) = (a.task.name, b.task.name, c.task.name);
    text::lemma_text_lt_total(x, y);
    text::lemma_text_lt_total(y, z);
    text::lemma_text_lt_total(x, z);
    if text::text_lt(x, y) && text::text_lt(y, z) {
        text::lemma_text_lt_trans(x, y, z);
    }
}

proof fn lemma_push_contains(s: Seq<Seq<char>>, x: Seq<char>, k: Seq<char>)
    ensures
        s.push(x).contains(k) == (s.contains(k) || k == x),
{
    if s.contains(k) {
        let i = choose|i: int| 0 <= i < s.len() && s[i] == k;
        assert(s.push(x)[i] == k);
    }
    if k == x {
        assert(s.push(x)[s.len() as int] == k);
    }
    if s.push(x).contains(k) {
        let i = choose|i: int| 0 <= i < s.push(x).len() && s.push(x)[i] == k;
        if i < s.len() {
            assert(s[i] == k);
        }
    }
}

proof fn lemma_all_values(m: &StrMap<TaskStatus>, p: spec_fn(TaskStatus) -> bool)
    requires
        m.wf(),
        forall|k: int| 0 <= k < m.values().len() ==> p(#[trigger] m.values()[k]),
    ensures
        forall|k: Seq<char>| #[trigger] m@.contains_key(k) ==> p(m@[k]),
{
    m.lemma_entries();
    assert forall|k: Seq<char>| #[trigger] m@.contains_key(k) implies p(m@[k]) by {
        let i = choose|i: int| 0 <= i < m.keys().len() && m.keys()[i] == k;
        assert(m@.contains_key(m.keys()[i]));
        assert(p(m.values()[i]));
    }
}

/// A change of status leaves everything else of the tasks as it was.
pub proof fn lemma_with_status(tasks: Seq<TaskView>, id: Seq<char>, status: TaskStatus)
    ensures
        with_status(tasks, id, status).len() == tasks.len(),
        forall|t: int|
            0 <= t < tasks.len() ==> {
                let new = #[trigger] with_status(tasks, id, status)[t];
                &&& new.id == tasks[t].id
                &&& new.name == tasks[t].name
                &&& new.path == tasks[t].path
                &&& new.parent_id == tasks[t].parent_id
                &&& new.children_id == tasks[t].children_id
                &&& command_ids(new.commands) == command_ids(tasks[t].commands)
                &&& labels(new.commands) == labels(tasks[t].commands)
            },
    decreases tasks.len(),
{
    if tasks.len() > 0 {
        let first = tasks[0];
        let at = text::first_at(command_ids(first.commands), id);
        text::lemma_first_at(command_ids(first.commands), id);
        let new = with_status(tasks, id, status);
        if at < first.commands.len() {
            let changed = first.commands.update(at, CommandView { status, ..first.commands[at] });
            assert(command_ids(changed) =~= command_ids(first.commands));
            assert(labels(changed) =~= labels(first.commands));
            assert forall|t: int| 0 < t < tasks.len() implies new[t] == tasks[t] by {
                assert(tasks.drop_first()[t - 1] == tasks[t]);
            }
        } else {
            lemma_with_status(tasks.drop_first(), id, status);
            assert forall|t: int| 0 < t < tasks.len() implies new[t] == with_status(
                tasks.drop_first(),
                id,
                status,
            )[t - 1] && tasks.drop_first()[t - 1] == tasks[t] by {}
        }
    }
}

/// Whether no two commands of the store have the same id.
pub open spec fn distinct_commands(tasks: Seq<TaskView>) -> bool {
    forall|t: int, c: int, u: int, d: int|
        0 <= t < tasks.len() && 0 <= c < (#[trigger] tasks[t]).commands.len() && 0 <= u
            < tasks.len() && 0 <= d < (#[trigger] tasks[u]).commands.len() && (t != u || c != d)
            ==> (#[trigger] tasks[t].commands[c]).id != (#[trigger] tasks[u].commands[d]).id
}

/// Whether the store tells the same status of each command by its task and by its id.
pub open spec fn in_step(s: StoreView) -> bool {
    &&& distinct_commands(s.tasks)
    &&& forall|t: int, c: int|
        0 <= t < s.tasks.len() && 0 <= c < (#[trigger] s.tasks[t]).commands.len() ==> {
            let cmd = #[trigger] s.tasks[t].commands[c];
            s.statuses.contains_key(cmd.id) && s.statuses[cmd.id] == cmd.status
        }
}

/// Where no two commands have the same id, a change of status changes that command and no
/// other.
pub proof fn lemma_with_status_exact(tasks: Seq<TaskView>, id: Seq<char>, status: TaskStatus)
    requires
        distinct_commands(tasks),
    ensures
        forall|t: int, c: int|
            0 <= t < tasks.len() && 0 <= c < tasks[t].commands.len() ==> {
                let old_cmd = tasks[t].commands[c];
                #[trigger] with_status(tasks, id, status)[t].commands[c] == (if old_cmd.id == id {
                    CommandView { status, ..old_cmd }
                } else {
                    old_cmd
                })
            },
    decreases tasks.len(),
{
    if tasks.len() > 0 {
        let first = tasks[0];
        let rest = tasks.drop_first();
        let at = text::first_at(command_ids(first.commands), id);
        text::lemma_first_at(command_ids(first.commands), id);
        let new = with_status(tasks, id, status);
        lemma_with_status(tasks, id, status);
        assert forall|t: int, c: int, u: int, d: int|
            0 <= t < rest.len() && 0 <= c < (#[trigger] rest[t]).commands.len() && 0 <= u
                < rest.len() && 0 <= d < (#[trigger] rest[u]).commands.len() && (t != u || c
                != d) implies (#[trigger] rest[t].commands[c]).id != (
        #[trigger] rest[u].commands[d]).id by {
            assert(rest[t] == tasks[t + 1]);
            assert(rest[u] == tasks[u + 1]);
            assert(tasks[t + 1].commands[c].id != tasks[u + 1].commands[d].id);
        }
        if at < first.commands.len() {
            assert(command_ids(first.commands)[at] == first.commands[at].id);
            assert forall|t: int, c: int|
                0 <= t < tasks.len() && 0 <= c < tasks[t].commands.len() implies {
                let old_cmd = tasks[t].commands[c];
                #[trigger] new[t].commands[c] == (if old_cmd.id == id {
                    CommandView { status, ..old_cmd }
                } else {
                    old_cmd
                })
            } by {
                if t > 0 {
                    assert(rest[t - 1] == tasks[t]);
                    assert(new[t] == tasks[t]);
                }
                if t != 0 || c != at {
                    assert(tasks[t].commands[c].id != tasks[0].commands[at].id);
                }
            }
        } else {
            lemma_with_status_exact(rest, id, status);
            assert forall|t: int, c: int|
                0 <= t < tasks.len() && 0 <= c < tasks[t].commands.len() implies {
                let old_cmd = tasks[t].commands[c];
                #[trigger] new[t].commands[c] == (if old_cmd.id == id {
                    CommandView { status, ..old_cmd }
                } else {
                    old_cmd
                })
            } by {
                if t > 0 {
                    assert(rest[t - 1] == tasks[t]);
                    assert(new[t] == with_status(rest, id, status)[t - 1]);
                    assert(with_status(rest, id, status)[t - 1].commands[c] == new[t].commands[c]);
                } else {
                    assert(new[0] == first);
                    assert(command_ids(first.commands)[c] == first.commands[c].id);
                }
            }
        }
    }
}

/// A change of status keeps the two ways to ask for a status in step.
pub proof fn lemma_set_status_in_step(s: StoreView, id: Seq<char>, status: TaskStatus)
    requires
        in_step(s),
    ensures
        in_step(
            StoreView {
                tasks: with_status(s.tasks, id, status),
                statuses: s.statuses.insert(id, status),
                ..s
            },
        ),
{
    let new = with_status(s.tasks, id, status);
    lemma_with_status(s.tasks, id, status);
    lemma_with_status_exact(s.tasks, id, status);
    assert forall|t: int| 0 <= t < new.len() implies (#[trigger] new[t]).commands.len()
        == s.tasks[t].commands.len() by {
        assert(command_ids(new[t].commands) == command_ids(s.tasks[t].commands));
        assert(command_ids(new[t].commands).len() == new[t].commands.len());
        assert(command_ids(s.tasks[t].commands).len() == s.tasks[t].commands.len());
    }
    assert forall|t: int, c: int, u: int, d: int|
        0 <= t < new.len() && 0 <= c < (#[trigger] new[t]).commands.len() && 0 <= u < new.len()
            && 0 <= d < (#[trigger] new[u]).commands.len() && (t != u || c != d) implies (
    #[trigger] new[t].commands[c]).id != (#[trigger] new[u].commands[d]).id by {
        assert(s.tasks[t].commands[c].id != s.tasks[u].commands[d].id);
    }
}

/// A new task, all of whose commands wait and are new to the store, keeps the two ways to
/// ask for a status in step.
pub proof fn lemma_add_task_in_step(s: StoreView, task: TaskView)
    requires
        in_step(s),
        !task_ids(s.tasks).contains(task.id),
        command_ids(task.commands).no_duplicates(),
        forall|c: int| 0 <= c < task.commands.len() ==> (#[trigger] task.commands[c]).status is Init,
        forall|t: int, c: int, d: int|
            0 <= t < s.tasks.len() && 0 <= c < (#[trigger] s.tasks[t]).commands.len() && 0 <= d
                < task.commands.len() ==> (#[trigger] s.tasks[t].commands[c]).id != (
            #[trigger] task.commands[d]).id,
    ensures
        in_step(
            StoreView {
                tasks: with_task(s.tasks, task),
                statuses: with_init(s.statuses, command_ids(task.commands)),
                ..s
            },
        ),
{
    let new = with_task(s.tasks, task);
    let ids = command_ids(task.commands);
    text::lemma_first_at(task_ids(s.tasks), task.id);
    assert(new == s.tasks.push(task));
    let n = s.tasks.len() as int;
    assert forall|t: int, c: int, u: int, d: int|
        0 <= t < new.len() && 0 <= c < (#[trigger] new[t]).commands.len() && 0 <= u < new.len()
            && 0 <= d < (#[trigger] new[u]).commands.len() && (t != u || c != d) implies (
    #[trigger] new[t].commands[c]).id != (#[trigger] new[u].commands[d]).id by {
        if t < n && u < n {
            assert(s.tasks[t].commands[c].id != s.tasks[u].commands[d].id);
        } else if t < n {
            assert(s.tasks[t].commands[c].id != task.commands[d].id);
        } else if u < n {
            assert(s.tasks[u].commands[d].id != task.commands[c].id);
        } else {
            assert(ids[c] != ids[d]);
        }
    }
    assert forall|t: int, c: int|
        0 <= t < new.len() && 0 <= c < (#[trigger] new[t]).commands.len() implies {
        let cmd = #[trigger] new[t].commands[c];
        with_init(s.statuses, ids).contains_key(cmd.id) && with_init(s.statuses, ids)[cmd.id]
            == cmd.status
    } by {
        if t < n {
            let cmd = s.tasks[t].commands[c];
            assert(s.statuses.contains_key(cmd.id));
            if ids.contains(cmd.id) {
                let d = choose|d: int| 0 <= d < ids.len() && ids[d] == cmd.id;
                assert(task.commands[d].id == cmd.id);
            }
        } else {
            assert(ids[c] == task.commands[c].id);
        }
    }
}

/// What is handed out to run, and only that: a command of some task that waits or has
/// ended, in its turn, whose children have all run theirs with success.
pub proof fn lemma_next_commands(tasks: Seq<TaskView>, sequential: i8, n: int)
    requires
        0 <= n <= tasks.len(),
    ensures
        forall|i: int|
            0 <= i < next_commands(tasks, sequential, n).len() ==> exists|t: int, c: int|
                0 <= t < n && 0 <= c < tasks[t].commands.len() && #[trigger] is_next(
                    tasks,
                    sequential,
                    t,
                    c,
                ) && #[trigger] next_commands(tasks, sequential, n)[i] == runnable(
                    tasks[t].commands[c],
                    tasks[t],
                ),
        forall|t: int, c: int|
            0 <= t < n && 0 <= c < tasks[t].commands.len() && #[trigger] is_next(
                tasks,
                sequential,
                t,
                c,
            ) ==> next_commands(tasks, sequential, n).contains(
                runnable(tasks[t].commands[c], tasks[t]),
            ),
    decreases n,
{
    if n > 0 {
        let before = next_commands(tasks, sequential, n - 1);
        let m = tasks[n - 1].commands.len() as int;
        let last = next_of_task(tasks, sequential, n - 1, m);
        let all = next_commands(tasks, sequential, n);
        lemma_next_commands(tasks, sequential, n - 1);
        lemma_next_of_task(tasks, sequential, n - 1, m);
        assert(all == before + last);
        assert forall|i: int| 0 <= i < all.len() implies exists|t: int, c: int|
            0 <= t < n && 0 <= c < tasks[t].commands.len() && #[trigger] is_next(
                tasks,
                sequential,
                t,
                c,
            ) && #[trigger] all[i] == runnable(tasks[t].commands[c], tasks[t]) by {
            if i < before.len() {
                assert(all[i] == before[i]);
                let (t, c) = choose|t: int, c: int|
                    0 <= t < n - 1 && 0 <= c < tasks[t].commands.len() && #[trigger] is_next(
                        tasks,
                        sequential,
                        t,
                        c,
                    ) && before[i] == runnable(tasks[t].commands[c], tasks[t]);
                assert(is_next(tasks, sequential, t, c));
            } else {
                let j = i - before.len();
                assert(all[i] == last[j]);
                let c = choose|c: int|
                    0 <= c < m && #[trigger] is_next(tasks, sequential, n - 1, c) && last[j]
                        == runnable(tasks[n - 1].commands[c], tasks[n - 1]);
                assert(is_next(tasks, sequential, n - 1, c));
            }
        }
        assert forall|t: int, c: int|
            0 <= t < n && 0 <= c < tasks[t].commands.len() && #[trigger] is_next(
                tasks,
                sequential,
                t,
                c,
            ) implies all.contains(runnable(tasks[t].commands[c], tasks[t])) by {
            let x = runnable(tasks[t].commands[c], tasks[t]);
            if t < n - 1 {
                assert(before.contains(x));
                let k = choose|k: int| 0 <= k < before.len() && before[k] == x;
                assert(all[k] == x);
            } else {
                assert(last.contains(x));
                let k = choose|k: int| 0 <= k < last.len() && last[k] == x;
                assert(all[before.len() + k] == x);
            }
        }
    }
}

proof fn lemma_next_of_task(tasks: Seq<TaskView>, sequential: i8, t: int, n: int)
    requires
        0 <= t < tasks.len(),
        0 <= n <= tasks[t].commands.len(),
    ensures
        forall|i: int|
            0 <= i < next_of_task(tasks, sequential, t, n).len() ==> exists|c: int|
                0 <= c < n && #[trigger] is_next(tasks, sequential, t, c)
                    && #[trigger] next_of_task(tasks, sequential, t, n)[i] == runnable(
                    tasks[t].commands[c],
                    tasks[t],
                ),
        forall|c: int|
            0 <= c < n && #[trigger] is_next(tasks, sequential, t, c) ==> next_of_task(
                tasks,
                sequential,
                t,
                n,
            ).contains(runnable(tasks[t].commands[c], tasks[t])),
    decreases n,
{
    if n > 0 {
        let before = next_of_task(tasks, sequential, t, n - 1);
        let all = next_of_task(tasks, sequential, t, n);
        lemma_next_of_task(tasks, sequential, t, n - 1);
        assert forall|i: int| 0 <= i < all.len() implies exists|c: int|
            0 <= c < n && #[trigger] is_next(tasks, sequential, t, c) && #[trigger] all[i]
                == runnable(tasks[t].commands[c], tasks[t]) by {
            if i < before.len() {
                assert(all[i] == before[i]);
                let c = choose|c: int|
                    0 <= c < n - 1 && #[trigger] is_next(tasks, sequential, t, c) && before[i]
                        == runnable(tasks[t].commands[c], tasks[t]);
                assert(is_next(tasks, sequential, t, c));
            } else {
                assert(is_next(tasks, sequential, t, n - 1));
            }
        }
        assert forall|c: int|
            0 <= c < n && #[trigger] is_next(tasks, sequential, t, c) implies all.contains(
            runnable(tasks[t].commands[c], tasks[t]),
        ) by {
            let x = runnable(tasks[t].commands[c], tasks[t]);
            if c < n - 1 {
                assert(before.contains(x));
                let k = choose|k: int| 0 <= k < before.len() && before[k] == x;
                assert(all[k] == x);
            } else {
                assert(all[before.len() as int] == x);
            }
        }
    }
}

} // verus!
