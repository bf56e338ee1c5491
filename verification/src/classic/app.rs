//! The tasks of the program: which may start, and what events do to them.

use vstd::prelude::*;

use crate::classic::share::AppEvent;
use crate::classic::share::AppEventView;
use crate::classic::share::TaskStatus;
use crate::classic::share::events_view;
use crate::classic::task::Task;
use crate::classic::task::TaskView;
use crate::pnpm::PnpmProjectView;
use crate::pnpm::Project;
use crate::strmap::StrMap;
use crate::text;

verus! {

/// What tasks say, by name.
pub open spec fn tasks_view(m: Map<Seq<char>, Task>) -> Map<Seq<char>, TaskView> {
    m.map_values(|t: Task| t@)
}

/// The task of a project: it runs the command where that is among the scripts.
pub open spec fn task_of(name: Seq<char>, project: PnpmProjectView, command: Seq<char>) -> TaskView {
    let has = project.scripts.contains(command);
    TaskView {
        name,
        path: project.path,
        cmd: if has {
            Some(command)
        } else {
            None
        },
        status: if has {
            TaskStatus::NotStarted
        } else {
            TaskStatus::NoCommand
        },
        handle: false,
        project,
    }
}

/// Whether a task has nothing left to do.
pub open spec fn is_done(t: TaskView) -> bool {
    t.status is Finished || t.status is NoCommand
}

/// Whether all of some tasks are there and have nothing left to do.
pub open spec fn satisfied(tasks: Map<Seq<char>, TaskView>, deps: Seq<Seq<char>>) -> bool {
    forall|i: int|
        0 <= i < deps.len() ==> tasks.contains_key(#[trigger] deps[i]) && is_done(tasks[deps[i]])
}

/// Whether a task may start.
pub open spec fn is_ready(tasks: Map<Seq<char>, TaskView>, name: Seq<char>) -> bool {
    tasks[name].status is NotStarted && tasks[name].cmd is Some && satisfied(
        tasks,
        tasks[name].project.deps,
    )
}

/// Those of some tasks that may start.
pub open spec fn ready_of(names: Seq<Seq<char>>, tasks: Map<Seq<char>, TaskView>) -> Seq<Seq<char>>
    decreases names.len(),
{
    if names.len() == 0 {
        Seq::empty()
    } else {
        let before = ready_of(names.drop_last(), tasks);
        if is_ready(tasks, names.last()) {
            before.push(names.last())
        } else {
            before
        }
    }
}

/// Those of some tasks that have a command.
pub open spec fn with_command(
    names: Seq<Seq<char>>,
    tasks: Map<Seq<char>, TaskView>,
) -> Seq<Seq<char>>
    decreases names.len(),
{
    if names.len() == 0 {
        Seq::empty()
    } else {
        let before = with_command(names.drop_last(), tasks);
        if tasks[names.last()].cmd is Some {
            before.push(names.last())
        } else {
            before
        }
    }
}

/// Whether a change of `changed` makes a task start once more.
pub open spec fn is_reset(
    tasks: Map<Seq<char>, TaskView>,
    changed: Seq<char>,
    name: Seq<char>,
) -> bool {
    tasks[name].status is Finished && (name == changed || tasks[name].project.deps.contains(
        changed,
    ))
}

/// The tasks after a change of the files of `changed`: where that task had finished, it and
/// the finished ones that depend on it are to start once more.
pub open spec fn after_change(
    tasks: Map<Seq<char>, TaskView>,
    changed: Seq<char>,
) -> Map<Seq<char>, TaskView> {
    if tasks.contains_key(changed) && tasks[changed].status is Finished {
        Map::new(
            |k: Seq<char>| tasks.contains_key(k),
            |k: Seq<char>|
                if is_reset(tasks, changed, k) {
                    tasks[k].with_status(TaskStatus::NotStarted)
                } else {
                    tasks[k]
                },
        )
    } else {
        tasks
    }
}

/// What is sent of the tasks that depend on a changed one.
pub open spec fn dependents_told(
    names: Seq<Seq<char>>,
    tasks: Map<Seq<char>, TaskView>,
    changed: Seq<char>,
) -> Seq<AppEventView>
    decreases names.len(),
{
    if names.len() == 0 {
        Seq::empty()
    } else {
        let before = dependents_told(names.drop_last(), tasks, changed);
        let name = names.last();
        if name != changed && is_reset(tasks, changed, name) {
            before.push(tasks[name].told(TaskStatus::NotStarted))
        } else {
            before
        }
    }
}

/// What is sent of a change: the changed task first.
pub open spec fn change_told(
    names: Seq<Seq<char>>,
    tasks: Map<Seq<char>, TaskView>,
    changed: Seq<char>,
) -> Seq<AppEventView> {
    if tasks.contains_key(changed) && tasks[changed].status is Finished {
        seq![tasks[changed].told(TaskStatus::NotStarted)] + dependents_told(
            names,
            tasks,
            changed,
        )
    } else {
        Seq::empty()
    }
}

/// The tasks after an event, with what is sent.
pub open spec fn after_event(
    names: Seq<Seq<char>>,
    tasks: Map<Seq<char>, TaskView>,
    event: AppEventView,
) -> (Map<Seq<char>, TaskView>, Seq<AppEventView>) {
    match event {
        AppEventView::FileChanged { task_name, .. } => (
            after_change(tasks, task_name),
            change_told(names, tasks, task_name),
        ),
        AppEventView::TuiStop(name) => if tasks.contains_key(name) {
            (
                tasks.insert(name, tasks[name].stopped().with_status(TaskStatus::Stoped)),
                seq![
                    tasks[name].told(TaskStatus::NotStarted),
                    tasks[name].told(TaskStatus::Stoped),
                ],
            )
        } else {
            (tasks, Seq::empty())
        },
        AppEventView::TuiStart(name) => if tasks.contains_key(name) && !(tasks[name].status
            is Running) {
            (
                tasks.insert(name, tasks[name].with_status(TaskStatus::NotStarted)),
                seq![tasks[name].told(TaskStatus::NotStarted)],
            )
        } else {
            (tasks, Seq::empty())
        },
        AppEventView::TuiRestart(name) => if tasks.contains_key(name) {
            (
                tasks.insert(name, tasks[name].stopped()),
                seq![
                    tasks[name].told(TaskStatus::NotStarted),
                    tasks[name].told(TaskStatus::NotStarted),
                ],
            )
        } else {
            (tasks, Seq::empty())
        },
        _ => (tasks, Seq::empty()),
    }
}

/// The task whose process an event ends.
pub open spec fn ended_by(tasks: Map<Seq<char>, TaskView>, event: AppEventView) -> Option<
    Seq<char>,
> {
    match event {
        AppEventView::TuiStop(name) => if tasks.contains_key(name) && tasks[name].handle {
            Some(name)
        } else {
            None
        },
        AppEventView::TuiRestart(name) => if tasks.contains_key(name) && tasks[name].handle {
            Some(name)
        } else {
            None
        },
        _ => None,
    }
}

/// What the loop that starts tasks does next.
pub enum RunStep {
    /// The loop ends, and all are told to quit.
    Quit,
    /// Start these tasks.
    Start(Vec<String>),
    /// Look again after a while.
    Idle,
}

/// The tasks of the program.
pub struct AppInner {
    /// Whether files are watched.
    pub _watch: bool,
    pub _tasks: StrMap<Task>,
    pub _running: bool,
}

/// The program.
pub struct App(pub AppInner);

impl AppInner {
    /// Whether the program is running.
    pub fn running(&self) -> (r: bool)
        ensures
            r == self._running,
    {
        self._running
    }

    /// No task is there twice.
    pub open spec fn wf(&self) -> bool {
        self._tasks.wf()
    }

    /// The tasks.
    pub open spec fn view(&self) -> Map<Seq<char>, TaskView> {
        tasks_view(self._tasks@)
    }

    fn is_task_ready(&self, i: usize) -> (r: bool)
        requires
            self.wf(),
            i < self._tasks.keys().len(),
        ensures
            r == is_ready(self@, self._tasks.keys()[i as int]),
    {
        proof {
            self._tasks.lemma_entries();
            assert(self._tasks@.contains_key(self._tasks.keys()[i as int]));
        }
        let t = self._tasks.value_at(i);
        assert(self@[self._tasks.keys()[i as int]] == t@);
        if *t.status() != TaskStatus::NotStarted {
            return false;
        }
        if t.cmd().is_none() {
            return false;
        }
        let deps = t.project().deps();
        let ghost all = t@.project.deps;
        let mut k: usize = 0;
        while k < deps.len()
            invariant
                k <= deps@.len(),
                all == text::texts(deps@),
                all == self@[self._tasks.keys()[i as int]].project.deps,
                self.wf(),
                forall|j: int|
                    0 <= j < k ==> self@.contains_key(#[trigger] all[j]) && is_done(self@[all[j]]),
            decreases deps@.len() - k,
        {
            assert(all[k as int] == deps@[k as int]@);
            match self._tasks.get(deps[k].as_str()) {
                Some(d) => {
                    assert(self@[all[k as int]] == d@);
                    match d.status() {
                        TaskStatus::Finished => {},
                        TaskStatus::NoCommand => {},
                        _ => {
                            return false;
                        },
                    }
                },
                None => {
                    return false;
                },
            }
            k += 1;
        }
        assert(all.len() == deps@.len());
        true
    }

    fn all_finished(&self) -> (r: bool)
        requires
            self.wf(),
        ensures
            r == (forall|k: Seq<char>| #[trigger] self@.contains_key(k) ==> is_done(self@[k])),
    {
        proof {
            self._tasks.lemma_entries();
        }
        let ghost names = self._tasks.keys();
        let mut i: usize = 0;
        while i < self._tasks.len()
            invariant
                i <= names.len(),
                self.wf(),
                names == self._tasks.keys(),
                self._tasks.values().len() == names.len(),
                forall|k: int|
                    0 <= k < names.len() ==> #[trigger] self._tasks@.contains_key(names[k])
                        && self._tasks@[names[k]] == self._tasks.values()[k],
                forall|k: int| 0 <= k < i ==> is_done(self@[#[trigger] names[k]]),
            decreases names.len() - i,
        {
            let t = self._tasks.value_at(i);
            assert(self._tasks@.contains_key(names[i as int]));
            assert(self@[names[i as int]] == t@);
            match t.status() {
                TaskStatus::Finished => {},
                TaskStatus::NoCommand => {},
                _ => {
                    assert(self@.contains_key(names[i as int]));
                    return false;
                },
            }
            i += 1;
        }
        assert forall|k: Seq<char>| #[trigger] self@.contains_key(k) implies is_done(self@[k]) by {
            assert(self._tasks@.contains_key(k));
            let j = choose|j: int|
                0 <= j < self._tasks.keys().len() && #[trigger] self._tasks.keys()[j] == k;
            assert(is_done(self@[names[j]]));
        }
        true
    }

    /// What the loop that starts tasks does next: it starts the tasks that may start. It ends
    /// with the program, and where no task has anything left to do and no files are watched.
    pub fn run_tasks(&self) -> (r: RunStep)
        requires
            self.wf(),
        ensures
            ({
                let ready = ready_of(self._tasks.keys(), self@);
                match r {
                    RunStep::Start(names) => self._running && ready.len() > 0 && text::texts(
                        names@,
                    ) == ready,
                    RunStep::Quit => !self._running || (ready.len() == 0 && !self._watch
                        && forall|k: Seq<char>| #[trigger]
                        self@.contains_key(k) ==> is_done(self@[k])),
                    RunStep::Idle => self._running && ready.len() == 0 && (self._watch || exists|
                        k: Seq<char>,
                    | #[trigger]
                        self@.contains_key(k) && !is_done(self@[k])),
                }
            }),
    {
        if !self._running {
            return RunStep::Quit;
        }
        let ghost names = self._tasks.keys();
        let mut ready: Vec<String> = Vec::new();
        let mut i: usize = 0;
        assert(text::texts(ready@) =~= ready_of(names.take(0), self@));
        while i < self._tasks.len()
            invariant
                i <= names.len(),
                self.wf(),
                names == self._tasks.keys(),
                text::texts(ready@) == ready_of(names.take(i as int), self@),
            decreases names.len() - i,
        {
            let ghost before = text::texts(ready@);
            proof {
                assert(names.take(i + 1).drop_last() =~= names.take(i as int));
                assert(names.take(i + 1).last() == names[i as int]);
            }
            if self.is_task_ready(i) {
                ready.push(self._tasks.key_at(i).clone());
                assert(text::texts(ready@) =~= before.push(names[i as int]));
            }
            i += 1;
        }
        proof {
            assert(names.take(i as int) =~= names);
            assert(text::texts(ready@).len() == ready@.len());
        }
        if ready.len() == 0 {
            if self.all_finished() && !self._watch {
                return RunStep::Quit;
            }
            return RunStep::Idle;
        }
        RunStep::Start(ready)
    }

    fn file_changed(&mut self, changed: &str, out: &mut Vec<AppEvent>)
        requires
            old(self).wf(),
        ensures
            final(self).wf(),
            final(self)._watch == old(self)._watch,
            final(self)._running == old(self)._running,
            final(self)._tasks.keys() == old(self)._tasks.keys(),
            final(self)@ == after_change(old(self)@, changed@),
            events_view(final(out)@) == events_view(old(out)@) + change_told(
                old(self)._tasks.keys(),
                old(self)@,
                changed@,
            ),
    {
        let ghost start = self@;
        let ghost names = self._tasks.keys();
        let ghost sent = events_view(out@);
        let ghost goal = after_change(start, changed@);
        match self._tasks.get_mut(changed) {
            Some(t) => {
                if *t.status() != TaskStatus::Finished {
                    assert(sent + Seq::<AppEventView>::empty() =~= sent);
                    return;
                }
                t.send_status(TaskStatus::NotStarted, out);
            },
            None => {
                assert(sent + Seq::<AppEventView>::empty() =~= sent);
                return;
            },
        }
        let ghost first = start[changed@].told(TaskStatus::NotStarted);
        let ghost me = start.insert(changed@, start[changed@].with_status(TaskStatus::NotStarted));
        proof {
            assert(self@ =~= me);
            assert(events_view(out@) =~= (sent + seq![first]) + dependents_told(
                names.take(0),
                start,
                changed@,
            ));
        }
        let mut i: usize = 0;
        while i < self._tasks.len()
            invariant
                i <= names.len(),
                self.wf(),
                self._watch == old(self)._watch,
                self._running == old(self)._running,
                self._tasks.keys() == names,
                start.contains_key(changed@),
                start[changed@].status is Finished,
                goal == after_change(start, changed@),
                me == start.insert(
                    changed@,
                    start[changed@].with_status(TaskStatus::NotStarted),
                ),
                self@.dom() == start.dom(),
                forall|k: int| 0 <= k < i ==> self@[#[trigger] names[k]] == goal[names[k]],
                forall|q: Seq<char>|
                    start.contains_key(q) && !names.take(i as int).contains(q)
                        ==> #[trigger] self@[q] == me[q],
                events_view(out@) == (sent + seq![first]) + dependents_told(
                    names.take(i as int),
                    start,
                    changed@,
                ),
            decreases names.len() - i,
        {
            let ghost before = self@;
            let ghost had = events_view(out@);
            let name = self._tasks.key_at(i).clone();
            let ghost now = self._tasks;
            proof {
                now.lemma_entries();
                assert(now@.contains_key(now.keys()[i as int]));
                assert(self@.contains_key(name@));
                assert(names.take(i + 1).drop_last() =~= names.take(i as int));
                assert(names.take(i + 1).last() == name@);
                if names.take(i as int).contains(name@) {
                    let k = choose|k: int| 0 <= k < i && names.take(i as int)[k] == name@;
                    assert(names[k] == names[i as int]);
                }
                assert(self@[name@] == me[name@]);
                assert(start.contains_key(name@));
            }
            match self._tasks.get_mut(name.as_str()) {
                Some(t) => {
                    assert(t@ == me[name@]);
                    if text::contains_text(&t._project._deps, changed) && *t.status()
                        == TaskStatus::Finished {
                        t.send_status(TaskStatus::NotStarted, out);
                    }
                },
                None => {},
            }
            proof {
                assert(self@ =~= before.insert(name@, self@[name@]));
                assert(self@.dom() =~= start.dom());
                assert(self@[name@] == goal[name@]);
                assert forall|k: int| 0 <= k < i + 1 implies self@[#[trigger] names[k]]
                    == goal[names[k]] by {
                    if k < i {
                        assert(names[k] != names[i as int]);
                        assert(before[names[k]] == goal[names[k]]);
                    }
                }
                assert forall|q: Seq<char>|
                    start.contains_key(q) && !names.take(i + 1).contains(q) implies
                    #[trigger] self@[q] == me[q] by {
                    assert(names.take(i + 1)[i as int] == name@);
                    if names.take(i as int).contains(q) {
                        let k = choose|k: int| 0 <= k < i && names.take(i as int)[k] == q;
                        assert(names.take(i + 1)[k] == q);
                    }
                    assert(before[q] == me[q]);
                }
                let told = dependents_told(names.take(i as int), start, changed@);
                let e = start[name@].told(TaskStatus::NotStarted);
                assert(((sent + seq![first]) + told).push(e) =~= (sent + seq![first])
                    + told.push(e));
            }
            i += 1;
        }
        proof {
            assert(names.take(i as int) =~= names);
            assert forall|q: Seq<char>| start.contains_key(q) implies #[trigger] self@[q]
                == goal[q] by {
                self._tasks.lemma_entries();
                assert(self@.dom().contains(q));
                assert(self._tasks@.contains_key(q));
                let k = choose|k: int|
                    0 <= k < self._tasks.keys().len() && #[trigger] self._tasks.keys()[k] == q;
                assert(self@[names[k]] == goal[names[k]]);
            }
            assert(self@ =~= goal);
            let told = dependents_told(names, start, changed@);
            assert((sent + seq![first]) + told =~= sent + (seq![first] + told));
        }
    }

    /// Takes in an event. The result is the task whose process is to be ended; `out` gets what
    /// is sent.
    pub fn run_watchers(&mut self, event: &AppEvent, out: &mut Vec<AppEvent>) -> (r: Option<String>)
        requires
            old(self).wf(),
        ensures
            final(self).wf(),
            final(self)._watch == old(self)._watch,
            final(self)._running == old(self)._running,
            final(self)._tasks.keys() == old(self)._tasks.keys(),
            final(self)@ == after_event(old(self)._tasks.keys(), old(self)@, event@).0,
            events_view(final(out)@) == events_view(old(out)@) + after_event(
                old(self)._tasks.keys(),
                old(self)@,
                event@,
            ).1,
            text::opt_text(r) == ended_by(old(self)@, event@),
    {
        let ghost start = self@;
        let ghost sent = events_view(out@);
        let ghost names = self._tasks.keys();
        assert(sent + Seq::<AppEventView>::empty() =~= sent);
        match event {
            AppEvent::FileChanged(e) => {
                self.file_changed(e.task_name.as_str(), out);
                None
            },
            AppEvent::TuiStop(name) => match self._tasks.get_mut(name.as_str()) {
                Some(t) => {
                    let had = t.stop(out);
                    t.send_status(TaskStatus::Stoped, out);
                    proof {
                        assert(self@ =~= after_event(names, start, event@).0);
                        assert(events_view(out@) =~= sent + after_event(names, start, event@).1);
                    }
                    if had {
                        Some(name.clone())
                    } else {
                        None
                    }
                },
                None => None,
            },
            AppEvent::TuiStart(name) => {
                match self._tasks.get_mut(name.as_str()) {
                    Some(t) => {
                        if *t.status() != TaskStatus::Running {
                            t.send_status(TaskStatus::NotStarted, out);
                        }
                    },
                    None => {},
                }
                proof {
                    assert(self@ =~= after_event(names, start, event@).0);
                    assert(events_view(out@) =~= sent + after_event(names, start, event@).1);
                }
                None
            },
            AppEvent::TuiRestart(name) => match self._tasks.get_mut(name.as_str()) {
                Some(t) => {
                    let had = t.stop(out);
                    t.send_status(TaskStatus::NotStarted, out);
                    proof {
                        assert(self@ =~= after_event(names, start, event@).0);
                        assert(events_view(out@) =~= sent + after_event(names, start, event@).1);
                    }
                    if had {
                        Some(name.clone())
                    } else {
                        None
                    }
                },
                None => None,
            },
            _ => None,
        }
    }

    /// The names of the tasks that have a command.
    pub fn tasks(&self) -> (r: Vec<String>)
        requires
            self.wf(),
        ensures
            text::texts(r@) == with_command(self._tasks.keys(), self@),
    {
        proof {
            self._tasks.lemma_entries();
        }
        let ghost names = self._tasks.keys();
        let mut out: Vec<String> = Vec::new();
        let mut i: usize = 0;
        assert(text::texts(out@) =~= with_command(names.take(0), self@));
        while i < self._tasks.len()
            invariant
                i <= names.len(),
                names == self._tasks.keys(),
                self._tasks.values().len() == names.len(),
                forall|k: int|
                    0 <= k < names.len() ==> #[trigger] self._tasks@.contains_key(names[k])
                        && self._tasks@[names[k]] == self._tasks.values()[k],
                text::texts(out@) == with_command(names.take(i as int), self@),
            decreases names.len() - i,
        {
            let ghost before = text::texts(out@);
            let t = self._tasks.value_at(i);
            proof {
                assert(self._tasks@.contains_key(names[i as int]));
                assert(self@[names[i as int]] == t@);
                assert(names.take(i + 1).drop_last() =~= names.take(i as int));
                assert(names.take(i + 1).last() == names[i as int]);
            }
            if t.cmd().is_some() {
                out.push(self._tasks.key_at(i).clone());
                assert(text::texts(out@) =~= before.push(names[i as int]));
            }
            i += 1;
        }
        assert(names.take(i as int) =~= names);
        out
    }

    /// The program starts. The result is whether files are watched.
    pub fn run(&mut self) -> (r: bool)
        ensures
            final(self)._running,
            final(self)._watch == old(self)._watch,
            final(self)._tasks == old(self)._tasks,
            r == (old(self)._watch && old(self)._tasks.keys().len() > 0),
    {
        self._running = true;
        self._watch && self._tasks.len() > 0
    }

    /// The program ends, and every task is stopped. The result is the tasks whose processes
    /// are to be ended; `out` gets what is sent.
    pub fn stop(&mut self, out: &mut Vec<AppEvent>) -> (r: Vec<String>)
        requires
            old(self).wf(),
        ensures
            final(self).wf(),
            !final(self)._running,
            final(self)._watch == old(self)._watch,
            final(self)._tasks.keys() == old(self)._tasks.keys(),
            final(self)@ == old(self)@.map_values(|t: TaskView| t.stopped()),
            text::texts(r@) == with_process(old(self)._tasks.keys(), old(self)@),
            events_view(final(out)@) == events_view(old(out)@) + old(
                self,
            )._tasks.keys().map_values(
                |k: Seq<char>| old(self)@[k].told(TaskStatus::NotStarted),
            ),
    {
        self._running = false;
        let ghost start = self@;
        let ghost names = self._tasks.keys();
        let ghost sent = events_view(out@);
        let ghost all_told = names.map_values(
            |k: Seq<char>| start[k].told(TaskStatus::NotStarted),
        );
        let ghost goal = start.map_values(|t: TaskView| t.stopped());
        let mut ended: Vec<String> = Vec::new();
        let mut i: usize = 0;
        proof {
            self._tasks.lemma_entries();
            assert(text::texts(ended@) =~= with_process(names.take(0), start));
            assert(sent + all_told.take(0) =~= sent);
        }
        while i < self._tasks.len()
            invariant
                i <= names.len(),
                self.wf(),
                !self._running,
                self._watch == old(self)._watch,
                self._tasks.keys() == names,
                names.no_duplicates(),
                goal == start.map_values(|t: TaskView| t.stopped()),
                all_told == names.map_values(
                    |k: Seq<char>| start[k].told(TaskStatus::NotStarted),
                ),
                self@.dom() == start.dom(),
                forall|k: int| 0 <= k < i ==> self@[#[trigger] names[k]] == goal[names[k]],
                forall|q: Seq<char>|
                    start.contains_key(q) && !names.take(i as int).contains(q)
                        ==> #[trigger] self@[q] == start[q],
                text::texts(ended@) == with_process(names.take(i as int), start),
                events_view(out@) == sent + all_told.take(i as int),
            decreases names.len() - i,
        {
            let ghost before = self@;
            let ghost gone = text::texts(ended@);
            let ghost now = self._tasks;
            let name = self._tasks.key_at(i).clone();
            proof {
                now.lemma_entries();
                assert(now@.contains_key(now.keys()[i as int]));
                assert(self@.contains_key(name@));
                assert(names.take(i + 1).drop_last() =~= names.take(i as int));
                assert(names.take(i + 1).last() == name@);
                if names.take(i as int).contains(name@) {
                    let k = choose|k: int| 0 <= k < i && names.take(i as int)[k] == name@;
                    assert(names[k] == names[i as int]);
                }
                assert(start.contains_key(name@));
                assert(self@[name@] == start[name@]);
                assert(all_told.take(i + 1) =~= all_told.take(i as int).push(all_told[i as int]));
            }
            match self._tasks.get_mut(name.as_str()) {
                Some(t) => {
                    assert(t@ == start[name@]);
                    if t.stop(out) {
                        ended.push(name.clone());
                        assert(text::texts(ended@) =~= gone.push(name@));
                    }
                },
                None => {},
            }
            proof {
                assert(events_view(out@) =~= sent + all_told.take(i + 1));
                assert(self@.dom() =~= start.dom());
                assert(self@[name@] == goal[name@]);
                assert(self@ =~= before.insert(name@, self@[name@]));
                assert forall|k: int| 0 <= k < i + 1 implies self@[#[trigger] names[k]]
                    == goal[names[k]] by {
                    if k < i {
                        assert(names[k] != names[i as int]);
                        assert(before[names[k]] == goal[names[k]]);
                    }
                }
                assert forall|q: Seq<char>|
                    start.contains_key(q) && !names.take(i + 1).contains(q) implies
                    #[trigger] self@[q] == start[q] by {
                    assert(names.take(i + 1)[i as int] == name@);
                    if names.take(i as int).contains(q) {
                        let k = choose|k: int| 0 <= k < i && names.take(i as int)[k] == q;
                        assert(names.take(i + 1)[k] == q);
                    }
                    assert(before[q] == start[q]);
                }
            }
            i += 1;
        }
        proof {
            assert(names.take(i as int) =~= names);
            assert(all_told.take(i as int) =~= all_told);
            self._tasks.lemma_entries();
            assert forall|q: Seq<char>| start.contains_key(q) implies #[trigger] self@[q]
                == goal[q] by {
                assert(self@.dom().contains(q));
                assert(self._tasks@.contains_key(q));
                let k = choose|k: int|
                    0 <= k < self._tasks.keys().len() && #[trigger] self._tasks.keys()[k] == q;
                assert(self@[names[k]] == goal[names[k]]);
            }
            assert(self@ =~= goal);
        }
        ended
    }
}

/// Those of some tasks that have a process.
pub open spec fn with_process(
    names: Seq<Seq<char>>,
    tasks: Map<Seq<char>, TaskView>,
) -> Seq<Seq<char>>
    decreases names.len(),
{
    if names.len() == 0 {
        Seq::empty()
    } else {
        let before = with_process(names.drop_last(), tasks);
        if tasks[names.last()].handle {
            before.push(names.last())
        } else {
            before
        }
    }
}

impl App {
    /// A program that has not started, with one task for each project.
    pub fn new(projects: &StrMap<Project>, command: &str, watch: bool) -> (r: Self)
        requires
            projects.wf(),
        ensures
            r.0.wf(),
            !r.0._running,
            r.0._watch == watch,
            r.0._tasks.keys() == projects.keys(),
            r.0@.dom() == projects@.dom(),
            forall|k: Seq<char>| #[trigger]
                projects@.contains_key(k) ==> r.0@[k] == task_of(k, projects@[k]@, command@),
    {
        let ghost names = projects.keys();
        let mut tasks: StrMap<Task> = StrMap::new();
        let mut i: usize = 0;
        proof {
            projects.lemma_entries();
            assert(tasks.keys() =~= names.take(0));
        }
        while i < projects.len()
            invariant
                i <= names.len(),
                projects.wf(),
                names == projects.keys(),
                names.no_duplicates(),
                projects.values().len() == names.len(),
                forall|k: int|
                    0 <= k < names.len() ==> #[trigger] projects@.contains_key(names[k])
                        && projects@[names[k]] == projects.values()[k],
                tasks.wf(),
                tasks.keys() == names.take(i as int),
                forall|k: int|
                    0 <= k < i ==> tasks@.contains_key(#[trigger] names[k]) && tasks@[names[k]]@
                        == task_of(names[k], projects@[names[k]]@, command@),
            decreases names.len() - i,
        {
            let name = projects.key_at(i);
            let project = projects.value_at(i);
            proof {
                assert(projects@.contains_key(names[i as int]));
                tasks.lemma_entries();
                if tasks@.contains_key(name@) {
                    let k = choose|k: int|
                        0 <= k < tasks.keys().len() && #[trigger] tasks.keys()[k] == name@;
                    assert(names[k] == names[i as int]);
                }
                assert(names.take(i + 1) =~= names.take(i as int).push(name@));
            }
            let cmd = if text::contains_text(&project._scripts, command) {
                Some(command.to_owned())
            } else {
                None
            };
            let task = Task::new(name.clone(), project._path.clone(), cmd, project.clone());
            assert(task@ =~= task_of(name@, project@, command@));
            tasks.insert(name.clone(), task);
            assert forall|k: int| 0 <= k < i + 1 implies tasks@.contains_key(#[trigger] names[k])
                && tasks@[names[k]]@ == task_of(names[k], projects@[names[k]]@, command@) by {
                if k < i {
                    assert(names[k] != names[i as int]);
                }
            }
            i += 1;
        }
        let r = App(AppInner { _watch: watch, _tasks: tasks, _running: false });
        proof {
            assert(names.take(i as int) =~= names);
            assert forall|k: Seq<char>| projects@.contains_key(k) == r.0@.contains_key(k) by {
                projects.lemma_entries();
                r.0._tasks.lemma_entries();
                if projects@.contains_key(k) {
                    let j = choose|j: int|
                        0 <= j < projects.keys().len() && #[trigger] projects.keys()[j] == k;
                    assert(r.0._tasks@.contains_key(names[j]));
                }
                if r.0@.contains_key(k) {
                    assert(r.0._tasks@.contains_key(k));
                    let j = choose|j: int|
                        0 <= j < r.0._tasks.keys().len() && #[trigger] r.0._tasks.keys()[j] == k;
                    assert(projects@.contains_key(names[j]));
                }
            }
            assert(r.0@.dom() =~= projects@.dom());
            assert forall|k: Seq<char>| #[trigger] projects@.contains_key(k) implies r.0@[k]
                == task_of(k, projects@[k]@, command@) by {
                projects.lemma_entries();
                let j = choose|j: int|
                    0 <= j < projects.keys().len() && #[trigger] projects.keys()[j] == k;
                assert(r.0._tasks@.contains_key(names[j]));
            }
        }
        r
    }
}

/// A task starts only when all tasks that it depends on are there and have nothing left to do.
pub proof fn lemma_dependencies_first(
    tasks: Map<Seq<char>, TaskView>,
    name: Seq<char>,
    dep: Seq<char>,
)
    requires
        is_ready(tasks, name),
        tasks[name].project.deps.contains(dep),
    ensures
        tasks.contains_key(dep),
        is_done(tasks[dep]),
{
    let i = tasks[name].project.deps.index_of(dep);
    assert(tasks[name].project.deps[i] == dep);
}

/// A task that depends on one that is not there never starts.
pub proof fn lemma_unknown_dependency(
    tasks: Map<Seq<char>, TaskView>,
    name: Seq<char>,
    dep: Seq<char>,
)
    requires
        tasks[name].project.deps.contains(dep),
        !tasks.contains_key(dep),
    ensures
        !is_ready(tasks, name),
{
    if is_ready(tasks, name) {
        lemma_dependencies_first(tasks, name, dep);
    }
}

/// Every task that is started was there, and was one that may start.
pub proof fn lemma_ready(names: Seq<Seq<char>>, tasks: Map<Seq<char>, TaskView>, i: int)
    requires
        0 <= i < ready_of(names, tasks).len(),
    ensures
        names.contains(ready_of(names, tasks)[i]),
        is_ready(tasks, ready_of(names, tasks)[i]),
    decreases names.len(),
{
    let before = ready_of(names.drop_last(), tasks);
    if i < before.len() {
        lemma_ready(names.drop_last(), tasks, i);
        let k = choose|k: int|
            0 <= k < names.drop_last().len() && names.drop_last()[k] == before[i];
        assert(names[k] == before[i]);
    } else {
        assert(names[names.len() - 1] == ready_of(names, tasks)[i]);
    }
}

/// A change only ever makes finished tasks start once more, and a second report of it changes
/// nothing.
pub proof fn lemma_change(tasks: Map<Seq<char>, TaskView>, changed: Seq<char>, name: Seq<char>)
    requires
        tasks.contains_key(name),
    ensures
        after_change(tasks, changed)[name] == tasks[name] || (tasks[name].status is Finished
            && after_change(tasks, changed)[name].status is NotStarted),
        after_change(after_change(tasks, changed), changed) == after_change(tasks, changed),
{
}

} // verus!
