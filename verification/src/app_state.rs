//! What the program knows of its tasks while it runs, and how events change it.

use vstd::prelude::*;

use crate::logging::Level;
use crate::strmap::StrMap;
use crate::strmap::text_lists;
use crate::text;

verus! {

/// How far a task is.
#[derive(Debug, Clone, Copy, PartialEq, Eq, Structural)]
pub enum TaskStatus {
    Initialized,
    Starting,
    Running,
    Finished,
    Failed,
    Stopped,
}

/// The tasks, what they printed and how far they are.
pub struct State {
    pub _tasks: Vec<String>,
    pub _outputs: StrMap<Vec<String>>,
    pub _statuses: StrMap<TaskStatus>,
    pub _tasks_depend_on: StrMap<Vec<String>>,
}

/// What is known of one task.
pub struct TaskState {
    pub _running: bool,
    pub _name: String,
    pub _status: TaskStatus,
    pub _outputs: Vec<String>,
}

/// What a [`TaskState`] says.
#[verifier::ext_equal]
pub struct TaskStateView {
    pub running: bool,
    pub name: Seq<char>,
    pub status: TaskStatus,
    pub outputs: Seq<Seq<char>>,
}

impl View for TaskState {
    type V = TaskStateView;

    open spec fn view(&self) -> TaskStateView {
        TaskStateView {
            running: self._running,
            name: self._name@,
            status: self._status,
            outputs: text::texts(self._outputs@),
        }
    }
}

impl TaskState {
    /// Whether the program is running.
    pub fn running(&self) -> (r: bool)
        ensures
            r == self@.running,
    {
        self._running
    }

    /// The name of the task.
    pub fn name(&self) -> (r: &str)
        ensures
            r@ == self@.name,
    {
        self._name.as_str()
    }

    /// How far the task is.
    pub fn status(&self) -> (r: &TaskStatus)
        ensures
            *r == self@.status,
    {
        &self._status
    }

    /// What the task printed.
    pub fn outputs(&self) -> (r: &Vec<String>)
        ensures
            text::texts(r@) == self@.outputs,
    {
        &self._outputs
    }
}

/// What can happen to the tasks.
pub enum StateEvent {
    Output { task_name: String, output: String },
    Status { task_name: String, status: TaskStatus },
    FileChanged { task_name: String },
    Quit,
    Failed,
}

/// What those who wait for a change are told.
#[derive(Debug, Clone, Copy, PartialEq, Eq, Structural)]
pub enum StatusChangeEvent {
    StatusChanged,
}

/// What the program knows.
pub struct AppState {
    pub _state: State,
    pub _status_changed: bool,
    pub _running: bool,
    /// Whether the program is to end as a failure.
    pub _failed: bool,
    pub _logs: Vec<(Level, String)>,
}

/// What an [`AppState`] says.
#[verifier::ext_equal]
pub struct AppStateView {
    pub tasks: Seq<Seq<char>>,
    pub outputs: Map<Seq<char>, Seq<Seq<char>>>,
    pub statuses: Map<Seq<char>, TaskStatus>,
    pub depend_on: Map<Seq<char>, Seq<Seq<char>>>,
    pub status_changed: bool,
    pub running: bool,
    pub failed: bool,
    pub logs: Seq<(Level, Seq<char>)>,
}

/// Messages, as texts.
pub open spec fn logs_view(v: Seq<(Level, String)>) -> Seq<(Level, Seq<char>)> {
    v.map_values(|l: (Level, String)| (l.0, l.1@))
}

impl View for AppState {
    type V = AppStateView;

    open spec fn view(&self) -> AppStateView {
        AppStateView {
            tasks: text::texts(self._state._tasks@),
            outputs: text_lists(self._state._outputs@),
            statuses: self._state._statuses@,
            depend_on: text_lists(self._state._tasks_depend_on@),
            status_changed: self._status_changed,
            running: self._running,
            failed: self._failed,
            logs: logs_view(self._logs@),
        }
    }
}

/// Whether a change of the project whose name `changed` begins concerns a task: the name of
/// the task begins with it, or that of a task that it depends on.
pub open spec fn concerns(deps: Seq<Seq<char>>, task: Seq<char>, changed: Seq<char>) -> bool {
    text::begins_with(task, changed) || exists|i: int|
        0 <= i < deps.len() && text::begins_with(#[trigger] deps[i], changed)
}

/// The statuses after a change: the tasks that it concerns and that had finished are to be
/// started once more.
pub open spec fn after_change(
    statuses: Map<Seq<char>, TaskStatus>,
    depend_on: Map<Seq<char>, Seq<Seq<char>>>,
    changed: Seq<char>,
) -> Map<Seq<char>, TaskStatus> {
    Map::new(
        |k: Seq<char>| statuses.contains_key(k),
        |k: Seq<char>|
            if statuses[k] is Finished && depend_on.contains_key(k) && concerns(
                depend_on[k],
                k,
                changed,
            ) {
                TaskStatus::Initialized
            } else {
                statuses[k]
            },
    )
}

impl AppStateView {
    /// A running program without tasks.
    pub open spec fn fresh() -> AppStateView {
        AppStateView {
            tasks: Seq::empty(),
            outputs: Map::empty(),
            statuses: Map::empty(),
            depend_on: Map::empty(),
            status_changed: false,
            running: true,
            failed: false,
            logs: Seq::empty(),
        }
    }

    /// After an event.
    pub open spec fn after(self, event: StateEvent) -> AppStateView {
        match event {
            StateEvent::Output { task_name, output } => AppStateView {
                outputs: if self.outputs.contains_key(task_name@) {
                    self.outputs.insert(
                        task_name@,
                        self.outputs[task_name@].push(output@),
                    )
                } else {
                    self.outputs
                },
                status_changed: true,
                ..self
            },
            StateEvent::Status { task_name, status } => AppStateView {
                statuses: self.statuses.insert(task_name@, status),
                status_changed: true,
                ..self
            },
            StateEvent::FileChanged { task_name } => AppStateView {
                statuses: after_change(self.statuses, self.depend_on, task_name@),
                ..self
            },
            StateEvent::Quit => AppStateView { running: false, ..self },
            StateEvent::Failed => AppStateView { running: false, failed: true, ..self },
        }
    }

    /// With the first `n` of some tasks, which are to be started and have printed nothing.
    pub open spec fn with_tasks(
        self,
        names: Seq<Seq<char>>,
        depend_on: Map<Seq<char>, Seq<Seq<char>>>,
        n: int,
    ) -> AppStateView
        decreases n,
    {
        if n <= 0 {
            self
        } else {
            let before = self.with_tasks(names, depend_on, n - 1);
            let name = names[n - 1];
            AppStateView {
                tasks: before.tasks.push(name),
                outputs: before.outputs.insert(name, Seq::empty()),
                statuses: before.statuses.insert(name, TaskStatus::Initialized),
                depend_on: before.depend_on.insert(name, depend_on[name]),
                ..before
            }
        }
    }

    /// What is known of one task.
    pub open spec fn task(self, name: Seq<char>) -> TaskStateView {
        TaskStateView {
            running: self.running,
            name,
            status: self.statuses[name],
            outputs: self.outputs[name],
        }
    }
}

fn any_begins(deps: &Vec<String>, changed: &str) -> (r: bool)
    ensures
        r == (exists|i: int|
            0 <= i < deps@.len() && text::begins_with(#[trigger] text::texts(deps@)[i], changed@)),
{
    let ghost all = text::texts(deps@);
    let mut i: usize = 0;
    while i < deps.len()
        invariant
            i <= deps@.len(),
            all == text::texts(deps@),
            forall|k: int| 0 <= k < i ==> !text::begins_with(#[trigger] all[k], changed@),
        decreases deps@.len() - i,
    {
        assert(all[i as int] == deps@[i as int]@);
        if text::starts_with(deps[i].as_str(), changed) {
            return true;
        }
        i += 1;
    }
    false
}

impl AppState {
    /// No task is told of twice.
    pub open spec fn wf(&self) -> bool {
        &&& self._state._outputs.wf()
        &&& self._state._statuses.wf()
        &&& self._state._tasks_depend_on.wf()
    }

    /// A running program without tasks.
    pub fn new() -> (r: Self)
        ensures
            r.wf(),
            r@ == AppStateView::fresh(),
    {
        let r = AppState {
            _state: State {
                _tasks: Vec::new(),
                _outputs: StrMap::new(),
                _statuses: StrMap::new(),
                _tasks_depend_on: StrMap::new(),
            },
            _status_changed: false,
            _running: true,
            _failed: false,
            _logs: Vec::new(),
        };
        assert(r@ =~= AppStateView::fresh());
        r
    }

    /// Takes in tasks, each with the tasks that it depends on.
    pub fn add_tasks(&mut self, tasks: &StrMap<Vec<String>>)
        requires
            old(self).wf(),
            tasks.wf(),
        ensures
            final(self).wf(),
            final(self)@ == old(self)@.with_tasks(
                tasks.keys(),
                text_lists(tasks@),
                tasks.keys().len() as int,
            ),
    {
        let ghost names = tasks.keys();
        let ghost deps = text_lists(tasks@);
        proof {
            tasks.lemma_entries();
        }
        let mut i: usize = 0;
        while i < tasks.len()
            invariant
                i <= names.len(),
                self.wf(),
                names == tasks.keys(),
                deps == text_lists(tasks@),
                tasks.values().len() == names.len(),
                forall|k: int|
                    0 <= k < names.len() ==> #[trigger] tasks@.contains_key(names[k])
                        && tasks@[names[k]] == tasks.values()[k],
                self@ == old(self)@.with_tasks(names, deps, i as int),
            decreases names.len() - i,
        {
            let ghost before = self@;
            let name = tasks.key_at(i);
            let depend_on = tasks.value_at(i);
            assert(tasks@.contains_key(names[i as int]));
            assert(deps[name@] == text::texts(depend_on@));
            self._state._tasks.push(name.clone());
            self._state._statuses.insert(name.clone(), TaskStatus::Initialized);
            let none: Vec<String> = Vec::new();
            assert(text::texts(none@) =~= Seq::empty());
            self._state._outputs.insert(name.clone(), none);
            self._state._tasks_depend_on.insert(name.clone(), text::clone_texts(depend_on));
            proof {
                assert(self@.tasks =~= before.tasks.push(name@));
                assert(self@.outputs =~= before.outputs.insert(name@, Seq::empty()));
                assert(self@.depend_on =~= before.depend_on.insert(name@, deps[name@]));
                assert(self@ =~= old(self)@.with_tasks(names, deps, i + 1));
            }
            i += 1;
        }
    }

    /// Notes a message. Those who wait are told that no status has changed.
    pub fn add_log(&mut self, level: Level, message: String) -> (r: Option<StatusChangeEvent>)
        requires
            old(self).wf(),
        ensures
            final(self).wf(),
            final(self)@ == (AppStateView {
                logs: old(self)@.logs.push((level, message@)),
                ..old(self)@
            }),
            r is None,
    {
        self._logs.push((level, message));
        assert(self@.logs =~= old(self)@.logs.push((level, message@)));
        None
    }

    /// Forgets all messages.
    pub fn clear_logs(&mut self)
        requires
            old(self).wf(),
        ensures
            final(self).wf(),
            final(self)@ == (AppStateView { logs: Seq::empty(), ..old(self)@ }),
    {
        self._logs.clear();
        assert(self@.logs =~= Seq::empty());
    }

    /// The messages.
    pub fn get_logs(&self) -> (r: &Vec<(Level, String)>)
        ensures
            logs_view(r@) == self@.logs,
    {
        &self._logs
    }

    /// The names of the tasks.
    pub fn get_tasks(&self) -> (r: Vec<String>)
        ensures
            text::texts(r@) == self@.tasks,
    {
        text::clone_texts(&self._state._tasks)
    }

    fn file_changed(&mut self, changed: &str)
        requires
            old(self).wf(),
        ensures
            final(self).wf(),
            final(self)@ == (AppStateView {
                statuses: after_change(old(self)@.statuses, old(self)@.depend_on, changed@),
                ..old(self)@
            }),
    {
        let ghost start = self@;
        let ghost names = self._state._tasks_depend_on.keys();
        let ghost goal = after_change(start.statuses, start.depend_on, changed@);
        let ghost m = self._state._tasks_depend_on;
        proof {
            m.lemma_entries();
            assert forall|k: int| 0 <= k < names.len() implies #[trigger] m@.contains_key(names[k])
                && m@[names[k]] == m.values()[k] by {
                assert(m@.contains_key(m.keys()[k]));
            }
        }
        let mut i: usize = 0;
        while i < self._state._tasks_depend_on.len()
            invariant
                i <= names.len(),
                self.wf(),
                start == old(self)@,
                names == m.keys(),
                names.no_duplicates(),
                m.wf(),
                self._state._tasks_depend_on == m,
                start.depend_on == text_lists(m@),
                m.values().len() == names.len(),
                forall|k: int|
                    0 <= k < names.len() ==> #[trigger] m@.contains_key(names[k]) && m@[names[k]]
                        == m.values()[k],
                goal == after_change(start.statuses, start.depend_on, changed@),
                self@ == (AppStateView { statuses: self@.statuses, ..start }),
                self@.statuses.dom() == start.statuses.dom(),
                forall|k: int|
                    0 <= k < i && start.statuses.contains_key(#[trigger] names[k])
                        ==> self@.statuses[names[k]] == goal[names[k]],
                forall|q: Seq<char>|
                    start.statuses.contains_key(q) && !names.take(i as int).contains(q)
                        ==> #[trigger] self@.statuses[q] == start.statuses[q],
            decreases names.len() - i,
        {
            let ghost before = self@.statuses;
            let task = self._state._tasks_depend_on.key_at(i).clone();
            let deps = self._state._tasks_depend_on.value_at(i);
            proof {
                assert(m@.contains_key(names[i as int]));
                assert(start.depend_on[task@] == text::texts(deps@));
                if names.take(i as int).contains(task@) {
                    let k = choose|k: int| 0 <= k < i && names.take(i as int)[k] == task@;
                    assert(names[k] == names[i as int]);
                }
                assert(names.take(i + 1) =~= names.take(i as int).push(task@));
            }
            if any_begins(deps, changed) || text::starts_with(task.as_str(), changed) {
                match self._state._statuses.get(task.as_str()) {
                    Some(status) => {
                        if *status == TaskStatus::Finished {
                            self._state._statuses.insert(task.clone(), TaskStatus::Initialized);
                        }
                    },
                    None => {},
                }
            }
            proof {
                assert(self@.statuses.dom() =~= start.statuses.dom());
                assert forall|k: int|
                    0 <= k < i + 1 && start.statuses.contains_key(#[trigger] names[k]) implies
                    self@.statuses[names[k]] == goal[names[k]] by {
                    if k < i {
                        assert(names[k] != names[i as int]);
                    }
                }
                assert forall|q: Seq<char>|
                    start.statuses.contains_key(q) && !names.take(i + 1).contains(q) implies
                    #[trigger] self@.statuses[q] == start.statuses[q] by {
                    assert(names.take(i + 1)[i as int] == task@);
                    assert(q != task@);
                    if names.take(i as int).contains(q) {
                        let k = choose|k: int| 0 <= k < i && names.take(i as int)[k] == q;
                        assert(names.take(i + 1)[k] == q);
                    }
                }
            }
            i += 1;
        }
        proof {
            assert(names.take(i as int) =~= names);
            assert forall|q: Seq<char>| start.statuses.contains_key(q) implies #[trigger]
                self@.statuses[q] == goal[q] by {
                if names.contains(q) {
                    let k = choose|k: int| 0 <= k < names.len() && names[k] == q;
                    assert(self@.statuses[names[k]] == goal[names[k]]);
                } else if start.depend_on.contains_key(q) {
                    m.lemma_entries();
                    assert(m@.contains_key(q));
                    let k = choose|k: int| 0 <= k < m.keys().len() && #[trigger] m.keys()[k] == q;
                    assert(names[k] == q);
                }
            }
            assert(self@.statuses =~= goal);
        }
    }

    /// Takes in an event. The result is what those who wait are told.
    pub fn emit(&mut self, event: StateEvent) -> (r: Option<StatusChangeEvent>)
        requires
            old(self).wf(),
        ensures
            final(self).wf(),
            final(self)@ == old(self)@.after(event),
            r == (match event {
                StateEvent::Output { .. } => None,
                _ => Some(StatusChangeEvent::StatusChanged),
            }),
    {
        match event {
            StateEvent::Output { task_name, output } => {
                self._state._outputs.push_known(task_name.as_str(), output);
                self._status_changed = true;
                None
            },
            StateEvent::Status { task_name, status } => {
                self._state._statuses.insert(task_name, status);
                self._status_changed = true;
                Some(StatusChangeEvent::StatusChanged)
            },
            StateEvent::Quit => {
                self._running = false;
                Some(StatusChangeEvent::StatusChanged)
            },
            StateEvent::Failed => {
                self._running = false;
                self._failed = true;
                Some(StatusChangeEvent::StatusChanged)
            },
            StateEvent::FileChanged { task_name } => {
                self.file_changed(task_name.as_str());
                Some(StatusChangeEvent::StatusChanged)
            },
        }
    }

    /// Whether an output or a status came since this was last asked with `rest`.
    pub fn is_status_changed(&mut self, rest: bool) -> (r: bool)
        requires
            old(self).wf(),
        ensures
            final(self).wf(),
            r == old(self)@.status_changed,
            final(self)@ == (AppStateView {
                status_changed: old(self)@.status_changed && !rest,
                ..old(self)@
            }),
    {
        if self._status_changed {
            if rest {
                self._status_changed = false;
            }
            true
        } else {
            false
        }
    }

    /// Whether a task is known, so that it can be told of.
    pub fn has_task(&self, task_name: &str) -> (r: bool)
        requires
            self.wf(),
        ensures
            r == (self@.statuses.contains_key(task_name@) && self@.outputs.contains_key(
                task_name@,
            )),
    {
        self._state._statuses.contains_key(task_name) && self._state._outputs.contains_key(
            task_name,
        )
    }

    /// What is known of one task.
    pub fn get_task_state(&self, task_name: &str) -> (r: TaskState)
        requires
            self.wf(),
            self@.statuses.contains_key(task_name@),
            self@.outputs.contains_key(task_name@),
        ensures
            r@ == self@.task(task_name@),
    {
        let status = match self._state._statuses.get(task_name) {
            Some(s) => *s,
            None => vstd::pervasive::unreached(),
        };
        let outputs = match self._state._outputs.get(task_name) {
            Some(o) => text::clone_texts(o),
            None => vstd::pervasive::unreached(),
        };
        TaskState {
            _running: self._running,
            _name: task_name.to_owned(),
            _status: status,
            _outputs: outputs,
        }
    }

    /// Whether the program is running.
    pub fn is_running(&self) -> (r: bool)
        ensures
            r == self@.running,
    {
        self._running
    }
}

impl Default for AppState {
    fn default() -> (r: Self)
        ensures
            r.wf(),
            r@ == AppStateView::fresh(),
    {
        AppState::new()
    }
}

/// What a task prints is read back behind what it printed before, and nothing else changes
/// but that something has.
pub proof fn lemma_output_read_back(s: AppStateView, task: String, line: String)
    requires
        s.outputs.contains_key(task@),
    ensures
        ({
            let after = s.after(StateEvent::Output { task_name: task, output: line });
            after.outputs[task@] == s.outputs[task@].push(line@) && after.statuses == s.statuses
                && after.tasks == s.tasks && forall|other: Seq<char>|
                other != task@ && s.outputs.contains_key(other)
                    ==> #[trigger] after.outputs[other] == s.outputs[other]
        }),
{
}

/// The status that a task was given is the one that is told of it.
pub proof fn lemma_status_read_back(s: AppStateView, task: String, status: TaskStatus)
    ensures
        s.after(StateEvent::Status { task_name: task, status }).task(task@).status == status,
{
}

/// A changed file only ever makes finished tasks start once more; a second report of it changes
/// nothing.
pub proof fn lemma_file_changed(s: AppStateView, changed: String, task: Seq<char>)
    requires
        s.statuses.contains_key(task),
    ensures
        ({
            let event = StateEvent::FileChanged { task_name: changed };
            let after = s.after(event);
            &&& after.statuses[task] == s.statuses[task] || (s.statuses[task] is Finished
                && after.statuses[task] is Initialized)
            &&& after.after(event) == after
        }),
{
    let event = StateEvent::FileChanged { task_name: changed };
    let after = s.after(event);
    assert(after.after(event).statuses =~= after.statuses);
}

/// Once the program was told to quit it never runs again, whatever comes.
pub proof fn lemma_quit_is_final(s: AppStateView, event: StateEvent)
    requires
        !s.running,
    ensures
        !s.after(event).running,
{
}

} // verus!
