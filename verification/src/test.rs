//! A record of tasks whose holders wait for it to end.

use vstd::prelude::*;

use crate::strmap::StrMap;
use crate::strmap::text_lists;
use crate::text;

verus! {

/// How far a task is.
#[derive(Debug, Clone, Copy, PartialEq, Eq, Structural)]
pub enum TaskStatus {
    Initialized,
    Starting,
    Running,
    Finished,
    Failed,
}

/// The tasks, what they printed and how far they are.
pub struct State {
    pub _running: bool,
    pub _tasks: Vec<String>,
    pub _outputs: StrMap<Vec<String>>,
    pub _statuses: StrMap<TaskStatus>,
}

/// What a [`State`] says.
#[verifier::ext_equal]
pub struct RecordView {
    pub running: bool,
    pub tasks: Seq<Seq<char>>,
    pub outputs: Map<Seq<char>, Seq<Seq<char>>>,
    pub statuses: Map<Seq<char>, TaskStatus>,
}

impl View for State {
    type V = RecordView;

    open spec fn view(&self) -> RecordView {
        RecordView {
            running: self._running,
            tasks: text::texts(self._tasks@),
            outputs: text_lists(self._outputs@),
            statuses: self._statuses@,
        }
    }
}

/// What is known of one task.
pub struct TaskState {
    pub _running: bool,
    pub _name: String,
    pub _status: TaskStatus,
    pub _outputs: Vec<String>,
}

impl TaskState {
    /// Whether the program is running.
    pub fn running(&self) -> (r: bool)
        ensures
            r == self._running,
    {
        self._running
    }

    /// The name of the task.
    pub fn name(&self) -> (r: &str)
        ensures
            r@ == self._name@,
    {
        self._name.as_str()
    }

    /// How far the task is.
    pub fn status(&self) -> (r: &TaskStatus)
        ensures
            *r == self._status,
    {
        &self._status
    }

    /// What the task printed.
    pub fn outputs(&self) -> (r: &Vec<String>)
        ensures
            *r == self._outputs,
    {
        &self._outputs
    }
}

/// What can happen.
pub enum StateEvent {
    Output { task_name: String, output: String },
    Status { task_name: String, status: TaskStatus },
    Quit,
}

impl RecordView {
    /// Nothing is known, and nothing runs.
    pub open spec fn fresh() -> RecordView {
        RecordView {
            running: false,
            tasks: Seq::empty(),
            outputs: Map::empty(),
            statuses: Map::empty(),
        }
    }

    /// After an event. The output of an unknown task is dropped.
    pub open spec fn after(self, event: StateEvent) -> RecordView {
        match event {
            StateEvent::Output { task_name, output } => if self.outputs.contains_key(task_name@) {
                RecordView {
                    outputs: self.outputs.insert(
                        task_name@,
                        self.outputs[task_name@].push(output@),
                    ),
                    ..self
                }
            } else {
                self
            },
            StateEvent::Status { task_name, status } => RecordView {
                statuses: self.statuses.insert(task_name@, status),
                ..self
            },
            StateEvent::Quit => RecordView { running: false, ..self },
        }
    }

    /// With the first `n` of some tasks, which are to be started and have printed nothing.
    pub open spec fn with_tasks(self, names: Seq<Seq<char>>, n: int) -> RecordView
        decreases n,
    {
        if n <= 0 {
            self
        } else {
            let before = self.with_tasks(names, n - 1);
            RecordView {
                tasks: before.tasks.push(names[n - 1]),
                outputs: before.outputs.insert(names[n - 1], Seq::empty()),
                statuses: before.statuses.insert(names[n - 1], TaskStatus::Initialized),
                ..before
            }
        }
    }
}

/// The holder of the record.
pub struct AppState {
    pub _state: State,
}

impl AppState {
    /// No task is told of twice.
    pub open spec fn wf(&self) -> bool {
        self._state._outputs.wf() && self._state._statuses.wf()
    }

    /// An empty record.
    pub fn new() -> (r: Self)
        ensures
            r.wf(),
            r._state@ == RecordView::fresh(),
    {
        let r = AppState {
            _state: State {
                _running: false,
                _tasks: Vec::new(),
                _outputs: StrMap::new(),
                _statuses: StrMap::new(),
            },
        };
        assert(r._state@ =~= RecordView::fresh());
        r
    }

    /// Takes in tasks.
    pub fn add_tasks(&mut self, tasks: &Vec<String>)
        requires
            old(self).wf(),
        ensures
            final(self).wf(),
            final(self)._state@ == old(self)._state@.with_tasks(
                text::texts(tasks@),
                tasks@.len() as int,
            ),
    {
        let ghost names = text::texts(tasks@);
        let mut i: usize = 0;
        while i < tasks.len()
            invariant
                i <= tasks@.len(),
                names == text::texts(tasks@),
                self.wf(),
                self._state@ == old(self)._state@.with_tasks(names, i as int),
            decreases tasks@.len() - i,
        {
            let ghost before = self._state@;
            let name = &tasks[i];
            assert(names[i as int] == name@);
            let none: Vec<String> = Vec::new();
            assert(text::texts(none@) =~= Seq::empty());
            self._state._tasks.push(name.clone());
            self._state._statuses.insert(name.clone(), TaskStatus::Initialized);
            self._state._outputs.insert(name.clone(), none);
            proof {
                assert(self._state@.tasks =~= before.tasks.push(name@));
                assert(self._state@.outputs =~= before.outputs.insert(name@, Seq::empty()));
                assert(self._state@ =~= old(self)._state@.with_tasks(names, i + 1));
            }
            i += 1;
        }
    }

    /// Takes in an event. The result is whether those who wait for the end are told of it.
    pub fn emit(&mut self, event: StateEvent) -> (r: bool)
        requires
            old(self).wf(),
        ensures
            final(self).wf(),
            final(self)._state@ == old(self)._state@.after(event),
            r == (event is Quit),
    {
        match event {
            StateEvent::Output { task_name, output } => {
                self._state._outputs.push_known(task_name.as_str(), output);
                assert(self._state@ =~= old(self)._state@.after(event));
                false
            },
            StateEvent::Status { task_name, status } => {
                self._state._statuses.insert(task_name, status);
                false
            },
            StateEvent::Quit => {
                self._state._running = false;
                true
            },
        }
    }

    /// What is known of one task. One without a status is to be started.
    pub fn get_task_state(&self, task_name: &str) -> (r: TaskState)
        requires
            self.wf(),
            self._state@.outputs.contains_key(task_name@),
        ensures
            r._running == self._state@.running,
            r._name@ == task_name@,
            r._status == (if self._state@.statuses.contains_key(task_name@) {
                self._state@.statuses[task_name@]
            } else {
                TaskStatus::Initialized
            }),
            text::texts(r._outputs@) == self._state@.outputs[task_name@],
    {
        let status = match self._state._statuses.get(task_name) {
            Some(s) => *s,
            None => TaskStatus::Initialized,
        };
        let outputs = match self._state._outputs.get(task_name) {
            Some(o) => text::clone_texts(o),
            None => vstd::pervasive::unreached(),
        };
        TaskState {
            _running: self._state._running,
            _name: task_name.to_owned(),
            _status: status,
            _outputs: outputs,
        }
    }

    /// The names of the tasks.
    pub fn get_tasks(&self) -> (r: &Vec<String>)
        ensures
            text::texts(r@) == self._state@.tasks,
    {
        &self._state._tasks
    }
}

/// What a known task prints is read back behind what it printed before.
pub proof fn lemma_output_read_back(s: RecordView, task: String, line: String)
    requires
        s.outputs.contains_key(task@),
    ensures
        s.after(StateEvent::Output { task_name: task, output: line }).outputs[task@]
            == s.outputs[task@].push(line@),
{
}

/// The status that a task was given is the one that is told of it.
pub proof fn lemma_status_read_back(s: RecordView, task: String, status: TaskStatus)
    ensures
        s.after(StateEvent::Status { task_name: task, status }).statuses.contains_key(task@),
        s.after(StateEvent::Status { task_name: task, status }).statuses[task@] == status,
{
}

} // verus!
