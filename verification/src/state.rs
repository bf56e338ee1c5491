//! A plain record of tasks and what they printed.

use vstd::prelude::*;

use crate::strmap::StrMap;
use crate::strmap::text_lists;
use crate::text;

verus! {

/// How far a task is.
#[derive(Debug, Clone, Copy, PartialEq, Eq, Structural)]
pub enum TaskStatus {
    Initialized,
    Starting,
    Running,
    Finished,
    Failed,
}

/// The tasks, what they printed and how far they are.
pub struct State {
    pub _running: bool,
    pub _tasks: Vec<String>,
    pub _outputs: StrMap<Vec<String>>,
    pub _statuses: StrMap<TaskStatus>,
}

/// What a [`State`] says.
#[verifier::ext_equal]
pub struct StateView {
    pub running: bool,
    pub tasks: Seq<Seq<char>>,
    pub outputs: Map<Seq<char>, Seq<Seq<char>>>,
    pub statuses: Map<Seq<char>, TaskStatus>,
}

impl View for State {
    type V = StateView;

    open spec fn view(&self) -> StateView {
        StateView {
            running: self._running,
            tasks: text::texts(self._tasks@),
            outputs: text_lists(self._outputs@),
            statuses: self._statuses@,
        }
    }
}

/// What is known of one task.
pub struct TaskState {
    pub running: bool,
    pub name: String,
    pub status: TaskStatus,
    pub outputs: Vec<String>,
}

/// The list of a key: an empty one where the key is not there.
pub open spec fn list_of(m: Map<Seq<char>, Seq<Seq<char>>>, key: Seq<char>) -> Seq<Seq<char>> {
    if m.contains_key(key) {
        m[key]
    } else {
        Seq::empty()
    }
}

impl State {
    /// No task is told of twice.
    pub open spec fn wf(&self) -> bool {
        self._outputs.wf() && self._statuses.wf()
    }

    /// Whether the program is running.
    pub fn running(&self) -> (r: bool)
        ensures
            r == self@.running,
    {
        self._running
    }

    /// The names of the tasks.
    pub fn tasks(&self) -> (r: &Vec<String>)
        ensures
            text::texts(r@) == self@.tasks,
    {
        &self._tasks
    }

    /// What a task printed: nothing where the task is not known.
    pub fn get_output(&self, task_name: &str) -> (r: Vec<String>)
        requires
            self.wf(),
        ensures
            text::texts(r@) == list_of(self@.outputs, task_name@),
    {
        match self._outputs.get(task_name) {
            Some(outputs) => text::clone_texts(outputs),
            None => {
                let none: Vec<String> = Vec::new();
                assert(text::texts(none@) =~= Seq::empty());
                none
            },
        }
    }
}

/// What can happen.
pub enum StateEvent {
    Output { task_name: String, output: String },
    Quit,
}

impl StateView {
    /// Nothing is known, and nothing runs.
    pub open spec fn fresh() -> StateView {
        StateView {
            running: false,
            tasks: Seq::empty(),
            outputs: Map::empty(),
            statuses: Map::empty(),
        }
    }

    /// After an event. The first output of an unknown task makes room for it.
    pub open spec fn after(self, event: StateEvent) -> StateView {
        match event {
            StateEvent::Output { task_name, output } => StateView {
                outputs: self.outputs.insert(
                    task_name@,
                    list_of(self.outputs, task_name@).push(output@),
                ),
                ..self
            },
            StateEvent::Quit => StateView { running: false, ..self },
        }
    }

    /// With the first `n` of some tasks, which are to be started and have printed nothing.
    pub open spec fn with_tasks(self, names: Seq<Seq<char>>, n: int) -> StateView
        decreases n,
    {
        if n <= 0 {
            self
        } else {
            let before = self.with_tasks(names, n - 1);
            StateView {
                tasks: before.tasks.push(names[n - 1]),
                outputs: before.outputs.insert(names[n - 1], Seq::empty()),
                statuses: before.statuses.insert(names[n - 1], TaskStatus::Initialized),
                ..before
            }
        }
    }
}

/// The holder of the record.
pub struct AppState {
    pub _state: State,
}

impl AppState {
    /// The record is well-formed.
    pub open spec fn wf(&self) -> bool {
        self._state.wf()
    }

    /// An empty record.
    pub fn new() -> (r: Self)
        ensures
            r.wf(),
            r._state@ == StateView::fresh(),
    {
        let r = AppState {
            _state: State {
                _running: false,
                _tasks: Vec::new(),
                _outputs: StrMap::new(),
                _statuses: StrMap::new(),
            },
        };
        assert(r._state@ =~= StateView::fresh());
        r
    }

    /// Takes in tasks.
    pub fn add_tasks(&mut self, tasks: &Vec<String>)
        requires
            old(self).wf(),
        ensures
            final(self).wf(),
            final(self)._state@ == old(self)._state@.with_tasks(
                text::texts(tasks@),
                tasks@.len() as int,
            ),
    {
        let ghost names = text::texts(tasks@);
        let mut i: usize = 0;
        while i < tasks.len()
            invariant
                i <= tasks@.len(),
                names == text::texts(tasks@),
                self.wf(),
                self._state@ == old(self)._state@.with_tasks(names, i as int),
            decreases tasks@.len() - i,
        {
            let ghost before = self._state@;
            let name = &tasks[i];
            assert(names[i as int] == name@);
            let none: Vec<String> = Vec::new();
            assert(text::texts(none@) =~= Seq::empty());
            self._state._tasks.push(name.clone());
            self._state._statuses.insert(name.clone(), TaskStatus::Initialized);
            self._state._outputs.insert(name.clone(), none);
            proof {
                assert(self._state@.tasks =~= before.tasks.push(name@));
                assert(self._state@.outputs =~= before.outputs.insert(name@, Seq::empty()));
                assert(self._state@ =~= old(self)._state@.with_tasks(names, i + 1));
            }
            i += 1;
        }
    }

    /// Takes in an event.
    pub fn emit(&mut self, event: StateEvent)
        requires
            old(self).wf(),
        ensures
            final(self).wf(),
            final(self)._state@ == old(self)._state@.after(event),
    {
        let ghost before = self._state@;
        match event {
            StateEvent::Output { task_name, output } => {
                if !self._state._outputs.contains_key(task_name.as_str()) {
                    let none: Vec<String> = Vec::new();
                    assert(text::texts(none@) =~= Seq::empty());
                    self._state._outputs.insert(task_name.clone(), none);
                    assert(self._state@.outputs =~= before.outputs.insert(
                        task_name@,
                        Seq::empty(),
                    ));
                }
                self._state._outputs.push_known(task_name.as_str(), output);
                assert(self._state@.outputs =~= before.after(event).outputs);
            },
            StateEvent::Quit => {
                self._state._running = false;
            },
        }
        assert(self._state@ =~= before.after(event));
    }

    /// The record.
    pub fn get_state(&self) -> (r: &State)
        ensures
            *r == self._state,
    {
        &self._state
    }

    /// What is known of a task: nothing where it has no status.
    pub fn get_task_state(&self, task_name: &str) -> (r: Option<TaskState>)
        requires
            self.wf(),
        ensures
            match r {
                Some(t) => self._state@.statuses.contains_key(task_name@) && t.running
                    == self._state@.running && t.name@ == task_name@ && t.status
                    == self._state@.statuses[task_name@] && text::texts(t.outputs@) == list_of(
                    self._state@.outputs,
                    task_name@,
                ),
                None => !self._state@.statuses.contains_key(task_name@),
            },
    {
        match self._state._statuses.get(task_name) {
            Some(status) => Some(
                TaskState {
                    running: self._state._running,
                    name: task_name.to_owned(),
                    status: *status,
                    outputs: self._state.get_output(task_name),
                },
            ),
            None => None,
        }
    }
}

/// What a task prints is read back behind what it printed before, even where the task was not
/// known.
pub proof fn lemma_output_read_back(s: StateView, task: String, line: String)
    ensures
        list_of(
            s.after(StateEvent::Output { task_name: task, output: line }).outputs,
            task@,
        ) == list_of(s.outputs, task@).push(line@),
{
}

} // verus!
