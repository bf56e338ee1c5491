//! One task: what it runs, how far it is and what it sends.

use vstd::prelude::*;

use crate::classic::share::AppEvent;
use crate::classic::share::AppEventView;
use crate::classic::share::TaskOutputEvent;
use crate::classic::share::TaskStatus;
use crate::classic::share::events_view;
use crate::classic::share::send;
use crate::classic::share::status_event;
use crate::pnpm::PnpmProjectView;
use crate::pnpm::Project;
use crate::text;

pub use crate::task_manager::get_envs;

verus! {

/// A task.
pub struct Task {
    pub _name: String,
    pub _path: String,
    pub _cmd: Option<String>,
    pub _status: TaskStatus,
    /// Whether a process was started that nobody ended.
    pub _handle: bool,
    pub _project: Project,
}

/// What a [`Task`] says.
#[verifier::ext_equal]
pub struct TaskView {
    pub name: Seq<char>,
    pub path: Seq<char>,
    pub cmd: Option<Seq<char>>,
    pub status: TaskStatus,
    pub handle: bool,
    pub project: PnpmProjectView,
}

impl View for Task {
    type V = TaskView;

    open spec fn view(&self) -> TaskView {
        TaskView {
            name: self._name@,
            path: self._path@,
            cmd: text::opt_text(self._cmd),
            status: self._status,
            handle: self._handle,
            project: self._project@,
        }
    }
}

/// What is to be run.
pub struct Launch {
    pub path: String,
    /// What the package manager is called with.
    pub args: Vec<String>,
}

/// What a line that a task printed is sent as; nothing where its output has ended.
pub enum OutputStep {
    Send(AppEvent),
    /// Go on reading.
    Continue,
    /// Stop reading, and wait for the process to end.
    Break,
}

impl TaskView {
    /// A task that is stopped.
    pub open spec fn stopped(self) -> TaskView {
        TaskView { handle: false, status: TaskStatus::NotStarted, ..self }
    }

    /// A task that has another status.
    pub open spec fn with_status(self, status: TaskStatus) -> TaskView {
        TaskView { status, ..self }
    }

    /// What is sent of a status.
    pub open spec fn told(self, status: TaskStatus) -> AppEventView {
        AppEventView::TaskStatus { name: self.name, status }
    }

    /// A task that was asked to start, with what it sends: one that runs goes on running, one
    /// without a command has none.
    pub open spec fn started(self) -> (TaskView, Seq<AppEventView>) {
        if self.status is Running {
            (self, Seq::empty())
        } else if self.cmd is None {
            (
                self.with_status(TaskStatus::NoCommand),
                seq![self.told(TaskStatus::NoCommand)],
            )
        } else {
            (
                TaskView { handle: true, status: TaskStatus::Running, ..self },
                seq![self.told(TaskStatus::Starting), self.told(TaskStatus::Running)],
            )
        }
    }
}

impl Task {
    /// A task that has not started, or that has nothing to run.
    pub fn new(name: String, path: String, cmd: Option<String>, project: Project) -> (r: Self)
        ensures
            r@ == (TaskView {
                name: name@,
                path: path@,
                cmd: text::opt_text(cmd),
                status: if cmd is None {
                    TaskStatus::NoCommand
                } else {
                    TaskStatus::NotStarted
                },
                handle: false,
                project: project@,
            }),
    {
        let status = if cmd.is_none() {
            TaskStatus::NoCommand
        } else {
            TaskStatus::NotStarted
        };
        Task {
            _name: name,
            _path: path,
            _cmd: cmd,
            _status: status,
            _handle: false,
            _project: project,
        }
    }

    /// Stops the task. The result is whether a process is to be ended; `out` gets what is sent.
    pub fn stop(&mut self, out: &mut Vec<AppEvent>) -> (r: bool)
        ensures
            final(self)@ == old(self)@.stopped(),
            r == old(self)@.handle,
            events_view(final(out)@) == events_view(old(out)@).push(
                old(self)@.told(TaskStatus::NotStarted),
            ),
    {
        let had = self._handle;
        self._handle = false;
        self.send_status(TaskStatus::NotStarted, out);
        had
    }

    /// Gives the task another status and sends it.
    pub fn send_status(&mut self, status: TaskStatus, out: &mut Vec<AppEvent>)
        ensures
            final(self)@ == old(self)@.with_status(status),
            events_view(final(out)@) == events_view(old(out)@).push(old(self)@.told(status)),
    {
        self._status = status;
        send(out, status_event(self._name.as_str(), status));
    }

    /// Starts the task. The result is what is to be run, where there is anything.
    pub fn start(&mut self, out: &mut Vec<AppEvent>) -> (r: Option<Launch>)
        ensures
            final(self)@ == old(self)@.started().0,
            events_view(final(out)@) == events_view(old(out)@) + old(self)@.started().1,
            match r {
                Some(l) => old(self)@.cmd is Some && !(old(self)@.status is Running) && l.path@
                    == old(self)@.path && text::texts(l.args@) == seq![
                    "--filter"@,
                    old(self)@.name,
                    old(self)@.cmd->0,
                ],
                None => old(self)@.cmd is None || old(self)@.status is Running,
            },
    {
        let ghost before = events_view(out@);
        let ghost me = self@;
        if self._status == TaskStatus::Running {
            assert(before + me.started().1 =~= before);
            return None;
        }
        let cmd = match &self._cmd {
            Some(c) => c.clone(),
            None => {
                self.send_status(TaskStatus::NoCommand, out);
                assert(events_view(out@) =~= before + me.started().1);
                return None;
            },
        };
        self.send_status(TaskStatus::Starting, out);
        let args = vec!["--filter".to_owned(), self._name.clone(), cmd];
        assert(text::texts(args@) =~= seq!["--filter"@, me.name, me.cmd->0]);
        let launch = Launch { path: self._path.clone(), args };
        self.send_status(TaskStatus::Running, out);
        self._handle = true;
        proof {
            assert(self@ =~= me.started().0);
            assert(events_view(out@) =~= before + me.started().1);
        }
        Some(launch)
    }

    /// A line of the standard output of the task: it is sent. Reading ends with the output.
    pub fn stdout_line(name: &str, line: Option<String>, now: i64) -> (r: OutputStep)
        ensures
            match line {
                Some(l) => r matches OutputStep::Send(e) && e@ == (AppEventView::TaskOutput {
                    name: name@,
                    output: l@,
                    timestamp: now,
                    is_error: false,
                }),
                None => r is Break,
            },
    {
        match line {
            Some(output) => OutputStep::Send(
                AppEvent::TaskOutput(
                    TaskOutputEvent {
                        name: name.to_owned(),
                        output,
                        timestamp: now,
                        is_error: false,
                    },
                ),
            ),
            None => OutputStep::Break,
        }
    }

    /// A line of the error output of the task: it is sent. Reading goes on after its end.
    pub fn stderr_line(name: &str, line: Option<String>, now: i64) -> (r: OutputStep)
        ensures
            match line {
                Some(l) => r matches OutputStep::Send(e) && e@ == (AppEventView::TaskOutput {
                    name: name@,
                    output: l@,
                    timestamp: now,
                    is_error: true,
                }),
                None => r is Continue,
            },
    {
        match line {
            Some(output) => OutputStep::Send(
                AppEvent::TaskOutput(
                    TaskOutputEvent {
                        name: name.to_owned(),
                        output,
                        timestamp: now,
                        is_error: true,
                    },
                ),
            ),
            None => OutputStep::Continue,
        }
    }

    /// The project of the task.
    pub fn project(&self) -> (r: &Project)
        ensures
            r@ == self@.project,
            *r == self._project,
    {
        &self._project
    }

    /// How far the task is.
    pub fn status(&self) -> (r: &TaskStatus)
        ensures
            *r == self@.status,
    {
        &self._status
    }

    /// What the task runs.
    pub fn cmd(&self) -> (r: &Option<String>)
        ensures
            text::opt_text(*r) == self@.cmd,
            *r == self._cmd,
    {
        &self._cmd
    }

    /// The name of the task.
    pub fn name(&self) -> (r: &str)
        ensures
            r@ == self@.name,
    {
        self._name.as_str()
    }
}

/// A task that was stopped starts as one that never ran.
pub proof fn lemma_stop_then_start(t: TaskView)
    requires
        t.cmd is Some,
    ensures
        t.stopped().started().0.status is Running,
        t.stopped().started().1 == seq![
            t.told(TaskStatus::Starting),
            t.told(TaskStatus::Running),
        ],
{
}

/// The last status that is sent is the one that the task has.
pub proof fn lemma_last_told(t: TaskView)
    requires
        t.started().1.len() > 0,
    ensures
        t.started().1.last() == t.told(t.started().0.status),
{
}

} // verus!
