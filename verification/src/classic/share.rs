//! What the parts tell each other.

use vstd::prelude::*;

use crate::text;

verus! {

/// How far a task is.
#[derive(Debug, Clone, Copy, PartialEq, Eq, Structural)]
pub enum TaskStatus {
    Stoped,
    NotStarted,
    Starting,
    Running,
    Finished,
    NoCommand,
}

impl TaskStatus {
    /// How the status is shown.
    pub open spec fn shown(self) -> Seq<char> {
        match self {
            TaskStatus::NotStarted => "Not Started"@,
            TaskStatus::Starting => "Starting"@,
            TaskStatus::Running => "Running"@,
            TaskStatus::Finished => "Finished"@,
            TaskStatus::NoCommand => "No Command"@,
            TaskStatus::Stoped => "Stopped"@,
        }
    }

    /// How the status is shown.
    pub fn to_text(&self) -> (r: &'static str)
        ensures
            r@ == self.shown(),
    {
        match self {
            TaskStatus::NotStarted => "Not Started",
            TaskStatus::Starting => "Starting",
            TaskStatus::Running => "Running",
            TaskStatus::Finished => "Finished",
            TaskStatus::NoCommand => "No Command",
            TaskStatus::Stoped => "Stopped",
        }
    }
}

/// A task has another status.
pub struct TaskStatusEvent {
    pub name: String,
    pub status: TaskStatus,
}

/// A task printed a line.
pub struct TaskOutputEvent {
    pub name: String,
    pub output: String,
    /// When, in nanoseconds since 1970.
    pub timestamp: i64,
    pub is_error: bool,
}

/// Files of a task have changed.
pub struct FileChangedEvent {
    pub task_name: String,
    pub paths: Vec<String>,
}

/// What the parts tell each other.
pub enum AppEvent {
    Log(String),
    TaskStatus(TaskStatusEvent),
    TaskOutput(TaskOutputEvent),
    FileChanged(FileChangedEvent),
    TuiStart(String),
    TuiStop(String),
    TuiRestart(String),
    Quit,
}

/// What an [`AppEvent`] says.
#[verifier::ext_equal]
pub enum AppEventView {
    Log(Seq<char>),
    TaskStatus { name: Seq<char>, status: TaskStatus },
    TaskOutput { name: Seq<char>, output: Seq<char>, timestamp: i64, is_error: bool },
    FileChanged { task_name: Seq<char>, paths: Seq<Seq<char>> },
    TuiStart(Seq<char>),
    TuiStop(Seq<char>),
    TuiRestart(Seq<char>),
    Quit,
}

impl View for AppEvent {
    type V = AppEventView;

    open spec fn view(&self) -> AppEventView {
        match *self {
            AppEvent::Log(s) => AppEventView::Log(s@),
            AppEvent::TaskStatus(e) => AppEventView::TaskStatus {
                name: e.name@,
                status: e.status,
            },
            AppEvent::TaskOutput(e) => AppEventView::TaskOutput {
                name: e.name@,
                output: e.output@,
                timestamp: e.timestamp,
                is_error: e.is_error,
            },
            AppEvent::FileChanged(e) => AppEventView::FileChanged {
                task_name: e.task_name@,
                paths: text::texts(e.paths@),
            },
            AppEvent::TuiStart(s) => AppEventView::TuiStart(s@),
            AppEvent::TuiStop(s) => AppEventView::TuiStop(s@),
            AppEvent::TuiRestart(s) => AppEventView::TuiRestart(s@),
            AppEvent::Quit => AppEventView::Quit,
        }
    }
}

/// What events say.
pub open spec fn events_view(v: Seq<AppEvent>) -> Seq<AppEventView> {
    v.map_values(|e: AppEvent| e@)
}

/// The event of a status.
pub fn status_event(name: &str, status: TaskStatus) -> (r: AppEvent)
    ensures
        r@ == (AppEventView::TaskStatus { name: name@, status }),
{
    AppEvent::TaskStatus(TaskStatusEvent { name: name.to_owned(), status })
}

/// Adds an event to those that are to be sent.
pub fn send(out: &mut Vec<AppEvent>, event: AppEvent)
    ensures
        events_view(final(out)@) == events_view(old(out)@).push(event@),
{
    out.push(event);
    assert(events_view(out@) =~= events_view(old(out)@).push(event@));
}

} // verus!
