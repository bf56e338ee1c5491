//! Running one command: what it is started with, what becomes of its output and with which
//! status it ends.

use vstd::prelude::*;

use crate::strmap::StrMap;
use crate::task::CommandTypeView;
use crate::task::RunnableView;
use crate::task::TaskCommandRunnable;
use crate::task::TaskCommandType;
use crate::task::TaskStatus;
use crate::task_store::StoreView;
use crate::task_store::TaskStore;
use crate::task_store::logs_of;
use crate::task_store::with_status;
use crate::text;

verus! {

/// What can happen while a command runs.
pub enum RunnerEvent {
    /// The command printed a line; nothing where its output has ended or cannot be read.
    Stdout(Option<String>),
    /// The command printed a line to its error output; nothing where none could be read.
    Stderr(Option<String>),
    /// Some time has passed.
    Tick,
    /// The user interrupts the program.
    Interrupt,
}

/// What is to be done before the next event.
#[derive(Debug, Clone, Copy, PartialEq, Eq, Structural)]
pub enum RunnerAction {
    /// Kill the process and stop reading.
    Kill,
    /// Tell the process to end, and go on reading.
    StartKill,
    /// Go on reading.
    Continue,
    /// Stop reading.
    Break,
}

/// How the wait for the process ended.
#[derive(Debug, Clone, Copy, PartialEq, Eq, Structural)]
pub enum ExitOutcome {
    /// The process ended, with success or without.
    Exited(bool),
    /// The process could not be waited for.
    WaitFailed,
    /// The process did not end in time and was killed.
    TimedOut,
}

/// `s` after one more line of output of the command `id`.
pub open spec fn with_log(s: StoreView, id: Seq<char>, line: Seq<char>) -> StoreView {
    StoreView { logs: s.logs.insert(id, logs_of(s, id).push(line)), ..s }
}

/// `s` where the command `id` has a given status.
pub open spec fn with_status_of(s: StoreView, id: Seq<char>, status: TaskStatus) -> StoreView {
    StoreView {
        tasks: with_status(s.tasks, id, status),
        statuses: s.statuses.insert(id, status),
        ..s
    }
}

/// The environment variables that every command gets, on top of `envs`.
pub open spec fn envs_of(
    envs: Map<Seq<char>, Seq<char>>,
    cmd: RunnableView,
    port: u16,
    show_colors: bool,
) -> Map<Seq<char>, Seq<char>> {
    let common = envs.insert("PLEXUS_TASK_PATH"@, cmd.path).insert(
        "PLEXUS_TASK_NAME"@,
        cmd.name,
    ).insert("PLEXUS_TASK_COMMAND"@, cmd.command.script()).insert(
        "PLEXUS_PKG_NAME"@,
        cmd.name,
    ).insert("PLEXUS_WS_URL"@, "ws://localhost:"@ + text::decimal(port as nat));
    if show_colors {
        common.insert("PLEXUS_SHOW_COLORS"@, "1"@)
    } else {
        common
    }
}

/// The values of a map, as texts.
pub open spec fn text_map(m: Map<Seq<char>, String>) -> Map<Seq<char>, Seq<char>> {
    m.map_values(|s: String| s@)
}

pub(crate) fn put(envs: &mut StrMap<String>, k: &str, v: String)
    requires
        old(envs).wf(),
    ensures
        final(envs).wf(),
        text_map(final(envs)@) == text_map(old(envs)@).insert(k@, v@),
{
    envs.insert(k.to_owned(), v);
    assert(text_map(envs@) =~= text_map(old(envs)@).insert(k@, v@));
}

/// The environment variables that a command gets, on top of those of its environment files.
pub fn command_envs(
    envs: &mut StrMap<String>,
    cmd: &TaskCommandRunnable,
    port: u16,
    show_colors: bool,
)
    requires
        old(envs).wf(),
    ensures
        final(envs).wf(),
        text_map(final(envs)@) == envs_of(text_map(old(envs)@), cmd@, port, show_colors),
{
    put(envs, "PLEXUS_TASK_PATH", cmd._path.clone());
    put(envs, "PLEXUS_TASK_NAME", cmd._name.clone());
    put(envs, "PLEXUS_TASK_COMMAND", cmd._command.script().clone());
    put(envs, "PLEXUS_PKG_NAME", cmd._name.clone());
    let digits = text::decimal_text(port as u64);
    put(envs, "PLEXUS_WS_URL", text::concat("ws://localhost:", digits.as_str()));
    if show_colors {
        put(envs, "PLEXUS_SHOW_COLORS", "1".to_owned());
    }
}

/// The script whose own environment files a command reads besides the common ones.
pub fn specific_env(cmd: &TaskCommandRunnable) -> (r: Option<String>)
    ensures
        text::opt_text(r) == (match cmd@.command {
            CommandTypeView::Simple(_) => None,
            CommandTypeView::Plexus { command, .. } => Some(command),
        }),
{
    match &cmd._command {
        TaskCommandType::Simple(_) => None,
        TaskCommandType::Plexus(p) => Some(p.command.clone()),
    }
}

/// What the package manager is called with to run a command.
pub fn command_args(cmd: &TaskCommandRunnable) -> (r: Vec<String>)
    ensures
        text::texts(r@) == seq!["--filter"@, cmd@.name, cmd@.command.script()],
{
    let r = vec!["--filter".to_owned(), cmd._name.clone(), cmd._command.script().clone()];
    assert(text::texts(r@) =~= seq!["--filter"@, cmd@.name, cmd@.command.script()]);
    r
}

/// What is said of a command that could not be started.
pub open spec fn start_failure(name: Seq<char>, program: Seq<char>, error: Seq<char>) -> Seq<char> {
    "Failed to start task "@ + name + " via "@ + program + ": "@ + error
}

/// What is said of a command that could not be started.
pub fn start_failure_text(name: &str, program: &str, error: &str) -> (r: String)
    ensures
        r@ == start_failure(name@, program@, error@),
{
    let mut out = text::concat3("Failed to start task ", name, " via ");
    out.push_str(program);
    out.push_str(": ");
    out.push_str(error);
    out
}

/// The store after an event of the command `id`.
pub open spec fn after_event(s: StoreView, id: Seq<char>, event: RunnerEvent) -> StoreView {
    match event {
        RunnerEvent::Stdout(Some(line)) => if text::trimmed(line@).len() > 0 {
            with_log(s, id, "[OUT]: "@ + line@)
        } else {
            s
        },
        RunnerEvent::Stderr(Some(line)) => with_log(s, id, "[ERR]: "@ + line@),
        _ => s,
    }
}

/// The status with which a command ends. One that was told to stop has stopped, however its
/// process ended; one that did not end in time counts as a success.
pub open spec fn end_status(outcome: ExitOutcome, killing: bool) -> TaskStatus {
    if killing {
        TaskStatus::Stopped
    } else {
        match outcome {
            ExitOutcome::Exited(success) => if success {
                TaskStatus::Successed
            } else {
                TaskStatus::Failed
            },
            ExitOutcome::WaitFailed => TaskStatus::Failed,
            ExitOutcome::TimedOut => TaskStatus::Successed,
        }
    }
}

/// The runner of one command.
pub struct TaskRunner {
    /// Whether the process was told to end.
    pub killing: bool,
}

impl TaskRunner {
    /// A runner whose process was not told to end.
    pub fn new() -> (r: Self)
        ensures
            !r.killing,
    {
        TaskRunner { killing: false }
    }

    /// The command could not be started: its output says why, and it has failed.
    pub fn failed_to_start(&self, store: &mut TaskStore, id: &str, message: &str)
        requires
            old(store).wf(),
        ensures
            final(store).wf(),
            final(store)@ == with_status_of(
                with_log(old(store)@, id@, "[ERR]: "@ + message@),
                id@,
                TaskStatus::Failed,
            ),
    {
        store.add_log(id, text::concat("[ERR]: ", message));
        store.set_status(id, TaskStatus::Failed);
    }

    /// The process of the command has started.
    pub fn started(&self, store: &mut TaskStore, id: &str)
        requires
            old(store).wf(),
        ensures
            final(store).wf(),
            final(store)@ == with_status_of(old(store)@, id@, TaskStatus::Running),
    {
        store.set_status(id, TaskStatus::Running);
    }

    /// What is to be done before the next event. The process is told to end once.
    pub fn before_event(&mut self, is_running: bool, status: TaskStatus) -> (r: RunnerAction)
        ensures
            r == (if !is_running {
                RunnerAction::Kill
            } else if !old(self).killing && status is Stopping {
                RunnerAction::StartKill
            } else {
                RunnerAction::Continue
            }),
            final(self).killing == (old(self).killing || r == RunnerAction::StartKill),
    {
        if !is_running {
            return RunnerAction::Kill;
        }
        if !self.killing && status.is_stopping() {
            self.killing = true;
            return RunnerAction::StartKill;
        }
        RunnerAction::Continue
    }

    /// Takes in an event: output goes to the log of the command, without the lines of the
    /// standard output that are blank. Reading ends with the standard output, or when the
    /// user interrupts.
    pub fn run_command(&self, store: &mut TaskStore, id: &str, event: &RunnerEvent) -> (r:
        RunnerAction)
        requires
            old(store).wf(),
        ensures
            final(store).wf(),
            final(store)@ == after_event(old(store)@, id@, *event),
            r == (match *event {
                RunnerEvent::Stdout(None) => RunnerAction::Break,
                RunnerEvent::Interrupt => RunnerAction::Kill,
                _ => RunnerAction::Continue,
            }),
    {
        match event {
            RunnerEvent::Stdout(Some(line)) => {
                let bare = text::trim(line.as_str());
                if !bare.as_str().is_empty() {
                    store.add_log(id, text::concat("[OUT]: ", line.as_str()));
                }
                RunnerAction::Continue
            },
            RunnerEvent::Stdout(None) => RunnerAction::Break,
            RunnerEvent::Stderr(Some(line)) => {
                store.add_log(id, text::concat("[ERR]: ", line.as_str()));
                RunnerAction::Continue
            },
            RunnerEvent::Stderr(None) => RunnerAction::Continue,
            RunnerEvent::Tick => RunnerAction::Continue,
            RunnerEvent::Interrupt => RunnerAction::Kill,
        }
    }

    /// Reading has ended: the task of the command last ran just now.
    pub fn reading_ended(&self, store: &mut TaskStore, task_id: &str, now: i64)
        requires
            old(store).wf(),
        ensures
            final(store).wf(),
            final(store)@ == (StoreView {
                last_run_time: old(store)@.last_run_time.insert(task_id@, now),
                ..old(store)@
            }),
    {
        store.set_last_run_time(task_id, now);
    }

    /// The process has ended or was killed: the command gets the status with which it ends.
    pub fn finished(&self, store: &mut TaskStore, id: &str, outcome: ExitOutcome) -> (r: TaskStatus)
        requires
            old(store).wf(),
        ensures
            final(store).wf(),
            r == end_status(outcome, self.killing),
            final(store)@ == with_status_of(old(store)@, id@, r),
            r.finished(),
    {
        let mut status = match outcome {
            ExitOutcome::Exited(success) => if success {
                TaskStatus::Successed
            } else {
                TaskStatus::Failed
            },
            ExitOutcome::WaitFailed => TaskStatus::Failed,
            ExitOutcome::TimedOut => TaskStatus::Successed,
        };
        if self.killing {
            status = TaskStatus::Stopped;
        }
        store.set_status(id, status);
        status
    }
}

/// A command ends stopped exactly where its process was told to end, however that process
/// ended.
pub proof fn lemma_stopped_iff_told(outcome: ExitOutcome, killing: bool)
    ensures
        end_status(outcome, killing) is Stopped <==> killing,
{
}

/// The store after the first `n` events of the command `id`.
pub open spec fn after_events(
    s: StoreView,
    id: Seq<char>,
    events: Seq<RunnerEvent>,
    n: int,
) -> StoreView
    decreases n,
{
    if n <= 0 {
        s
    } else {
        after_event(after_events(s, id, events, n - 1), id, events[n - 1])
    }
}

/// The lines that the first `n` events leave in the log.
pub open spec fn logged(events: Seq<RunnerEvent>, n: int) -> Seq<Seq<char>>
    decreases n,
{
    if n <= 0 {
        Seq::empty()
    } else {
        let before = logged(events, n - 1);
        match events[n - 1] {
            RunnerEvent::Stdout(Some(line)) => if text::trimmed(line@).len() > 0 {
                before.push("[OUT]: "@ + line@)
            } else {
                before
            },
            RunnerEvent::Stderr(Some(line)) => before.push("[ERR]: "@ + line@),
            _ => before,
        }
    }
}

/// What a command prints is read back in the order in which it came, each line behind the
/// mark of its stream. The output of other commands, the tasks and the statuses stay as they
/// were.
pub proof fn lemma_output_is_kept(s: StoreView, id: Seq<char>, events: Seq<RunnerEvent>, n: int)
    requires
        0 <= n <= events.len(),
    ensures
        logs_of(after_events(s, id, events, n), id) == logs_of(s, id) + logged(events, n),
        forall|other: Seq<char>|
            other != id ==> #[trigger] logs_of(after_events(s, id, events, n), other) == logs_of(
                s,
                other,
            ),
        after_events(s, id, events, n).tasks == s.tasks,
        after_events(s, id, events, n).statuses == s.statuses,
        after_events(s, id, events, n).last_run_time == s.last_run_time,
    decreases n,
{
    if n > 0 {
        lemma_output_is_kept(s, id, events, n - 1);
        let before = after_events(s, id, events, n - 1);
        let lines = logged(events, n - 1);
        assert forall|x: Seq<char>| (logs_of(s, id) + lines).push(x) == logs_of(s, id)
            + #[trigger] lines.push(x) by {
            assert((logs_of(s, id) + lines).push(x) =~= logs_of(s, id) + lines.push(x));
        }
        assert forall|other: Seq<char>| other != id implies #[trigger] logs_of(
            after_events(s, id, events, n),
            other,
        ) == logs_of(s, other) by {
            assert(logs_of(before, other) == logs_of(s, other));
        }
    } else {
        assert(logs_of(s, id) + logged(events, 0) =~= logs_of(s, id));
    }
}

} // verus!
