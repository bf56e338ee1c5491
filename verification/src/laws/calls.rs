//! What single calls decide, told by what goes into them and what comes out.

use vstd::prelude::*;

use crate::app::App;
use crate::app::AppTask;
use crate::app_state::AppState;
use crate::app_state::StateEvent;
use crate::app_state::StatusChangeEvent;
use crate::app_state::TaskStatus as AppTaskStatus;
use crate::classic::app::AppInner;
use crate::classic::app::RunStep;
use crate::classic::console::Console;
use crate::classic::share::AppEvent;
use crate::classic::share::AppEventView;
use crate::classic::share::TaskStatus as ClassicStatus;
use crate::classic::task::Launch;
use crate::classic::task::OutputStep;
use crate::classic::task::Task as ClassicTask;
use crate::classic::watcher::FileEvent;
use crate::classic::watcher::ProjectWatcher;
use crate::cli::Cli;
use crate::cli::ConfigArgs;
use crate::cli::RunArgs;
use crate::cli::config_source;
use crate::cli::config_target;
use crate::cli::sequential_limit;
use crate::env::Env;
use crate::env::contents_view;
use crate::env::with_file;
use crate::hmr_websocket::Connection;
use crate::hmr_websocket::HmrWebSocket;
use crate::hmr_websocket::HmrWebSocketClientManager;
use crate::hmr_websocket::Incoming;
use crate::json::JsonView;
use crate::json::field_of;
use crate::json::parsed_json;
use crate::laws::keys::is_open;
use crate::laws::keys::lemma_quit_keys;
use crate::laws::keys::lemma_quit_lapses;
use crate::laws::keys::lemma_wheel;
use crate::laws::running::lemma_last_file_counts;
use crate::logging::ConsoleLayer;
use crate::logging::CustomConsoleFormatter;
use crate::logging::CustomFieldVisitor;
use crate::logging::DynamicFilter;
use crate::logging::Level;
use crate::logging::init_tracing;
use crate::strmap::StrMap;
use crate::task::CommandTypeView;
use crate::task::TaskCommandRunnable;
use crate::task::TaskStatus;
use crate::task::TaskWithDetails;
use crate::task_manager::FinishStep;
use crate::task_manager::RunAction;
use crate::task_manager::RunEvent;
use crate::task_manager::StartLoop;
use crate::task_manager::StartStep;
use crate::task_manager::first_with;
use crate::task_manager::get_envs;
use crate::task_manager::run_args;
use crate::task_manager::run_event;
use crate::task_manager::run_finished;
use crate::task_manager::without_colors;
use crate::task_managerv2::LoopStep;
use crate::task_managerv2::StopStep;
use crate::task_managerv2::TaskManager;
use crate::task_runner::ExitOutcome;
use crate::task_runner::RunnerAction;
use crate::task_runner::RunnerEvent;
use crate::task_runner::TaskRunner;
use crate::task_runner::command_args;
use crate::task_runner::specific_env;
use crate::task_runner::text_map;
use crate::task_store::TaskStore;
use crate::task_store::details_view;
use crate::text;
use crate::tui_managerv2::Dispatch;
use crate::tui_managerv2::Focus;
use crate::tui_managerv2::FrameState;
use crate::tui_managerv2::FrameStep;
use crate::tui_managerv2::Key;
use crate::tui_managerv2::State;
use crate::tui_managerv2::TuiManager;
use crate::tui_managerv2::dispatch_view;
use crate::tui_managerv2::selection_moved;
use crate::tui_view::bar_entries;
use crate::tui_view::packed;
use crate::tui_view::status_height;
use crate::watch_manager::AppWatcher;
use crate::watch_manager::watch_paths;
use crate::watch_managerv2::ChangeKind;
use crate::watch_managerv2::WatchManager;
use crate::watch_managerv2::WatchStep;
use crate::watch_managerv2::is_relevant;

verus! {

/// The package manager is asked to run the script of a command in the project of its task.
pub proof fn lemma_command_args(cmd: &TaskCommandRunnable, r: Vec<String>)
    requires
        call_ensures(command_args, (cmd,), r),
    ensures
        r@.len() == 3,
        r@[0]@ == "--filter"@,
        r@[1]@ == cmd@.name,
        cmd@.command matches CommandTypeView::Simple(script) ==> r@[2]@ == script,
        cmd@.command matches CommandTypeView::Plexus { name, command } ==> r@[2]@ == command,
{
    let all = text::texts(r@);
    assert(all.len() == r@.len());
    assert(all[0] == r@[0]@ && all[1] == r@[1]@ && all[2] == r@[2]@);
}

/// Only a script that is run under another name has environment files of its own.
pub proof fn lemma_specific_env(cmd: &TaskCommandRunnable, r: Option<String>)
    requires
        call_ensures(specific_env, (cmd,), r),
    ensures
        cmd@.command is Simple ==> r is None,
        cmd@.command matches CommandTypeView::Plexus { name, command } ==> r is Some && r->0@
            == command,
{
}

/// The package manager is asked to run the command of a task in its project.
pub proof fn lemma_run_args(task: &AppTask, r: Vec<String>)
    requires
        call_ensures(run_args, (task,), r),
    ensures
        r@.len() == 3,
        r@[0]@ == "--filter"@,
        r@[1]@ == task@.name,
        r@[2]@ == task@.command,
{
    let all = text::texts(r@);
    assert(all.len() == r@.len());
    assert(all[0] == r@[0]@ && all[1] == r@[1]@ && all[2] == r@[2]@);
}

/// A process is killed where the program ends. Else it is told to end, once, where its command is
/// to stop, and read from further in every other case.
pub proof fn lemma_before_event(
    runner: &mut TaskRunner,
    is_running: bool,
    status: TaskStatus,
    r: RunnerAction,
)
    requires
        call_ensures(TaskRunner::before_event, (runner, is_running, status), r),
    ensures
        !is_running ==> r == RunnerAction::Kill && final(runner).killing == old(runner).killing,
        is_running && status == TaskStatus::Stopping && !old(runner).killing ==> r
            == RunnerAction::StartKill && final(runner).killing,
        is_running && (status != TaskStatus::Stopping || old(runner).killing) ==> r
            == RunnerAction::Continue && final(runner).killing == old(runner).killing,
{
}

/// Reading ends with the standard output. An interrupt kills the process. Nothing else ends it.
pub proof fn lemma_run_command(
    runner: &TaskRunner,
    store: &mut TaskStore,
    id: &str,
    event: &RunnerEvent,
    r: RunnerAction,
)
    requires
        call_ensures(TaskRunner::run_command, (runner, store, id, event), r),
    ensures
        r == RunnerAction::Break <==> (*event matches RunnerEvent::Stdout(line) && line is None),
        r == RunnerAction::Kill <==> *event is Interrupt,
        r == RunnerAction::Break || r == RunnerAction::Kill || r == RunnerAction::Continue,
{
}

/// A command that cannot be started has failed, and its output says why.
pub proof fn lemma_failed_to_start(
    runner: &TaskRunner,
    store: &mut TaskStore,
    id: &str,
    message: &str,
)
    requires
        call_ensures(TaskRunner::failed_to_start, (runner, store, id, message), ()),
    ensures
        final(store)@.statuses.contains_key(id@),
        final(store)@.statuses[id@] == TaskStatus::Failed,
        final(store)@.logs.contains_key(id@),
        final(store)@.logs[id@].len() > 0,
        final(store)@.logs[id@].last() == "[ERR]: "@ + message@,
        final(store)@.last_run_time == old(store)@.last_run_time,
{
}

/// A command whose process has started runs; one whose process has ended has the status that is
/// told of it.
pub proof fn lemma_started_and_finished(
    runner: &TaskRunner,
    store: &mut TaskStore,
    other: &mut TaskStore,
    id: &str,
    outcome: ExitOutcome,
    r: TaskStatus,
)
    requires
        call_ensures(TaskRunner::started, (runner, store, id), ()),
        call_ensures(TaskRunner::finished, (runner, other, id, outcome), r),
    ensures
        final(store)@.statuses.contains_key(id@),
        final(store)@.statuses[id@] == TaskStatus::Running,
        final(store)@.logs == old(store)@.logs,
        final(other)@.statuses.contains_key(id@),
        final(other)@.statuses[id@] == r,
        final(other)@.logs == old(other)@.logs,
        runner.killing ==> r == TaskStatus::Stopped,
        !runner.killing ==> r == TaskStatus::Successed || r == TaskStatus::Failed,
        !runner.killing ==> (r == TaskStatus::Failed <==> outcome == ExitOutcome::Exited(false)
            || outcome == ExitOutcome::WaitFailed),
{
}

/// When reading has ended the task of the command has just run.
pub proof fn lemma_reading_ended(
    runner: &TaskRunner,
    store: &mut TaskStore,
    task_id: &str,
    now: i64,
    other: Seq<char>,
)
    requires
        call_ensures(TaskRunner::reading_ended, (runner, store, task_id, now), ()),
    ensures
        final(store)@.last_run_time.contains_key(task_id@),
        final(store)@.last_run_time[task_id@] == now,
        other != task_id@ && old(store)@.last_run_time.contains_key(other) ==> final(store)@.last_run_time[other] == old(store)@.last_run_time[other],
        final(store)@.statuses == old(store)@.statuses,
        final(store)@.logs == old(store)@.logs,
        final(store)@.tasks == old(store)@.tasks,
{
}

/// What a store tells of all its commands at once.
pub proof fn lemma_store_tells(
    store: &TaskStore,
    finished: bool,
    running: bool,
    settled: bool,
    begun: bool,
    failed: bool,
)
    requires
        call_ensures(TaskStore::is_all_finished, (store,), finished),
        call_ensures(TaskStore::is_any_running, (store,), running),
        call_ensures(TaskStore::is_all_running_or_finished, (store,), settled),
        call_ensures(TaskStore::is_all_not_init, (store,), begun),
        call_ensures(TaskStore::is_any_failed, (store,), failed),
    ensures
        finished <==> forall|k: Seq<char>| #[trigger]
            store@.statuses.contains_key(k) ==> store@.statuses[k] == TaskStatus::Failed
                || store@.statuses[k] == TaskStatus::Successed || store@.statuses[k]
                == TaskStatus::Stopped,
        running <==> exists|k: Seq<char>| #[trigger]
            store@.statuses.contains_key(k) && store@.statuses[k] == TaskStatus::Running,
        settled <==> forall|k: Seq<char>| #[trigger]
            store@.statuses.contains_key(k) ==> store@.statuses[k] == TaskStatus::Running
                || store@.statuses[k] == TaskStatus::Failed || store@.statuses[k]
                == TaskStatus::Successed || store@.statuses[k] == TaskStatus::Stopped,
        begun <==> forall|k: Seq<char>| #[trigger]
            store@.statuses.contains_key(k) ==> store@.statuses[k] != TaskStatus::Init,
        failed <==> exists|k: Seq<char>| #[trigger]
            store@.statuses.contains_key(k) && store@.statuses[k] == TaskStatus::Failed,
{
}

/// A round of the main loop either ends the run, which then no longer runs, or hands out
/// commands, which are then about to run.
pub proof fn lemma_round(
    manager: &mut TaskManager,
    watch_mode: bool,
    sequential: i8,
    elapsed: u64,
    r: LoopStep,
)
    requires
        call_ensures(TaskManager::main_loop, (manager, watch_mode, sequential, elapsed), r),
    ensures
        match r {
            LoopStep::Exit(ok) => {
                let statuses = old(manager)@.store.statuses;
                &&& !final(manager)@.is_running
                &&& final(manager)@.store == old(manager)@.store
                &&& old(manager)@.is_running ==> !watch_mode
                &&& !ok ==> exists|k: Seq<char>| #[trigger]
                    statuses.contains_key(k) && statuses[k] == TaskStatus::Failed
                &&& ok && old(manager)@.is_running ==> forall|k: Seq<char>| #[trigger]
                    statuses.contains_key(k) ==> statuses[k] == TaskStatus::Failed || statuses[k]
                        == TaskStatus::Successed || statuses[k] == TaskStatus::Stopped
            },
            LoopStep::Run(cmds) => {
                &&& old(manager)@.is_running
                &&& final(manager)@.is_running
                &&& old(manager)@.is_watch_mode ==> final(manager)@.is_watch_mode
                &&& final(manager)@.is_watch_mode ==> old(manager)@.is_watch_mode || watch_mode
                &&& final(manager)@.store.logs == old(manager)@.store.logs
            },
        },
{
    if r is Run {
        let next = crate::task_store::next_commands(
            old(manager)@.store.tasks,
            sequential,
            old(manager)@.store.tasks.len() as int,
        );
        crate::laws::scheduling::lemma_with_all_rest(
            old(manager)@.store,
            crate::task_managerv2::runnable_ids(next),
            TaskStatus::Starting,
            next.len() as int,
        );
    }
}

/// A restart tells a command to stop where it runs or is about to, and waits for that. Once the
/// wait is over, or where there was nothing to stop, the command is let wait for its turn.
pub proof fn lemma_restart(
    manager: &mut TaskManager,
    task_id: &str,
    command_id: &str,
    force: bool,
    elapsed: Option<u64>,
    r: StopStep,
)
    requires
        call_ensures(
            TaskManager::restart_command,
            (manager, task_id, command_id, force, elapsed),
            r,
        ),
        old(manager)@.store.statuses.contains_key(command_id@),
    ensures
        ({
            let before = old(manager)@.store.statuses[command_id@];
            let after = final(manager)@.store.statuses;
            &&& elapsed is None && r is Wait ==> after[command_id@] == TaskStatus::Stopping
            &&& elapsed is None && force ==> r is Wait
            &&& elapsed is Some && r is Wait ==> final(manager)@ == old(manager)@ && elapsed->0
                <= 5_000_000_000 && before != TaskStatus::Stopped
            &&& elapsed is Some && elapsed->0 > 5_000_000_000 ==> r == StopStep::Done(false)
            &&& elapsed is Some && elapsed->0 <= 5_000_000_000 && before == TaskStatus::Stopped
                ==> r == StopStep::Done(true)
            &&& r is Done && force ==> after[command_id@] == TaskStatus::Init
            &&& r is Done ==> after[command_id@] == TaskStatus::Init || after[command_id@] == before
        }),
{
}

/// A command is told to stop or is left alone; which of the two is told to the caller.
pub proof fn lemma_stop(
    manager: &mut TaskManager,
    task_id: &str,
    command_id: &str,
    force: bool,
    r: StopStep,
)
    requires
        call_ensures(TaskManager::stop_command, (manager, task_id, command_id, force), r),
    ensures
        r is Wait ==> final(manager)@.store.statuses.contains_key(command_id@) && final(manager)@.store.statuses[command_id@] == TaskStatus::Stopping,
        !(r is Wait) ==> r == StopStep::Done(false) && final(manager)@ == old(manager)@,
        force ==> r is Wait,
{
}

/// The loop that starts tasks ends with the first failure, until all have started once and where
/// no files are watched. Once all have started it waits for changes where files are watched, and
/// comes to its end where they are not.
pub proof fn lemma_start_loop(l: &mut StartLoop, app: &App, r: StartStep)
    requires
        call_ensures(StartLoop::start, (l, app), r),
    ensures
        ({
            let tasks = text::texts(old(l).tasks@);
            let statuses = app.state@.statuses;
            let fails = exists|i: int|
                0 <= i < tasks.len() && statuses[#[trigger] tasks[i]] == AppTaskStatus::Failed;
            let waits = exists|i: int|
                0 <= i < tasks.len() && statuses[#[trigger] tasks[i]]
                    == AppTaskStatus::Initialized;
            let stops = !old(l).all_started_once && !app.cli.watch && fails;
            &&& stops ==> (r matches StartStep::Failed(name) && statuses[name@]
                == AppTaskStatus::Failed && tasks.contains(name@)) && !final(l).all_started_once
            &&& !stops && !old(l).all_started_once && waits ==> r is Sleep && !final(l).all_started_once
            &&& !stops && (old(l).all_started_once || !waits) ==> final(l).all_started_once && (
            app.cli.watch ==> r is Await) && (!app.cli.watch ==> r is Finish)
            &&& final(l).tasks == old(l).tasks
        }),
{
    let tasks = text::texts(old(l).tasks@);
    let statuses = app.state@.statuses;
    lemma_found(tasks, statuses, AppTaskStatus::Failed);
    lemma_found(tasks, statuses, AppTaskStatus::Initialized);
}

proof fn lemma_found(
    tasks: Seq<Seq<char>>,
    statuses: Map<Seq<char>, AppTaskStatus>,
    status: AppTaskStatus,
)
    ensures
        first_with(tasks, statuses, status) is Some <==> exists|i: int|
            0 <= i < tasks.len() && statuses[#[trigger] tasks[i]] == status,
        first_with(tasks, statuses, status) matches Some(name) ==> statuses[name] == status
            && tasks.contains(name),
    decreases tasks.len(),
{
    if tasks.len() > 0 && statuses[tasks[0]] != status {
        let rest = tasks.drop_first();
        lemma_found(rest, statuses, status);
        if exists|i: int| 0 <= i < tasks.len() && statuses[#[trigger] tasks[i]] == status {
            let i = choose|i: int| 0 <= i < tasks.len() && statuses[#[trigger] tasks[i]] == status;
            assert(rest[i - 1] == tasks[i]);
        }
        if first_with(rest, statuses, status) is Some {
            let i = choose|i: int| 0 <= i < rest.len() && statuses[#[trigger] rest[i]] == status;
            assert(tasks[i + 1] == rest[i]);
            let name = first_with(rest, statuses, status)->0;
            let k = choose|k: int| 0 <= k < rest.len() && rest[k] == name;
            assert(tasks[k + 1] == name);
        }
    }
}

/// While the last tasks run the loop looks again, ends with a failure as soon as there is one,
/// and quits when none runs any more.
pub proof fn lemma_finish_loop(l: &StartLoop, app: &App, r: FinishStep)
    requires
        call_ensures(StartLoop::finish, (l, app), r),
    ensures
        ({
            let tasks = text::texts(l.tasks@);
            let statuses = app.state@.statuses;
            let fails = exists|i: int|
                0 <= i < tasks.len() && statuses[#[trigger] tasks[i]] == AppTaskStatus::Failed;
            let runs = exists|i: int|
                0 <= i < tasks.len() && statuses[#[trigger] tasks[i]] == AppTaskStatus::Running;
            &&& fails <==> r is Failed
            &&& !fails && runs <==> r is Again
            &&& !fails && !runs <==> r is Quit
        }),
{
    let tasks = text::texts(l.tasks@);
    lemma_found(tasks, app.state@.statuses, AppTaskStatus::Failed);
    lemma_found(tasks, app.state@.statuses, AppTaskStatus::Running);
}

/// Nothing is started by a program that was told to quit.
pub proof fn lemma_ready_while_running(l: &StartLoop, app: &App, r: Option<Vec<String>>)
    requires
        call_ensures(StartLoop::ready, (l, app), r),
    ensures
        r is Some <==> app.state@.running,
{
}

/// A task is read from until its standard output ends or it is told to stop.
pub proof fn lemma_run_event(state: &mut AppState, name: &str, event: &RunEvent, r: RunAction)
    requires
        call_ensures(run_event, (state, name, event), r),
    ensures
        r == RunAction::Kill <==> *event is Stop,
        r == RunAction::Break <==> (*event matches RunEvent::Stdout(line) && line is None),
        r == RunAction::Kill || r == RunAction::Break || r == RunAction::Continue,
{
}

/// A task has failed exactly where its process ended without success, and is finished else.
pub proof fn lemma_run_finished(
    state: &mut AppState,
    name: &str,
    success: Option<bool>,
    r: AppTaskStatus,
)
    requires
        call_ensures(run_finished, (state, name, success), r),
    ensures
        success == Some(false) ==> r == AppTaskStatus::Failed,
        success != Some(false) ==> r == AppTaskStatus::Finished,
        final(state)@.statuses.contains_key(name@),
        final(state)@.statuses[name@] == r,
        final(state)@.outputs == old(state)@.outputs,
        final(state)@.running == old(state)@.running,
{
}

/// Whoever waits for a change is told of every event but output.
pub proof fn lemma_emit(state: &mut AppState, event: StateEvent, r: Option<StatusChangeEvent>)
    requires
        call_ensures(AppState::emit, (state, event), r),
    ensures
        r is None <==> event is Output,
{
}

/// Colours are kept out of what a task prints by three variables, and no other one is touched.
pub proof fn lemma_without_colors(envs: &mut StrMap<String>, other: Seq<char>)
    requires
        call_ensures(without_colors, (envs,), ()),
    ensures
        ({
            let before = text_map(old(envs)@);
            let after = text_map(final(envs)@);
            &&& after.contains_key("NO_COLOR"@) && after["NO_COLOR"@] == "1"@
            &&& after.contains_key("TERM"@) && after["TERM"@] == "dumb"@
            &&& after.contains_key("FORCE_COLOR"@) && after["FORCE_COLOR"@] == "0"@
            &&& other != "NO_COLOR"@ && other != "TERM"@ && other != "FORCE_COLOR"@
                ==> after.contains_key(other) == before.contains_key(other) && (
            before.contains_key(other) ==> after[other] == before[other])
        }),
{
    reveal_strlit("NO_COLOR");
    reveal_strlit("TERM");
    reveal_strlit("FORCE_COLOR");
    assert("NO_COLOR"@.len() == 8 && "TERM"@.len() == 4 && "FORCE_COLOR"@.len() == 11);
}

/// The program with one task for each project starts what is ready, waits while there is
/// something left to do or files are watched, and quits else.
pub proof fn lemma_run_tasks(app: &AppInner, r: RunStep)
    requires
        call_ensures(AppInner::run_tasks, (app,), r),
    ensures
        ({
            let left = exists|k: Seq<char>| #[trigger]
                app@.contains_key(k) && app@[k].status != ClassicStatus::Finished && app@[k].status
                    != ClassicStatus::NoCommand;
            &&& !app._running ==> r is Quit
            &&& app._running && app._watch ==> !(r is Quit)
            &&& app._running && r is Quit ==> !left
            &&& app._running && r is Idle && !app._watch ==> left
            &&& r matches RunStep::Start(names) ==> names@.len() > 0
        }),
{
    if let RunStep::Start(names) = r {
        assert(text::texts(names@).len() == names@.len());
    }
}

/// A task that is asked to start is run by the name of its project, in its directory, unless it
/// runs or has no command.
pub proof fn lemma_launch(task: &mut ClassicTask, out: &mut Vec<AppEvent>, r: Option<Launch>)
    requires
        call_ensures(ClassicTask::start, (task, out), r),
    ensures
        r is None <==> old(task)@.status == ClassicStatus::Running || old(task)@.cmd is None,
        r matches Some(l) ==> l.path@ == old(task)@.path && l.args@.len() == 3 && l.args@[0]@
            == "--filter"@ && l.args@[1]@ == old(task)@.name && l.args@[2]@ == old(task)@.cmd->0,
{
    if let Some(l) = r {
        let all = text::texts(l.args@);
        assert(all.len() == l.args@.len());
        assert(all[0] == l.args@[0]@ && all[1] == l.args@[1]@ && all[2] == l.args@[2]@);
    }
}

/// A line of either stream is sent as what it is. Reading ends with the standard output alone.
pub proof fn lemma_lines_sent(
    name: &str,
    line: Option<String>,
    now: i64,
    out: OutputStep,
    err: OutputStep,
)
    requires
        call_ensures(ClassicTask::stdout_line, (name, line, now), out),
        call_ensures(ClassicTask::stderr_line, (name, line, now), err),
    ensures
        line is None ==> out is Break && err is Continue,
        line matches Some(l) ==> {
            &&& out matches OutputStep::Send(e)
            &&& e@ == (AppEventView::TaskOutput {
                name: name@,
                output: l@,
                timestamp: now,
                is_error: false,
            })
        },
        line matches Some(l) ==> {
            &&& err matches OutputStep::Send(e)
            &&& e@ == (AppEventView::TaskOutput {
                name: name@,
                output: l@,
                timestamp: now,
                is_error: true,
            })
        },
{
}

/// The console listens until it is told to quit. Output and changes it always prints, messages
/// and statuses only on request, and nothing else.
pub proof fn lemma_console(
    console: &Console,
    event: &AppEvent,
    goes_on: bool,
    line: Option<String>,
)
    requires
        call_ensures(Console::wait, (console, event), goes_on),
        call_ensures(Console::line, (console, event), line),
    ensures
        goes_on <==> !(event@ is Quit),
        match event@ {
            AppEventView::TaskOutput { name, output, timestamp, is_error } => line is Some
                && line->0@ == "["@ + name + "]: "@ + output,
            AppEventView::FileChanged { task_name, paths } => line is Some && line->0@ == "["@
                + task_name + "]: File changed"@,
            AppEventView::Log(message) => (line is Some <==> console.verbose) && (console.verbose
                ==> line->0@ == "[LOG]: "@ + message),
            AppEventView::TaskStatus { name, status } => (line is Some <==> console.verbose) && (
            console.verbose ==> line->0@ == "["@ + name + "]: Status being change to "@
                + status.shown()),
            _ => line is None,
        },
{
}

/// A change is sent exactly where a file was made, changed or removed and, as far as patterns
/// read the same everywhere, one of the files concerns the project.
pub proof fn lemma_change_sent(
    watcher: &ProjectWatcher,
    kind: FileEvent,
    paths: &Vec<String>,
    r: Option<AppEvent>,
)
    requires
        call_ensures(ProjectWatcher::start, (watcher, kind, paths), r),
    ensures
        kind == FileEvent::Other ==> r is None,
        watcher.watcher.glob_set is None && (kind == FileEvent::Create || kind
            == FileEvent::Modify || kind == FileEvent::Remove) ==> r is Some,
        r matches Some(e) ==> e@ == (AppEventView::FileChanged {
            task_name: watcher.watcher.name@,
            paths: text::texts(paths@),
        }),
{
}

/// The terminal interface watches files and takes the place of the other interfaces.
pub proof fn lemma_settle(cli: &mut Cli, args: &mut RunArgs)
    requires
        call_ensures(Cli::settle, (cli,), ()),
        call_ensures(RunArgs::settle, (args,), ()),
    ensures
        old(cli).tui ==> final(cli).tui && final(cli).watch && !final(cli).console && !final(cli).web && !final(cli).log_console,
        !old(cli).tui ==> *final(cli) == *old(cli),
        final(cli).commands == old(cli).commands,
        final(cli).filter == old(cli).filter,
        final(args).watch <==> old(args).watch || old(args).tui,
        final(args).tui == old(args).tui,
        final(args).commands == old(args).commands,
        final(args).filter == old(args).filter,
        final(args).sequential == old(args).sequential,
{
}

/// The configuration is read from, and written to, the file that was given, and else the one with
/// the common name. Commands run at once unless they are to run in turn.
pub proof fn lemma_arguments(
    args: &RunArgs,
    other: &ConfigArgs,
    source: String,
    target: String,
    limit: i8,
)
    requires
        call_ensures(config_source, (args,), source),
        call_ensures(config_target, (other,), target),
        call_ensures(sequential_limit, (args,), limit),
    ensures
        args.config_path matches Some(f) ==> source@ == f@,
        args.config_path is None ==> source@ == "plexus.json"@,
        other.config_file matches Some(f) ==> target@ == f@,
        other.config_file is None ==> target@ == "plexus.json"@,
        !args.sequential ==> limit == -1,
        args.sequential && args.commands@.len() < 128 ==> limit == args.commands@.len(),
{
    if args.sequential && args.commands@.len() < 128 {
        let n = args.commands@.len() as usize;
        assert(n as i8 == n) by (bit_vector)
            requires
                n < 128,
        ;
    }
}

/// A connection that has not told its name is let go where it closes, fails or ends, and kept
/// after what is no text. A text makes it a client where it is a document with a name.
pub proof fn lemma_incoming(
    server: &mut HmrWebSocket,
    addr: &str,
    incoming: &Incoming,
    r: Connection,
)
    requires
        call_ensures(HmrWebSocket::main_loop, (server, addr, incoming), r),
    ensures
        ({
            let before = old(server).client_manager.known();
            let after = final(server).client_manager.known();
            match *incoming {
                Incoming::Close | Incoming::Error | Incoming::End => r == Connection::Dropped
                    && after == before.remove(addr@),
                Incoming::Other => r == Connection::Kept && after == before,
                Incoming::Text(t) => match parsed_json(t@) {
                    None => r == Connection::Dropped && after == before,
                    Some(j) => match field_of(j, "name"@) {
                        Some(JsonView::Str(name)) => r == Connection::Registered
                            && after.contains_key(addr@) && after[addr@].name == name
                            && after[addr@].addr == addr@,
                        _ => r == Connection::Kept && after == before,
                    },
                },
            }
        }),
{
}

/// A message goes to the client that a name stands for, where there is one.
pub proof fn lemma_send_message(
    clients: &HmrWebSocketClientManager,
    name: &str,
    r: Option<String>,
)
    requires
        call_ensures(HmrWebSocketClientManager::send_message, (clients, name), r),
    ensures
        r matches Some(addr) ==> clients.name_to_addr@.contains_key(name@)
            && clients.name_to_addr@[name@]@ == addr@ && clients.clients@.contains_key(addr@),
        r is None ==> !clients.name_to_addr@.contains_key(name@) || !clients.clients@.contains_key(
            clients.name_to_addr@[name@]@,
        ),
{
}

/// Of the fields of a message its name and its output are kept, and no others.
pub proof fn lemma_record_str(visitor: &mut CustomFieldVisitor, field: &str, value: &str)
    requires
        call_ensures(CustomFieldVisitor::record_str, (visitor, field, value), ()),
    ensures
        field@ == "name"@ ==> text::opt_text(final(visitor).name) == Some(value@)
            && text::opt_text(final(visitor).message) == text::opt_text(old(visitor).message),
        field@ == "stdout"@ || field@ == "stderr"@ ==> text::opt_text(final(visitor).message)
            == Some(value@) && text::opt_text(final(visitor).name) == text::opt_text(
            old(visitor).name,
        ),
        field@ != "name"@ && field@ != "stdout"@ && field@ != "stderr"@ ==> text::opt_text(
            final(visitor).message,
        ) == text::opt_text(old(visitor).message) && text::opt_text(final(visitor).name)
            == text::opt_text(old(visitor).name),
{
    reveal_strlit("name");
    reveal_strlit("stdout");
    reveal_strlit("stderr");
    assert("name"@.len() == 4 && "stdout"@.len() == 6 && "stderr"@.len() == 6);
}

/// A message is shown in its own form exactly where that is on and it has a name and output.
pub proof fn lemma_format_event(
    formatter: &CustomConsoleFormatter,
    visitor: &CustomFieldVisitor,
    hash: u64,
    r: Option<String>,
)
    requires
        call_ensures(CustomConsoleFormatter::format_event, (formatter, visitor, hash), r),
    ensures
        r is Some <==> formatter.is_custom_mode && visitor.name is Some && visitor.message is Some,
{
}

/// The console shows messages in its own form where no level was given, and else in the short or
/// the full one, as was asked for. Without a console nothing is shown.
pub proof fn lemma_console_layer(
    has_console: bool,
    is_compact: bool,
    filter: &DynamicFilter,
    r: ConsoleLayer,
    custom: bool,
)
    requires
        call_ensures(init_tracing, (has_console, is_compact, filter), r),
        call_ensures(DynamicFilter::is_custom_mode, (filter,), custom),
    ensures
        custom <==> filter.cli_level is None,
        r == ConsoleLayer::Off <==> !has_console,
        r == ConsoleLayer::Custom <==> has_console && filter.cli_level is None,
        r == ConsoleLayer::Compact <==> has_console && filter.cli_level is Some && is_compact,
        r == ConsoleLayer::Full <==> has_console && filter.cli_level is Some && !is_compact,
{
}

/// A message stands behind the name of its level in brackets.
pub proof fn lemma_prefix(level: &Level, r: String)
    requires
        call_ensures(Level::prefix, (level,), r),
    ensures
        *level is Error ==> r@ == "["@ + "ERROR"@ + "] "@,
        *level is Warn ==> r@ == "["@ + "WARN"@ + "] "@,
        *level is Info ==> r@ == "["@ + "INFO"@ + "] "@,
        *level is Debug ==> r@ == "["@ + "DEBUG"@ + "] "@,
        *level is Trace ==> r@ == "["@ + "TRACE"@ + "] "@,
{
}

/// A change counts where a file came, went, was renamed or has other contents, and not where
/// something else of it changed.
pub proof fn lemma_relevant(kind: ChangeKind, r: bool)
    requires
        call_ensures(is_relevant, (kind,), r),
    ensures
        kind == ChangeKind::Create || kind == ChangeKind::Remove || kind == ChangeKind::ModifyData
            || kind == ChangeKind::ModifyName ==> r,
        kind == ChangeKind::ModifyOther || kind == ChangeKind::Other ==> !r,
{
}

/// Files are watched once changes are acted upon, and not at all where the program ends before.
pub proof fn lemma_watch_begins(
    manager: &WatchManager,
    is_watch_mode: bool,
    is_running: bool,
    r: WatchStep,
)
    requires
        call_ensures(WatchManager::main_loop, (manager, is_watch_mode, is_running), r),
    ensures
        is_watch_mode <==> r == WatchStep::Begin,
        !is_watch_mode && !is_running <==> r == WatchStep::Exit,
        !is_watch_mode && is_running <==> r == WatchStep::Wait,
{
}

/// Of a project without patterns its whole directory is watched, and of any other what a walk
/// over its files found.
pub proof fn lemma_watch_paths(
    watcher: &AppWatcher,
    found: Vec<(String, bool)>,
    r: Vec<(String, bool)>,
    i: int,
)
    requires
        call_ensures(watch_paths, (watcher, found), r),
    ensures
        watcher.glob_set is None ==> r@.len() == 1 && r@[0].0@ == watcher.path@ && r@[0].1,
        watcher.glob_set is Some ==> r@.len() == found@.len(),
        watcher.glob_set is Some && 0 <= i < found@.len() ==> r@[i].0@ == found@[i].0@ && r@[i].1
            == found@[i].1,
{
    let all = r@.map_values(|p: (String, bool)| (p.0@, p.1));
    assert(all.len() == r@.len());
    if watcher.glob_set is None {
        assert(all[0] == (r@[0].0@, r@[0].1));
    } else {
        let want = found@.map_values(|p: (String, bool)| (p.0@, p.1));
        assert(want.len() == found@.len());
        if 0 <= i < found@.len() {
            assert(all[i] == (r@[i].0@, r@[i].1));
            assert(want[i] == (found@[i].0@, found@[i].1));
        }
    }
}

/// A key that is no key to quit never ends the program, and one that is asks for nothing of the
/// tasks. It ends the program where it was pressed before, less than five seconds ago.
pub proof fn lemma_handle_key(
    tui: &mut TuiManager,
    key: Key,
    ctrl: bool,
    now: i64,
    tasks: &Vec<TaskWithDetails>,
    r: Vec<Dispatch>,
)
    requires
        call_ensures(TuiManager::handle_key, (tui, key, ctrl, now, tasks), r),
    ensures
        ({
            let quits = key == Key::Char('q') || (key == Key::Char('c') && ctrl);
            let again = old(tui)@.state.quit matches Some(before) && now - before < 5_000_000_000;
            &&& !quits ==> final(tui)@.is_running == old(tui)@.is_running
            &&& quits ==> r@.len() == 0
            &&& quits && again ==> !final(tui)@.is_running
            &&& quits && !again ==> final(tui)@.is_running == old(tui)@.is_running && final(tui)@.state.quit == Some(now)
            &&& key == Key::Char('m') ==> final(tui)@.mouse_wanted == !old(tui)@.mouse_wanted
        }),
{
    lemma_quit_keys(old(tui)@, key, ctrl, now, details_view(tasks@));
    assert(dispatch_view(r@).len() == r@.len());
}

/// A quit that nobody confirms in five seconds is forgotten, and told of until then.
pub proof fn lemma_check_quit(tui: &mut TuiManager, now: i64, r: Option<i64>)
    requires
        call_ensures(TuiManager::check_quit, (tui, now), r),
    ensures
        old(tui)@.state.quit is None ==> r is None,
        old(tui)@.state.quit matches Some(before) ==> {
            &&& now - before < 5_000_000_000 ==> r == Some(before) && final(tui)@ == old(tui)@
            &&& now - before >= 5_000_000_000 ==> r is None && final(tui)@.state.quit is None
        },
        final(tui)@.is_running == old(tui)@.is_running,
{
    lemma_quit_lapses(old(tui)@.state, now as int);
}

/// The wheel moves the selection where the list of tasks is open and never ends the program.
pub proof fn lemma_handle_mouse(tui: &mut TuiManager, up: bool, tasks: &Vec<TaskWithDetails>)
    requires
        call_ensures(TuiManager::handle_mouse, (tui, up, tasks), ()),
    ensures
        final(tui)@.is_running == old(tui)@.is_running,
        is_open(old(tui)@, Focus::Tasks) && up ==> final(tui)@.state == selection_moved(
            old(tui)@.state,
            -1,
            details_view(tasks@),
        ),
        is_open(old(tui)@, Focus::Tasks) && !up ==> final(tui)@.state == selection_moved(
            old(tui)@.state,
            1,
            details_view(tasks@),
        ),
{
    lemma_wheel(old(tui)@, up, details_view(tasks@));
}

/// A frame is counted where something is drawn, and once tasks are drawn loading is over.
pub proof fn lemma_frame(tui: &TuiManager, f: &mut FrameState, is_loading: bool, r: FrameStep)
    requires
        call_ensures(TuiManager::main_loop, (tui, f, is_loading), r),
    ensures
        !tui@.is_running ==> r == FrameStep::Exit,
        r == FrameStep::Draw ==> !final(f).loading,
        r != FrameStep::Draw ==> final(f).loading == old(f).loading,
        (r == FrameStep::Draw || r == FrameStep::Loading) && old(f).frame_count < usize::MAX
            ==> final(f).frame_count == old(f).frame_count + 1,
        r != FrameStep::Draw && r != FrameStep::Loading ==> final(f).frame_count
            == old(f).frame_count,
        final(f).mouse_capture_on == old(f).mouse_capture_on,
{
}

/// Where the capture of the mouse could not be turned, what is wanted is what there is.
pub proof fn lemma_mouse_changed(tui: &mut TuiManager, f: &mut FrameState, done: bool)
    requires
        call_ensures(TuiManager::mouse_changed, (tui, f, done), ()),
    ensures
        done ==> final(tui)@.mouse_wanted == old(tui)@.mouse_wanted,
        !done ==> final(tui)@.mouse_wanted == old(f).mouse_capture_on,
        final(f).mouse_capture_on == final(tui)@.mouse_wanted,
        final(tui)@.state == old(tui)@.state,
        final(tui)@.is_running == old(tui)@.is_running,
{
}

/// The status bar takes as many rows as its entries need, but at least one and at most four.
pub proof fn lemma_status_height(state: &State, mouse_wanted: bool, width: u16, r: u16)
    requires
        call_ensures(status_height, (state, mouse_wanted, width), r),
        width > 0,
    ensures
        ({
            let rows = packed(bar_entries(state@, mouse_wanted), width as nat).len();
            &&& 1 <= r <= 4
            &&& 1 <= rows <= 4 ==> r == rows
            &&& rows > 4 ==> r == 4
        }),
{
}

/// Every command is told by a variable that it is run by this program, unless a file says
/// otherwise.
pub proof fn lemma_marked(
    env: &Env,
    contents: &Vec<Option<String>>,
    r: StrMap<String>,
    s: StrMap<String>,
)
    requires
        call_ensures(Env::get_envs_with_specific, (env, contents), r),
        call_ensures(get_envs, (env, contents), s),
    ensures
        (forall|k: int|
            0 <= k < contents@.len() ==> (#[trigger] contents@[k] matches Some(c) ==> !with_file(
                Map::empty(),
                c@,
            ).contains_key("PLEXUS"@))) ==> text_map(r@).contains_key("PLEXUS"@) && text_map(
            r@,
        )["PLEXUS"@] == "1"@,
        (forall|k: int|
            0 <= k < contents@.len() ==> (#[trigger] contents@[k] matches Some(c) ==> !with_file(
                Map::empty(),
                c@,
            ).contains_key("PNPM_TASK_TUI"@))) ==> text_map(s@).contains_key("PNPM_TASK_TUI"@)
            && text_map(s@)["PNPM_TASK_TUI"@] == "1"@,
{
    let files = contents_view(contents@);
    let n = contents@.len() as int;
    assert(files.len() == n);
    let one = Map::<Seq<char>, Seq<char>>::empty().insert("PLEXUS"@, "1"@);
    let two = Map::<Seq<char>, Seq<char>>::empty().insert("PNPM_TASK_TUI"@, "1"@);
    if forall|k: int|
        0 <= k < contents@.len() ==> (#[trigger] contents@[k] matches Some(c) ==> !with_file(
            Map::empty(),
            c@,
        ).contains_key("PLEXUS"@)) {
        assert forall|k: int| -1 < k < n implies (#[trigger] files[k] matches Some(c) ==> !with_file(
            Map::empty(),
            c,
        ).contains_key("PLEXUS"@)) by {
            assert(files[k] == text::opt_text(contents@[k]));
        }
        lemma_last_file_counts(one, files, n, -1, "PLEXUS"@);
    }
    if forall|k: int|
        0 <= k < contents@.len() ==> (#[trigger] contents@[k] matches Some(c) ==> !with_file(
            Map::empty(),
            c@,
        ).contains_key("PNPM_TASK_TUI"@)) {
        assert forall|k: int| -1 < k < n implies (#[trigger] files[k] matches Some(c) ==> !with_file(
            Map::empty(),
            c,
        ).contains_key("PNPM_TASK_TUI"@)) by {
            assert(files[k] == text::opt_text(contents@[k]));
        }
        lemma_last_file_counts(two, files, n, -1, "PNPM_TASK_TUI"@);
    }
}

} // verus!
