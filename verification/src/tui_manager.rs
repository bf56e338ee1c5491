//! The terminal interface with boxes: what a key does and what is drawn.

use vstd::prelude::*;

use crate::app_state::AppState;
use crate::app_state::AppStateView;
use crate::app_state::TaskState;
use crate::app_state::TaskStateView;
use crate::app_state::TaskStatus;
use crate::layout::Constraint;
use crate::layout::Direction;
use crate::layout::Rect;
use crate::layout::divided;
use crate::layout::split;
use crate::log_pane::Color;
use crate::log_pane::ScrollbarState;
use crate::log_pane::color_of;
use crate::log_pane::line_color;
use crate::log_pane::rows_view;
use crate::log_view::LogView;
use crate::log_view::LogViewState;
use crate::log_view::empty_log;
use crate::log_view::less;
use crate::logging::Level;
use crate::text;
use crate::tui_managerv2::Key;
use crate::tui_view::Span;
use crate::tui_view::SpanView;
use crate::tui_view::inside_border;
use crate::tui_view::row_view;
use crate::tui_view::spinner;
use crate::tui_view::spinner_at;

verus! {

/// The box that keys go to.
#[derive(Debug, Clone, Copy, PartialEq, Eq, Structural)]
pub enum BoxSelected {
    Tasks,
    Logs,
    Output,
}

/// What the interface holds.
pub struct TuiState {
    pub selected: usize,
    pub box_selected: BoxSelected,
    pub show_log: bool,
    pub total_tasks: usize,
    pub log_entry: LogView,
    pub output_entry: LogView,
    pub tasks: Vec<TaskState>,
    pub frame_count: usize,
}

/// What a [`TuiState`] says.
#[verifier::ext_equal]
pub struct TuiStateView {
    pub selected: nat,
    pub box_selected: BoxSelected,
    pub show_log: bool,
    pub total_tasks: nat,
    pub log_entry: LogViewState,
    pub output_entry: LogViewState,
    pub tasks: Seq<TaskStateView>,
    pub frame_count: nat,
}

/// What is known of several tasks.
pub open spec fn states_view(v: Seq<TaskState>) -> Seq<TaskStateView> {
    v.map_values(|t: TaskState| t@)
}

impl View for TuiState {
    type V = TuiStateView;

    open spec fn view(&self) -> TuiStateView {
        TuiStateView {
            selected: self.selected as nat,
            box_selected: self.box_selected,
            show_log: self.show_log,
            total_tasks: self.total_tasks as nat,
            log_entry: self.log_entry@,
            output_entry: self.output_entry@,
            tasks: states_view(self.tasks@),
            frame_count: self.frame_count as nat,
        }
    }
}

/// What a key asks of the program.
pub enum TuiCommand {
    Nothing,
    Quit,
    /// End as a failure.
    Failed,
    ClearLogs,
    /// Stop a task and run it again.
    Restart(String),
    Stop(String),
    Run(String),
}

/// What a [`TuiCommand`] says.
pub enum TuiCommandView {
    Nothing,
    Quit,
    Failed,
    ClearLogs,
    Restart(Seq<char>),
    Stop(Seq<char>),
    Run(Seq<char>),
}

impl View for TuiCommand {
    type V = TuiCommandView;

    open spec fn view(&self) -> TuiCommandView {
        match *self {
            TuiCommand::Nothing => TuiCommandView::Nothing,
            TuiCommand::Quit => TuiCommandView::Quit,
            TuiCommand::Failed => TuiCommandView::Failed,
            TuiCommand::ClearLogs => TuiCommandView::ClearLogs,
            TuiCommand::Restart(n) => TuiCommandView::Restart(n@),
            TuiCommand::Stop(n) => TuiCommandView::Stop(n@),
            TuiCommand::Run(n) => TuiCommandView::Run(n@),
        }
    }
}

/// Whether a key asks something of the selected task.
pub open spec fn wants_task(key: Key) -> bool {
    key == Key::Char('r') || key == Key::Enter || key == Key::Char('s')
}

/// Whether a key moves the selection or a window down.
pub open spec fn moves_down(key: Key) -> bool {
    key == Key::Down || key == Key::Char('j')
}

/// Whether a key moves the selection or a window up.
pub open spec fn moves_up(key: Key) -> bool {
    key == Key::Up || key == Key::Char('k')
}

/// Whether a key moves a window only.
pub open spec fn moves_window(key: Key) -> bool {
    key == Key::PageDown || key == Key::PageUp || key == Key::End || key == Key::Home || key
        == Key::Char('f')
}

/// A window after a key that moves windows only.
pub open spec fn window_after(v: LogViewState, key: Key) -> LogViewState {
    if key == Key::PageDown {
        v.page_down()
    } else if key == Key::PageUp {
        v.page_up()
    } else if key == Key::End {
        v.end()
    } else if key == Key::Home {
        v.home()
    } else {
        v
    }
}

impl TuiStateView {
    /// One step up in the box that keys go to.
    pub open spec fn stepped_up(self) -> TuiStateView {
        match self.box_selected {
            BoxSelected::Tasks => TuiStateView { selected: less(self.selected, 1), ..self },
            BoxSelected::Logs => TuiStateView { log_entry: self.log_entry.up(), ..self },
            BoxSelected::Output => TuiStateView { output_entry: self.output_entry.up(), ..self },
        }
    }

    /// One step down in the box that keys go to, but not behind the last task.
    pub open spec fn stepped_down(self) -> TuiStateView {
        match self.box_selected {
            BoxSelected::Tasks => TuiStateView {
                selected: if self.selected + 1 <= self.total_tasks - 1 {
                    self.selected + 1
                } else {
                    (self.total_tasks - 1) as nat
                },
                ..self
            },
            BoxSelected::Logs => TuiStateView { log_entry: self.log_entry.down(), ..self },
            BoxSelected::Output => TuiStateView { output_entry: self.output_entry.down(), ..self },
        }
    }

    /// After the key that goes from box to box. The box of messages is passed over where it is
    /// not shown.
    pub open spec fn next_box(self) -> TuiStateView {
        TuiStateView {
            box_selected: match self.box_selected {
                BoxSelected::Tasks => BoxSelected::Output,
                BoxSelected::Output => if self.show_log {
                    BoxSelected::Logs
                } else {
                    BoxSelected::Tasks
                },
                BoxSelected::Logs => BoxSelected::Tasks,
            },
            ..self
        }
    }

    /// After the key that shows and hides the messages. Keys do not go to a hidden box.
    pub open spec fn toggled(self) -> TuiStateView {
        TuiStateView {
            show_log: !self.show_log,
            box_selected: if self.show_log && self.box_selected is Logs {
                BoxSelected::Tasks
            } else {
                self.box_selected
            },
            ..self
        }
    }

    /// The state after a key.
    pub open spec fn after_key(self, key: Key) -> TuiStateView {
        if key == Key::Char('l') {
            self.toggled()
        } else if key == Key::Char('c') {
            TuiStateView { log_entry: self.log_entry.clear(), ..self }
        } else if key == Key::Tab {
            self.next_box()
        } else if moves_up(key) {
            self.stepped_up()
        } else if moves_down(key) {
            self.stepped_down()
        } else if moves_window(key) {
            match self.box_selected {
                BoxSelected::Logs => TuiStateView {
                    log_entry: window_after(self.log_entry, key),
                    ..self
                },
                BoxSelected::Output => TuiStateView {
                    output_entry: window_after(self.output_entry, key),
                    ..self
                },
                BoxSelected::Tasks => self,
            }
        } else {
            self
        }
    }

    /// What a key asks of the program.
    pub open spec fn asked_by(self, key: Key) -> TuiCommandView {
        let task = self.tasks[self.selected as int];
        if key == Key::Char('q') {
            TuiCommandView::Quit
        } else if key == Key::Char('x') {
            TuiCommandView::Failed
        } else if key == Key::Char('c') {
            TuiCommandView::ClearLogs
        } else if key == Key::Char('r') || key == Key::Enter {
            TuiCommandView::Restart(task.name)
        } else if key == Key::Char('s') {
            if task.status is Running {
                TuiCommandView::Stop(task.name)
            } else {
                TuiCommandView::Run(task.name)
            }
        } else {
            TuiCommandView::Nothing
        }
    }

    /// Whether a key is one that the interface goes on with.
    pub open spec fn handles(self, key: Key) -> bool {
        key == Key::Char('l') || key == Key::Char('c') || wants_task(key) || key == Key::Tab
            || moves_up(key) || moves_down(key) || (moves_window(key) && !(self.box_selected
            is Tasks))
    }

    /// Whether what a key asks for is there: a selected task, or a list to move in.
    pub open spec fn accepts(self, key: Key) -> bool {
        &&& wants_task(key) ==> self.selected < self.tasks.len()
        &&& moves_down(key) && self.box_selected is Tasks ==> self.total_tasks > 0
    }
}

impl TuiState {
    /// An interface that has not drawn anything yet.
    pub fn new() -> (r: Self)
        ensures
            r@.selected == 0,
            r@.box_selected is Tasks,
            !r@.show_log,
            r@.total_tasks == 0,
            r@.log_entry == empty_log() && !r.log_entry.debug,
            r@.output_entry == empty_log() && r.output_entry.debug,
            r@.tasks == Seq::<TaskStateView>::empty(),
            r@.frame_count == 0,
    {
        let r = TuiState {
            selected: 0,
            box_selected: BoxSelected::Tasks,
            frame_count: 0,
            show_log: false,
            total_tasks: 0,
            log_entry: LogView::new(false),
            output_entry: LogView::new(true),
            tasks: Vec::new(),
        };
        assert(r@.tasks =~= Seq::<TaskStateView>::empty());
        r
    }

    fn step_up(&mut self)
        ensures
            final(self)@ == old(self)@.stepped_up(),
    {
        match self.box_selected {
            BoxSelected::Logs => self.log_entry.up(),
            BoxSelected::Output => self.output_entry.up(),
            BoxSelected::Tasks => {
                self.selected = self.selected.saturating_sub(1);
            },
        }
    }

    fn step_down(&mut self)
        requires
            old(self)@.box_selected is Tasks ==> old(self)@.total_tasks > 0,
        ensures
            final(self)@ == old(self)@.stepped_down(),
    {
        match self.box_selected {
            BoxSelected::Logs => self.log_entry.down(),
            BoxSelected::Output => self.output_entry.down(),
            BoxSelected::Tasks => {
                let last: usize = self.total_tasks - 1;
                self.selected = if self.selected < last {
                    self.selected + 1
                } else {
                    last
                };
            },
        }
    }

    /// The wheel of the mouse was turned.
    pub fn handle_mouse_event(&mut self, up: bool)
        requires
            !up && old(self)@.box_selected is Tasks ==> old(self)@.total_tasks > 0,
        ensures
            final(self)@ == (if up {
                old(self)@.stepped_up()
            } else {
                old(self)@.stepped_down()
            }),
    {
        if up {
            self.step_up();
        } else {
            self.step_down();
        }
    }

    fn move_window(entry: &mut LogView, key: Key)
        requires
            moves_window(key),
        ensures
            final(entry)@ == window_after(old(entry)@, key),
    {
        match key {
            Key::PageDown => entry.page_down(),
            Key::PageUp => entry.page_up(),
            Key::End => entry.end(),
            Key::Home => entry.home(),
            _ => {},
        }
    }

    /// A key was pressed. The result is whether the interface goes on with it, and what it asks
    /// of the program.
    pub fn handle_key_event(&mut self, key: Key) -> (r: (bool, TuiCommand))
        requires
            old(self)@.accepts(key),
        ensures
            final(self)@ == old(self)@.after_key(key),
            r.0 == old(self)@.handles(key),
            r.1@ == old(self)@.asked_by(key),
    {
        assert(self@.tasks.len() == self.tasks@.len());
        match key {
            Key::Char('q') => (false, TuiCommand::Quit),
            Key::Char('x') => (false, TuiCommand::Failed),
            Key::Char('l') => {
                self.show_log = !self.show_log;
                if !self.show_log && self.box_selected == BoxSelected::Logs {
                    self.box_selected = BoxSelected::Tasks;
                }
                (true, TuiCommand::Nothing)
            },
            Key::Char('c') => {
                self.log_entry.clear();
                (true, TuiCommand::ClearLogs)
            },
            Key::Char('r') | Key::Enter => {
                let task = &self.tasks[self.selected];
                assert(self@.tasks[self.selected as int] == task@);
                (true, TuiCommand::Restart(task.name().to_owned()))
            },
            Key::Char('s') => {
                let task = &self.tasks[self.selected];
                assert(self@.tasks[self.selected as int] == task@);
                if *task.status() == TaskStatus::Running {
                    (true, TuiCommand::Stop(task.name().to_owned()))
                } else {
                    (true, TuiCommand::Run(task.name().to_owned()))
                }
            },
            Key::Tab => {
                if self.box_selected == BoxSelected::Tasks {
                    self.box_selected = BoxSelected::Output;
                } else if self.box_selected == BoxSelected::Output {
                    if self.show_log {
                        self.box_selected = BoxSelected::Logs;
                    } else {
                        self.box_selected = BoxSelected::Tasks;
                    }
                } else {
                    self.box_selected = BoxSelected::Tasks;
                }
                (true, TuiCommand::Nothing)
            },
            Key::Up | Key::Char('k') => {
                self.step_up();
                (true, TuiCommand::Nothing)
            },
            Key::Down | Key::Char('j') => {
                self.step_down();
                (true, TuiCommand::Nothing)
            },
            Key::PageDown | Key::PageUp | Key::End | Key::Home | Key::Char('f') => {
                match self.box_selected {
                    BoxSelected::Logs => {
                        Self::move_window(&mut self.log_entry, key);
                        (true, TuiCommand::Nothing)
                    },
                    BoxSelected::Output => {
                        Self::move_window(&mut self.output_entry, key);
                        (true, TuiCommand::Nothing)
                    },
                    BoxSelected::Tasks => (false, TuiCommand::Nothing),
                }
            },
            _ => (false, TuiCommand::Nothing),
        }
    }
}

/// A window after the first `n` of some lines came.
pub open spec fn with_lines(v: LogViewState, lines: Seq<Seq<char>>, n: int) -> LogViewState
    decreases n,
{
    if n <= 0 {
        v
    } else {
        with_lines(v, lines, n - 1).add_log(lines[n - 1])
    }
}

/// A window that shows other lines.
pub open spec fn refilled(v: LogViewState, lines: Seq<Seq<char>>) -> LogViewState {
    with_lines(v.clear(), lines, lines.len() as int)
}

/// A message behind its level.
pub open spec fn message_line(log: (Level, Seq<char>)) -> Seq<char> {
    "["@ + log.0.shown() + "] "@ + log.1
}

/// What is known of some tasks.
pub open spec fn tasks_of(s: AppStateView, names: Seq<Seq<char>>) -> Seq<TaskStateView> {
    names.map_values(|n: Seq<char>| s.task(n))
}

impl TuiStateView {
    /// Brought in line with what the program knows, for the next frame.
    pub open spec fn refreshed(self, s: AppStateView, names: Seq<Seq<char>>) -> TuiStateView {
        if names.len() == 0 {
            self
        } else {
            TuiStateView {
                log_entry: refilled(
                    self.log_entry,
                    s.logs.map_values(|l: (Level, Seq<char>)| message_line(l)),
                ),
                output_entry: refilled(
                    self.output_entry,
                    s.outputs[names[self.selected as int]],
                ),
                tasks: tasks_of(s, names),
                total_tasks: names.len(),
                frame_count: if self.frame_count == usize::MAX {
                    0
                } else {
                    self.frame_count + 1
                },
                ..self
            }
        }
    }
}

impl TuiState {
    /// Brings the interface in line with what the program knows of its tasks, for the next
    /// frame. The result is whether there is anything to draw.
    pub fn render(&mut self, state: &AppState, pure_tasks: &Vec<String>) -> (r: bool)
        requires
            state.wf(),
            pure_tasks@.len() > 0 ==> old(self)@.selected < pure_tasks@.len(),
            forall|i: int|
                0 <= i < pure_tasks@.len() ==> state@.statuses.contains_key(
                    #[trigger] text::texts(pure_tasks@)[i],
                ) && state@.outputs.contains_key(text::texts(pure_tasks@)[i]),
        ensures
            final(self)@ == old(self)@.refreshed(state@, text::texts(pure_tasks@)),
            r == (pure_tasks@.len() > 0),
    {
        let ghost start = self@;
        let ghost names = text::texts(pure_tasks@);
        assert(names.len() == pure_tasks@.len());
        if pure_tasks.len() == 0 {
            return false;
        }
        self.log_entry.clear();
        let logs = state.get_logs();
        let ghost messages = state@.logs.map_values(|l: (Level, Seq<char>)| message_line(l));
        let mut i: usize = 0;
        assert(messages.len() == logs@.len());
        while i < logs.len()
            invariant
                i <= logs@.len(),
                crate::app_state::logs_view(logs@) == state@.logs,
                messages == state@.logs.map_values(|l: (Level, Seq<char>)| message_line(l)),
                messages.len() == logs@.len(),
                self@ == (TuiStateView {
                    log_entry: with_lines(start.log_entry.clear(), messages, i as int),
                    ..start
                }),
            decreases logs@.len() - i,
        {
            let log = &logs[i];
            assert(state@.logs[i as int] == (log.0, log.1@));
            let line = text::concat(log.0.prefix().as_str(), log.1.as_str());
            self.log_entry.add_log(line);
            i += 1;
        }
        self.output_entry.clear();
        let name = &pure_tasks[self.selected];
        assert(names[self.selected as int] == name@);
        let task = state.get_task_state(name.as_str());
        let outputs = task.outputs();
        let ghost lines = state@.outputs[name@];
        let mut k: usize = 0;
        assert(lines.len() == outputs@.len());
        while k < outputs.len()
            invariant
                k <= outputs@.len(),
                lines == text::texts(outputs@),
                self@ == (TuiStateView {
                    log_entry: refilled(start.log_entry, messages),
                    output_entry: with_lines(start.output_entry.clear(), lines, k as int),
                    ..start
                }),
            decreases outputs@.len() - k,
        {
            assert(lines[k as int] == outputs@[k as int]@);
            self.output_entry.add_log(outputs[k].clone());
            k += 1;
        }
        let ghost shown = self@;
        let mut tasks: Vec<TaskState> = Vec::new();
        let mut j: usize = 0;
        let ghost want = tasks_of(state@, names);
        assert(states_view(tasks@) =~= want.take(0));
        while j < pure_tasks.len()
            invariant
                j <= pure_tasks@.len(),
                state.wf(),
                names == text::texts(pure_tasks@),
                want == tasks_of(state@, names),
                forall|i: int|
                    0 <= i < pure_tasks@.len() ==> state@.statuses.contains_key(
                        #[trigger] names[i],
                    ) && state@.outputs.contains_key(names[i]),
                states_view(tasks@) == want.take(j as int),
            decreases pure_tasks@.len() - j,
        {
            let ghost before = states_view(tasks@);
            assert(names[j as int] == pure_tasks@[j as int]@);
            tasks.push(state.get_task_state(pure_tasks[j].as_str()));
            proof {
                assert(states_view(tasks@) =~= before.push(want[j as int]));
                assert(want.take(j + 1) =~= want.take(j as int).push(want[j as int]));
            }
            j += 1;
        }
        assert(want.take(j as int) =~= want);
        self.tasks = tasks;
        self.total_tasks = pure_tasks.len();
        self.frame_count = if self.frame_count == usize::MAX {
            0
        } else {
            self.frame_count + 1
        };
        assert(self@ =~= start.refreshed(state@, names));
        true
    }
}

/// What a box with a window over lines shows.
pub struct LogsBox {
    pub title: String,
    /// Whether keys go to it.
    pub selected: bool,
    pub lines: Vec<(String, Color)>,
    pub state: ScrollbarState,
}

/// What a [`LogsBox`] says.
#[verifier::ext_equal]
pub struct LogsBoxView {
    pub title: Seq<char>,
    pub selected: bool,
    pub lines: Seq<(Seq<char>, Color)>,
    pub state: ScrollbarState,
}

impl View for LogsBox {
    type V = LogsBoxView;

    open spec fn view(&self) -> LogsBoxView {
        LogsBoxView {
            title: self.title@,
            selected: self.selected,
            lines: rows_view(self.lines@),
            state: self.state,
        }
    }
}

/// Lines with their colours.
pub open spec fn in_colors(lines: Seq<Seq<char>>) -> Seq<(Seq<char>, Color)> {
    lines.map_values(|l: Seq<char>| (l, color_of(l)))
}

/// What a box shows of a window. The window takes the height that is left inside the border,
/// and the box that keys go to tells the keys.
pub open spec fn boxed(v: LogViewState, height: u16, title: Seq<char>, selected: bool) -> (
    LogViewState,
    LogsBoxView,
) {
    let w = v.resize(inside_border(height) as nat);
    (
        w,
        LogsBoxView {
            title: if selected {
                title + " (f: follow, ↑/PgUp, ↓/PgDn, Home, End)"@
            } else {
                title
            },
            selected,
            lines: in_colors(w.window()),
            state: w.state,
        },
    )
}

/// Draws a window into a box.
pub fn draw_logs(app: &mut LogView, area: Rect, title: &str, selected: bool) -> (r: LogsBox)
    ensures
        (final(app)@, r@) == boxed(old(app)@, area.height, title@, selected),
{
    app.set_viewport_height(area.height.saturating_sub(2));
    assert(app@.max_scroll() <= app@.logs.len());
    assert(app@.logs.len() == app.logs@.len());
    let logs = app.logs();
    let ghost want = in_colors(text::texts(logs@));
    let mut lines: Vec<(String, Color)> = Vec::new();
    let mut i: usize = 0;
    assert(rows_view(lines@) =~= want.take(0));
    while i < logs.len()
        invariant
            i <= logs@.len(),
            want == in_colors(text::texts(logs@)),
            rows_view(lines@) == want.take(i as int),
        decreases logs@.len() - i,
    {
        let ghost before = rows_view(lines@);
        assert(text::texts(logs@)[i as int] == logs@[i as int]@);
        let color = line_color(logs[i].as_str());
        lines.push((logs[i].clone(), color));
        proof {
            assert(rows_view(lines@) =~= before.push(want[i as int]));
            assert(want.take(i + 1) =~= want.take(i as int).push(want[i as int]));
        }
        i += 1;
    }
    assert(want.take(i as int) =~= want);
    let final_title = if selected {
        text::concat(title, " (f: follow, ↑/PgUp, ↓/PgDn, Home, End)")
    } else {
        title.to_owned()
    };
    LogsBox { title: final_title, selected, lines, state: app.state }
}

/// What the list says of how far a task is.
pub open spec fn status_label(status: TaskStatus, frame: nat) -> Seq<char> {
    match status {
        TaskStatus::Running => spinner(frame) + " RUNNING"@,
        TaskStatus::Finished => " Finished"@,
        TaskStatus::Failed => " ERROR"@,
        TaskStatus::Stopped => " STOPPED"@,
        _ => " IDLE"@,
    }
}

/// How a task looks in the list: its colour, whether it is bold and whether it is dim.
pub open spec fn status_style(status: TaskStatus, selected: bool) -> (Color, bool, bool) {
    if selected {
        (Color::Yellow, true, false)
    } else {
        match status {
            TaskStatus::Running => (Color::Green, true, false),
            TaskStatus::Finished => (Color::White, false, true),
            TaskStatus::Failed => (Color::Red, true, false),
            TaskStatus::Stopped => (Color::Gray, false, true),
            _ => (Color::DarkGray, false, true),
        }
    }
}

/// The entry of a task in the list.
pub open spec fn task_entry(task: TaskStateView, selected: bool, frame: nat) -> SpanView {
    let (fg, bold, dim) = status_style(task.status, selected);
    SpanView {
        content: status_label(task.status, frame) + " "@ + task.name,
        fg: Some(fg),
        bold,
        dim,
        reversed: false,
    }
}

fn list_entry(task: &TaskState, selected: bool, frame_count: usize) -> (r: Span)
    ensures
        r@ == task_entry(task@, selected, frame_count as nat),
{
    let status = *task.status();
    let label = match status {
        TaskStatus::Running => text::concat(spinner_at(frame_count), " RUNNING"),
        TaskStatus::Finished => " Finished".to_owned(),
        TaskStatus::Failed => " ERROR".to_owned(),
        TaskStatus::Stopped => " STOPPED".to_owned(),
        _ => " IDLE".to_owned(),
    };
    let (fg, bold, dim) = if selected {
        (Color::Yellow, true, false)
    } else {
        match status {
            TaskStatus::Running => (Color::Green, true, false),
            TaskStatus::Finished => (Color::White, false, true),
            TaskStatus::Failed => (Color::Red, true, false),
            TaskStatus::Stopped => (Color::Gray, false, true),
            _ => (Color::DarkGray, false, true),
        }
    };
    let content = text::concat3(label.as_str(), " ", task.name());
    Span { content, fg: Some(fg), bold, dim, reversed: false }
}

/// The title of the box with the output of the selected task.
pub open spec fn output_title(tasks: Seq<TaskStateView>, selected: nat) -> Seq<char> {
    if tasks.len() == 0 {
        "Output"@
    } else if selected < tasks.len() {
        "Output - "@ + tasks[selected as int].name
    } else {
        "Output - "@
    }
}

/// What a frame shows.
pub struct UiFrame {
    pub entries: Vec<Span>,
    /// Whether keys go to the list.
    pub tasks_selected: bool,
    /// The box of messages, where it is shown.
    pub logs: Option<LogsBox>,
    pub output: LogsBox,
}

/// The entries of the list.
pub open spec fn entries_of(tasks: Seq<TaskStateView>, selected: nat, frame: nat) -> Seq<SpanView> {
    Seq::new(tasks.len(), |i: int| task_entry(tasks[i], i == selected, frame))
}

/// What the box of messages says.
pub open spec fn opt_box(b: Option<LogsBox>) -> Option<LogsBoxView> {
    match b {
        Some(x) => Some(x@),
        None => None,
    }
}

/// What a frame shows, with the box of messages in `bottom` and the box of output in `right`.
pub fn render_ui(state: &mut TuiState, bottom: Rect, right: Rect) -> (r: UiFrame)
    ensures
        row_view(r.entries@) == entries_of(
            old(state)@.tasks,
            old(state)@.selected,
            old(state)@.frame_count,
        ),
        r.tasks_selected == (old(state)@.box_selected is Tasks),
        ({
            let s = old(state)@;
            let (logs, log_box) = boxed(
                s.log_entry,
                bottom.height,
                "Logs"@,
                s.box_selected is Logs,
            );
            let (output, output_box) = boxed(
                s.output_entry,
                right.height,
                output_title(s.tasks, s.selected),
                s.box_selected is Output,
            );
            &&& opt_box(r.logs) == (if s.show_log {
                Some(log_box)
            } else {
                None
            })
            &&& r.output@ == output_box
            &&& final(state)@ == (TuiStateView {
                log_entry: if s.show_log {
                    logs
                } else {
                    s.log_entry
                },
                output_entry: output,
                ..s
            })
        }),
{
    let ghost start = state@;
    let logs = if state.show_log {
        let selected = state.box_selected == BoxSelected::Logs;
        Some(draw_logs(&mut state.log_entry, bottom, "Logs", selected))
    } else {
        None
    };
    let ghost want = entries_of(start.tasks, start.selected, start.frame_count);
    let mut entries: Vec<Span> = Vec::new();
    let mut i: usize = 0;
    assert(start.tasks.len() == state.tasks@.len());
    assert(row_view(entries@) =~= want.take(0));
    while i < state.tasks.len()
        invariant
            i <= state.tasks@.len(),
            start.tasks == states_view(state.tasks@),
            start.selected == state.selected,
            start.frame_count == state.frame_count,
            want == entries_of(start.tasks, start.selected, start.frame_count),
            row_view(entries@) == want.take(i as int),
        decreases state.tasks@.len() - i,
    {
        let ghost before = row_view(entries@);
        assert(start.tasks[i as int] == state.tasks@[i as int]@);
        entries.push(list_entry(&state.tasks[i], i == state.selected, state.frame_count));
        proof {
            assert(row_view(entries@) =~= before.push(want[i as int]));
            assert(want.take(i + 1) =~= want.take(i as int).push(want[i as int]));
        }
        i += 1;
    }
    assert(want.take(i as int) =~= want);
    let title = if state.tasks.len() == 0 {
        "Output".to_owned()
    } else if state.selected < state.tasks.len() {
        assert(start.tasks[state.selected as int] == state.tasks@[state.selected as int]@);
        text::concat("Output - ", state.tasks[state.selected].name())
    } else {
        "Output - ".to_owned()
    };
    let selected = state.box_selected == BoxSelected::Output;
    let output = draw_logs(&mut state.output_entry, right, title.as_str(), selected);
    UiFrame { entries, tasks_selected: state.box_selected == BoxSelected::Tasks, logs, output }
}

/// What is told of the keys.
pub fn help_text() -> (r: Vec<&'static str>)
    ensures
        r@.map_values(|s: &'static str| s@) == seq![
            "Commands:"@,
            "  ↑/k: Move up"@,
            "  ↓/j: Move down"@,
            "  r/Enter: Restart selected task"@,
            "  s: Stop/start selected task"@,
            "  Tab: Switch between boxes"@,
            "  l: Toggle logs"@,
            "  c: Clear logs"@,
            "  q: Quit"@,
        ],
{
    let r = vec![
        "Commands:",
        "  ↑/k: Move up",
        "  ↓/j: Move down",
        "  r/Enter: Restart selected task",
        "  s: Stop/start selected task",
        "  Tab: Switch between boxes",
        "  l: Toggle logs",
        "  c: Clear logs",
        "  q: Quit",
    ];
    assert(r@.map_values(|s: &'static str| s@) =~= seq![
        "Commands:"@,
        "  ↑/k: Move up"@,
        "  ↓/j: Move down"@,
        "  r/Enter: Restart selected task"@,
        "  s: Stop/start selected task"@,
        "  Tab: Switch between boxes"@,
        "  l: Toggle logs"@,
        "  c: Clear logs"@,
        "  q: Quit"@,
    ]);
    r
}

/// The shares of the upper part and of the box of messages.
pub open spec fn shares(show_log: bool) -> Seq<Constraint> {
    if show_log {
        seq![Constraint::Percentage(70), Constraint::Percentage(30)]
    } else {
        seq![Constraint::Percentage(100), Constraint::Percentage(0)]
    }
}

/// The shares of the upper part and of the box of messages.
pub fn band_constraints(show_log: bool) -> (r: Vec<Constraint>)
    ensures
        r@ == shares(show_log),
{
    let r = if show_log {
        vec![Constraint::Percentage(70), Constraint::Percentage(30)]
    } else {
        vec![Constraint::Percentage(100), Constraint::Percentage(0)]
    };
    assert(r@ =~= shares(show_log));
    r
}

/// The shares of the list and of the box of output.
pub open spec fn column_shares() -> Seq<Constraint> {
    seq![Constraint::Percentage(35), Constraint::Percentage(65)]
}

/// The shares of the list and of the box of output.
pub fn column_constraints() -> (r: Vec<Constraint>)
    ensures
        r@ == column_shares(),
{
    let r = vec![Constraint::Percentage(35), Constraint::Percentage(65)];
    assert(r@ =~= column_shares());
    r
}

/// The areas of the list, of the box of output and of the box of messages.
pub fn ui_areas(area: Rect, show_log: bool) -> (r: (Rect, Rect, Rect))
    ensures
        exists|bands: Seq<Rect>, columns: Seq<Rect>| #[trigger]
            divided(Direction::Vertical, shares(show_log), area, bands) && #[trigger] divided(
                Direction::Horizontal,
                column_shares(),
                bands[0],
                columns,
            ) && r == (columns[0], columns[1], bands[1]),
{
    let bands = split(Direction::Vertical, &band_constraints(show_log), area);
    let columns = split(Direction::Horizontal, &column_constraints(), bands[0]);
    assert(divided(Direction::Vertical, shares(show_log), area, bands@));
    assert(divided(Direction::Horizontal, column_shares(), bands@[0], columns@));
    (columns[0], columns[1], bands[1])
}

/// How many rows the help takes below the list.
pub const HELP_HEIGHT: u16 = 9;

/// The constraints of the entries and of the help.
pub open spec fn above_help() -> Seq<Constraint> {
    seq![Constraint::Min(0), Constraint::Length(HELP_HEIGHT)]
}

/// The areas of the entries and of the help inside the box of the list.
pub fn list_areas(inside: Rect) -> (r: (Rect, Rect))
    ensures
        exists|parts: Seq<Rect>| #[trigger]
            divided(Direction::Vertical, above_help(), inside, parts) && r == (parts[0], parts[1]),
{
    let constraints = vec![Constraint::Min(0), Constraint::Length(HELP_HEIGHT)];
    let parts = split(Direction::Vertical, &constraints, inside);
    proof {
        assert(constraints@ =~= above_help());
        assert(divided(Direction::Vertical, above_help(), inside, parts@));
    }
    (parts[0], parts[1])
}

/// No key and no turn of the wheel leaves the selection behind the last task.
pub proof fn lemma_selection_stays(s: TuiStateView, key: Key)
    requires
        s.selected < s.total_tasks,
    ensures
        s.after_key(key).selected < s.after_key(key).total_tasks,
        s.stepped_up().selected < s.total_tasks,
        s.stepped_down().selected < s.total_tasks,
{
}

/// Keys never go to the box of messages while it is hidden.
pub proof fn lemma_hidden_box(s: TuiStateView, key: Key)
    requires
        s.box_selected is Logs ==> s.show_log,
    ensures
        s.after_key(key).box_selected is Logs ==> s.after_key(key).show_log,
{
}

/// The key that goes from box to box comes back to where it began.
pub proof fn lemma_boxes_go_round(s: TuiStateView)
    requires
        s.box_selected is Logs ==> s.show_log,
    ensures
        s.show_log ==> s.next_box().next_box().next_box() == s,
        !s.show_log ==> s.next_box().next_box() == s,
{
}

/// Showing and hiding the messages leaves all as it was, unless keys went to their box.
pub proof fn lemma_toggle_twice(s: TuiStateView)
    requires
        !(s.box_selected is Logs),
    ensures
        s.toggled().toggled() == s,
{
}

} // verus!
