//! The terminal interface that follows the events: what keys and events do to it and what is
//! drawn.

use vstd::prelude::*;

use crate::classic::share::AppEvent;
use crate::classic::share::AppEventView;
use crate::classic::share::TaskStatus;
use crate::layout::Constraint;
use crate::layout::Direction;
use crate::layout::Rect;
use crate::layout::divided;
use crate::layout::split;
use crate::log_pane::Color;
use crate::log_pane::ScrollbarState;
use crate::log_view::less;
use crate::text;
use crate::tui_managerv2::Key;
use crate::tui_view::Span;
use crate::tui_view::SpanView;
use crate::tui_view::row_view;

verus! {

/// Lines with a place to start from.
pub struct LogEntry {
    /// The first line that is shown.
    pub scroll: u16,
    pub state: ScrollbarState,
    pub logs: Vec<String>,
    /// Whether the last lines are shown whatever comes.
    pub follow: bool,
    pub viewport_height: Option<u16>,
}

/// What a [`LogEntry`] holds.
#[verifier::ext_equal]
pub struct LogEntryView {
    pub scroll: nat,
    pub state: ScrollbarState,
    pub logs: Seq<Seq<char>>,
    pub follow: bool,
    pub viewport_height: Option<u16>,
}

impl View for LogEntry {
    type V = LogEntryView;

    open spec fn view(&self) -> LogEntryView {
        LogEntryView {
            scroll: self.scroll as nat,
            state: self.state,
            logs: text::texts(self.logs@),
            follow: self.follow,
            viewport_height: self.viewport_height,
        }
    }
}

/// How near to the end still counts as the end.
pub const TOLERANCE: u16 = 5;

impl LogEntryView {
    /// No lines, and the last ones are to be shown.
    pub open spec fn fresh() -> LogEntryView {
        LogEntryView {
            scroll: 0,
            state: ScrollbarState {
                content_length: 0,
                viewport_content_length: 0,
                position: 0,
            },
            logs: Seq::empty(),
            follow: true,
            viewport_height: None,
        }
    }

    /// The place of the last line. Places are counted in sixteen bits, and begin again from
    /// zero behind the last of these.
    pub open spec fn last_place(self) -> nat {
        less(self.logs.len(), 1) % 65536
    }

    /// Whether the place to start from is near the last line.
    pub open spec fn near_bottom(self) -> bool {
        self.scroll + TOLERANCE as nat >= self.last_place()
    }

    /// Started from another place, which the scrollbar shows.
    pub open spec fn at(self, scroll: nat) -> LogEntryView {
        LogEntryView {
            scroll,
            state: ScrollbarState { position: scroll as usize, ..self.state },
            ..self
        }
    }

    /// Started from where the last lines are shown. Without a known height that is the last
    /// line itself.
    pub open spec fn at_bottom(self) -> LogEntryView {
        match self.viewport_height {
            Some(h) => self.at(less(self.last_place(), h as nat)),
            None => self.at(self.last_place()),
        }
    }

    /// With one more line. The last lines are shown where they were to be, and where the place
    /// to start from is near them.
    pub open spec fn with_log(self, line: Seq<char>) -> LogEntryView {
        let more = LogEntryView {
            logs: self.logs.push(line),
            state: ScrollbarState {
                content_length: (self.logs.len() + 1) as usize,
                ..self.state
            },
            ..self
        };
        if more.follow || more.near_bottom() {
            more.at_bottom()
        } else {
            more
        }
    }

    /// Some lines up: the last lines are no longer to be shown.
    pub open spec fn up(self, lines: nat) -> LogEntryView {
        LogEntryView { follow: false, ..self }.at(less(self.scroll, lines))
    }

    /// Some lines down, but not behind the last one. Near it the last lines are to be shown.
    pub open spec fn down(self, lines: nat) -> LogEntryView {
        let last = self.last_place();
        let moved = self.at(
            if self.scroll + lines <= last {
                self.scroll + lines
            } else {
                last
            },
        );
        LogEntryView { follow: moved.follow || moved.near_bottom(), ..moved }
    }

    /// Whether another line can come without the place to start from growing too large to be
    /// compared.
    pub open spec fn can_add(self) -> bool {
        self.follow || self.scroll + TOLERANCE as nat <= u16::MAX
    }

    /// Whether the place to start from can move some lines down.
    pub open spec fn can_go_down(self, lines: nat) -> bool {
        self.scroll + lines <= u16::MAX && self.down(lines).scroll + TOLERANCE as nat <= u16::MAX
    }

    /// After a key that moves windows only.
    pub open spec fn after_key(self, key: Key) -> LogEntryView {
        if key == Key::PageDown {
            self.down(10)
        } else if key == Key::PageUp {
            self.up(10)
        } else if key == Key::End {
            LogEntryView { follow: true, ..self }.at_bottom()
        } else if key == Key::Home {
            LogEntryView { follow: false, scroll: 0, ..self }
        } else if self.follow {
            LogEntryView { follow: false, ..self }
        } else {
            LogEntryView { follow: true, ..self }.at_bottom()
        }
    }
}

impl LogEntry {
    /// The lines.
    pub fn output(&self) -> (r: &[String])
        ensures
            text::texts(r@) == self@.logs,
    {
        self.logs.as_slice()
    }

    /// Takes all lines away.
    pub fn clear(&mut self)
        ensures
            final(self)@ == (LogEntryView {
                follow: old(self)@.follow,
                viewport_height: old(self)@.viewport_height,
                ..LogEntryView::fresh()
            }),
    {
        self.logs.clear();
        self.scroll = 0;
        self.state = ScrollbarState::new();
        assert(self@.logs =~= Seq::empty());
    }

    /// No lines.
    pub fn new() -> (r: Self)
        ensures
            r@ == LogEntryView::fresh(),
    {
        let r = LogEntry {
            scroll: 0,
            state: ScrollbarState::new(),
            logs: Vec::new(),
            follow: true,
            viewport_height: None,
        };
        assert(r@.logs =~= Seq::empty());
        r
    }

    /// How many lines can be shown.
    pub fn set_viewport_height(&mut self, height: u16)
        ensures
            final(self)@ == (LogEntryView { viewport_height: Some(height), ..old(self)@ }),
    {
        self.viewport_height = Some(height);
    }

    fn last_place(&self) -> (r: u16)
        ensures
            r == self@.last_place(),
    {
        let n: usize = self.logs.len().saturating_sub(1);
        let r: u16 = #[verifier::truncate] (n as u16);
        assert(n as u16 == n % 65536) by (bit_vector);
        assert(self@.logs.len() == self.logs@.len());
        r
    }

    fn is_near_bottom(&self) -> (r: bool)
        requires
            self@.scroll + TOLERANCE as nat <= u16::MAX,
        ensures
            r == self@.near_bottom(),
    {
        let max_scroll = self.last_place();
        self.scroll + TOLERANCE >= max_scroll
    }

    /// Adds a line.
    pub fn add_log(&mut self, line: String)
        requires
            old(self)@.can_add(),
        ensures
            final(self)@ == old(self)@.with_log(line@),
    {
        self.logs.push(line);
        self.state.content_length = self.logs.len();
        proof {
            assert(self@.logs =~= old(self)@.logs.push(line@));
            assert(self@.logs.len() == self.logs@.len());
        }
        if self.follow || self.is_near_bottom() {
            self.scroll_to_bottom();
        }
    }

    /// Shows the last lines.
    pub fn scroll_to_bottom(&mut self)
        ensures
            final(self)@ == old(self)@.at_bottom(),
    {
        let max_scroll = self.last_place();
        match self.viewport_height {
            Some(viewport_height) => {
                if max_scroll > viewport_height {
                    self.scroll = max_scroll - viewport_height;
                } else {
                    self.scroll = 0;
                }
            },
            None => {
                self.scroll = max_scroll;
            },
        }
        self.state.position = self.scroll as usize;
    }

    /// Moves some lines up.
    pub fn scroll_up(&mut self, lines: u16)
        ensures
            final(self)@ == old(self)@.up(lines as nat),
    {
        self.follow = false;
        self.scroll = self.scroll.saturating_sub(lines);
        self.state.position = self.scroll as usize;
    }

    /// Moves some lines down.
    pub fn scroll_down(&mut self, lines: u16)
        requires
            old(self)@.can_go_down(lines as nat),
        ensures
            final(self)@ == old(self)@.down(lines as nat),
    {
        let max_scroll = self.last_place();
        let to = self.scroll + lines;
        self.scroll = if to <= max_scroll {
            to
        } else {
            max_scroll
        };
        self.state.position = self.scroll as usize;
        if self.is_near_bottom() {
            self.follow = true;
        }
    }

    fn handle_key(&mut self, key: Key)
        requires
            moves_window(key),
            key == Key::PageDown ==> old(self)@.can_go_down(10),
        ensures
            final(self)@ == old(self)@.after_key(key),
    {
        match key {
            Key::PageDown => self.scroll_down(10),
            Key::PageUp => self.scroll_up(10),
            Key::End => {
                self.follow = true;
                self.scroll_to_bottom();
            },
            Key::Home => {
                self.follow = false;
                self.scroll = 0;
            },
            _ => {
                self.follow = !self.follow;
                if self.follow {
                    self.scroll_to_bottom();
                }
            },
        }
    }

    /// The first line that is drawn: not behind the last one.
    pub fn clamped_scroll(&self) -> (r: u16)
        ensures
            r == (if self@.scroll <= self@.last_place() {
                self@.scroll
            } else {
                self@.last_place()
            }),
    {
        let max_scroll = self.last_place();
        if self.scroll <= max_scroll {
            self.scroll
        } else {
            max_scroll
        }
    }
}

/// Whether a key moves windows only.
pub open spec fn moves_window(key: Key) -> bool {
    key == Key::PageDown || key == Key::PageUp || key == Key::End || key == Key::Home || key
        == Key::Char('f')
}

/// A task as the interface knows it.
pub struct TuiTask {
    pub name: String,
    pub status: TaskStatus,
    pub output: LogEntry,
}

/// What a [`TuiTask`] says.
#[verifier::ext_equal]
pub struct TuiTaskView {
    pub name: Seq<char>,
    pub status: TaskStatus,
    pub output: LogEntryView,
}

impl View for TuiTask {
    type V = TuiTaskView;

    open spec fn view(&self) -> TuiTaskView {
        TuiTaskView { name: self.name@, status: self.status, output: self.output@ }
    }
}

/// What is shown.
pub struct UiState {
    pub show_log: bool,
    pub selected: usize,
    pub total_tasks: usize,
}

/// The interface.
pub struct TuiInner {
    pub _tasks: Vec<TuiTask>,
    pub _log: LogEntry,
    pub state: UiState,
}

/// What a [`TuiInner`] says.
#[verifier::ext_equal]
pub struct TuiInnerView {
    pub tasks: Seq<TuiTaskView>,
    pub log: LogEntryView,
    pub show_log: bool,
    pub selected: nat,
    pub total_tasks: nat,
}

/// What tasks say.
pub open spec fn tasks_view(v: Seq<TuiTask>) -> Seq<TuiTaskView> {
    v.map_values(|t: TuiTask| t@)
}

impl View for TuiInner {
    type V = TuiInnerView;

    open spec fn view(&self) -> TuiInnerView {
        TuiInnerView {
            tasks: tasks_view(self._tasks@),
            log: self._log@,
            show_log: self.state.show_log,
            selected: self.state.selected as nat,
            total_tasks: self.state.total_tasks as nat,
        }
    }
}

/// The names of tasks.
pub open spec fn names_of(tasks: Seq<TuiTaskView>) -> Seq<Seq<char>> {
    tasks.map_values(|t: TuiTaskView| t.name)
}

impl TuiInnerView {
    /// The task that is selected.
    pub open spec fn selected_task(self) -> Option<TuiTaskView> {
        if self.selected < self.tasks.len() {
            Some(self.tasks[self.selected as int])
        } else {
            None
        }
    }

    /// Whether what a key asks for can be done: places stay small enough to be counted.
    pub open spec fn accepts_key(self, key: Key) -> bool {
        key == Key::PageDown ==> if self.show_log {
            self.log.can_go_down(10)
        } else {
            self.selected_task() matches Some(t) ==> t.output.can_go_down(10)
        }
    }

    /// After a key.
    pub open spec fn after_key(self, key: Key) -> TuiInnerView {
        if key == Key::Char('l') {
            TuiInnerView { show_log: !self.show_log, ..self }
        } else if key == Key::Char('c') {
            TuiInnerView {
                log: LogEntryView {
                    follow: self.log.follow,
                    viewport_height: self.log.viewport_height,
                    ..LogEntryView::fresh()
                },
                ..self
            }
        } else if key == Key::Up || key == Key::Char('k') {
            TuiInnerView { selected: less(self.selected, 1), ..self }
        } else if key == Key::Down || key == Key::Char('j') {
            TuiInnerView {
                selected: if self.selected + 1 <= less(self.total_tasks, 1) {
                    self.selected + 1
                } else {
                    less(self.total_tasks, 1)
                },
                ..self
            }
        } else if moves_window(key) {
            if self.show_log {
                TuiInnerView { log: self.log.after_key(key), ..self }
            } else {
                match self.selected_task() {
                    Some(t) => TuiInnerView {
                        tasks: self.tasks.update(
                            self.selected as int,
                            TuiTaskView { output: t.output.after_key(key), ..t },
                        ),
                        ..self
                    },
                    None => self,
                }
            }
        } else {
            self
        }
    }

    /// What a key sends.
    pub open spec fn sent_by(self, key: Key) -> Option<AppEventView> {
        if key == Key::Char('q') {
            Some(AppEventView::Quit)
        } else if key == Key::Char('r') || key == Key::Enter {
            match self.selected_task() {
                Some(t) => Some(AppEventView::TuiRestart(t.name)),
                None => None,
            }
        } else if key == Key::Char('s') {
            match self.selected_task() {
                Some(t) => if t.status is Running {
                    Some(AppEventView::TuiStop(t.name))
                } else {
                    Some(AppEventView::TuiStart(t.name))
                },
                None => None,
            }
        } else {
            None
        }
    }

    /// Whether an event can be taken in.
    pub open spec fn accepts_event(self, event: AppEventView) -> bool {
        match event {
            AppEventView::TaskOutput { name, .. } => {
                let i = text::first_at(names_of(self.tasks), name);
                i < self.tasks.len() ==> self.tasks[i].output.can_add()
            },
            AppEventView::Log(_) => self.log.can_add(),
            _ => true,
        }
    }

    /// After an event: a status and a line of output go to the first task of that name, a
    /// message goes to the log.
    pub open spec fn after_event(self, event: AppEventView) -> TuiInnerView {
        match event {
            AppEventView::TaskStatus { name, status } => {
                let i = text::first_at(names_of(self.tasks), name);
                if i < self.tasks.len() {
                    TuiInnerView {
                        tasks: self.tasks.update(i, TuiTaskView { status, ..self.tasks[i] }),
                        ..self
                    }
                } else {
                    self
                }
            },
            AppEventView::TaskOutput { name, output, .. } => {
                let i = text::first_at(names_of(self.tasks), name);
                if i < self.tasks.len() {
                    TuiInnerView {
                        tasks: self.tasks.update(
                            i,
                            TuiTaskView {
                                output: self.tasks[i].output.with_log(output),
                                ..self.tasks[i]
                            },
                        ),
                        ..self
                    }
                } else {
                    self
                }
            },
            AppEventView::Log(message) => TuiInnerView { log: self.log.with_log(message), ..self },
            _ => self,
        }
    }
}

impl TuiInner {
    /// An interface for some tasks, of which none has started.
    pub fn new(names: &Vec<String>) -> (r: Self)
        ensures
            r@ == (TuiInnerView {
                tasks: text::texts(names@).map_values(
                    |n: Seq<char>|
                        TuiTaskView {
                            name: n,
                            status: TaskStatus::NotStarted,
                            output: LogEntryView::fresh(),
                        },
                ),
                log: LogEntryView::fresh(),
                show_log: false,
                selected: 0,
                total_tasks: names@.len(),
            }),
    {
        let ghost want = text::texts(names@).map_values(
            |n: Seq<char>|
                TuiTaskView {
                    name: n,
                    status: TaskStatus::NotStarted,
                    output: LogEntryView::fresh(),
                },
        );
        let mut tasks: Vec<TuiTask> = Vec::new();
        let mut i: usize = 0;
        assert(tasks_view(tasks@) =~= want.take(0));
        while i < names.len()
            invariant
                i <= names@.len(),
                want == text::texts(names@).map_values(
                    |n: Seq<char>|
                        TuiTaskView {
                            name: n,
                            status: TaskStatus::NotStarted,
                            output: LogEntryView::fresh(),
                        },
                ),
                tasks_view(tasks@) == want.take(i as int),
            decreases names@.len() - i,
        {
            let ghost before = tasks_view(tasks@);
            tasks.push(
                TuiTask {
                    name: names[i].clone(),
                    status: TaskStatus::NotStarted,
                    output: LogEntry::new(),
                },
            );
            proof {
                assert(text::texts(names@)[i as int] == names@[i as int]@);
                assert(tasks_view(tasks@) =~= before.push(want[i as int]));
                assert(want.take(i + 1) =~= want.take(i as int).push(want[i as int]));
            }
            i += 1;
        }
        assert(want.take(i as int) =~= want);
        TuiInner {
            _tasks: tasks,
            _log: LogEntry::new(),
            state: UiState { show_log: false, selected: 0, total_tasks: names.len() },
        }
    }

    /// A key was pressed. The result is what is sent.
    pub fn handle_key(&mut self, key: Key) -> (r: Option<AppEvent>)
        requires
            old(self)@.accepts_key(key),
        ensures
            final(self)@ == old(self)@.after_key(key),
            match r {
                Some(e) => old(self)@.sent_by(key) == Some(e@),
                None => old(self)@.sent_by(key) is None,
            },
    {
        let ghost start = self@;
        assert(start.tasks.len() == self._tasks@.len());
        match key {
            Key::Char('q') => Some(AppEvent::Quit),
            Key::Char('l') => {
                self.state.show_log = !self.state.show_log;
                None
            },
            Key::Char('c') => {
                self._log.clear();
                None
            },
            Key::Char('r') | Key::Enter => {
                if self.state.selected < self._tasks.len() {
                    let t = &self._tasks[self.state.selected];
                    assert(start.tasks[self.state.selected as int] == t@);
                    Some(AppEvent::TuiRestart(t.name.clone()))
                } else {
                    None
                }
            },
            Key::Char('s') => {
                if self.state.selected < self._tasks.len() {
                    let t = &self._tasks[self.state.selected];
                    assert(start.tasks[self.state.selected as int] == t@);
                    if t.status == TaskStatus::Running {
                        Some(AppEvent::TuiStop(t.name.clone()))
                    } else {
                        Some(AppEvent::TuiStart(t.name.clone()))
                    }
                } else {
                    None
                }
            },
            Key::Up | Key::Char('k') => {
                self.state.selected = self.state.selected.saturating_sub(1);
                None
            },
            Key::Down | Key::Char('j') => {
                let last: usize = self.state.total_tasks.saturating_sub(1);
                self.state.selected = if self.state.selected < last {
                    self.state.selected + 1
                } else {
                    last
                };
                None
            },
            Key::PageDown | Key::PageUp | Key::End | Key::Home | Key::Char('f') => {
                if self.state.show_log {
                    self._log.handle_key(key);
                } else if self.state.selected < self._tasks.len() {
                    let i: usize = self.state.selected;
                    assert(start.tasks[i as int] == self._tasks@[i as int]@);
                    self._tasks[i].output.handle_key(key);
                    assert(self@.tasks =~= start.after_key(key).tasks);
                }
                None
            },
            _ => None,
        }
    }

    fn place_of(&self, name: &str) -> (r: usize)
        ensures
            r == text::first_at(names_of(self@.tasks), name@),
            r <= self._tasks@.len(),
    {
        let ghost names = names_of(self@.tasks);
        let mut i: usize = 0;
        while i < self._tasks.len()
            invariant
                i <= self._tasks@.len(),
                names == names_of(self@.tasks),
                forall|k: int| 0 <= k < i ==> names[k] != name@,
            decreases self._tasks@.len() - i,
        {
            assert(names[i as int] == self._tasks@[i as int].name@);
            if *self._tasks[i].name.as_str() == *name {
                proof {
                    text::lemma_is_first_at(names, name@, i as int);
                }
                return i;
            }
            i += 1;
        }
        proof {
            text::lemma_is_first_at(names, name@, i as int);
        }
        i
    }

    /// Takes in an event. The result is whether the interface ends.
    pub fn run_app(&mut self, event: &AppEvent) -> (r: bool)
        requires
            old(self)@.accepts_event(event@),
        ensures
            final(self)@ == old(self)@.after_event(event@),
            r == (event@ is Quit),
    {
        let ghost start = self@;
        assert(start.tasks.len() == self._tasks@.len());
        match event {
            AppEvent::TaskStatus(task) => {
                let i = self.place_of(task.name.as_str());
                if i < self._tasks.len() {
                    self._tasks[i].status = task.status;
                    assert(self@.tasks =~= start.after_event(event@).tasks);
                }
                false
            },
            AppEvent::TaskOutput(e) => {
                let i = self.place_of(e.name.as_str());
                if i < self._tasks.len() {
                    assert(start.tasks[i as int] == self._tasks@[i as int]@);
                    self._tasks[i].output.add_log(e.output.clone());
                    assert(self@.tasks =~= start.after_event(event@).tasks);
                }
                false
            },
            AppEvent::Log(message) => {
                self._log.add_log(message.clone());
                false
            },
            AppEvent::Quit => true,
            _ => false,
        }
    }
}

/// The entry of a task in the list.
pub open spec fn task_entry(task: TuiTaskView, selected: bool) -> SpanView {
    SpanView {
        content: (if task.status is Running {
            "● RUNNING"@
        } else {
            "○ STOPPED"@
        }) + " "@ + task.name,
        fg: if selected {
            Some(Color::Yellow)
        } else {
            None
        },
        bold: selected,
        dim: false,
        reversed: false,
    }
}

/// What a frame shows besides the lines.
pub struct UiFrame {
    pub entries: Vec<Span>,
    /// What stands in the status box: the message that came last.
    pub status: String,
}

impl TuiInner {
    /// What a frame shows besides the lines of the selected task and of the log.
    pub fn ui(&self) -> (r: UiFrame)
        ensures
            row_view(r.entries@) == Seq::new(
                self@.tasks.len(),
                |i: int| task_entry(self@.tasks[i], i == self@.selected),
            ),
            r.status@ == (if self@.log.logs.len() > 0 {
                self@.log.logs.last()
            } else {
                ""@
            }),
    {
        let ghost want = Seq::new(
            self@.tasks.len(),
            |i: int| task_entry(self@.tasks[i], i == self@.selected),
        );
        let mut entries: Vec<Span> = Vec::new();
        let mut i: usize = 0;
        assert(row_view(entries@) =~= want.take(0));
        while i < self._tasks.len()
            invariant
                i <= self._tasks@.len(),
                want == Seq::new(
                    self@.tasks.len(),
                    |i: int| task_entry(self@.tasks[i], i == self@.selected),
                ),
                row_view(entries@) == want.take(i as int),
            decreases self._tasks@.len() - i,
        {
            let ghost before = row_view(entries@);
            let t = &self._tasks[i];
            assert(self@.tasks[i as int] == t@);
            let selected = i == self.state.selected;
            let status = if t.status == TaskStatus::Running {
                "● RUNNING"
            } else {
                "○ STOPPED"
            };
            let fg = if selected {
                Some(Color::Yellow)
            } else {
                None
            };
            let content = text::concat3(status, " ", t.name.as_str());
            entries.push(Span { content, fg, bold: selected, dim: false, reversed: false });
            proof {
                assert(row_view(entries@) =~= before.push(want[i as int]));
                assert(want.take(i + 1) =~= want.take(i as int).push(want[i as int]));
            }
            i += 1;
        }
        assert(want.take(i as int) =~= want);
        let n: usize = self._log.logs.len();
        assert(self@.log.logs.len() == n);
        let status = if n > 0 {
            self._log.logs[n - 1].clone()
        } else {
            "".to_owned()
        };
        UiFrame { entries, status }
    }
}

/// The shares of the upper and the lower part, then those of the log and of what stands below
/// it.
pub open spec fn shares(show_log: bool) -> (Seq<Constraint>, Seq<Constraint>) {
    if show_log {
        (
            seq![Constraint::Percentage(70), Constraint::Percentage(30)],
            seq![Constraint::Percentage(67), Constraint::Percentage(33)],
        )
    } else {
        (
            seq![Constraint::Percentage(90), Constraint::Percentage(10)],
            seq![Constraint::Percentage(0), Constraint::Percentage(100)],
        )
    }
}

/// The shares of the upper and the lower part, then those of the log and of what stands below
/// it.
pub fn band_constraints(show_log: bool) -> (r: (Vec<Constraint>, Vec<Constraint>))
    ensures
        (r.0@, r.1@) == shares(show_log),
{
    let r = if show_log {
        (
            vec![Constraint::Percentage(70), Constraint::Percentage(30)],
            vec![Constraint::Percentage(67), Constraint::Percentage(33)],
        )
    } else {
        (
            vec![Constraint::Percentage(90), Constraint::Percentage(10)],
            vec![Constraint::Percentage(0), Constraint::Percentage(100)],
        )
    };
    assert(r.0@ =~= shares(show_log).0);
    assert(r.1@ =~= shares(show_log).1);
    r
}

/// The shares of two columns.
pub fn column_constraints(left: u16, right: u16) -> (r: Vec<Constraint>)
    ensures
        r@ == seq![Constraint::Percentage(left), Constraint::Percentage(right)],
{
    let r = vec![Constraint::Percentage(left), Constraint::Percentage(right)];
    assert(r@ =~= seq![Constraint::Percentage(left), Constraint::Percentage(right)]);
    r
}

/// Where everything is drawn.
pub struct UiAreas {
    pub tasks: Rect,
    pub output: Rect,
    pub log: Rect,
    pub status: Rect,
    pub commands: Rect,
}

/// Where everything is drawn, given how the area is divided into an upper and a lower part,
/// the upper one into columns, the lower one into bands and the last of these into columns.
pub open spec fn areas_of(
    bands: Seq<Rect>,
    columns: Seq<Rect>,
    low: Seq<Rect>,
    bar: Seq<Rect>,
) -> UiAreas {
    UiAreas {
        tasks: columns[0],
        output: columns[1],
        log: low[0],
        status: bar[0],
        commands: bar[1],
    }
}

/// Where everything is drawn: the list and the output share the upper part, the log takes all
/// of the width below it, and the status and the keys share what is left.
pub fn ui_areas(area: Rect, show_log: bool) -> (r: UiAreas)
    ensures
        exists|bands: Seq<Rect>, columns: Seq<Rect>, low: Seq<Rect>, bar: Seq<Rect>| #[trigger]
            areas_of(bands, columns, low, bar) == r && divided(
                Direction::Vertical,
                shares(show_log).0,
                area,
                bands,
            ) && divided(
                Direction::Horizontal,
                seq![Constraint::Percentage(35), Constraint::Percentage(65)],
                bands[0],
                columns,
            ) && divided(Direction::Vertical, shares(show_log).1, bands[1], low) && divided(
                Direction::Horizontal,
                seq![Constraint::Percentage(50), Constraint::Percentage(50)],
                low[1],
                bar,
            ),
{
    let (upper, lower) = band_constraints(show_log);
    let bands = split(Direction::Vertical, &upper, area);
    let columns = split(Direction::Horizontal, &column_constraints(35, 65), bands[0]);
    let low = split(Direction::Vertical, &lower, bands[1]);
    let bar = split(Direction::Horizontal, &column_constraints(50, 50), low[1]);
    let r = UiAreas {
        tasks: columns[0],
        output: columns[1],
        log: low[0],
        status: bar[0],
        commands: bar[1],
    };
    assert(areas_of(bands@, columns@, low@, bar@) == r);
    r
}

/// Where the last lines are to be shown and the height is known, the last line stands in the
/// window behind a line that came, as long as places can be counted.
pub proof fn lemma_follow_shows_last(v: LogEntryView, line: Seq<char>, height: u16)
    requires
        v.follow,
        v.viewport_height == Some(height),
        v.logs.len() < 65536,
    ensures
        v.with_log(line).logs.last() == line,
        v.with_log(line).scroll <= v.logs.len() <= v.with_log(line).scroll + height,
{
}

/// Lines that come while the place to start from is far from the end leave it where it is.
pub proof fn lemma_paused_stays(v: LogEntryView, line: Seq<char>)
    requires
        !v.follow,
        v.logs.len() < 65536,
        v.scroll + TOLERANCE < v.logs.len(),
    ensures
        v.with_log(line).scroll == v.scroll,
        !v.with_log(line).follow,
{
}

/// A task is found again under its name after every event, and its lines only ever grow.
pub proof fn lemma_events_keep_tasks(s: TuiInnerView, event: AppEventView)
    ensures
        names_of(s.after_event(event).tasks) == names_of(s.tasks),
        forall|i: int|
            0 <= i < s.tasks.len() ==> s.tasks[i].output.logs.is_prefix_of(
                (#[trigger] s.after_event(event).tasks[i]).output.logs,
            ),
{
    match event {
        AppEventView::TaskStatus { name, .. } => text::lemma_first_at(names_of(s.tasks), name),
        AppEventView::TaskOutput { name, .. } => text::lemma_first_at(names_of(s.tasks), name),
        _ => {},
    }
    assert(names_of(s.after_event(event).tasks) =~= names_of(s.tasks));
    assert forall|i: int| 0 <= i < s.tasks.len() implies s.tasks[i].output.logs.is_prefix_of(
        (#[trigger] s.after_event(event).tasks[i]).output.logs,
    ) by {
        let a = s.tasks[i].output.logs;
        let b = s.after_event(event).tasks[i].output.logs;
        assert(a =~= b.subrange(0, a.len() as int));
    }
}

} // verus!
