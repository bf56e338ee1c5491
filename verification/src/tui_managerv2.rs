//! The terminal user interface: which window has the keyboard, what each key does and what
//! is shown.

use vstd::prelude::*;

use crate::clock::seconds;
use crate::clock::seconds_between;
use crate::log_pane::LogPane;
use crate::log_pane::PaneView;
use crate::log_pane::ScrollbarState;
use crate::strmap::StrMap;
use crate::task::CommandView;
use crate::task::DetailsView;
use crate::task::TaskCommand;
use crate::task::TaskStatus;
use crate::task::TaskWithDetails;
use crate::task::commands_view;
use crate::task::refs_view;
use crate::task::shown_commands;
use crate::task::sorted_commands;
use crate::task_store::details_view;
use crate::text;

verus! {

/// For how many seconds a quit waits to be confirmed.
pub const QUIT_CONFIRM_SECONDS: i64 = 5;

/// Rows moved per wheel notch when real mouse capture is on.
pub const WHEEL_ROWS: usize = 3;

/// Which window owns the keyboard.
#[derive(Debug, Clone, Copy, PartialEq, Eq, Structural)]
pub enum Focus {
    Tasks,
    Logs,
    QuitConfirm,
}

/// The shortcuts of a window and what they do. The entry that tells the mouse mode is marked
/// with a text that starts with a null character.
pub open spec fn keymap_of(f: Focus) -> Seq<(Seq<char>, Seq<char>)> {
    match f {
        Focus::Tasks => seq![
            ("Enter"@, "Output"@),
            ("j/k"@, "Move"@),
            ("r"@, "Restart"@),
            ("s"@, "Stop/start"@),
            ("S"@, "Force stop"@),
            ("R"@, "Restart all"@),
            ("m"@, "\u{0}mouse"@),
            ("q"@, "Quit"@),
        ],
        Focus::Logs => seq![
            ("Esc"@, "Close"@),
            ("h/l"@, "Tabs"@),
            ("j/k"@, "Scroll"@),
            ("PgUp/PgDn"@, "Page"@),
            ("Home/End"@, "Jump"@),
            ("f"@, "Follow"@),
            ("s"@, "Stop/start"@),
            ("r"@, "Restart"@),
            ("S"@, "Force stop"@),
            ("m"@, "\u{0}mouse"@),
        ],
        Focus::QuitConfirm => seq![("q/Ctrl+C"@, "Quit"@), ("Esc"@, "Cancel"@)],
    }
}

/// What the entries of a keymap say.
pub open spec fn entries_view(v: Seq<(&'static str, &'static str)>) -> Seq<
    (Seq<char>, Seq<char>),
> {
    v.map_values(|e: (&'static str, &'static str)| (e.0@, e.1@))
}

impl Focus {
    /// The shortcuts of the window and what they do, the most useful first.
    pub fn keymap(&self) -> (r: Vec<(&'static str, &'static str)>)
        ensures
            entries_view(r@) == keymap_of(*self),
    {
        let r: Vec<(&'static str, &'static str)> = match self {
            Focus::Tasks => vec![
                ("Enter", "Output"),
                ("j/k", "Move"),
                ("r", "Restart"),
                ("s", "Stop/start"),
                ("S", "Force stop"),
                ("R", "Restart all"),
                ("m", "\u{0}mouse"),
                ("q", "Quit"),
            ],
            Focus::Logs => vec![
                ("Esc", "Close"),
                ("h/l", "Tabs"),
                ("j/k", "Scroll"),
                ("PgUp/PgDn", "Page"),
                ("Home/End", "Jump"),
                ("f", "Follow"),
                ("s", "Stop/start"),
                ("r", "Restart"),
                ("S", "Force stop"),
                ("m", "\u{0}mouse"),
            ],
            Focus::QuitConfirm => vec![("q/Ctrl+C", "Quit"), ("Esc", "Cancel")],
        };
        assert(entries_view(r@) =~= keymap_of(*self));
        r
    }
}

/// The output window. Tabs are the commands of one task, and every tab keeps its own scroll
/// position and follow flag.
pub struct LogsWindow {
    pub task_id: String,
    pub tab: usize,
    pub panes: StrMap<LogPane>,
}

/// What a [`LogsWindow`] holds.
#[verifier::ext_equal]
pub struct WindowView {
    pub task_id: Seq<char>,
    pub tab: nat,
    pub panes: Map<Seq<char>, PaneView>,
}

impl View for LogsWindow {
    type V = WindowView;

    open spec fn view(&self) -> WindowView {
        WindowView {
            task_id: self.task_id@,
            tab: self.tab as nat,
            panes: self.panes@.map_values(|p: LogPane| p@),
        }
    }
}

/// An empty pane that follows new output.
pub open spec fn empty_pane() -> PaneView {
    PaneView {
        rows: Seq::empty(),
        raw_len: 0,
        wrap_width: 0,
        scroll: 0,
        viewport_height: 0,
        follow: true,
        sb: ScrollbarState { content_length: 0, viewport_content_length: 0, position: 0 },
    }
}

impl WindowView {
    /// The pane of a command: an empty one where it was not shown yet.
    pub open spec fn pane(self, command_id: Seq<char>) -> PaneView {
        if self.panes.contains_key(command_id) {
            self.panes[command_id]
        } else {
            empty_pane()
        }
    }

    /// The window with another pane for a command.
    pub open spec fn with_pane(self, command_id: Seq<char>, pane: PaneView) -> WindowView {
        WindowView { panes: self.panes.insert(command_id, pane), ..self }
    }
}

impl LogsWindow {
    /// Every pane is well-formed.
    pub open spec fn wf(&self) -> bool {
        &&& self.panes.wf()
        &&& forall|k: Seq<char>| #[trigger] self.panes@.contains_key(k) ==> self.panes@[k].wf()
    }

    /// A window on the output of a task, at its first tab.
    pub fn new(task_id: String) -> (r: Self)
        ensures
            r.wf(),
            r@ == (WindowView { task_id: task_id@, tab: 0, panes: Map::empty() }),
    {
        let r = LogsWindow { task_id, tab: 0, panes: StrMap::new() };
        assert(r@.panes =~= Map::<Seq<char>, PaneView>::empty());
        r
    }

    /// The pane of a command, which is added where it was not shown yet.
    pub fn pane_mut(&mut self, command_id: &str) -> (r: &mut LogPane)
        requires
            old(self).wf(),
        ensures
            r.wf(),
            r@ == old(self)@.pane(command_id@),
            final(r).wf() ==> final(self).wf(),
            final(self)@ == old(self)@.with_pane(command_id@, final(r)@),
    {
        if !self.panes.contains_key(command_id) {
            self.panes.insert(command_id.to_owned(), LogPane::new());
        }
        let ghost mid = *self;
        match self.panes.get_mut(command_id) {
            Some(pane) => {
                assert(after_borrow(*self).panes@ == mid.panes@.insert(command_id@, *final(pane)));
                assert(after_borrow(*self)@.panes =~= old(self)@.panes.insert(
                    command_id@,
                    final(pane)@,
                ));
                pane
            },
            None => vstd::pervasive::unreached(),
        }
    }
}

/// What the interface remembers between two keys.
pub struct State {
    pub selected_task_id: Option<String>,
    pub focus: Vec<Focus>,
    pub logs: Option<LogsWindow>,
    pub last_key_log: Option<String>,
    /// When the user asked to quit, in nanoseconds since 1970.
    pub quit: Option<i64>,
}

/// What a [`State`] holds.
#[verifier::ext_equal]
pub struct StateView {
    pub selected_task_id: Option<Seq<char>>,
    pub focus: Seq<Focus>,
    pub logs: Option<WindowView>,
    pub last_key_log: Option<Seq<char>>,
    pub quit: Option<i64>,
}

/// What an optional window holds.
pub open spec fn window_view(w: Option<LogsWindow>) -> Option<WindowView> {
    match w {
        Some(x) => Some(x@),
        None => None,
    }
}

impl View for State {
    type V = StateView;

    open spec fn view(&self) -> StateView {
        StateView {
            selected_task_id: text::opt_text(self.selected_task_id),
            focus: self.focus@,
            logs: window_view(self.logs),
            last_key_log: text::opt_text(self.last_key_log),
            quit: self.quit,
        }
    }
}

impl StateView {
    /// The window that owns the keyboard.
    pub open spec fn top(self) -> Focus {
        if self.focus.len() > 0 {
            self.focus.last()
        } else {
            Focus::Tasks
        }
    }

    /// The state after a window was opened on top of the others.
    pub open spec fn pushed(self, f: Focus) -> StateView {
        if self.top() == f {
            self
        } else {
            StateView { focus: self.focus.push(f), ..self }
        }
    }

    /// The state after the window on top was closed. The last one stays.
    pub open spec fn popped(self) -> StateView {
        if self.focus.len() > 1 {
            StateView { focus: self.focus.drop_last(), ..self }
        } else {
            self
        }
    }

    /// The state after something was said about a key.
    pub open spec fn told(self, message: Seq<char>) -> StateView {
        StateView { last_key_log: Some(message), ..self }
    }
}

impl State {
    /// The output window is well-formed.
    pub open spec fn wf(&self) -> bool {
        self.logs matches Some(w) ==> w.wf()
    }

    /// Only the list of tasks is open, and nothing is selected.
    pub fn new() -> (r: Self)
        ensures
            r.wf(),
            r@ == (StateView {
                selected_task_id: None,
                focus: seq![Focus::Tasks],
                logs: None,
                last_key_log: None,
                quit: None,
            }),
    {
        let focus = vec![Focus::Tasks];
        assert(focus@ =~= seq![Focus::Tasks]);
        State { selected_task_id: None, focus, logs: None, last_key_log: None, quit: None }
    }

    /// The window that owns the keyboard.
    pub fn focus(&self) -> (r: Focus)
        ensures
            r == self@.top(),
    {
        if self.focus.len() > 0 {
            self.focus[self.focus.len() - 1]
        } else {
            Focus::Tasks
        }
    }

    /// Opens a window on top of the others, unless it is there already.
    pub fn push_focus(&mut self, f: Focus)
        requires
            old(self).wf(),
        ensures
            final(self).wf(),
            final(self)@ == old(self)@.pushed(f),
    {
        if self.focus() != f {
            self.focus.push(f);
        }
    }

    /// Closes the window on top. The last one stays.
    pub fn pop_focus(&mut self)
        requires
            old(self).wf(),
        ensures
            final(self).wf(),
            final(self)@ == old(self)@.popped(),
    {
        if self.focus.len() > 1 {
            self.focus.pop();
            assert(self.focus@ =~= old(self).focus@.drop_last());
        }
    }

    fn tell(&mut self, message: String)
        requires
            old(self).wf(),
        ensures
            final(self).wf(),
            final(self)@ == old(self)@.told(message@),
    {
        self.last_key_log = Some(message);
    }
}

/// Closing a window restores the keys of whatever was underneath it.
pub proof fn lemma_pop_restores(s: StateView, f: Focus)
    requires
        s.focus.len() > 0,
        s.top() != f,
    ensures
        s.pushed(f).top() == f,
        s.pushed(f).popped() == s,
{
    assert(s.focus.push(f).drop_last() =~= s.focus);
}

/// The base window can never be closed.
pub proof fn lemma_base_stays(s: StateView)
    requires
        s.focus.len() > 0,
    ensures
        s.popped().focus.len() > 0,
        s.popped().focus[0] == s.focus[0],
        s.focus.len() == 1 ==> s.popped() == s,
{
}

/// A key, as far as the interface tells keys apart.
#[derive(Debug, Clone, Copy, PartialEq, Eq, Structural)]
pub enum Key {
    Char(char),
    Left,
    Right,
    Up,
    Down,
    Tab,
    BackTab,
    Enter,
    Esc,
    PageUp,
    PageDown,
    Home,
    End,
    Other,
}

/// What a key asks to do to a command.
#[derive(Debug, Clone, Copy, PartialEq, Eq, Structural)]
pub enum CmdAction {
    Start,
    Stop,
    ForceStop,
    Restart,
}

/// A request to the task manager.
pub struct Dispatch {
    pub task_id: String,
    pub command_id: String,
    pub action: CmdAction,
}

/// What a [`Dispatch`] says.
pub struct DispatchView {
    pub task_id: Seq<char>,
    pub command_id: Seq<char>,
    pub action: CmdAction,
}

impl View for Dispatch {
    type V = DispatchView;

    open spec fn view(&self) -> DispatchView {
        DispatchView {
            task_id: self.task_id@,
            command_id: self.command_id@,
            action: self.action,
        }
    }
}

/// What the requests of a list say.
pub open spec fn dispatch_view(v: Seq<Dispatch>) -> Seq<DispatchView> {
    v.map_values(|d: Dispatch| d@)
}

/// The ids of the tasks of the list.
pub open spec fn listed_ids(tasks: Seq<DetailsView>) -> Seq<Seq<char>> {
    tasks.map_values(|d: DetailsView| d.task.id)
}

/// The place of the task with a given id: the number of tasks where there is none.
fn place_of_task(tasks: &Vec<TaskWithDetails>, id: &str) -> (r: usize)
    ensures
        r == text::first_at(listed_ids(details_view(tasks@)), id@),
        r <= tasks@.len(),
{
    let ghost ids = listed_ids(details_view(tasks@));
    let mut i: usize = 0;
    while i < tasks.len()
        invariant
            i <= tasks@.len(),
            ids == listed_ids(details_view(tasks@)),
            forall|k: int| 0 <= k < i ==> ids[k] != id@,
        decreases tasks@.len() - i,
    {
        assert(ids[i as int] == tasks@[i as int]._id@);
        if *tasks[i]._id.as_str() == *id {
            proof {
                text::lemma_is_first_at(ids, id@, i as int);
            }
            return i;
        }
        i += 1;
    }
    proof {
        text::lemma_is_first_at(ids, id@, i as int);
    }
    i
}

/// The command a log tab points at: nothing where there is no such tab.
pub open spec fn command_at(task: DetailsView, tab: int) -> Option<CommandView> {
    let cmds = shown_commands(task.task.commands);
    if 0 <= tab < cmds.len() {
        Some(cmds[tab])
    } else {
        None
    }
}

/// What an optional reference to a command says.
pub open spec fn opt_command(c: Option<&TaskCommand>) -> Option<CommandView> {
    match c {
        Some(x) => Some(x@),
        None => None,
    }
}

/// The command a log tab points at.
pub fn tab_command(task: &TaskWithDetails, tab: usize) -> (r: Option<&TaskCommand>)
    ensures
        opt_command(r) == command_at(task@, tab as int),
{
    let cmds = sorted_commands(&task._commands);
    assert(refs_view(cmds@).len() == cmds@.len());
    if tab < cmds.len() {
        assert(refs_view(cmds@)[tab as int] == cmds@[tab as int]@);
        Some(cmds[tab])
    } else {
        None
    }
}

/// `tab`, or the last of `n` tabs where there are fewer.
pub open spec fn clamped(tab: nat, n: nat) -> nat {
    if n == 0 {
        0
    } else if tab < n {
        tab
    } else {
        (n - 1) as nat
    }
}

fn clamp_tab(tab: usize, n: usize) -> (r: usize)
    ensures
        r == clamped(tab as nat, n as nat),
{
    if n == 0 {
        0
    } else if tab < n {
        tab
    } else {
        n - 1
    }
}

/// What is said and asked when a command is to be turned round: one that runs is stopped, one
/// that is about to start or stop is left alone, every other one is started.
pub open spec fn toggle(task_id: Seq<char>, cmd: CommandView) -> (Seq<char>, Seq<DispatchView>) {
    let label = cmd.command.label();
    if cmd.status is Stopping || cmd.status is Starting {
        (label + " is already "@ + cmd.status.shown(), Seq::empty())
    } else if cmd.status is Running {
        (
            "Stopping "@ + label,
            seq![DispatchView { task_id, command_id: cmd.id, action: CmdAction::Stop }],
        )
    } else {
        (
            "Starting "@ + label,
            seq![DispatchView { task_id, command_id: cmd.id, action: CmdAction::Start }],
        )
    }
}

/// Stops a running command, starts a finished one.
pub fn toggle_command(task_id: &str, cmd: &TaskCommand) -> (r: (String, Vec<Dispatch>))
    ensures
        (r.0@, dispatch_view(r.1@)) == toggle(task_id@, cmd@),
{
    let label = cmd._command.label().as_str();
    let mut out: Vec<Dispatch> = Vec::new();
    if cmd._status.is_stopping() || cmd._status.is_starting() {
        let shown = cmd._status.to_text();
        assert(dispatch_view(out@) =~= Seq::<DispatchView>::empty());
        return (text::concat3(label, " is already ", shown.as_str()), out);
    }
    let (message, action) = if cmd._status.is_running() {
        (text::concat("Stopping ", label), CmdAction::Stop)
    } else {
        (text::concat("Starting ", label), CmdAction::Start)
    };
    out.push(Dispatch { task_id: task_id.to_owned(), command_id: cmd._id.clone(), action });
    assert(dispatch_view(out@) =~= seq![
        DispatchView { task_id: task_id@, command_id: cmd@.id, action },
    ]);
    (message, out)
}

/// The same request for each of those commands that `wanted` picks, in order.
pub open spec fn requests(
    task_id: Seq<char>,
    cmds: Seq<CommandView>,
    wanted: spec_fn(TaskStatus) -> bool,
    action: CmdAction,
) -> Seq<DispatchView>
    decreases cmds.len(),
{
    if cmds.len() == 0 {
        Seq::empty()
    } else {
        let before = requests(task_id, cmds.drop_last(), wanted, action);
        if wanted(cmds.last().status) {
            before.push(DispatchView { task_id, command_id: cmds.last().id, action })
        } else {
            before
        }
    }
}

/// The selection `delta` places further in a list of `n`, round its ends.
pub open spec fn stepped(at: int, delta: int, n: int) -> int {
    (at + delta) % n
}

fn step_round(at: usize, delta: i32, n: usize) -> (r: usize)
    requires
        at < n,
    ensures
        r == stepped(at as int, delta as int, n as int),
        r < n,
{
    let size: u64 = if delta >= 0 {
        delta as u64
    } else {
        (-(delta as i64)) as u64
    };
    let k: u64 = size % (n as u64);
    proof {
        let q = (size as int) / (n as int);
        assert(size as int == n as int * q + k as int) by {
            vstd::arithmetic::div_mod::lemma_fundamental_div_mod(size as int, n as int);
        }
        if delta >= 0 {
            vstd::arithmetic::div_mod::lemma_mod_multiples_vanish(q, at + k, n as int);
            assert(at + delta == n as int * q + (at + k));
            if at + k < n {
                vstd::arithmetic::div_mod::lemma_small_mod((at + k) as nat, n as nat);
            } else {
                vstd::arithmetic::div_mod::lemma_mod_add_multiples_vanish(at + k - n, n as int);
                vstd::arithmetic::div_mod::lemma_small_mod((at + k - n) as nat, n as nat);
            }
        } else {
            vstd::arithmetic::div_mod::lemma_mod_multiples_vanish(-q, at - k, n as int);
            assert(n as int * (-q) == -(n as int * q)) by (nonlinear_arith);
            assert(at + delta == n as int * (-q) + (at - k));
            if at >= k {
                vstd::arithmetic::div_mod::lemma_small_mod((at - k) as nat, n as nat);
            } else {
                vstd::arithmetic::div_mod::lemma_mod_add_multiples_vanish(at - k, n as int);
                vstd::arithmetic::div_mod::lemma_small_mod((at - k + n) as nat, n as nat);
            }
        }
    }
    let step: usize = k as usize;
    if delta >= 0 {
        if step < n - at {
            at + step
        } else {
            step - (n - at)
        }
    } else if at >= step {
        at - step
    } else {
        n - (step - at)
    }
}

/// The state after the selection moved.
pub open spec fn selection_moved(s: StateView, delta: int, tasks: Seq<DetailsView>) -> StateView {
    if tasks.len() == 0 {
        s
    } else {
        let at = match s.selected_task_id {
            Some(id) => text::first_at(listed_ids(tasks), id),
            None => tasks.len() as int,
        };
        let next = if at < tasks.len() {
            stepped(at, delta, tasks.len() as int)
        } else {
            0
        };
        StateView { selected_task_id: Some(tasks[next].task.id), ..s }
    }
}

/// The terminal user interface.
pub struct TuiManager {
    pub _is_running: bool,
    pub _state: State,
    /// Whether the user wants real mouse capture.
    pub _mouse_wanted: bool,
}

/// What a [`TuiManager`] holds.
#[verifier::ext_equal]
pub struct TuiView {
    pub is_running: bool,
    pub state: StateView,
    pub mouse_wanted: bool,
}

impl View for TuiManager {
    type V = TuiView;

    open spec fn view(&self) -> TuiView {
        TuiView {
            is_running: self._is_running,
            state: self._state@,
            mouse_wanted: self._mouse_wanted,
        }
    }
}

/// What a key in the output window leads to, once the task and the tab are known: the state
/// and the requests. A tab that is not there any more counts as the last one.
pub open spec fn logs_key_in(
    s: StateView,
    window: WindowView,
    key: Key,
    task: DetailsView,
) -> (StateView, Seq<DispatchView>) {
    let cmds = shown_commands(task.task.commands);
    let tab = clamped(window.tab, cmds.len());
    let none = Seq::<DispatchView>::empty();
    match key {
        Key::Char('h') | Key::Left | Key::BackTab => (
            StateView {
                logs: Some(
                    WindowView {
                        tab: if tab > 0 {
                            (tab - 1) as nat
                        } else {
                            0
                        },
                        ..window
                    },
                ),
                ..s
            }.told("Previous tab"@),
            none,
        ),
        Key::Char('l') | Key::Right | Key::Tab => (
            StateView {
                logs: Some(WindowView { tab: clamped(tab + 1, cmds.len()), ..window }),
                ..s
            }.told("Next tab"@),
            none,
        ),
        _ => if tab >= cmds.len() {
            (s, none)
        } else {
            let cmd = cmds[tab as int];
            let label = cmd.command.label();
            match key {
                Key::Char('s') => {
                    let (message, asked) = toggle(task.task.id, cmd);
                    (s.told(message), asked)
                },
                Key::Char('S') => (
                    s.told("Force stopping "@ + label),
                    seq![
                        DispatchView {
                            task_id: task.task.id,
                            command_id: cmd.id,
                            action: CmdAction::ForceStop,
                        },
                    ],
                ),
                Key::Char('r') => (
                    s.told("Restarting "@ + label),
                    seq![
                        DispatchView {
                            task_id: task.task.id,
                            command_id: cmd.id,
                            action: CmdAction::Restart,
                        },
                    ],
                ),
                _ => {
                    let moved = pane_key(window.pane(cmd.id), key);
                    let next = StateView {
                        logs: Some(WindowView { tab, ..window }.with_pane(cmd.id, moved.0)),
                        ..s
                    };
                    match moved.1 {
                        Some(message) => (next.told(message), none),
                        None => (next, none),
                    }
                },
            }
        },
    }
}

/// What a key does to the pane of the open tab, and what is said of it.
pub open spec fn pane_key(pane: PaneView, key: Key) -> (PaneView, Option<Seq<char>>) {
    match key {
        Key::Char('f') => (
            pane.toggled(),
            Some(
                if pane.follow {
                    "Follow off"@
                } else {
                    "Follow on"@
                },
            ),
        ),
        Key::Char('k') | Key::Up => (pane.moved_up(1), Some("Scroll up"@)),
        Key::Char('j') | Key::Down => (pane.moved_down(1), Some("Scroll down"@)),
        Key::PageUp => (pane.moved_up(pane.page()), Some("Page up"@)),
        Key::PageDown => (pane.moved_down(pane.page()), Some("Page down"@)),
        Key::Home => (pane.at(0, false), Some("Top"@)),
        Key::End => (pane.at(pane.max_scroll(), true), Some("Bottom"@)),
        _ => (pane, None),
    }
}

/// What a key in the output window leads to.
pub open spec fn logs_key(s: StateView, key: Key, tasks: Seq<DetailsView>) -> (
    StateView,
    Seq<DispatchView>,
) {
    if key == Key::Esc {
        (
            StateView { logs: None, ..s }.told("Closed the output window"@).popped(),
            Seq::empty(),
        )
    } else {
        match s.logs {
            None => (s, Seq::empty()),
            Some(window) => {
                let t = text::first_at(listed_ids(tasks), window.task_id);
                if t < tasks.len() {
                    logs_key_in(s, window, key, tasks[t])
                } else {
                    (s, Seq::empty())
                }
            },
        }
    }
}

/// Whether a command is about to start or to stop.
pub open spec fn in_transition(s: TaskStatus) -> bool {
    s is Starting || s is Stopping
}

/// Every command of every task is to be restarted.
pub open spec fn restart_all(tasks: Seq<DetailsView>) -> Seq<DispatchView>
    decreases tasks.len(),
{
    if tasks.len() == 0 {
        Seq::empty()
    } else {
        restart_all(tasks.drop_last()) + requests(
            tasks.last().task.id,
            tasks.last().task.commands,
            |s: TaskStatus| true,
            CmdAction::Restart,
        )
    }
}

/// What a key on the selected task leads to.
pub open spec fn task_key(s: StateView, key: Key, task: DetailsView) -> (
    StateView,
    Seq<DispatchView>,
) {
    let id = task.task.id;
    let name = task.task.name;
    let cmds = task.task.commands;
    let shown = shown_commands(cmds);
    match key {
        Key::Char('r') => (
            s.told("Restarting "@ + name),
            requests(id, cmds, |x: TaskStatus| true, CmdAction::Restart),
        ),
        Key::Char('S') => (
            s.told("Force stopping "@ + name),
            requests(
                id,
                cmds,
                |x: TaskStatus| x is Running || x is Starting,
                CmdAction::ForceStop,
            ),
        ),
        Key::Char('s') => {
            let starts = requests(id, shown, |x: TaskStatus| x.finished(), CmdAction::Start);
            if exists|k: int| 0 <= k < cmds.len() && in_transition((#[trigger] cmds[k]).status) {
                (s.told(name + " is mid-transition, ignoring"@), Seq::empty())
            } else if starts.len() > 0 {
                (s.told("Starting "@ + name), starts)
            } else {
                (
                    s.told("Stopping "@ + name),
                    requests(id, shown, |x: TaskStatus| x is Running, CmdAction::Stop),
                )
            }
        },
        _ => (s, Seq::empty()),
    }
}

/// What a key in the list of tasks leads to.
pub open spec fn main_key(s: StateView, key: Key, tasks: Seq<DetailsView>) -> (
    StateView,
    Seq<DispatchView>,
) {
    let none = Seq::<DispatchView>::empty();
    match key {
        Key::Char('k') | Key::Up => (
            selection_moved(s, -1, tasks).told("Previous task"@),
            none,
        ),
        Key::Char('j') | Key::Down => (selection_moved(s, 1, tasks).told("Next task"@), none),
        Key::Esc => (StateView { selected_task_id: None, ..s }.told("Deselected"@), none),
        Key::Char('R') => (s.told("Restarting every task"@), restart_all(tasks)),
        Key::Enter => match s.selected_task_id {
            None => (s.told("No task selected"@), none),
            Some(id) => {
                let t = text::first_at(listed_ids(tasks), id);
                let name = if t < tasks.len() {
                    tasks[t].task.name
                } else {
                    id
                };
                (
                    StateView {
                        logs: Some(WindowView { task_id: id, tab: 0, panes: Map::empty() }),
                        ..s
                    }.told("Opened output for "@ + name).pushed(Focus::Logs),
                    none,
                )
            },
        },
        _ => match s.selected_task_id {
            None => (s, none),
            Some(id) => {
                let t = text::first_at(listed_ids(tasks), id);
                if t < tasks.len() {
                    task_key(s, key, tasks[t])
                } else {
                    (s, none)
                }
            },
        },
    }
}

/// Whether a key asks to quit.
pub open spec fn is_quit_key(key: Key, ctrl: bool) -> bool {
    key == Key::Char('q') || (key == Key::Char('c') && ctrl)
}

/// What a key leads to, whatever window is open.
pub open spec fn key_pressed(
    m: TuiView,
    key: Key,
    ctrl: bool,
    now: i64,
    tasks: Seq<DetailsView>,
) -> (TuiView, Seq<DispatchView>) {
    let none = Seq::<DispatchView>::empty();
    if is_quit_key(key, ctrl) {
        match m.state.quit {
            Some(asked) if seconds(now as int, asked as int) < QUIT_CONFIRM_SECONDS => (
                TuiView { is_running: false, ..m },
                none,
            ),
            _ => (
                TuiView {
                    state: StateView { quit: Some(now), ..m.state }.pushed(Focus::QuitConfirm),
                    ..m
                },
                none,
            ),
        }
    } else if key == Key::Char('m') {
        let message = if m.mouse_wanted {
            "Mouse capture off (terminal selection on)"@
        } else {
            "Mouse capture on (terminal selection off)"@
        };
        (TuiView { mouse_wanted: !m.mouse_wanted, state: m.state.told(message), ..m }, none)
    } else {
        let (state, asked) = match m.state.top() {
            Focus::QuitConfirm => if key == Key::Esc {
                (StateView { quit: None, ..m.state }.popped(), none)
            } else {
                (m.state, none)
            },
            Focus::Logs => logs_key(m.state, key, tasks),
            Focus::Tasks => main_key(m.state, key, tasks),
        };
        (TuiView { state, ..m }, asked)
    }
}

/// What a wheel notch leads to.
pub open spec fn wheel_turned(m: TuiView, up: bool, tasks: Seq<DetailsView>) -> TuiView {
    let s = m.state;
    match s.top() {
        Focus::Logs => match s.logs {
            None => m,
            Some(window) => {
                let t = text::first_at(listed_ids(tasks), window.task_id);
                if t >= tasks.len() {
                    m
                } else {
                    match command_at(tasks[t], window.tab as int) {
                        None => m,
                        Some(cmd) => {
                            let pane = window.pane(cmd.id);
                            let moved = if up {
                                pane.moved_up(WHEEL_ROWS as nat)
                            } else {
                                pane.moved_down(WHEEL_ROWS as nat)
                            };
                            TuiView {
                                state: StateView {
                                    logs: Some(window.with_pane(cmd.id, moved)),
                                    ..s
                                },
                                ..m
                            }
                        },
                    }
                }
            },
        },
        Focus::Tasks => TuiView {
            state: selection_moved(
                s,
                if up {
                    -1
                } else {
                    1
                },
                tasks,
            ),
            ..m
        },
        Focus::QuitConfirm => m,
    }
}

/// Whether a status is among those that are asked for.
#[derive(Debug, Clone, Copy, PartialEq, Eq, Structural)]
pub enum Wanted {
    All,
    Finished,
    Running,
    RunningOrStarting,
}

impl Wanted {
    /// Whether a status is asked for.
    pub open spec fn picks(self, s: TaskStatus) -> bool {
        match self {
            Wanted::All => true,
            Wanted::Finished => s.finished(),
            Wanted::Running => s is Running,
            Wanted::RunningOrStarting => s is Running || s is Starting,
        }
    }

    fn wants(&self, s: &TaskStatus) -> (r: bool)
        ensures
            r == self.picks(*s),
    {
        match self {
            Wanted::All => true,
            Wanted::Finished => s.is_finished(),
            Wanted::Running => s.is_running(),
            Wanted::RunningOrStarting => s.is_running() || s.is_starting(),
        }
    }
}

proof fn lemma_requests_same(
    task_id: Seq<char>,
    cmds: Seq<CommandView>,
    p: spec_fn(TaskStatus) -> bool,
    q: spec_fn(TaskStatus) -> bool,
    action: CmdAction,
)
    requires
        forall|s: TaskStatus| #[trigger] p(s) == q(s),
    ensures
        requests(task_id, cmds, p, action) == requests(task_id, cmds, q, action),
    decreases cmds.len(),
{
    if cmds.len() > 0 {
        lemma_requests_same(task_id, cmds.drop_last(), p, q, action);
        assert(p(cmds.last().status) == q(cmds.last().status));
    }
}

fn request_each(task_id: &str, cmds: &Vec<&TaskCommand>, wanted: Wanted, action: CmdAction) -> (r:
    Vec<Dispatch>)
    ensures
        dispatch_view(r@) == requests(
            task_id@,
            refs_view(cmds@),
            |s: TaskStatus| wanted.picks(s),
            action,
        ),
{
    let ghost p = |s: TaskStatus| wanted.picks(s);
    let ghost all = refs_view(cmds@);
    let mut out: Vec<Dispatch> = Vec::new();
    let mut i: usize = 0;
    assert(dispatch_view(out@) =~= requests(task_id@, all.take(0), p, action));
    while i < cmds.len()
        invariant
            i <= cmds@.len(),
            all == refs_view(cmds@),
            p == (|s: TaskStatus| wanted.picks(s)),
            dispatch_view(out@) == requests(task_id@, all.take(i as int), p, action),
        decreases cmds@.len() - i,
    {
        let ghost before = out@;
        proof {
            assert(all.take(i + 1).drop_last() =~= all.take(i as int));
            assert(all.take(i + 1).last() == cmds@[i as int]@);
        }
        if wanted.wants(&cmds[i]._status) {
            let d = Dispatch {
                task_id: task_id.to_owned(),
                command_id: cmds[i]._id.clone(),
                action,
            };
            let ghost view = d@;
            out.push(d);
            assert(dispatch_view(out@) =~= dispatch_view(before).push(view));
        }
        i += 1;
    }
    assert(all.take(i as int) =~= all);
    out
}

fn stored_commands(v: &Vec<TaskCommand>) -> (r: Vec<&TaskCommand>)
    ensures
        refs_view(r@) == commands_view(v@),
{
    let mut out: Vec<&TaskCommand> = Vec::new();
    let mut i: usize = 0;
    assert(refs_view(out@) =~= commands_view(v@).take(0));
    while i < v.len()
        invariant
            i <= v@.len(),
            refs_view(out@) == commands_view(v@).take(i as int),
        decreases v@.len() - i,
    {
        let ghost before = refs_view(out@);
        out.push(&v[i]);
        proof {
            assert(refs_view(out@) =~= before.push(v@[i as int]@));
            assert(commands_view(v@).take(i + 1) =~= commands_view(v@).take(i as int).push(
                v@[i as int]@,
            ));
        }
        i += 1;
    }
    assert(commands_view(v@).take(i as int) =~= commands_view(v@));
    out
}

impl TuiManager {
    /// The output window is well-formed.
    pub open spec fn wf(&self) -> bool {
        self._state.wf()
    }

    /// An interface without mouse capture.
    pub fn new() -> (r: Self)
        ensures
            r.wf(),
            r@ == (TuiView {
                is_running: true,
                state: StateView {
                    selected_task_id: None,
                    focus: seq![Focus::Tasks],
                    logs: None,
                    last_key_log: None,
                    quit: None,
                },
                mouse_wanted: false,
            }),
    {
        TuiManager::with_mouse(false)
    }

    /// An interface with or without mouse capture.
    pub fn with_mouse(mouse: bool) -> (r: Self)
        ensures
            r.wf(),
            r@ == (TuiView {
                is_running: true,
                state: StateView {
                    selected_task_id: None,
                    focus: seq![Focus::Tasks],
                    logs: None,
                    last_key_log: None,
                    quit: None,
                },
                mouse_wanted: mouse,
            }),
    {
        TuiManager { _is_running: true, _state: State::new(), _mouse_wanted: mouse }
    }

    /// Moves the selection in the list of tasks by `delta`, wrapping around.
    pub fn move_selection(&mut self, delta: i32, tasks: &Vec<TaskWithDetails>)
        requires
            old(self).wf(),
        ensures
            final(self).wf(),
            final(self)@ == (TuiView {
                state: selection_moved(
                    old(self)@.state,
                    delta as int,
                    details_view(tasks@),
                ),
                ..old(self)@
            }),
    {
        if tasks.len() == 0 {
            return;
        }
        let at: usize = match &self._state.selected_task_id {
            Some(id) => place_of_task(tasks, id.as_str()),
            None => tasks.len(),
        };
        let next: usize = if at < tasks.len() {
            step_round(at, delta, tasks.len())
        } else {
            0
        };
        assert(details_view(tasks@)[next as int] == tasks@[next as int]@);
        self._state.selected_task_id = Some(tasks[next]._id.clone());
    }

    /// A key in the output window.
    pub fn handle_logs_key(&mut self, key: Key, tasks: &Vec<TaskWithDetails>) -> (r: Vec<Dispatch>)
        requires
            old(self).wf(),
        ensures
            final(self).wf(),
            ({
                let (state, asked) = logs_key(old(self)@.state, key, details_view(tasks@));
                final(self)@ == (TuiView { state, ..old(self)@ }) && dispatch_view(r@) == asked
            }),
    {
        let mut out: Vec<Dispatch> = Vec::new();
        assert(dispatch_view(out@) =~= Seq::<DispatchView>::empty());
        if key == Key::Esc {
            self._state.tell("Closed the output window".to_owned());
            self._state.logs = None;
            self._state.pop_focus();
            return out;
        }
        let t: usize = match &self._state.logs {
            Some(w) => place_of_task(tasks, w.task_id.as_str()),
            None => {
                return out;
            },
        };
        if t >= tasks.len() {
            return out;
        }
        let task = &tasks[t];
        assert(details_view(tasks@)[t as int] == task@);
        let cmds = sorted_commands(&task._commands);
        assert(refs_view(cmds@).len() == cmds@.len());
        let tab: usize = match &self._state.logs {
            Some(w) => clamp_tab(w.tab, cmds.len()),
            None => 0,
        };
        match key {
            Key::Char('h') | Key::Left | Key::BackTab => {
                if let Some(w) = self._state.logs.as_mut() {
                    w.tab = tab.saturating_sub(1);
                }
                self._state.tell("Previous tab".to_owned());
                return out;
            },
            Key::Char('l') | Key::Right | Key::Tab => {
                if let Some(w) = self._state.logs.as_mut() {
                    w.tab = if tab < cmds.len() {
                        clamp_tab(tab + 1, cmds.len())
                    } else {
                        0
                    };
                }
                self._state.tell("Next tab".to_owned());
                return out;
            },
            _ => {},
        }
        if tab >= cmds.len() {
            return out;
        }
        let cmd = cmds[tab];
        assert(refs_view(cmds@)[tab as int] == cmd@);
        let label = cmd._command.label().as_str();
        match key {
            Key::Char('s') => {
                let (message, asked) = toggle_command(task._id.as_str(), cmd);
                self._state.tell(message);
                return asked;
            },
            Key::Char('S') => {
                out.push(
                    Dispatch {
                        task_id: task._id.clone(),
                        command_id: cmd._id.clone(),
                        action: CmdAction::ForceStop,
                    },
                );
                assert(dispatch_view(out@) =~= seq![
                    DispatchView {
                        task_id: task@.task.id,
                        command_id: cmd@.id,
                        action: CmdAction::ForceStop,
                    },
                ]);
                self._state.tell(text::concat("Force stopping ", label));
                return out;
            },
            Key::Char('r') => {
                out.push(
                    Dispatch {
                        task_id: task._id.clone(),
                        command_id: cmd._id.clone(),
                        action: CmdAction::Restart,
                    },
                );
                assert(dispatch_view(out@) =~= seq![
                    DispatchView {
                        task_id: task@.task.id,
                        command_id: cmd@.id,
                        action: CmdAction::Restart,
                    },
                ]);
                self._state.tell(text::concat("Restarting ", label));
                return out;
            },
            _ => {},
        }
        let message: Option<String> = match self._state.logs.as_mut() {
            Some(w) => {
                w.tab = tab;
                let pane = w.pane_mut(cmd._id.as_str());
                move_pane(pane, key)
            },
            None => None,
        };
        match message {
            Some(m) => self._state.tell(m),
            None => {},
        }
        out
    }

    /// A key in the list of tasks.
    pub fn handle_main_key(&mut self, key: Key, tasks: &Vec<TaskWithDetails>) -> (r: Vec<Dispatch>)
        requires
            old(self).wf(),
        ensures
            final(self).wf(),
            ({
                let (state, asked) = main_key(old(self)@.state, key, details_view(tasks@));
                final(self)@ == (TuiView { state, ..old(self)@ }) && dispatch_view(r@) == asked
            }),
    {
        let out: Vec<Dispatch> = Vec::new();
        assert(dispatch_view(out@) =~= Seq::<DispatchView>::empty());
        match key {
            Key::Char('k') | Key::Up => {
                self.move_selection(-1, tasks);
                self._state.tell("Previous task".to_owned());
                return out;
            },
            Key::Char('j') | Key::Down => {
                self.move_selection(1, tasks);
                self._state.tell("Next task".to_owned());
                return out;
            },
            Key::Esc => {
                self._state.tell("Deselected".to_owned());
                self._state.selected_task_id = None;
                return out;
            },
            Key::Char('R') => {
                self._state.tell("Restarting every task".to_owned());
                return restart_every(tasks);
            },
            _ => {},
        }
        let id = match &self._state.selected_task_id {
            Some(id) => id.clone(),
            None => {
                if key == Key::Enter {
                    self._state.tell("No task selected".to_owned());
                }
                return out;
            },
        };
        let t: usize = place_of_task(tasks, id.as_str());
        if key == Key::Enter {
            let name = if t < tasks.len() {
                assert(details_view(tasks@)[t as int] == tasks@[t as int]@);
                tasks[t]._name.clone()
            } else {
                id.clone()
            };
            self._state.tell(text::concat("Opened output for ", name.as_str()));
            self._state.logs = Some(LogsWindow::new(id));
            self._state.push_focus(Focus::Logs);
            return out;
        }
        if t >= tasks.len() {
            return out;
        }
        assert(details_view(tasks@)[t as int] == tasks@[t as int]@);
        proof {
            text::lemma_first_at(listed_ids(details_view(tasks@)), id@);
            assert(listed_ids(details_view(tasks@))[t as int] == tasks@[t as int]@.task.id);
        }
        self.handle_task_key(key, &tasks[t])
    }

    fn handle_task_key(&mut self, key: Key, task: &TaskWithDetails) -> (r: Vec<Dispatch>)
        requires
            old(self).wf(),
        ensures
            final(self).wf(),
            ({
                let (state, asked) = task_key(old(self)@.state, key, task@);
                final(self)@ == (TuiView { state, ..old(self)@ }) && dispatch_view(r@) == asked
            }),
    {
        let out: Vec<Dispatch> = Vec::new();
        assert(dispatch_view(out@) =~= Seq::<DispatchView>::empty());
        let id = task._id.as_str();
        let name = task._name.as_str();
        let cmds = stored_commands(&task._commands);
        match key {
            Key::Char('r') => {
                self._state.tell(text::concat("Restarting ", name));
                let r = request_each(id, &cmds, Wanted::All, CmdAction::Restart);
                proof {
                    lemma_requests_same(
                        id@,
                        refs_view(cmds@),
                        |s: TaskStatus| Wanted::All.picks(s),
                        |x: TaskStatus| true,
                        CmdAction::Restart,
                    );
                }
                r
            },
            Key::Char('S') => {
                self._state.tell(text::concat("Force stopping ", name));
                let r = request_each(id, &cmds, Wanted::RunningOrStarting, CmdAction::ForceStop);
                proof {
                    lemma_requests_same(
                        id@,
                        refs_view(cmds@),
                        |s: TaskStatus| Wanted::RunningOrStarting.picks(s),
                        |x: TaskStatus| x is Running || x is Starting,
                        CmdAction::ForceStop,
                    );
                }
                r
            },
            Key::Char('s') => {
                if any_in_transition(&task._commands) {
                    self._state.tell(text::concat(name, " is mid-transition, ignoring"));
                    return out;
                }
                let shown = sorted_commands(&task._commands);
                let starts = request_each(id, &shown, Wanted::Finished, CmdAction::Start);
                proof {
                    lemma_requests_same(
                        id@,
                        refs_view(shown@),
                        |s: TaskStatus| Wanted::Finished.picks(s),
                        |x: TaskStatus| x.finished(),
                        CmdAction::Start,
                    );
                    assert(dispatch_view(starts@).len() == starts@.len());
                }
                if starts.len() > 0 {
                    self._state.tell(text::concat("Starting ", name));
                    return starts;
                }
                self._state.tell(text::concat("Stopping ", name));
                let r = request_each(id, &shown, Wanted::Running, CmdAction::Stop);
                proof {
                    lemma_requests_same(
                        id@,
                        refs_view(shown@),
                        |s: TaskStatus| Wanted::Running.picks(s),
                        |x: TaskStatus| x is Running,
                        CmdAction::Stop,
                    );
                }
                r
            },
            _ => out,
        }
    }

    /// A key, whatever window is open. The requests that it leads to are to be carried out
    /// apart from the interface, which goes on meanwhile.
    pub fn handle_key(
        &mut self,
        key: Key,
        ctrl: bool,
        now: i64,
        tasks: &Vec<TaskWithDetails>,
    ) -> (r: Vec<Dispatch>)
        requires
            old(self).wf(),
        ensures
            final(self).wf(),
            (final(self)@, dispatch_view(r@)) == key_pressed(
                old(self)@,
                key,
                ctrl,
                now,
                details_view(tasks@),
            ),
    {
        let out: Vec<Dispatch> = Vec::new();
        assert(dispatch_view(out@) =~= Seq::<DispatchView>::empty());
        if key == Key::Char('q') || (key == Key::Char('c') && ctrl) {
            if let Some(asked) = self._state.quit {
                if seconds_between(now, asked) < QUIT_CONFIRM_SECONDS {
                    self._is_running = false;
                    return out;
                }
            }
            self._state.quit = Some(now);
            self._state.push_focus(Focus::QuitConfirm);
            return out;
        }
        if key == Key::Char('m') {
            self._mouse_wanted = !self._mouse_wanted;
            if self._mouse_wanted {
                self._state.tell("Mouse capture on (terminal selection off)".to_owned());
            } else {
                self._state.tell("Mouse capture off (terminal selection on)".to_owned());
            }
            return out;
        }
        match self._state.focus() {
            Focus::QuitConfirm => {
                if key == Key::Esc {
                    self._state.quit = None;
                    self._state.pop_focus();
                }
                out
            },
            Focus::Logs => self.handle_logs_key(key, tasks),
            Focus::Tasks => self.handle_main_key(key, tasks),
        }
    }

    /// A wheel notch: it scrolls the open log, or moves the selection.
    pub fn handle_mouse(&mut self, up: bool, tasks: &Vec<TaskWithDetails>)
        requires
            old(self).wf(),
        ensures
            final(self).wf(),
            final(self)@ == wheel_turned(old(self)@, up, details_view(tasks@)),
    {
        match self._state.focus() {
            Focus::Logs => {
                let (t, tab): (usize, usize) = match &self._state.logs {
                    Some(w) => (place_of_task(tasks, w.task_id.as_str()), w.tab),
                    None => {
                        return;
                    },
                };
                if t >= tasks.len() {
                    return;
                }
                assert(details_view(tasks@)[t as int] == tasks@[t as int]@);
                match tab_command(&tasks[t], tab) {
                    Some(cmd) => {
                        if let Some(w) = self._state.logs.as_mut() {
                            let pane = w.pane_mut(cmd._id.as_str());
                            if up {
                                pane.up(WHEEL_ROWS);
                            } else {
                                pane.down(WHEEL_ROWS);
                            }
                        }
                    },
                    None => {},
                }
            },
            Focus::Tasks => {
                self.move_selection(
                    if up {
                        -1
                    } else {
                        1
                    },
                    tasks,
                );
            },
            Focus::QuitConfirm => {},
        }
    }
}

fn any_in_transition(cmds: &Vec<TaskCommand>) -> (r: bool)
    ensures
        r == exists|k: int|
            0 <= k < commands_view(cmds@).len() && in_transition(
                (#[trigger] commands_view(cmds@)[k]).status,
            ),
{
    let ghost all = commands_view(cmds@);
    let mut i: usize = 0;
    while i < cmds.len()
        invariant
            i <= cmds@.len(),
            all == commands_view(cmds@),
            forall|k: int| 0 <= k < i ==> !in_transition((#[trigger] all[k]).status),
        decreases cmds@.len() - i,
    {
        assert(all[i as int] == cmds@[i as int]@);
        if cmds[i]._status.is_starting() || cmds[i]._status.is_stopping() {
            assert(in_transition(commands_view(cmds@)[i as int].status));
            return true;
        }
        i += 1;
    }
    false
}

fn restart_every(tasks: &Vec<TaskWithDetails>) -> (r: Vec<Dispatch>)
    ensures
        dispatch_view(r@) == restart_all(details_view(tasks@)),
{
    let ghost all = details_view(tasks@);
    let mut out: Vec<Dispatch> = Vec::new();
    let mut i: usize = 0;
    assert(dispatch_view(out@) =~= restart_all(all.take(0)));
    while i < tasks.len()
        invariant
            i <= tasks@.len(),
            all == details_view(tasks@),
            dispatch_view(out@) == restart_all(all.take(i as int)),
        decreases tasks@.len() - i,
    {
        let ghost before = dispatch_view(out@);
        proof {
            assert(all.take(i + 1).drop_last() =~= all.take(i as int));
            assert(all.take(i + 1).last() == tasks@[i as int]@);
        }
        let cmds = stored_commands(&tasks[i]._commands);
        let mut more = request_each(
            tasks[i]._id.as_str(),
            &cmds,
            Wanted::All,
            CmdAction::Restart,
        );
        proof {
            lemma_requests_same(
                tasks@[i as int]._id@,
                refs_view(cmds@),
                |s: TaskStatus| Wanted::All.picks(s),
                |s: TaskStatus| true,
                CmdAction::Restart,
            );
        }
        let ghost added = dispatch_view(more@);
        out.append(&mut more);
        assert(dispatch_view(out@) =~= before + added);
        i += 1;
    }
    assert(all.take(i as int) =~= all);
    out
}

fn move_pane(pane: &mut LogPane, key: Key) -> (r: Option<String>)
    requires
        old(pane).wf(),
    ensures
        final(pane).wf(),
        (final(pane)@, text::opt_text(r)) == pane_key(old(pane)@, key),
{
    match key {
        Key::Char('f') => {
            pane.toggle_follow();
            if pane.follow {
                Some("Follow on".to_owned())
            } else {
                Some("Follow off".to_owned())
            }
        },
        Key::Char('k') | Key::Up => {
            pane.up(1);
            Some("Scroll up".to_owned())
        },
        Key::Char('j') | Key::Down => {
            pane.down(1);
            Some("Scroll down".to_owned())
        },
        Key::PageUp => {
            pane.page_up();
            Some("Page up".to_owned())
        },
        Key::PageDown => {
            pane.page_down();
            Some("Page down".to_owned())
        },
        Key::Home => {
            pane.home();
            Some("Top".to_owned())
        },
        Key::End => {
            pane.end();
            Some("Bottom".to_owned())
        },
        _ => None,
    }
}

/// What the main loop remembers from one frame to the next.
pub struct FrameState {
    pub mouse_capture_on: bool,
    pub loading: bool,
    pub frame_count: usize,
}

/// What the main loop is to do next.
#[derive(Debug, Clone, Copy, PartialEq, Eq, Structural)]
pub enum FrameStep {
    /// Restore the terminal and end.
    Exit,
    /// Turn mouse capture on or off, tell how that went, and come back.
    SetMouse(bool),
    /// Draw that tasks are being loaded, wait for one frame and come back.
    Loading,
    /// Draw the tasks and wait for an event or for one frame.
    Draw,
}

/// What the main loop is to do next.
pub open spec fn next_frame(m: TuiView, f: FrameState, is_loading: bool) -> FrameStep {
    if !m.is_running {
        FrameStep::Exit
    } else if m.mouse_wanted != f.mouse_capture_on {
        FrameStep::SetMouse(m.mouse_wanted)
    } else if f.loading && is_loading {
        FrameStep::Loading
    } else {
        FrameStep::Draw
    }
}

/// What is shown of the output window in the next frame: the place of its task, and the id of
/// the command whose output is needed.
pub open spec fn shown_log(s: StateView, tasks: Seq<DetailsView>) -> (
    StateView,
    Option<(int, Option<Seq<char>>)>,
) {
    match s.logs {
        None => (s, None),
        Some(window) => {
            let t = text::first_at(listed_ids(tasks), window.task_id);
            if t >= tasks.len() {
                (s, None)
            } else {
                let tab = clamped(window.tab, tasks[t].task.commands.len());
                (
                    StateView { logs: Some(WindowView { tab, ..window }), ..s },
                    Some(
                        (
                            t,
                            match command_at(tasks[t], tab as int) {
                                Some(cmd) => Some(cmd.id),
                                None => None,
                            },
                        ),
                    ),
                )
            }
        },
    }
}

/// Whether a quit still waits to be confirmed: it lapses after some seconds, which closes its
/// window.
pub open spec fn quit_checked(s: StateView, now: int) -> StateView {
    match s.quit {
        Some(asked) => if seconds(now, asked as int) >= QUIT_CONFIRM_SECONDS {
            StateView { quit: None, ..s }.popped()
        } else {
            s
        },
        None => s,
    }
}

impl TuiManager {
    /// What the main loop is to do next. Frames are counted, round the greatest number, and
    /// once tasks are there loading is over for good.
    pub fn main_loop(&self, f: &mut FrameState, is_loading: bool) -> (r: FrameStep)
        ensures
            r == next_frame(self@, *old(f), is_loading),
            final(f).mouse_capture_on == old(f).mouse_capture_on,
            final(f).loading == (old(f).loading && !(r is Draw)),
            final(f).frame_count == (if r is Loading || r is Draw {
                if old(f).frame_count == usize::MAX {
                    0
                } else {
                    (old(f).frame_count + 1) as usize
                }
            } else {
                old(f).frame_count
            }),
    {
        if !self._is_running {
            return FrameStep::Exit;
        }
        if self._mouse_wanted != f.mouse_capture_on {
            return FrameStep::SetMouse(self._mouse_wanted);
        }
        f.frame_count = if f.frame_count == usize::MAX {
            0
        } else {
            f.frame_count + 1
        };
        if f.loading && is_loading {
            FrameStep::Loading
        } else {
            f.loading = false;
            FrameStep::Draw
        }
    }

    /// Mouse capture was turned on or off as wanted, or could not be: then it is not wanted
    /// any more.
    pub fn mouse_changed(&mut self, f: &mut FrameState, done: bool)
        requires
            old(self).wf(),
        ensures
            final(self).wf(),
            final(self)@ == (TuiView {
                mouse_wanted: if done {
                    old(self)@.mouse_wanted
                } else {
                    old(f).mouse_capture_on
                },
                ..old(self)@
            }),
            *final(f) == (FrameState { mouse_capture_on: final(self)@.mouse_wanted, ..*old(f) }),
    {
        if done {
            f.mouse_capture_on = self._mouse_wanted;
        } else {
            self._mouse_wanted = f.mouse_capture_on;
        }
    }

    /// Gets the output window ready to be drawn: its tab is one that is there. Tells the place
    /// of its task, and the id of the command whose output is needed.
    pub fn prepare_logs(&mut self, tasks: &Vec<TaskWithDetails>) -> (r: Option<
        (usize, Option<String>),
    >)
        requires
            old(self).wf(),
        ensures
            final(self).wf(),
            ({
                let (state, shown) = shown_log(old(self)@.state, details_view(tasks@));
                &&& final(self)@ == (TuiView { state, ..old(self)@ })
                &&& match r {
                    Some((t, id)) => shown == Some((t as int, text::opt_text(id))) && t
                        < tasks@.len(),
                    None => shown is None,
                }
            }),
    {
        let (t, old_tab): (usize, usize) = match &self._state.logs {
            Some(w) => (place_of_task(tasks, w.task_id.as_str()), w.tab),
            None => {
                return None;
            },
        };
        if t >= tasks.len() {
            return None;
        }
        assert(details_view(tasks@)[t as int] == tasks@[t as int]@);
        let count: usize = tasks[t]._commands.len();
        assert(tasks@[t as int]@.task.commands.len() == count);
        let tab: usize = clamp_tab(old_tab, count);
        if let Some(w) = self._state.logs.as_mut() {
            w.tab = tab;
        }
        match tab_command(&tasks[t], tab) {
            Some(cmd) => Some((t, Some(cmd._id.clone()))),
            None => Some((t, None)),
        }
    }

    /// Lets a quit lapse that was not confirmed in time. Tells when the user asked to quit,
    /// where that still waits to be confirmed.
    pub fn check_quit(&mut self, now: i64) -> (r: Option<i64>)
        requires
            old(self).wf(),
        ensures
            final(self).wf(),
            final(self)@ == (TuiView {
                state: quit_checked(old(self)@.state, now as int),
                ..old(self)@
            }),
            r == final(self)@.state.quit,
    {
        if let Some(asked) = self._state.quit {
            if seconds_between(now, asked) >= QUIT_CONFIRM_SECONDS {
                self._state.quit = None;
                self._state.pop_focus();
            }
        }
        self._state.quit
    }
}

/// Asking to quit and then pressing `Esc` leaves the windows as they were, where nothing
/// waited to be confirmed.
pub proof fn lemma_quit_cancelled(m: TuiView, now: i64, tasks: Seq<DetailsView>)
    requires
        m.state.focus.len() > 0,
        m.state.top() != Focus::QuitConfirm,
        m.state.quit is None,
    ensures
        ({
            let asked = key_pressed(m, Key::Char('q'), false, now, tasks).0;
            key_pressed(asked, Key::Esc, false, now, tasks).0 == m
        }),
{
    assert(m.state.focus.push(Focus::QuitConfirm).drop_last() =~= m.state.focus);
}

/// Asking to quit twice within the time to confirm ends the program.
pub proof fn lemma_quit_confirmed(m: TuiView, first: i64, second: i64, tasks: Seq<DetailsView>)
    requires
        m.state.quit is None,
        seconds(second as int, first as int) < QUIT_CONFIRM_SECONDS,
    ensures
        ({
            let asked = key_pressed(m, Key::Char('q'), false, first, tasks).0;
            !key_pressed(asked, Key::Char('q'), false, second, tasks).0.is_running
        }),
{
}

/// Every tab keeps its own place: no key changes what a tab shows that is not open, and going to
/// the next tab and back leaves the whole window as it was.
pub proof fn lemma_tabs_keep_place(
    s: StateView,
    window: WindowView,
    task: DetailsView,
    key: Key,
    id: Seq<char>,
)
    requires
        s.logs == Some(window),
    ensures
        ({
            let cmds = shown_commands(task.task.commands);
            let tab = clamped(window.tab, cmds.len()) as int;
            tab < cmds.len() && cmds[tab].id != id ==> (logs_key_in(s, window, key, task).0.logs
                matches Some(w) ==> w.pane(id) == window.pane(id))
        }),
        ({
            let away = logs_key_in(s, window, Key::Right, task).0;
            window.tab + 1 < shown_commands(task.task.commands).len() ==> away.logs is Some
                && logs_key_in(away, away.logs->0, Key::Left, task).0.logs == Some(window)
        }),
{
}

/// The selection goes round: whatever way it moves it is on a task of the list, and moving it
/// back by as much restores it.
pub proof fn lemma_selection_goes_round(s: StateView, delta: int, tasks: Seq<DetailsView>)
    requires
        listed_ids(tasks).no_duplicates(),
        s.selected_task_id matches Some(id) && listed_ids(tasks).contains(id),
    ensures
        selection_moved(s, delta, tasks).selected_task_id matches Some(id) && listed_ids(
            tasks,
        ).contains(id),
        selection_moved(selection_moved(s, delta, tasks), -delta, tasks) == s,
{
    let ids = listed_ids(tasks);
    let len = tasks.len() as int;
    let at = text::first_at(ids, s.selected_task_id->0);
    text::lemma_first_at(ids, s.selected_task_id->0);
    let next = stepped(at, delta, len);
    vstd::arithmetic::div_mod::lemma_mod_bound(at + delta, len);
    assert(0 <= next < len);
    assert(ids[next] == tasks[next].task.id);
    text::lemma_first_at(ids, ids[next]);
    assert(text::first_at(ids, ids[next]) == next);
    vstd::arithmetic::div_mod::lemma_add_mod_noop(at + delta, -delta, len);
    vstd::arithmetic::div_mod::lemma_add_mod_noop(next, -delta, len);
    vstd::arithmetic::div_mod::lemma_mod_twice(at + delta, len);
    vstd::arithmetic::div_mod::lemma_small_mod(at as nat, len as nat);
    assert(stepped(next, -delta, len) == at);
    assert(ids[at] == tasks[at].task.id);
}

} // verus!
