//! What the interface draws: the text and the style of every row, and the areas they go to.

use vstd::prelude::*;

use crate::clock::seconds;
use crate::clock::seconds_between;
use crate::layout::Constraint;
use crate::layout::Direction;
use crate::layout::Rect;
use crate::layout::divided;
use crate::layout::split;
use crate::log_pane::Color;
use crate::log_pane::ScrollbarState;
use crate::log_pane::rows_view;
use crate::task::CommandView;
use crate::task::DetailsView;
use crate::task::InternalTaskStatus;
use crate::task::TaskStatus;
use crate::task::TaskWithDetails;
use crate::task::refs_view;
use crate::task::shown_commands;
use crate::task::sorted_commands;
use crate::task_store::details_view;
use crate::text;
use crate::tui_managerv2::Focus;
use crate::tui_managerv2::QUIT_CONFIRM_SECONDS;
use crate::tui_managerv2::State;
use crate::tui_managerv2::StateView;
use crate::tui_managerv2::command_at;
use crate::tui_managerv2::entries_view;
use crate::tui_managerv2::keymap_of;
use crate::tui_managerv2::tab_command;

verus! {

/// A piece of text in one style.
pub struct Span {
    pub content: String,
    pub fg: Option<Color>,
    pub bold: bool,
    pub dim: bool,
    pub reversed: bool,
}

/// What a [`Span`] says.
#[verifier::ext_equal]
pub struct SpanView {
    pub content: Seq<char>,
    pub fg: Option<Color>,
    pub bold: bool,
    pub dim: bool,
    pub reversed: bool,
}

impl View for Span {
    type V = SpanView;

    open spec fn view(&self) -> SpanView {
        SpanView {
            content: self.content@,
            fg: self.fg,
            bold: self.bold,
            dim: self.dim,
            reversed: self.reversed,
        }
    }
}

/// What a row of spans says.
pub open spec fn row_view(v: Seq<Span>) -> Seq<SpanView> {
    v.map_values(|s: Span| s@)
}

/// What several rows say.
pub open spec fn lines_view(v: Seq<Vec<Span>>) -> Seq<Seq<SpanView>> {
    v.map_values(|r: Vec<Span>| row_view(r@))
}

/// Text without any style.
pub open spec fn raw(content: Seq<char>) -> SpanView {
    SpanView { content, fg: None, bold: false, dim: false, reversed: false }
}

/// Text in a colour.
pub open spec fn colored(content: Seq<char>, c: Color) -> SpanView {
    SpanView { fg: Some(c), ..raw(content) }
}

/// Bold text in a colour.
pub open spec fn strong(content: Seq<char>, c: Color) -> SpanView {
    SpanView { bold: true, ..colored(content, c) }
}

fn span(content: String, fg: Option<Color>, bold: bool) -> (r: Span)
    ensures
        r@ == (SpanView { content: content@, fg, bold, dim: false, reversed: false }),
{
    Span { content, fg, bold, dim: false, reversed: false }
}

fn push_span(row: &mut Vec<Span>, s: Span)
    ensures
        row_view(final(row)@) == row_view(old(row)@).push(s@),
{
    row.push(s);
    assert(row_view(row@) =~= row_view(old(row)@).push(s@));
}

/// The picture of the spinner in a frame.
pub open spec fn spinner(frame: nat) -> Seq<char> {
    let i = frame % 10;
    if i == 0 {
        "⠋"@
    } else if i == 1 {
        "⠙"@
    } else if i == 2 {
        "⠹"@
    } else if i == 3 {
        "⠸"@
    } else if i == 4 {
        "⠼"@
    } else if i == 5 {
        "⠴"@
    } else if i == 6 {
        "⠦"@
    } else if i == 7 {
        "⠧"@
    } else if i == 8 {
        "⠇"@
    } else {
        "⠏"@
    }
}

pub(crate) fn spinner_at(frame_count: usize) -> (r: &'static str)
    ensures
        r@ == spinner(frame_count as nat),
{
    let i: usize = frame_count % 10;
    if i == 0 {
        "⠋"
    } else if i == 1 {
        "⠙"
    } else if i == 2 {
        "⠹"
    } else if i == 3 {
        "⠸"
    } else if i == 4 {
        "⠼"
    } else if i == 5 {
        "⠴"
    } else if i == 6 {
        "⠦"
    } else if i == 7 {
        "⠧"
    } else if i == 8 {
        "⠇"
    } else {
        "⠏"
    }
}

/// What is shown while tasks are being loaded.
pub fn loading_text(frame_count: usize) -> (r: String)
    ensures
        r@ == "Loading... "@ + spinner(frame_count as nat),
{
    text::concat("Loading... ", spinner_at(frame_count))
}

/// Colour and glyph of a status.
pub open spec fn glyph_of(status: TaskStatus, frame: nat) -> (Option<Color>, Seq<char>) {
    match status {
        TaskStatus::Running | TaskStatus::Starting | TaskStatus::Stopping => (
            Some(Color::Yellow),
            spinner(frame),
        ),
        TaskStatus::Failed => (Some(Color::Red), "✗"@),
        TaskStatus::Successed => (Some(Color::Green), "✓"@),
        TaskStatus::Stopped => (Some(Color::LightRed), "■"@),
        TaskStatus::Init => (None, " "@),
    }
}

/// Colour and glyph for a command status, shared by the task rows and the log tabs.
pub fn status_glyph(status: &TaskStatus, frame_count: usize) -> (r: (Option<Color>, &'static str))
    ensures
        (r.0, r.1@) == glyph_of(*status, frame_count as nat),
{
    if status.is_running() || status.is_starting() || status.is_stopping() {
        (Some(Color::Yellow), spinner_at(frame_count))
    } else if status.is_failed() {
        (Some(Color::Red), "✗")
    } else if status.is_successed() {
        (Some(Color::Green), "✓")
    } else if status.is_stopped() {
        (Some(Color::LightRed), "■")
    } else {
        (None, " ")
    }
}

/// A row of the list of tasks.
pub struct TaskRow {
    pub spans: Vec<Span>,
    pub reversed: bool,
}

/// What a [`TaskRow`] says.
pub struct TaskRowView {
    pub spans: Seq<SpanView>,
    pub reversed: bool,
}

impl View for TaskRow {
    type V = TaskRowView;

    open spec fn view(&self) -> TaskRowView {
        TaskRowView { spans: row_view(self.spans@), reversed: self.reversed }
    }
}

/// The spans of commands in a row: glyph and label of each, with a space behind.
pub open spec fn command_spans(cmds: Seq<CommandView>, frame: nat) -> Seq<SpanView>
    decreases cmds.len(),
{
    if cmds.len() == 0 {
        Seq::empty()
    } else {
        let c = cmds.last();
        let (color, glyph) = glyph_of(c.status, frame);
        command_spans(cmds.drop_last(), frame).push(
            SpanView {
                content: glyph + " "@ + c.command.label(),
                fg: color,
                bold: true,
                dim: false,
                reversed: false,
            },
        ).push(raw(" "@))
    }
}

/// The width that names are padded to: four columns more than the longest has bytes.
pub open spec fn name_width(max_name_length: nat) -> nat {
    if max_name_length + 4 > usize::MAX {
        usize::MAX as nat
    } else {
        max_name_length + 4
    }
}

/// The row of a task in the list.
pub open spec fn task_row(
    task: DetailsView,
    selected_id: Seq<char>,
    frame: nat,
    max_name_length: nat,
) -> TaskRowView {
    let selected = task.task.id == selected_id;
    let head = seq![
        colored(
            if selected {
                "> "@
            } else {
                "  "@
            },
            Color::Green,
        ),
        raw(text::padded(task.task.name, name_width(max_name_length))),
    ];
    TaskRowView {
        spans: head + command_spans(shown_commands(task.task.commands), frame),
        reversed: selected,
    }
}

/// The row of a task in the list.
pub fn task_widget(
    task: &TaskWithDetails,
    selected_id: &str,
    frame_count: usize,
    max_name_length: usize,
) -> (r: TaskRow)
    ensures
        r@ == task_row(task@, selected_id@, frame_count as nat, max_name_length as nat),
{
    let selected = *task._id.as_str() == *selected_id;
    let space: usize = max_name_length.saturating_add(4);
    let mut row: Vec<Span> = Vec::new();
    assert(row_view(row@) =~= Seq::<SpanView>::empty());
    let mark = if selected {
        "> ".to_owned()
    } else {
        "  ".to_owned()
    };
    push_span(&mut row, span(mark, Some(Color::Green), false));
    push_span(&mut row, span(text::pad_right(task._name.as_str(), space), None, false));
    let ghost head = row_view(row@);
    let cmds = sorted_commands(&task._commands);
    let ghost all = refs_view(cmds@);
    let mut i: usize = 0;
    assert(head + command_spans(all.take(0), frame_count as nat) =~= head);
    while i < cmds.len()
        invariant
            i <= cmds@.len(),
            all == refs_view(cmds@),
            row_view(row@) == head + command_spans(all.take(i as int), frame_count as nat),
        decreases cmds@.len() - i,
    {
        proof {
            assert(all.take(i + 1).drop_last() =~= all.take(i as int));
            assert(all.take(i + 1).last() == cmds@[i as int]@);
        }
        let ghost before = command_spans(all.take(i as int), frame_count as nat);
        let (color, glyph) = status_glyph(&cmds[i]._status, frame_count);
        let content = text::concat3(glyph, " ", cmds[i]._command.label().as_str());
        let a = span(content, color, true);
        let b = span(" ".to_owned(), None, false);
        let ghost (av, bv) = (a@, b@);
        push_span(&mut row, a);
        push_span(&mut row, b);
        assert((head + before).push(av).push(bv) =~= head + before.push(av).push(bv));
        i += 1;
    }
    proof {
        assert(all.take(i as int) =~= all);
        let selected_mark = if selected {
            "> "@
        } else {
            "  "@
        };
        assert(head =~= seq![
            colored(selected_mark, Color::Green),
            raw(text::padded(task@.task.name, name_width(max_name_length as nat))),
        ]);
    }
    TaskRow { spans: row, reversed: selected }
}

/// The number of bytes of the longest name: 0 where there is none.
pub open spec fn longest_name(tasks: Seq<DetailsView>) -> nat
    decreases tasks.len(),
{
    if tasks.len() == 0 {
        0
    } else {
        let before = longest_name(tasks.drop_last());
        let own = vstd::utf8::encode_utf8(tasks.last().task.name).len();
        if own > before {
            own
        } else {
            before
        }
    }
}

/// The rows of those tasks that have a given place in the list.
pub open spec fn rows_of(
    tasks: Seq<DetailsView>,
    place: InternalTaskStatus,
    selected_id: Seq<char>,
    frame: nat,
    max_name_length: nat,
) -> Seq<TaskRowView>
    decreases tasks.len(),
{
    if tasks.len() == 0 {
        Seq::empty()
    } else {
        let before = rows_of(tasks.drop_last(), place, selected_id, frame, max_name_length);
        if tasks.last().status == place {
            before.push(task_row(tasks.last(), selected_id, frame, max_name_length))
        } else {
            before
        }
    }
}

/// What rows of tasks say.
pub open spec fn task_rows_view(v: Seq<TaskRow>) -> Seq<TaskRowView> {
    v.map_values(|r: TaskRow| r@)
}

/// The id of the selected task, the empty text where there is none.
pub open spec fn selected_id(s: StateView) -> Seq<char> {
    match s.selected_task_id {
        Some(id) => id,
        None => Seq::empty(),
    }
}

fn longest(tasks: &Vec<TaskWithDetails>) -> (r: usize)
    ensures
        r == longest_name(details_view(tasks@)),
{
    let ghost all = details_view(tasks@);
    let mut out: usize = 0;
    let mut i: usize = 0;
    while i < tasks.len()
        invariant
            i <= tasks@.len(),
            all == details_view(tasks@),
            out == longest_name(all.take(i as int)),
        decreases tasks@.len() - i,
    {
        proof {
            assert(all.take(i + 1).drop_last() =~= all.take(i as int));
            assert(all.take(i + 1).last() == tasks@[i as int]@);
        }
        let own: usize = tasks[i]._name.as_str().as_bytes().len();
        if own > out {
            out = own;
        }
        i += 1;
    }
    assert(all.take(i as int) =~= all);
    out
}

/// The rows of the list that stand in a given place: those at the top, or the others.
pub fn main_widget(
    tasks: &Vec<TaskWithDetails>,
    state: &State,
    place: InternalTaskStatus,
    frame_count: usize,
) -> (r: Vec<TaskRow>)
    ensures
        task_rows_view(r@) == rows_of(
            details_view(tasks@),
            place,
            selected_id(state@),
            frame_count as nat,
            longest_name(details_view(tasks@)),
        ),
{
    let max: usize = longest(tasks);
    let selected = match &state.selected_task_id {
        Some(id) => id.clone(),
        None => String::new(),
    };
    assert(selected@ =~= selected_id(state@));
    let ghost all = details_view(tasks@);
    let mut out: Vec<TaskRow> = Vec::new();
    let mut i: usize = 0;
    assert(task_rows_view(out@) =~= rows_of(
        all.take(0),
        place,
        selected@,
        frame_count as nat,
        max as nat,
    ));
    while i < tasks.len()
        invariant
            i <= tasks@.len(),
            all == details_view(tasks@),
            task_rows_view(out@) == rows_of(
                all.take(i as int),
                place,
                selected@,
                frame_count as nat,
                max as nat,
            ),
        decreases tasks@.len() - i,
    {
        let ghost before = out@;
        proof {
            assert(all.take(i + 1).drop_last() =~= all.take(i as int));
            assert(all.take(i + 1).last() == tasks@[i as int]@);
        }
        if tasks[i]._status == place {
            let row = task_widget(&tasks[i], selected.as_str(), frame_count, max);
            let ghost view = row@;
            out.push(row);
            assert(task_rows_view(out@) =~= task_rows_view(before).push(view));
        }
        i += 1;
    }
    assert(all.take(i as int) =~= all);
    out
}

/// The tabs in the title of the output window: the open one stands out, the others are dim and
/// in the colour of their status.
pub open spec fn tab_spans(cmds: Seq<CommandView>, tab: nat, frame: nat) -> Seq<SpanView>
    decreases cmds.len(),
{
    if cmds.len() == 0 {
        Seq::empty()
    } else {
        let c = cmds.last();
        let (color, glyph) = glyph_of(c.status, frame);
        let content = " "@ + glyph + " "@ + c.command.label() + " "@;
        tab_spans(cmds.drop_last(), tab, frame).push(
            if cmds.len() - 1 == tab {
                SpanView {
                    content,
                    fg: Some(Color::Yellow),
                    bold: true,
                    dim: false,
                    reversed: true,
                }
            } else {
                SpanView { content, fg: color, bold: false, dim: true, reversed: false }
            },
        ).push(raw(" "@))
    }
}

/// The title of the output window of a task.
pub open spec fn logs_title_of(task: DetailsView, tab: nat, frame: nat) -> Seq<SpanView> {
    let cmds = shown_commands(task.task.commands);
    let name = SpanView { bold: true, ..raw(" "@ + task.task.name + " "@) };
    let head = if cmds.len() == 0 {
        seq![name, SpanView { dim: true, ..raw("(no commands)"@) }]
    } else {
        seq![name]
    };
    head + tab_spans(cmds, tab, frame)
}

/// The title of the output window of a task.
pub fn logs_title(task: &TaskWithDetails, tab: usize, frame_count: usize) -> (r: Vec<Span>)
    ensures
        row_view(r@) == logs_title_of(task@, tab as nat, frame_count as nat),
{
    let cmds = sorted_commands(&task._commands);
    let ghost all = refs_view(cmds@);
    let mut row: Vec<Span> = Vec::new();
    assert(row_view(row@) =~= Seq::<SpanView>::empty());
    push_span(&mut row, span(text::concat3(" ", task._name.as_str(), " "), None, true));
    if cmds.len() == 0 {
        push_span(
            &mut row,
            Span {
                content: "(no commands)".to_owned(),
                fg: None,
                bold: false,
                dim: true,
                reversed: false,
            },
        );
    }
    let ghost head = row_view(row@);
    let mut i: usize = 0;
    assert(head + tab_spans(all.take(0), tab as nat, frame_count as nat) =~= head);
    while i < cmds.len()
        invariant
            i <= cmds@.len(),
            all == refs_view(cmds@),
            row_view(row@) == head + tab_spans(
                all.take(i as int),
                tab as nat,
                frame_count as nat,
            ),
        decreases cmds@.len() - i,
    {
        proof {
            assert(all.take(i + 1).drop_last() =~= all.take(i as int));
            assert(all.take(i + 1).last() == cmds@[i as int]@);
        }
        let ghost before = tab_spans(all.take(i as int), tab as nat, frame_count as nat);
        let (color, glyph) = status_glyph(&cmds[i]._status, frame_count);
        let mut content = text::concat3(" ", glyph, " ");
        content.push_str(cmds[i]._command.label().as_str());
        content.push_str(" ");
        let a = if i == tab {
            Span { content, fg: Some(Color::Yellow), bold: true, dim: false, reversed: true }
        } else {
            Span { content, fg: color, bold: false, dim: true, reversed: false }
        };
        let b = span(" ".to_owned(), None, false);
        let ghost (av, bv) = (a@, b@);
        push_span(&mut row, a);
        push_span(&mut row, b);
        assert((head + before).push(av).push(bv) =~= head + before.push(av).push(bv));
        i += 1;
    }
    proof {
        assert(all.take(i as int) =~= all);
        assert(all.len() == cmds@.len());
        let name = SpanView { bold: true, ..raw(" "@ + task@.task.name + " "@) };
        if all.len() == 0 {
            assert(head =~= seq![name, SpanView { dim: true, ..raw("(no commands)"@) }]);
        } else {
            assert(head =~= seq![name]);
        }
    }
    row
}

/// What the separator of the status bar counts as: its length in bytes.
pub const SEPARATOR_WIDTH: usize = 5;

/// The separator of the status bar.
pub open spec fn separator() -> SpanView {
    colored(" │ "@, Color::DarkGray)
}

/// The spans of one entry of the status bar: a shortcut and what it does, or only a message.
pub open spec fn entry_spans(e: (Seq<char>, Seq<char>)) -> Seq<SpanView> {
    if e.0.len() == 0 {
        seq![colored(e.1, Color::DarkGray)]
    } else {
        seq![strong(e.0, Color::Yellow), raw(" "@), raw(e.1)]
    }
}

/// How many columns an entry counts as.
pub open spec fn entry_width(e: (Seq<char>, Seq<char>)) -> nat {
    if e.0.len() == 0 {
        e.1.len()
    } else {
        e.0.len() + 1 + e.1.len()
    }
}

/// A status bar that is being packed: the rows that are full, the row under way and what it
/// counts as.
#[verifier::ext_equal]
pub struct Packing {
    pub rows: Seq<Seq<SpanView>>,
    pub row: Seq<SpanView>,
    pub used: nat,
}

/// One more entry: on a new row where it does not fit on the one under way, behind a
/// separator where it does.
pub open spec fn pack_step(p: Packing, e: (Seq<char>, Seq<char>), width: nat) -> Packing {
    if p.row.len() == 0 {
        Packing { row: entry_spans(e), used: p.used + entry_width(e), ..p }
    } else if p.used + SEPARATOR_WIDTH + entry_width(e) > width {
        Packing { rows: p.rows.push(p.row), row: entry_spans(e), used: entry_width(e) }
    } else {
        Packing {
            row: p.row.push(separator()) + entry_spans(e),
            used: p.used + SEPARATOR_WIDTH as nat + entry_width(e),
            ..p
        }
    }
}

/// The status bar after all entries.
pub open spec fn packing(entries: Seq<(Seq<char>, Seq<char>)>, width: nat) -> Packing
    decreases entries.len(),
{
    if entries.len() == 0 {
        Packing { rows: Seq::empty(), row: Seq::empty(), used: 0 }
    } else {
        pack_step(packing(entries.drop_last(), width), entries.last(), width)
    }
}

/// The rows of a status bar.
pub open spec fn packed(entries: Seq<(Seq<char>, Seq<char>)>, width: nat) -> Seq<Seq<SpanView>> {
    let p = packing(entries, width);
    if p.row.len() > 0 {
        p.rows.push(p.row)
    } else {
        p.rows
    }
}

/// What the mouse mode is called.
pub open spec fn mouse_label(mouse_wanted: bool) -> Seq<char> {
    if mouse_wanted {
        "Mouse: capture"@
    } else {
        "Mouse: select"@
    }
}

/// The entries of a keymap, with the live mouse mode.
pub open spec fn live_keymap(f: Focus, mouse_wanted: bool) -> Seq<(Seq<char>, Seq<char>)> {
    keymap_of(f).map_values(
        |e: (Seq<char>, Seq<char>)|
            if e.1 == "\u{0}mouse"@ {
                (e.0, mouse_label(mouse_wanted))
            } else {
                e
            },
    )
}

/// The entries of the status bar: the shortcuts of the window that owns the keyboard, and
/// what was last said about a key.
pub open spec fn bar_entries(s: StateView, mouse_wanted: bool) -> Seq<(Seq<char>, Seq<char>)> {
    let keys = live_keymap(s.top(), mouse_wanted);
    match s.last_key_log {
        Some(message) => keys.push((Seq::empty(), message)),
        None => keys,
    }
}

/// A width of at least one column.
pub open spec fn at_least_one(width: u16) -> nat {
    if width == 0 {
        1
    } else {
        width as nat
    }
}

/// What owned entries say.
pub open spec fn owned_entries(v: Seq<(String, String)>) -> Seq<(Seq<char>, Seq<char>)> {
    v.map_values(|e: (String, String)| (e.0@, e.1@))
}

fn entries_of(state: &State, mouse_wanted: bool) -> (r: Vec<(String, String)>)
    ensures
        owned_entries(r@) == bar_entries(state@, mouse_wanted),
{
    let f = state.focus();
    let keys = f.keymap();
    let ghost want = live_keymap(f, mouse_wanted);
    let label = if mouse_wanted {
        "Mouse: capture"
    } else {
        "Mouse: select"
    };
    let mut out: Vec<(String, String)> = Vec::new();
    let mut i: usize = 0;
    assert(owned_entries(out@) =~= want.take(0));
    while i < keys.len()
        invariant
            i <= keys@.len(),
            entries_view(keys@) == keymap_of(f),
            label@ == mouse_label(mouse_wanted),
            want == live_keymap(f, mouse_wanted),
            owned_entries(out@) == want.take(i as int),
        decreases keys@.len() - i,
    {
        let ghost before = out@;
        let (key, action) = keys[i];
        let shown = if *action == *"\u{0}mouse" {
            label
        } else {
            action
        };
        out.push((key.to_owned(), shown.to_owned()));
        proof {
            assert(entries_view(keys@)[i as int] == (key@, action@));
            assert(want[i as int] == (key@, shown@));
            assert(owned_entries(out@) =~= owned_entries(before).push((key@, shown@)));
            assert(want.take(i + 1) =~= want.take(i as int).push(want[i as int]));
        }
        i += 1;
    }
    proof {
        assert(entries_view(keys@).len() == keys@.len());
        assert(want.take(i as int) =~= want);
    }
    match &state.last_key_log {
        Some(message) => {
            let ghost before = out@;
            let none = String::new();
            out.push((none, message.clone()));
            assert(owned_entries(out@) =~= owned_entries(before).push(
                (Seq::empty(), message@),
            ));
        },
        None => {},
    }
    out
}

fn char_count(s: &str) -> (r: usize)
    ensures
        r == s@.len(),
{
    let cs = text::chars_of(s);
    cs.len()
}

/// The rows of the status bar: every shortcut of the window that owns the keyboard, packed
/// into as many rows as the width needs.
pub fn status_rows(state: &State, mouse_wanted: bool, width: u16) -> (r: Vec<Vec<Span>>)
    ensures
        lines_view(r@) == packed(bar_entries(state@, mouse_wanted), at_least_one(width)),
{
    let entries = entries_of(state, mouse_wanted);
    let ghost all = bar_entries(state@, mouse_wanted);
    let limit: u128 = if width == 0 {
        1
    } else {
        width as u128
    };
    let mut rows: Vec<Vec<Span>> = Vec::new();
    let mut row: Vec<Span> = Vec::new();
    let mut used: u128 = 0;
    let mut i: usize = 0;
    proof {
        assert(lines_view(rows@) =~= packing(all.take(0), limit as nat).rows);
        assert(row_view(row@) =~= packing(all.take(0), limit as nat).row);
        assert(all.len() <= 11);
        assert(owned_entries(entries@).len() == entries@.len());
    }
    while i < entries.len()
        invariant
            i <= entries@.len() <= 11,
            owned_entries(entries@) == all,
            limit == at_least_one(width),
            lines_view(rows@) == packing(all.take(i as int), limit as nat).rows,
            row_view(row@) == packing(all.take(i as int), limit as nat).row,
            row@.len() == row_view(row@).len(),
            used == packing(all.take(i as int), limit as nat).used,
            used <= i * 0x4_0000_0000_0000_0000,
        decreases entries@.len() - i,
    {
        let key = &entries[i].0;
        let action = &entries[i].1;
        let ghost e = (key@, action@);
        let ghost p = packing(all.take(i as int), limit as nat);
        proof {
            assert(all.take(i + 1).drop_last() =~= all.take(i as int));
            assert(all.take(i + 1).last() == e);
        }
        let mut label: u128 = char_count(key.as_str()) as u128 + char_count(action.as_str()) as u128;
        let bare = key.as_str().is_empty();
        if !bare {
            label = label + 1;
        }
        assert(label == entry_width(e));
        if row.len() > 0 && used + SEPARATOR_WIDTH as u128 + label > limit {
            let ghost before = rows@;
            let ghost full = row_view(row@);
            rows.push(row);
            row = Vec::new();
            used = 0;
            proof {
                assert(lines_view(rows@) =~= lines_view(before).push(full));
                assert(row_view(row@) =~= Seq::<SpanView>::empty());
            }
        }
        if row.len() > 0 {
            push_span(&mut row, span(" │ ".to_owned(), Some(Color::DarkGray), false));
            used = used + SEPARATOR_WIDTH as u128;
        }
        let ghost start = row_view(row@);
        if bare {
            push_span(&mut row, span(action.clone(), Some(Color::DarkGray), false));
        } else {
            push_span(&mut row, span(key.clone(), Some(Color::Yellow), true));
            push_span(&mut row, span(" ".to_owned(), None, false));
            push_span(&mut row, span(action.clone(), None, false));
        }
        proof {
            assert(row_view(row@) =~= start + entry_spans(e));
            if p.row.len() == 0 || start.len() == 0 {
                assert(start =~= Seq::<SpanView>::empty());
                assert(start + entry_spans(e) =~= entry_spans(e));
            }
        }
        used = used + label;
        i += 1;
    }
    proof {
        assert(all.take(i as int) =~= all);
    }
    if row.len() > 0 {
        let ghost before = rows@;
        let ghost last = row_view(row@);
        rows.push(row);
        assert(lines_view(rows@) =~= lines_view(before).push(last));
    }
    rows
}

/// How many rows the status bar takes: at least one and at most four.
pub fn status_height(state: &State, mouse_wanted: bool, width: u16) -> (r: u16)
    ensures
        ({
            let n = packed(bar_entries(state@, mouse_wanted), at_least_one(width)).len();
            r == (if n < 1 {
                1
            } else if n > 4 {
                4
            } else {
                n as int
            })
        }),
{
    let rows = status_rows(state, mouse_wanted, width);
    assert(lines_view(rows@).len() == rows@.len());
    if rows.len() < 1 {
        1
    } else if rows.len() > 4 {
        4
    } else {
        rows.len() as u16
    }
}

/// Whether the spans of an entry stand together in a row.
pub open spec fn holds(row: Seq<SpanView>, e: (Seq<char>, Seq<char>)) -> bool {
    exists|k: int|
        0 <= k && k + entry_spans(e).len() <= row.len() && #[trigger] row.subrange(
            k,
            k + entry_spans(e).len(),
        ) == entry_spans(e)
}

proof fn lemma_packing_holds(entries: Seq<(Seq<char>, Seq<char>)>, width: nat)
    ensures
        forall|i: int|
            0 <= i < entries.len() ==> holds(packing(entries, width).row, #[trigger] entries[i])
                || exists|r: int|
                0 <= r < packing(entries, width).rows.len() && holds(
                    #[trigger] packing(entries, width).rows[r],
                    entries[i],
                ),
    decreases entries.len(),
{
    if entries.len() > 0 {
        let less = entries.drop_last();
        let e = entries.last();
        lemma_packing_holds(less, width);
        let p = packing(less, width);
        let q = packing(entries, width);
        let own = entry_spans(e);
        assert forall|i: int| 0 <= i < entries.len() implies holds(q.row, #[trigger] entries[i])
            || exists|r: int|
            0 <= r < q.rows.len() && holds(#[trigger] q.rows[r], entries[i]) by {
            if i < less.len() {
                assert(less[i] == entries[i]);
                if holds(p.row, less[i]) {
                    if p.row.len() > 0 && p.used + SEPARATOR_WIDTH + entry_width(e) > width {
                        assert(q.rows[p.rows.len() as int] == p.row);
                    } else if p.row.len() > 0 {
                        let n = entry_spans(less[i]).len() as int;
                        let k = choose|k: int|
                            0 <= k && k + entry_spans(less[i]).len() <= p.row.len()
                                && #[trigger] p.row.subrange(
                                k,
                                k + entry_spans(less[i]).len(),
                            ) == entry_spans(less[i]);
                        assert(q.row.subrange(k, k + n) =~= p.row.subrange(k, k + n));
                    }
                } else {
                    let r = choose|r: int|
                        0 <= r < p.rows.len() && holds(#[trigger] p.rows[r], less[i]);
                    assert(q.rows[r] == p.rows[r]);
                }
            } else {
                let k = q.row.len() - own.len();
                assert(q.row.subrange(k, k + own.len()) =~= own);
            }
        }
    }
}

/// However narrow the terminal, the status bar hides no shortcut: each one, with what it
/// does, stands in one of the rows.
pub proof fn lemma_bar_shows_all(entries: Seq<(Seq<char>, Seq<char>)>, width: nat)
    ensures
        forall|i: int|
            0 <= i < entries.len() ==> exists|r: int|
                0 <= r < packed(entries, width).len() && holds(
                    #[trigger] packed(entries, width)[r],
                    #[trigger] entries[i],
                ),
{
    lemma_packing_holds(entries, width);
    let p = packing(entries, width);
    let rows = packed(entries, width);
    assert forall|i: int| 0 <= i < entries.len() implies exists|r: int|
        0 <= r < rows.len() && holds(#[trigger] rows[r], #[trigger] entries[i]) by {
        if holds(p.row, entries[i]) {
            assert(entry_spans(entries[i]).len() > 0);
            assert(p.row.len() > 0);
            assert(rows[p.rows.len() as int] == p.row);
        } else {
            let r = choose|r: int| 0 <= r < p.rows.len() && holds(#[trigger] p.rows[r], entries[i]);
            assert(rows[r] == p.rows[r]);
        }
    }
}

/// The constraints of an area with the same padding at either end.
pub open spec fn padded(padding: u16) -> Seq<Constraint> {
    seq![Constraint::Length(padding), Constraint::Min(0), Constraint::Length(padding)]
}

/// The constraints of an area with the same padding at either end.
pub fn padding_constraints(padding: u16) -> (r: Vec<Constraint>)
    ensures
        r@ == padded(padding),
{
    let r = vec![Constraint::Length(padding), Constraint::Min(0), Constraint::Length(padding)];
    assert(r@ =~= padded(padding));
    r
}

/// The area inside a padding: the middle part of the middle one of the bands that `area` is
/// divided into.
pub fn apply_terminal_padding(area: Rect, padding_x: u16, padding_y: u16) -> (r: Rect)
    ensures
        exists|bands: Seq<Rect>, parts: Seq<Rect>| #[trigger]
            divided(Direction::Vertical, padded(padding_y), area, bands) && #[trigger] divided(
                Direction::Horizontal,
                padded(padding_x),
                bands[1],
                parts,
            ) && r == parts[1],
{
    let bands = split(Direction::Vertical, &padding_constraints(padding_y), area);
    let parts = split(Direction::Horizontal, &padding_constraints(padding_x), bands[1]);
    assert(divided(Direction::Vertical, padded(padding_y), area, bands@));
    assert(divided(Direction::Horizontal, padded(padding_x), bands@[1], parts@));
    parts[1]
}

/// The constraints of what stands above a status bar, and of the bar.
pub open spec fn above_bar(status_height: u16) -> Seq<Constraint> {
    seq![Constraint::Min(0), Constraint::Length(status_height)]
}

/// The constraints of what stands above a status bar, and of the bar.
pub fn bar_constraints(status_height: u16) -> (r: Vec<Constraint>)
    ensures
        r@ == above_bar(status_height),
{
    let r = vec![Constraint::Min(0), Constraint::Length(status_height)];
    assert(r@ =~= above_bar(status_height));
    r
}

/// The constraints of a part that takes a share, and of the rest.
pub open spec fn share(percentage: u16) -> Seq<Constraint> {
    seq![Constraint::Percentage(percentage), Constraint::Min(0)]
}

/// The constraints of a part that takes a share, and of the rest.
pub fn share_constraints(percentage: u16) -> (r: Vec<Constraint>)
    ensures
        r@ == share(percentage),
{
    let r = vec![Constraint::Percentage(percentage), Constraint::Min(0)];
    assert(r@ =~= share(percentage));
    r
}

/// The strip left of the output window, and the window: the strip takes a tenth of the band
/// above the status bar.
pub fn logs_dialog_areas(area: Rect, status_height: u16) -> (r: (Rect, Rect))
    ensures
        exists|bands: Seq<Rect>, parts: Seq<Rect>| #[trigger]
            divided(Direction::Vertical, above_bar(status_height), area, bands)
                && #[trigger] divided(Direction::Horizontal, share(10), bands[0], parts) && r == (
                parts[0],
                parts[1],
            ),
{
    let bands = split(Direction::Vertical, &bar_constraints(status_height), area);
    let parts = split(Direction::Horizontal, &share_constraints(10), bands[0]);
    assert(divided(Direction::Vertical, above_bar(status_height), area, bands@));
    assert(divided(Direction::Horizontal, share(10), bands@[0], parts@));
    (parts[0], parts[1])
}

/// The areas of the list: that of the tasks at the top, which takes a fifth of what stands
/// above the status bar, that of the others, and that of the status bar.
pub fn main_areas(area: Rect, status_height: u16) -> (r: (Rect, Rect, Rect))
    ensures
        exists|bands: Seq<Rect>, parts: Seq<Rect>| #[trigger]
            divided(Direction::Vertical, above_bar(status_height), area, bands)
                && #[trigger] divided(Direction::Vertical, share(20), bands[0], parts) && r == (
                parts[0],
                parts[1],
                bands[1],
            ),
{
    let bands = split(Direction::Vertical, &bar_constraints(status_height), area);
    let parts = split(Direction::Vertical, &share_constraints(20), bands[0]);
    assert(divided(Direction::Vertical, above_bar(status_height), area, bands@));
    assert(divided(Direction::Vertical, share(20), bands@[0], parts@));
    (parts[0], parts[1], bands[1])
}

/// The constraints that centre a box of a given size.
pub open spec fn centred(available: u16, size: u16) -> Seq<Constraint> {
    let rest = if available > size {
        (available - size) as u16
    } else {
        0
    };
    seq![Constraint::Length((rest / 2) as u16), Constraint::Length(size), Constraint::Min(0)]
}

/// The constraints that centre a box of a given size.
pub fn centring_constraints(available: u16, size: u16) -> (r: Vec<Constraint>)
    ensures
        r@ == centred(available, size),
{
    let padding: u16 = available.saturating_sub(size) / 2;
    let r = vec![Constraint::Length(padding), Constraint::Length(size), Constraint::Min(0)];
    assert(r@ =~= centred(available, size));
    r
}

/// The height of the box that asks whether to quit.
pub const QUIT_BOX_HEIGHT: u16 = 5;

/// The area of a box for a text of `text_len` columns in the middle of `parent`, and the
/// four areas around it: above, below, left and right.
pub fn exact_text_centered_rect(text_len: u16, parent: Rect) -> (r: (Rect, Vec<Rect>))
    requires
        text_len <= u16::MAX - 2,
    ensures
        exists|bands: Seq<Rect>, parts: Seq<Rect>| #[trigger]
            divided(
                Direction::Vertical,
                centred(parent.height, QUIT_BOX_HEIGHT),
                parent,
                bands,
            ) && #[trigger] divided(
                Direction::Horizontal,
                centred(parent.width, (text_len + 2) as u16),
                bands[1],
                parts,
            ) && r.0 == parts[1] && r.1@ == seq![bands[0], bands[2], parts[0], parts[2]],
{
    let bands = split(
        Direction::Vertical,
        &centring_constraints(parent.height, QUIT_BOX_HEIGHT),
        parent,
    );
    let parts = split(
        Direction::Horizontal,
        &centring_constraints(parent.width, text_len + 2),
        bands[1],
    );
    let others = vec![bands[0], bands[2], parts[0], parts[2]];
    proof {
        assert(others@ =~= seq![bands@[0], bands@[2], parts@[0], parts@[2]]);
        assert(divided(
            Direction::Vertical,
            centred(parent.height, QUIT_BOX_HEIGHT),
            parent,
            bands@,
        ));
        assert(divided(
            Direction::Horizontal,
            centred(parent.width, (text_len + 2) as u16),
            bands@[1],
            parts@,
        ));
    }
    (parts[1], others)
}

/// The constraints of three bands, of which the outer two take the same share.
pub open spec fn loading_bands() -> Seq<Constraint> {
    seq![Constraint::Percentage(40), Constraint::Length(3), Constraint::Percentage(40)]
}

/// The area of the text that tells that tasks are being loaded: the middle one of three
/// bands, between two that take the same share.
pub fn loading_area(area: Rect) -> (r: Rect)
    ensures
        exists|bands: Seq<Rect>| #[trigger]
            divided(Direction::Vertical, loading_bands(), area, bands) && r == bands[1],
{
    let constraints = vec![
        Constraint::Percentage(40),
        Constraint::Length(3),
        Constraint::Percentage(40),
    ];
    let bands = split(Direction::Vertical, &constraints, area);
    proof {
        assert(constraints@ =~= loading_bands());
        assert(divided(Direction::Vertical, loading_bands(), area, bands@));
    }
    bands[1]
}

/// How many seconds are left to confirm a quit that was asked for at `quit_at`.
pub open spec fn remaining(quit_at: int, now: int) -> int {
    let elapsed = seconds(quit_at, now);
    QUIT_CONFIRM_SECONDS - (if elapsed < 0 {
        -elapsed
    } else {
        elapsed
    })
}

/// How many seconds are left to confirm a quit that was asked for at `quit_at`.
pub fn seconds_remaining(quit_at: i64, now: i64) -> (r: i64)
    ensures
        r == remaining(quit_at as int, now as int),
        -1_000_000_000_000 < r <= QUIT_CONFIRM_SECONDS,
{
    let elapsed: i64 = seconds_between(quit_at, now);
    if elapsed < 0 {
        QUIT_CONFIRM_SECONDS + elapsed
    } else {
        QUIT_CONFIRM_SECONDS - elapsed
    }
}

/// What is measured to find the width of the box that asks whether to quit.
pub fn quit_prompt(seconds_left: i64) -> (r: String)
    ensures
        r@ == "[q / Ctrl+C] Quit │ [Esc] Cancel (Auto-resume in "@ + text::signed_decimal(
            seconds_left as int,
        ) + "s)"@,
{
    let n = text::signed_text(seconds_left);
    text::concat3("[q / Ctrl+C] Quit │ [Esc] Cancel (Auto-resume in ", n.as_str(), "s)")
}

/// What the box that asks whether to quit says.
pub open spec fn quit_lines(seconds_left: int) -> Seq<Seq<SpanView>> {
    seq![
        seq![colored("  "@, Color::Yellow), strong("Quit Application?"@, Color::White)],
        seq![raw(""@)],
        seq![
            raw(" Press "@),
            strong("q"@, Color::Red),
            raw(" or "@),
            strong("Ctrl+C"@, Color::Red),
            raw(" to exit. Press "@),
            strong("Esc"@, Color::Green),
            raw(" or wait "@),
            strong(text::signed_decimal(seconds_left) + "s"@, Color::Yellow),
            raw(" to resume."@),
        ],
    ]
}

/// What the box that asks whether to quit says.
pub fn draw_quit_dialog(seconds_left: i64) -> (r: Vec<Vec<Span>>)
    ensures
        lines_view(r@) == quit_lines(seconds_left as int),
{
    let n = text::signed_text(seconds_left);
    let title = vec![
        span("  ".to_owned(), Some(Color::Yellow), false),
        span("Quit Application?".to_owned(), Some(Color::White), true),
    ];
    let blank = vec![span("".to_owned(), None, false)];
    let keys = vec![
        span(" Press ".to_owned(), None, false),
        span("q".to_owned(), Some(Color::Red), true),
        span(" or ".to_owned(), None, false),
        span("Ctrl+C".to_owned(), Some(Color::Red), true),
        span(" to exit. Press ".to_owned(), None, false),
        span("Esc".to_owned(), Some(Color::Green), true),
        span(" or wait ".to_owned(), None, false),
        span(text::concat(n.as_str(), "s"), Some(Color::Yellow), true),
        span(" to resume.".to_owned(), None, false),
    ];
    proof {
        assert(row_view(title@) =~= quit_lines(seconds_left as int)[0]);
        assert(row_view(blank@) =~= quit_lines(seconds_left as int)[1]);
        assert(row_view(keys@) =~= quit_lines(seconds_left as int)[2]);
    }
    let r = vec![title, blank, keys];
    assert(lines_view(r@) =~= quit_lines(seconds_left as int));
    r
}

/// What the output window shows.
pub enum LogsDialog {
    /// The task is not there any more.
    Gone,
    /// The task has no command at the open tab.
    Empty { title: Vec<Span> },
    /// The rows of the open tab.
    Output { title: Vec<Span>, rows: Vec<(String, Color)>, sb: ScrollbarState },
    /// No window is open.
    Closed,
}

/// What a [`LogsDialog`] says.
pub enum LogsDialogView {
    Gone,
    Empty { title: Seq<SpanView> },
    Output { title: Seq<SpanView>, rows: Seq<(Seq<char>, Color)>, sb: ScrollbarState },
    Closed,
}

impl View for LogsDialog {
    type V = LogsDialogView;

    open spec fn view(&self) -> LogsDialogView {
        match *self {
            LogsDialog::Gone => LogsDialogView::Gone,
            LogsDialog::Empty { title } => LogsDialogView::Empty { title: row_view(title@) },
            LogsDialog::Output { title, rows, sb } => LogsDialogView::Output {
                title: row_view(title@),
                rows: rows_view(rows@),
                sb,
            },
            LogsDialog::Closed => LogsDialogView::Closed,
        }
    }
}

/// What is left of an extent inside a border.
pub open spec fn inside_border(n: u16) -> u16 {
    if n > 2 {
        (n - 2) as u16
    } else {
        0
    }
}

/// The state and what is shown when the output window is drawn into `dialog`: the pane of the
/// open tab is brought in line with the log and with the area inside the border.
pub open spec fn logs_drawn(
    s: StateView,
    task: Option<DetailsView>,
    logs: Seq<Seq<char>>,
    frame: nat,
    dialog: Rect,
) -> (StateView, LogsDialogView) {
    match (task, s.logs) {
        (None, _) => (s, LogsDialogView::Gone),
        (Some(t), window) => {
            let tab = match window {
                Some(w) => w.tab,
                None => 0,
            };
            let title = logs_title_of(t, tab, frame);
            match (command_at(t, tab as int), window) {
                (None, _) => (s, LogsDialogView::Empty { title }),
                (Some(_), None) => (s, LogsDialogView::Closed),
                (Some(cmd), Some(w)) => {
                    let pane = w.pane(cmd.id).synced(
                        logs,
                        inside_border(dialog.width),
                        inside_border(dialog.height),
                    );
                    (
                        StateView { logs: Some(w.with_pane(cmd.id, pane)), ..s },
                        LogsDialogView::Output { title, rows: pane.shown(), sb: pane.sb },
                    )
                },
            }
        },
    }
}

/// What an optional task says.
pub open spec fn opt_details(t: Option<&TaskWithDetails>) -> Option<DetailsView> {
    match t {
        Some(x) => Some(x@),
        None => None,
    }
}

fn copy_rows(rows: &[(String, Color)]) -> (r: Vec<(String, Color)>)
    ensures
        rows_view(r@) == rows_view(rows@),
{
    let mut out: Vec<(String, Color)> = Vec::new();
    let mut i: usize = 0;
    assert(rows_view(out@) =~= rows_view(rows@).take(0));
    while i < rows.len()
        invariant
            i <= rows@.len(),
            rows_view(out@) == rows_view(rows@).take(i as int),
        decreases rows@.len() - i,
    {
        let ghost before = rows_view(out@);
        out.push((rows[i].0.clone(), rows[i].1));
        proof {
            let x = (rows@[i as int].0@, rows@[i as int].1);
            assert(rows_view(out@) =~= before.push(x));
            assert(rows_view(rows@).take(i + 1) =~= rows_view(rows@).take(i as int).push(x));
        }
        i += 1;
    }
    assert(rows_view(rows@).take(i as int) =~= rows_view(rows@));
    out
}

/// Draws the output window into `dialog`.
pub fn draw_logs_dialog(
    state: &mut State,
    task: Option<&TaskWithDetails>,
    logs: &Vec<String>,
    frame_count: usize,
    dialog: Rect,
) -> (r: LogsDialog)
    requires
        old(state).wf(),
    ensures
        final(state).wf(),
        (final(state)@, r@) == logs_drawn(
            old(state)@,
            opt_details(task),
            text::texts(logs@),
            frame_count as nat,
            dialog,
        ),
{
    let task = match task {
        Some(t) => t,
        None => {
            return LogsDialog::Gone;
        },
    };
    let tab: usize = match &state.logs {
        Some(w) => w.tab,
        None => 0,
    };
    let title = logs_title(task, tab, frame_count);
    let cmd = match tab_command(task, tab) {
        Some(c) => c,
        None => {
            return LogsDialog::Empty { title };
        },
    };
    match state.logs.as_mut() {
        Some(w) => {
            let pane = w.pane_mut(cmd._id.as_str());
            pane.sync(logs, dialog.width.saturating_sub(2), dialog.height.saturating_sub(2));
            let rows = copy_rows(pane.visible());
            LogsDialog::Output { title, rows, sb: pane.sb }
        },
        None => LogsDialog::Closed,
    }
}

} // verus!
