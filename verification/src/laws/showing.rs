//! What is drawn of tasks, commands and shortcuts.

use vstd::prelude::*;

use crate::app_state::TaskStateView;
use crate::layout::Rect;
use crate::log_pane::Color;
use crate::task::CommandTypeView;
use crate::task::CommandView;
use crate::task::DetailsView;
use crate::task::InternalTaskStatus;
use crate::task::TaskStatus;
use crate::task::shown_commands;
use crate::text;
use crate::tui_manager::entries_of;
use crate::tui_manager::output_title;
use crate::tui_managerv2::FrameState;
use crate::tui_managerv2::FrameStep;
use crate::tui_managerv2::StateView;
use crate::tui_managerv2::TuiView;
use crate::tui_managerv2::WindowView;
use crate::tui_managerv2::keymap_of;
use crate::tui_managerv2::listed_ids;
use crate::tui_managerv2::next_frame;
use crate::tui_managerv2::shown_log;
use crate::tui_view::LogsDialogView;
use crate::tui_view::bar_entries;
use crate::tui_view::command_spans;
use crate::tui_view::glyph_of;
use crate::tui_view::live_keymap;
use crate::tui_view::logs_drawn;
use crate::tui_view::logs_title_of;
use crate::tui_view::longest_name;
use crate::tui_view::packing;
use crate::tui_view::remaining;
use crate::tui_view::rows_of;
use crate::tui_view::spinner;
use crate::tui_view::tab_spans;
use crate::tui_view::task_row;

verus! {

/// Commands that are under way turn, those that failed are red, those that succeeded green and
/// those that were stopped light red; those that wait have no mark.
pub proof fn lemma_glyphs(status: TaskStatus, frame: nat)
    ensures
        status == TaskStatus::Starting || status == TaskStatus::Running || status
            == TaskStatus::Stopping ==> glyph_of(status, frame) == (
            Some(Color::Yellow),
            spinner(frame),
        ),
        status == TaskStatus::Failed ==> glyph_of(status, frame) == (Some(Color::Red), "✗"@),
        status == TaskStatus::Successed ==> glyph_of(status, frame) == (Some(Color::Green), "✓"@),
        status == TaskStatus::Stopped ==> glyph_of(status, frame) == (Some(Color::LightRed), "■"@),
        status == TaskStatus::Init ==> glyph_of(status, frame) == (None::<Color>, " "@),
{
}

/// The name under which a command is shown.
pub open spec fn command_name(c: CommandView) -> Seq<char> {
    match c.command {
        CommandTypeView::Simple(script) => script,
        CommandTypeView::Plexus { name, command } => name,
    }
}

/// Each command takes two spans of a row: its mark with its name in bold, and a space.
pub proof fn lemma_command_spans(cmds: Seq<CommandView>, frame: nat, i: int)
    requires
        0 <= i < cmds.len(),
    ensures
        command_spans(cmds, frame).len() == 2 * cmds.len(),
        ({
            let span = command_spans(cmds, frame)[2 * i];
            let (color, glyph) = glyph_of(cmds[i].status, frame);
            &&& span.content == glyph + " "@ + command_name(cmds[i])
            &&& span.fg == color
            &&& span.bold
            &&& !span.dim
            &&& !span.reversed
        }),
        command_spans(cmds, frame)[2 * i + 1].content == " "@,
    decreases cmds.len(),
{
    let less = cmds.drop_last();
    if i < less.len() {
        lemma_command_spans(less, frame, i);
        assert(less[i] == cmds[i]);
    } else if less.len() > 0 {
        lemma_command_spans(less, frame, 0);
    } else {
        assert(command_spans(less, frame).len() == 0);
    }
}

/// The row of a task has a mark and stands out exactly where the task is selected. Behind the
/// mark stands its name, padded to four columns more than the longest one, then its commands.
pub proof fn lemma_task_row(
    task: DetailsView,
    selected_id: Seq<char>,
    frame: nat,
    longest: nat,
)
    requires
        longest + 4 <= usize::MAX,
    ensures
        ({
            let row = task_row(task, selected_id, frame, longest);
            &&& row.reversed <==> task.task.id == selected_id
            &&& row.spans.len() == 2 + command_spans(
                shown_commands(task.task.commands),
                frame,
            ).len()
            &&& task.task.id == selected_id ==> row.spans[0].content == "> "@
            &&& task.task.id != selected_id ==> row.spans[0].content == "  "@
            &&& row.spans[1].content == text::padded(task.task.name, longest + 4)
            &&& row.spans.skip(2) == command_spans(shown_commands(task.task.commands), frame)
        }),
{
    let row = task_row(task, selected_id, frame, longest);
    assert(row.spans.skip(2) =~= command_spans(shown_commands(task.task.commands), frame));
}

/// No name is longer than the longest one, which is that of a task.
pub proof fn lemma_longest_name(tasks: Seq<DetailsView>, i: int)
    requires
        0 <= i < tasks.len(),
    ensures
        vstd::utf8::encode_utf8(tasks[i].task.name).len() <= longest_name(tasks),
        exists|k: int|
            0 <= k < tasks.len() && vstd::utf8::encode_utf8((#[trigger] tasks[k]).task.name).len()
                == longest_name(tasks),
    decreases tasks.len(),
{
    let less = tasks.drop_last();
    let n = tasks.len() - 1;
    assert(tasks[n] == tasks.last());
    if less.len() > 0 {
        if i < less.len() {
            lemma_longest_name(less, i);
            assert(less[i] == tasks[i]);
        } else {
            lemma_longest_name(less, 0);
        }
        let k = choose|k: int|
            0 <= k < less.len() && vstd::utf8::encode_utf8((#[trigger] less[k]).task.name).len()
                == longest_name(less);
        assert(less[k] == tasks[k]);
    } else {
        assert(longest_name(less) == 0);
    }
}

/// Each part of the list has the rows of exactly the tasks that belong there, in their order.
pub proof fn lemma_rows_of(
    tasks: Seq<DetailsView>,
    task: DetailsView,
    place: InternalTaskStatus,
    selected_id: Seq<char>,
    frame: nat,
    longest: nat,
)
    ensures
        rows_of(Seq::empty(), place, selected_id, frame, longest).len() == 0,
        task.status == place ==> rows_of(tasks.push(task), place, selected_id, frame, longest)
            == rows_of(tasks, place, selected_id, frame, longest).push(
            task_row(task, selected_id, frame, longest),
        ),
        task.status != place ==> rows_of(tasks.push(task), place, selected_id, frame, longest)
            == rows_of(tasks, place, selected_id, frame, longest),
{
    assert(tasks.push(task).drop_last() =~= tasks);
}

/// The title of the output window has two spans for each command: its mark with its name, which
/// stands out in yellow for the open one and is dim for the others, and a space.
pub proof fn lemma_tab_spans(cmds: Seq<CommandView>, tab: nat, frame: nat, i: int)
    requires
        0 <= i < cmds.len(),
    ensures
        tab_spans(cmds, tab, frame).len() == 2 * cmds.len(),
        ({
            let span = tab_spans(cmds, tab, frame)[2 * i];
            let (color, glyph) = glyph_of(cmds[i].status, frame);
            &&& span.content == " "@ + glyph + " "@ + command_name(cmds[i]) + " "@
            &&& i == tab ==> span.fg == Some(Color::Yellow) && span.bold && span.reversed
                && !span.dim
            &&& i != tab ==> span.fg == color && !span.bold && !span.reversed && span.dim
        }),
        tab_spans(cmds, tab, frame)[2 * i + 1].content == " "@,
    decreases cmds.len(),
{
    let less = cmds.drop_last();
    if i < less.len() {
        lemma_tab_spans(less, tab, frame, i);
        assert(less[i] == cmds[i]);
    } else if less.len() > 0 {
        lemma_tab_spans(less, tab, frame, 0);
    } else {
        assert(tab_spans(less, tab, frame).len() == 0);
    }
}

/// The title of the output window begins with the name of the task and says where it has no
/// commands.
pub proof fn lemma_logs_title(task: DetailsView, tab: nat, frame: nat)
    ensures
        ({
            let title = logs_title_of(task, tab, frame);
            let cmds = shown_commands(task.task.commands);
            &&& title[0].content == " "@ + task.task.name + " "@
            &&& title[0].bold
            &&& cmds.len() == 0 ==> title.len() == 2 && title[1].content == "(no commands)"@
            &&& cmds.len() > 0 ==> title.len() == 1 + tab_spans(cmds, tab, frame).len()
                && title.skip(1) == tab_spans(cmds, tab, frame)
        }),
{
    let title = logs_title_of(task, tab, frame);
    let cmds = shown_commands(task.task.commands);
    if cmds.len() > 0 {
        assert(title.skip(1) =~= tab_spans(cmds, tab, frame));
    } else {
        assert(tab_spans(cmds, tab, frame).len() == 0);
    }
}

/// The status bar shows the shortcuts of the window that owns the keyboard, with the mode of the
/// mouse as it is, and last what was said about a key.
pub proof fn lemma_bar_entries(s: StateView, mouse_wanted: bool, i: int)
    requires
        s.focus.len() > 0,
        0 <= i < keymap_of(s.focus[s.focus.len() - 1]).len(),
    ensures
        ({
            let keys = keymap_of(s.focus[s.focus.len() - 1]);
            let bar = bar_entries(s, mouse_wanted);
            &&& keys[i].1 != "\u{0}mouse"@ ==> bar[i] == keys[i]
            &&& keys[i].1 == "\u{0}mouse"@ ==> bar[i].0 == keys[i].0 && bar[i].1 == (
            if mouse_wanted {
                "Mouse: capture"@
            } else {
                "Mouse: select"@
            })
            &&& s.last_key_log is None ==> bar.len() == keys.len()
            &&& s.last_key_log matches Some(message) ==> bar.len() == keys.len() + 1
                && bar[keys.len() as int].0.len() == 0 && bar[keys.len() as int].1 == message
        }),
{
    let keys = live_keymap(s.focus[s.focus.len() - 1], mouse_wanted);
    assert(keys.len() == keymap_of(s.focus[s.focus.len() - 1]).len());
}

/// An entry goes on the row under way where it fits there behind a separator, and on a new row
/// where it does not.
pub proof fn lemma_packing(
    entries: Seq<(Seq<char>, Seq<char>)>,
    e: (Seq<char>, Seq<char>),
    width: nat,
)
    requires
        packing(entries, width).row.len() > 0,
    ensures
        ({
            let before = packing(entries, width);
            let after = packing(entries.push(e), width);
            let own = if e.0.len() == 0 {
                e.1.len()
            } else {
                e.0.len() + 1 + e.1.len()
            };
            &&& before.used + 5 + own <= width ==> after.rows == before.rows && after.used
                == before.used + 5 + own
            &&& before.used + 5 + own > width ==> after.rows == before.rows.push(before.row)
                && after.used == own
        }),
{
    assert(entries.push(e).drop_last() =~= entries);
}

/// The seconds that are left to confirm a quit go down from five as time passes.
pub proof fn lemma_remaining(quit_at: int, now: int)
    requires
        quit_at <= now,
    ensures
        remaining(quit_at, now) == 5 - (now - quit_at) / 1_000_000_000,
{
}

/// What is done for a frame: to end where the program does not run, to turn the capture of the
/// mouse where it is not as wanted, to say that tasks are loaded while they are, and else to draw
/// them.
pub proof fn lemma_next_frame(m: TuiView, f: FrameState, is_loading: bool)
    ensures
        !m.is_running ==> next_frame(m, f, is_loading) == FrameStep::Exit,
        m.is_running && m.mouse_wanted && !f.mouse_capture_on ==> next_frame(m, f, is_loading)
            == FrameStep::SetMouse(true),
        m.is_running && !m.mouse_wanted && f.mouse_capture_on ==> next_frame(m, f, is_loading)
            == FrameStep::SetMouse(false),
        m.is_running && m.mouse_wanted == f.mouse_capture_on && f.loading && is_loading
            ==> next_frame(m, f, is_loading) == FrameStep::Loading,
        m.is_running && m.mouse_wanted == f.mouse_capture_on && !(f.loading && is_loading)
            ==> next_frame(m, f, is_loading) == FrameStep::Draw,
{
}

/// The output window shows the command of the open tab, or the last one where there are fewer.
pub proof fn lemma_shown_log(
    s: StateView,
    window: WindowView,
    tasks: Seq<DetailsView>,
    t: int,
)
    requires
        s.logs == Some(window),
        0 <= t < tasks.len(),
        tasks[t].task.id == window.task_id,
        forall|k: int| 0 <= k < t ==> (#[trigger] tasks[k]).task.id != window.task_id,
        tasks[t].task.commands.len() > 0,
    ensures
        ({
            let cmds = shown_commands(tasks[t].task.commands);
            let tab = if window.tab < cmds.len() {
                window.tab as int
            } else {
                cmds.len() - 1
            };
            let (after, shown) = shown_log(s, tasks);
            &&& shown matches Some((place, id)) && place == t && id == Some(cmds[tab].id)
            &&& after.logs matches Some(w) && w.tab == tab && w.task_id == window.task_id && w.panes
                == window.panes
            &&& after.focus == s.focus
            &&& after.selected_task_id == s.selected_task_id
        }),
{
    let ids = listed_ids(tasks);
    assert forall|k: int| 0 <= k < t implies ids[k] != window.task_id by {
        assert(ids[k] == tasks[k].task.id);
    }
    text::lemma_is_first_at(ids, window.task_id, t);
    crate::laws::listing::lemma_all_are_shown(tasks[t].task.commands);
}

/// Drawing the output window brings the pane of its command in line with the output and with the
/// room inside the border, and shows its rows. Panes of other commands stay as they are.
pub proof fn lemma_logs_drawn(
    s: StateView,
    window: WindowView,
    task: DetailsView,
    logs: Seq<Seq<char>>,
    frame: nat,
    dialog: Rect,
    other: Seq<char>,
)
    requires
        s.logs == Some(window),
        window.tab < shown_commands(task.task.commands).len(),
        dialog.width > 2,
        dialog.height > 2,
    ensures
        ({
            let cmd = shown_commands(task.task.commands)[window.tab as int];
            let (after, dialog_view) = logs_drawn(s, Some(task), logs, frame, dialog);
            let pane = window.pane(cmd.id).synced(
                logs,
                (dialog.width - 2) as u16,
                (dialog.height - 2) as u16,
            );
            &&& dialog_view matches LogsDialogView::Output { title, rows, sb } && title
                == logs_title_of(task, window.tab, frame) && rows == pane.shown() && sb == pane.sb
            &&& after.logs matches Some(w) && w.panes.contains_key(cmd.id) && w.panes[cmd.id]
                == pane && w.tab == window.tab && (other != cmd.id ==> w.panes.contains_key(other)
                == window.panes.contains_key(other)) && (other != cmd.id
                && window.panes.contains_key(other) ==> w.panes[other] == window.panes[other])
        }),
        logs_drawn(s, None, logs, frame, dialog) == (s, LogsDialogView::Gone),
{
}

/// In the list of the interface with boxes the selected task is yellow. The others are green
/// while they run, red where they failed, and white, gray or dark gray where they finished, were
/// stopped or have not run.
pub proof fn lemma_list_entries(tasks: Seq<TaskStateView>, selected: nat, frame: nat, i: int)
    requires
        0 <= i < tasks.len(),
    ensures
        ({
            let entry = entries_of(tasks, selected, frame)[i];
            let status = tasks[i].status;
            &&& entries_of(tasks, selected, frame).len() == tasks.len()
            &&& i == selected ==> entry.fg == Some(Color::Yellow) && entry.bold
            &&& i != selected && status is Running ==> entry.fg == Some(Color::Green)
                && entry.bold
            &&& i != selected && status is Failed ==> entry.fg == Some(Color::Red) && entry.bold
            &&& i != selected && status is Finished ==> entry.fg == Some(Color::White)
                && entry.dim
            &&& i != selected && status is Stopped ==> entry.fg == Some(Color::Gray) && entry.dim
            &&& i != selected && (status is Initialized || status is Starting) ==> entry.fg == Some(
                Color::DarkGray,
            ) && entry.dim
            &&& status is Running ==> entry.content == spinner(frame) + " RUNNING"@ + " "@
                + tasks[i].name
            &&& status is Finished ==> entry.content == " Finished"@ + " "@ + tasks[i].name
            &&& status is Failed ==> entry.content == " ERROR"@ + " "@ + tasks[i].name
            &&& status is Stopped ==> entry.content == " STOPPED"@ + " "@ + tasks[i].name
            &&& status is Initialized || status is Starting ==> entry.content == " IDLE"@ + " "@
                + tasks[i].name
        }),
        selected < tasks.len() ==> output_title(tasks, selected) == "Output - "@
            + tasks[selected as int].name,
{
}

/// The picture of the spinner comes round after ten frames, and is another one in each of them.
pub proof fn lemma_spinner(a: nat, b: nat)
    ensures
        spinner(a + 10) == spinner(a),
        a % 10 != b % 10 ==> spinner(a) != spinner(b),
{
    reveal_strlit("⠋");
    reveal_strlit("⠙");
    reveal_strlit("⠹");
    reveal_strlit("⠸");
    reveal_strlit("⠼");
    reveal_strlit("⠴");
    reveal_strlit("⠦");
    reveal_strlit("⠧");
    reveal_strlit("⠇");
    reveal_strlit("⠏");
    assert(spinner(a)[0] != spinner(b)[0] || a % 10 == b % 10);
}

} // verus!
