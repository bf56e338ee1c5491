//! What keys do in the interfaces with a list of tasks, a box of output and a box of messages.

use vstd::prelude::*;

use crate::app_state::AppStateView;
use crate::app_state::TaskStatus;
use crate::classic::share::AppEventView;
use crate::classic::tui::LogEntryView;
use crate::classic::tui::TuiInnerView;
use crate::classic::tui::names_of;
use crate::log_view::LogViewState;
use crate::text;
use crate::tui_manager::BoxSelected;
use crate::tui_manager::TuiCommandView;
use crate::tui_manager::TuiStateView;
use crate::tui_manager::refilled;
use crate::tui_manager::with_lines;
use crate::tui_managerv2::Key;

verus! {

/// Which key asks what of the program: to quit, to end as a failure, to clear the messages, to
/// restart the selected task, or to stop it where it runs and to run it else.
pub proof fn lemma_asked(s: TuiStateView, key: Key)
    requires
        s.selected < s.tasks.len(),
    ensures
        ({
            let task = s.tasks[s.selected as int];
            &&& key == Key::Char('q') <==> s.asked_by(key) == TuiCommandView::Quit
            &&& key == Key::Char('x') <==> s.asked_by(key) == TuiCommandView::Failed
            &&& key == Key::Char('c') <==> s.asked_by(key) == TuiCommandView::ClearLogs
            &&& key == Key::Char('r') || key == Key::Enter <==> s.asked_by(key)
                == TuiCommandView::Restart(task.name)
            &&& key == Key::Char('s') && task.status == TaskStatus::Running <==> s.asked_by(key)
                == TuiCommandView::Stop(task.name)
            &&& key == Key::Char('s') && task.status != TaskStatus::Running <==> s.asked_by(key)
                == TuiCommandView::Run(task.name)
        }),
{
}

/// In the list keys move the selection by one and stop at its ends; in the boxes they move the
/// window of the box. Nothing else changes.
pub proof fn lemma_steps(s: TuiStateView, key: Key)
    requires
        s.selected < s.total_tasks,
    ensures
        ({
            let after = s.after_key(key);
            let up = key == Key::Up || key == Key::Char('k');
            let down = key == Key::Down || key == Key::Char('j');
            &&& s.box_selected == BoxSelected::Tasks && up ==> after.selected == (if s.selected
                > 0 {
                s.selected - 1
            } else {
                0
            }) && after.log_entry == s.log_entry && after.output_entry == s.output_entry
            &&& s.box_selected == BoxSelected::Tasks && down ==> after.selected == (if s.selected
                + 1 < s.total_tasks {
                s.selected + 1
            } else {
                s.selected
            }) && after.log_entry == s.log_entry && after.output_entry == s.output_entry
            &&& s.box_selected == BoxSelected::Logs && up ==> after.log_entry == s.log_entry.up()
                && after.selected == s.selected && after.output_entry == s.output_entry
            &&& s.box_selected == BoxSelected::Logs && down ==> after.log_entry
                == s.log_entry.down() && after.selected == s.selected && after.output_entry
                == s.output_entry
            &&& s.box_selected == BoxSelected::Output && up ==> after.output_entry
                == s.output_entry.up() && after.selected == s.selected && after.log_entry
                == s.log_entry
            &&& s.box_selected == BoxSelected::Output && down ==> after.output_entry
                == s.output_entry.down() && after.selected == s.selected && after.log_entry
                == s.log_entry
            &&& up || down ==> after.box_selected == s.box_selected && after.show_log
                == s.show_log && after.tasks == s.tasks && after.total_tasks == s.total_tasks
        }),
{
}

/// The keys for pages and ends move the window of the box that keys go to, and no other.
pub proof fn lemma_window_keys(s: TuiStateView, key: Key)
    ensures
        ({
            let after = s.after_key(key);
            let window = key == Key::PageUp || key == Key::PageDown || key == Key::Home || key
                == Key::End;
            &&& window && s.box_selected == BoxSelected::Tasks ==> after == s
            &&& window && s.box_selected == BoxSelected::Logs ==> after.output_entry
                == s.output_entry && after.selected == s.selected && is_moved(
                s.log_entry,
                after.log_entry,
                key,
            )
            &&& window && s.box_selected == BoxSelected::Output ==> after.log_entry
                == s.log_entry && after.selected == s.selected && is_moved(
                s.output_entry,
                after.output_entry,
                key,
            )
            &&& key == Key::Char('f') ==> after == s
        }),
{
}

/// Whether a window was moved as a key says.
pub open spec fn is_moved(before: LogViewState, after: LogViewState, key: Key) -> bool {
    &&& key == Key::PageUp ==> after == before.page_up()
    &&& key == Key::PageDown ==> after == before.page_down()
    &&& key == Key::Home ==> after == before.home()
    &&& key == Key::End ==> after == before.end()
}

/// One key shows and hides the messages, one clears them and one goes from box to box, past the
/// messages where these are hidden. Keys do not stay with a box that is hidden.
pub proof fn lemma_boxes(s: TuiStateView)
    ensures
        s.after_key(Key::Char('l')).show_log == !s.show_log,
        s.show_log && s.box_selected == BoxSelected::Logs ==> s.after_key(
            Key::Char('l'),
        ).box_selected == BoxSelected::Tasks,
        !s.show_log || s.box_selected != BoxSelected::Logs ==> s.after_key(
            Key::Char('l'),
        ).box_selected == s.box_selected,
        s.after_key(Key::Char('l')).selected == s.selected,
        s.after_key(Key::Char('c')).log_entry.logs.len() == 0,
        s.after_key(Key::Char('c')).output_entry == s.output_entry,
        s.after_key(Key::Char('c')).selected == s.selected,
        s.after_key(Key::Char('c')).box_selected == s.box_selected,
        s.box_selected == BoxSelected::Tasks ==> s.after_key(Key::Tab).box_selected
            == BoxSelected::Output,
        s.box_selected == BoxSelected::Output && s.show_log ==> s.after_key(Key::Tab).box_selected
            == BoxSelected::Logs,
        s.box_selected == BoxSelected::Output && !s.show_log ==> s.after_key(
            Key::Tab,
        ).box_selected == BoxSelected::Tasks,
        s.box_selected == BoxSelected::Logs ==> s.after_key(Key::Tab).box_selected
            == BoxSelected::Tasks,
        s.after_key(Key::Tab).selected == s.selected,
        s.after_key(Key::Tab).show_log == s.show_log,
{
}

proof fn lemma_with_lines(v: LogViewState, lines: Seq<Seq<char>>, n: int)
    requires
        0 <= n <= lines.len(),
    ensures
        with_lines(v, lines, n).logs == v.logs + lines.take(n),
        with_lines(v, lines, n).follow == v.follow,
        with_lines(v, lines, n).viewport_height == v.viewport_height,
        !v.follow ==> with_lines(v, lines, n).scroll == v.scroll,
    decreases n,
{
    if n > 0 {
        lemma_with_lines(v, lines, n - 1);
        assert((v.logs + lines.take(n - 1)).push(lines[n - 1]) =~= v.logs + lines.take(n));
    } else {
        assert(v.logs + lines.take(0) =~= v.logs);
    }
}

/// A box that is filled anew shows the given lines and nothing else. One that does not follow
/// stays where it is.
pub proof fn lemma_refilled(v: LogViewState, lines: Seq<Seq<char>>)
    ensures
        refilled(v, lines).logs == lines,
        refilled(v, lines).follow == v.follow,
        refilled(v, lines).viewport_height == v.viewport_height,
        !v.follow ==> refilled(v, lines).scroll == v.scroll,
{
    lemma_with_lines(v.clear(), lines, lines.len() as int);
    assert(Seq::<Seq<char>>::empty() + lines.take(lines.len() as int) =~= lines);
}

/// For a frame the interface takes over the tasks with their names and statuses, the output of
/// the selected one, and every message behind its level.
pub proof fn lemma_refreshed(s: TuiStateView, app: AppStateView, names: Seq<Seq<char>>, i: int)
    requires
        s.selected < names.len(),
        0 <= i < names.len(),
    ensures
        ({
            let after = s.refreshed(app, names);
            &&& after.tasks.len() == names.len()
            &&& after.total_tasks == names.len()
            &&& after.tasks[i].name == names[i]
            &&& after.tasks[i].status == app.statuses[names[i]]
            &&& after.tasks[i].outputs == app.outputs[names[i]]
            &&& after.output_entry.logs == app.outputs[names[s.selected as int]]
            &&& after.log_entry.logs.len() == app.logs.len()
            &&& forall|k: int|
                0 <= k < app.logs.len() ==> #[trigger] after.log_entry.logs[k] == "["@
                    + app.logs[k].0.shown() + "] "@ + app.logs[k].1
            &&& after.selected == s.selected
            &&& after.box_selected == s.box_selected
            &&& after.show_log == s.show_log
        }),
{
    let after = s.refreshed(app, names);
    let lines = app.logs.map_values(
        |l: (crate::logging::Level, Seq<char>)| crate::tui_manager::message_line(l),
    );
    lemma_refilled(s.log_entry, lines);
    lemma_refilled(s.output_entry, app.outputs[names[s.selected as int]]);
    assert(after.log_entry.logs == lines);
}

/// In the interface with one task for each project, which key sends what: to quit, to restart
/// the selected task, or to stop it where it runs and to start it else. Nothing is sent of a
/// task that is not there.
pub proof fn lemma_sent(s: TuiInnerView, key: Key)
    ensures
        key == Key::Char('q') ==> s.sent_by(key) == Some(AppEventView::Quit),
        s.selected < s.tasks.len() ==> {
            let task = s.tasks[s.selected as int];
            let runs = task.status is Running;
            &&& key == Key::Char('r') || key == Key::Enter ==> s.sent_by(key) == Some(
                AppEventView::TuiRestart(task.name),
            )
            &&& key == Key::Char('s') && runs ==> s.sent_by(key) == Some(
                AppEventView::TuiStop(task.name),
            )
            &&& key == Key::Char('s') && !runs ==> s.sent_by(key) == Some(
                AppEventView::TuiStart(task.name),
            )
        },
        s.selected >= s.tasks.len() && key != Key::Char('q') ==> s.sent_by(key) is None,
        key != Key::Char('q') && key != Key::Char('r') && key != Key::Enter && key != Key::Char('s')
            ==> s.sent_by(key) is None,
{
}

/// There keys move the selection by one and stop at its ends, show and hide the messages, and
/// clear them.
pub proof fn lemma_classic_keys(s: TuiInnerView, key: Key)
    requires
        s.selected < s.total_tasks,
    ensures
        ({
            let after = s.after_key(key);
            let up = key == Key::Up || key == Key::Char('k');
            let down = key == Key::Down || key == Key::Char('j');
            &&& up && s.selected > 0 ==> after.selected == s.selected - 1
            &&& up && s.selected == 0 ==> after.selected == 0
            &&& down && s.selected + 1 < s.total_tasks ==> after.selected == s.selected + 1
            &&& down && s.selected + 1 == s.total_tasks ==> after.selected == s.selected
            &&& up || down ==> after.tasks == s.tasks && after.log == s.log && after.show_log
                == s.show_log
            &&& !up && !down ==> after.selected == s.selected
            &&& key == Key::Char('l') ==> after.show_log == !s.show_log && after.tasks == s.tasks
                && after.log == s.log
            &&& key != Key::Char('l') ==> after.show_log == s.show_log
            &&& key == Key::Char('c') ==> after.log.logs.len() == 0 && after.log.scroll == 0
                && after.log.follow == s.log.follow && after.tasks == s.tasks
            &&& after.total_tasks == s.total_tasks
        }),
{
}

/// There the keys for pages and ends move the messages where these are shown, and else the
/// output of the selected task.
pub proof fn lemma_classic_windows(s: TuiInnerView, key: Key, other: int)
    requires
        key == Key::PageUp || key == Key::PageDown || key == Key::Home || key == Key::End || key
            == Key::Char('f'),
    ensures
        s.show_log ==> s.after_key(key).log == s.log.after_key(key) && s.after_key(key).tasks
            == s.tasks,
        !s.show_log ==> s.after_key(key).log == s.log,
        !s.show_log && s.selected < s.tasks.len() ==> {
            let after = s.after_key(key).tasks;
            &&& after.len() == s.tasks.len()
            &&& after[s.selected as int].output == s.tasks[s.selected as int].output.after_key(key)
            &&& after[s.selected as int].name == s.tasks[s.selected as int].name
            &&& after[s.selected as int].status == s.tasks[s.selected as int].status
            &&& 0 <= other < s.tasks.len() && other != s.selected ==> after[other]
                == s.tasks[other]
        },
        !s.show_log && s.selected >= s.tasks.len() ==> s.after_key(key).tasks == s.tasks,
{
}

/// There a window moves by ten lines with the keys for pages. Up it no longer follows; down it
/// follows once it is at most five lines from the last one. The keys for the ends and the key to
/// follow do what they say.
pub proof fn lemma_classic_window(v: LogEntryView)
    requires
        0 < v.logs.len() <= 65536,
        v.scroll < v.logs.len(),
    ensures
        v.after_key(Key::PageUp).scroll == (if v.scroll >= 10 {
            v.scroll - 10
        } else {
            0
        }),
        !v.after_key(Key::PageUp).follow,
        v.after_key(Key::PageDown).scroll == (if v.scroll + 10 < v.logs.len() {
            (v.scroll + 10) as int
        } else {
            v.logs.len() - 1
        }),
        v.after_key(Key::PageDown).follow <==> v.follow || v.after_key(Key::PageDown).scroll + 5
            >= v.logs.len() - 1,
        v.after_key(Key::Home).scroll == 0 && !v.after_key(Key::Home).follow,
        v.after_key(Key::End).follow,
        v.viewport_height matches Some(h) ==> v.after_key(Key::End).scroll == (if v.logs.len() - 1
            > h {
            v.logs.len() - 1 - h
        } else {
            0
        }),
        v.viewport_height is None ==> v.after_key(Key::End).scroll == v.logs.len() - 1,
        v.follow ==> !v.after_key(Key::Char('f')).follow && v.after_key(Key::Char('f')).scroll
            == v.scroll,
        !v.follow ==> v.after_key(Key::Char('f')).follow && v.after_key(Key::Char('f')).scroll
            == v.after_key(Key::End).scroll,
        v.after_key(Key::PageUp).logs == v.logs,
        v.after_key(Key::PageDown).logs == v.logs,
        v.after_key(Key::Home).logs == v.logs,
        v.after_key(Key::End).logs == v.logs,
{
}

/// There a line comes last, and the window moves to the end where it follows or is at most five
/// lines from it.
pub proof fn lemma_classic_line(v: LogEntryView, line: Seq<char>)
    requires
        v.logs.len() < 65536,
    ensures
        v.with_log(line).logs == v.logs.push(line),
        v.with_log(line).follow == v.follow,
        v.with_log(line).viewport_height == v.viewport_height,
        ({
            let end = match v.viewport_height {
                Some(h) => if v.logs.len() > h {
                    v.logs.len() - h
                } else {
                    0
                },
                None => v.logs.len() as int,
            };
            &&& v.follow || v.scroll + 5 >= v.logs.len() ==> v.with_log(line).scroll == end
            &&& !v.follow && v.scroll + 5 < v.logs.len() ==> v.with_log(line).scroll == v.scroll
        }),
{
}

/// There a status and a line of output go to the first task of their name, a message goes to the
/// messages, and nothing goes anywhere else.
pub proof fn lemma_classic_events(
    s: TuiInnerView,
    i: int,
    status: crate::classic::share::TaskStatus,
    line: Seq<char>,
    timestamp: i64,
    is_error: bool,
    other: int,
)
    requires
        0 <= i < s.tasks.len(),
        forall|k: int| 0 <= k < i ==> (#[trigger] s.tasks[k]).name != s.tasks[i].name,
    ensures
        ({
            let name = s.tasks[i].name;
            let told = s.after_event(AppEventView::TaskStatus { name, status });
            let printed = s.after_event(
                AppEventView::TaskOutput { name, output: line, timestamp, is_error },
            );
            let logged = s.after_event(AppEventView::Log(line));
            &&& told.tasks.len() == s.tasks.len() && printed.tasks.len() == s.tasks.len()
            &&& told.tasks[i].status == status && told.tasks[i].output == s.tasks[i].output
            &&& told.tasks[i].name == name && printed.tasks[i].name == name
            &&& printed.tasks[i].output == s.tasks[i].output.with_log(line)
            &&& printed.tasks[i].status == s.tasks[i].status
            &&& 0 <= other < s.tasks.len() && other != i ==> told.tasks[other] == s.tasks[other]
                && printed.tasks[other] == s.tasks[other]
            &&& told.log == s.log && printed.log == s.log
            &&& logged.log == s.log.with_log(line) && logged.tasks == s.tasks
            &&& told.selected == s.selected && printed.selected == s.selected && logged.selected
                == s.selected
        }),
{
    let names = names_of(s.tasks);
    assert forall|k: int| 0 <= k < i implies names[k] != s.tasks[i].name by {
        assert(names[k] == s.tasks[k].name);
    }
    text::lemma_is_first_at(names, s.tasks[i].name, i);
}

} // verus!
