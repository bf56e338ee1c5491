//! What keys and the wheel of the mouse do.

use vstd::prelude::*;

use crate::laws::listing::lemma_all_are_shown;
use crate::log_pane::PaneView;
use crate::task::CommandTypeView;
use crate::task::CommandView;
use crate::task::DetailsView;
use crate::task::TaskStatus;
use crate::task::shown_commands;
use crate::text;
use crate::tui_managerv2::CmdAction;
use crate::tui_managerv2::DispatchView;
use crate::tui_managerv2::Focus;
use crate::tui_managerv2::Key;
use crate::tui_managerv2::StateView;
use crate::tui_managerv2::TuiView;
use crate::tui_managerv2::WindowView;
use crate::tui_managerv2::key_pressed;
use crate::tui_managerv2::listed_ids;
use crate::tui_managerv2::quit_checked;
use crate::tui_managerv2::requests;
use crate::tui_managerv2::restart_all;
use crate::tui_managerv2::selection_moved;
use crate::tui_managerv2::wheel_turned;

verus! {

/// Whether a window owns the keyboard.
pub open spec fn is_open(m: TuiView, f: Focus) -> bool {
    m.state.focus.len() > 0 && m.state.focus[m.state.focus.len() - 1] == f
}

/// Whether a task of a given id is listed first at place `t`.
pub open spec fn is_listed(tasks: Seq<DetailsView>, t: int, id: Seq<char>) -> bool {
    &&& 0 <= t < tasks.len()
    &&& tasks[t].task.id == id
    &&& forall|k: int| 0 <= k < t ==> (#[trigger] tasks[k]).task.id != id
}

proof fn lemma_is_listed(tasks: Seq<DetailsView>, t: int, id: Seq<char>)
    requires
        is_listed(tasks, t, id),
    ensures
        text::first_at(listed_ids(tasks), id) == t,
{
    let ids = listed_ids(tasks);
    assert forall|k: int| 0 <= k < t implies ids[k] != id by {
        assert(ids[k] == tasks[k].task.id);
    }
    text::lemma_is_first_at(ids, id, t);
}

/// A key to quit asks first, and ends the program only where it was pressed before, less than
/// five seconds ago. No other key does either.
pub proof fn lemma_quit_keys(
    m: TuiView,
    key: Key,
    ctrl: bool,
    now: i64,
    tasks: Seq<DetailsView>,
)
    ensures
        ({
            let (after, asked) = key_pressed(m, key, ctrl, now, tasks);
            let quits = key == Key::Char('q') || (key == Key::Char('c') && ctrl);
            let again = m.state.quit matches Some(before) && now - before < 5_000_000_000;
            &&& quits && again ==> !after.is_running && after.state == m.state
            &&& quits && !again ==> after.is_running == m.is_running && after.state.quit == Some(
                now,
            ) && is_open(after, Focus::QuitConfirm) && after.state.selected_task_id
                == m.state.selected_task_id && after.state.logs == m.state.logs
            &&& quits ==> asked.len() == 0 && after.mouse_wanted == m.mouse_wanted
            &&& !quits ==> after.is_running == m.is_running
        }),
{
    if let Some(before) = m.state.quit {
        let d = now as int - before as int;
        if d >= 0 {
            assert(d / 1_000_000_000 < 5 <==> d < 5_000_000_000);
        } else {
            assert((-d) / 1_000_000_000 >= 0);
        }
    }
}

/// A quit that nobody confirms is forgotten after five seconds, and what was open before is
/// open again.
pub proof fn lemma_quit_lapses(s: StateView, now: int)
    ensures
        s.quit is None ==> quit_checked(s, now) == s,
        s.quit matches Some(before) ==> {
            &&& now - before < 5_000_000_000 ==> quit_checked(s, now) == s
            &&& now - before >= 5_000_000_000 ==> {
                &&& quit_checked(s, now).quit is None
                &&& s.focus.len() > 1 ==> quit_checked(s, now).focus == s.focus.take(
                    s.focus.len() - 1,
                )
                &&& s.focus.len() <= 1 ==> quit_checked(s, now).focus == s.focus
                &&& quit_checked(s, now).logs == s.logs
                &&& quit_checked(s, now).selected_task_id == s.selected_task_id
            }
        },
{
    if let Some(before) = s.quit {
        let d = now - before as int;
        if d >= 0 {
            assert(d / 1_000_000_000 >= 5 <==> d >= 5_000_000_000);
        } else {
            assert((-d) / 1_000_000_000 >= 0);
        }
        if s.focus.len() > 1 {
            assert(s.focus.drop_last() =~= s.focus.take(s.focus.len() - 1));
        }
    }
}

/// The key for the mouse turns its capture round in every window and does nothing else.
pub proof fn lemma_mouse_key(m: TuiView, ctrl: bool, now: i64, tasks: Seq<DetailsView>)
    ensures
        ({
            let (after, asked) = key_pressed(m, Key::Char('m'), ctrl, now, tasks);
            &&& after.mouse_wanted == !m.mouse_wanted
            &&& after.is_running == m.is_running
            &&& after.state.focus == m.state.focus
            &&& after.state.logs == m.state.logs
            &&& after.state.quit == m.state.quit
            &&& after.state.selected_task_id == m.state.selected_task_id
            &&& asked.len() == 0
        }),
{
}

/// While a quit waits to be confirmed, one key takes it back and the others do nothing.
pub proof fn lemma_quit_window(
    m: TuiView,
    key: Key,
    ctrl: bool,
    now: i64,
    tasks: Seq<DetailsView>,
)
    requires
        is_open(m, Focus::QuitConfirm),
        key != Key::Char('q'),
        key != Key::Char('c'),
        key != Key::Char('m'),
    ensures
        ({
            let (after, asked) = key_pressed(m, key, ctrl, now, tasks);
            &&& key == Key::Esc ==> after.state.quit is None && (m.state.focus.len() > 1
                ==> after.state.focus == m.state.focus.take(m.state.focus.len() - 1))
                && after.state.logs == m.state.logs && after.state.selected_task_id
                == m.state.selected_task_id
            &&& key != Key::Esc ==> after == m
            &&& asked.len() == 0
        }),
{
    if m.state.focus.len() > 1 {
        assert(m.state.focus.drop_last() =~= m.state.focus.take(m.state.focus.len() - 1));
    }
}

/// The selection goes to the next task and from the last one to the first, or the other way
/// round. Where nothing that is listed is selected it goes to the first.
pub proof fn lemma_selection(s: StateView, tasks: Seq<DetailsView>, t: int)
    requires
        tasks.len() > 0,
        s.selected_task_id matches Some(id) ==> is_listed(tasks, t, id) || forall|k: int|
            0 <= k < tasks.len() ==> (#[trigger] tasks[k]).task.id != id,
    ensures
        ({
            let down = selection_moved(s, 1, tasks);
            let up = selection_moved(s, -1, tasks);
            let known = s.selected_task_id matches Some(id) && is_listed(tasks, t, id);
            &&& known && t + 1 < tasks.len() ==> down.selected_task_id == Some(
                tasks[t + 1].task.id,
            )
            &&& known && t + 1 == tasks.len() ==> down.selected_task_id == Some(tasks[0].task.id)
            &&& known && t > 0 ==> up.selected_task_id == Some(tasks[t - 1].task.id)
            &&& known && t == 0 ==> up.selected_task_id == Some(tasks[tasks.len() - 1].task.id)
            &&& !known ==> down.selected_task_id == Some(tasks[0].task.id) && up.selected_task_id
                == Some(tasks[0].task.id)
            &&& down.focus == s.focus && up.focus == s.focus
            &&& down.logs == s.logs && up.logs == s.logs
            &&& down.quit == s.quit && up.quit == s.quit
        }),
{
    let n = tasks.len() as int;
    if let Some(id) = s.selected_task_id {
        if is_listed(tasks, t, id) {
            lemma_is_listed(tasks, t, id);
            if t + 1 < n {
                vstd::arithmetic::div_mod::lemma_small_mod((t + 1) as nat, n as nat);
            } else {
                vstd::arithmetic::div_mod::lemma_mod_self_0(n);
            }
            if t > 0 {
                vstd::arithmetic::div_mod::lemma_small_mod((t - 1) as nat, n as nat);
            } else {
                vstd::arithmetic::div_mod::lemma_mod_add_multiples_vanish(-1, n);
                vstd::arithmetic::div_mod::lemma_small_mod((n - 1) as nat, n as nat);
            }
        } else {
            let ids = listed_ids(tasks);
            text::lemma_first_at(ids, id);
            let at = text::first_at(ids, id);
            if at < n {
                assert(ids[at] == tasks[at].task.id);
            }
        }
    }
}

/// In the list of tasks the keys to move move the selection, one key takes it back, and one
/// opens the output of the selected task at its first command.
pub proof fn lemma_moving_keys(
    m: TuiView,
    key: Key,
    ctrl: bool,
    now: i64,
    tasks: Seq<DetailsView>,
)
    requires
        is_open(m, Focus::Tasks),
    ensures
        ({
            let (after, asked) = key_pressed(m, key, ctrl, now, tasks);
            let down = key == Key::Char('j') || key == Key::Down;
            let up = key == Key::Char('k') || key == Key::Up;
            &&& down ==> after.state.selected_task_id == selection_moved(
                m.state,
                1,
                tasks,
            ).selected_task_id
            &&& up ==> after.state.selected_task_id == selection_moved(
                m.state,
                -1,
                tasks,
            ).selected_task_id
            &&& key == Key::Esc ==> after.state.selected_task_id is None
            &&& down || up || key == Key::Esc ==> after.state.focus == m.state.focus
                && after.state.logs == m.state.logs && after.state.quit == m.state.quit
                && asked.len() == 0
            &&& key == Key::Enter ==> asked.len() == 0 && (match m.state.selected_task_id {
                None => after.state.logs == m.state.logs && after.state.focus == m.state.focus,
                Some(id) => {
                    &&& after.state.logs matches Some(w)
                    &&& w.task_id == id
                    &&& w.tab == 0
                    &&& w.panes == Map::<Seq<char>, PaneView>::empty()
                    &&& after.state.focus == m.state.focus.push(Focus::Logs)
                    &&& after.state.selected_task_id == Some(id)
                },
            })
        }),
{
    assert(m.state.top() == Focus::Tasks);
}

/// Whether `d` asks for `action` on a command of a task.
pub open spec fn asks(
    d: DispatchView,
    task: DetailsView,
    cmd: CommandView,
    action: CmdAction,
) -> bool {
    d.task_id == task.task.id && d.command_id == cmd.id && d.action == action
}

proof fn lemma_requests(
    task: DetailsView,
    cmds: Seq<CommandView>,
    wanted: spec_fn(TaskStatus) -> bool,
    action: CmdAction,
    d: DispatchView,
)
    ensures
        requests(task.task.id, cmds, wanted, action).contains(d) <==> exists|k: int|
            0 <= k < cmds.len() && wanted((#[trigger] cmds[k]).status) && asks(
                d,
                task,
                cmds[k],
                action,
            ),
    decreases cmds.len(),
{
    if cmds.len() > 0 {
        let less = cmds.drop_last();
        let last = cmds.last();
        lemma_requests(task, less, wanted, action, d);
        let before = requests(task.task.id, less, wanted, action);
        let all = requests(task.task.id, cmds, wanted, action);
        assert(cmds[cmds.len() - 1] == last);
        if before.contains(d) {
            let i = choose|i: int| 0 <= i < before.len() && before[i] == d;
            assert(all[i] == d);
            let k = choose|k: int|
                0 <= k < less.len() && wanted((#[trigger] less[k]).status) && asks(
                    d,
                    task,
                    less[k],
                    action,
                );
            assert(cmds[k] == less[k]);
        }
        if all.contains(d) {
            let i = choose|i: int| 0 <= i < all.len() && all[i] == d;
            if i < before.len() {
                assert(before[i] == d);
            }
        }
        if exists|k: int|
            0 <= k < cmds.len() && wanted((#[trigger] cmds[k]).status) && asks(
                d,
                task,
                cmds[k],
                action,
            ) {
            let k = choose|k: int|
                0 <= k < cmds.len() && wanted((#[trigger] cmds[k]).status) && asks(
                    d,
                    task,
                    cmds[k],
                    action,
                );
            if k < less.len() {
                assert(less[k] == cmds[k]);
                assert(before.contains(d));
            } else {
                assert(all[before.len() as int] == d);
            }
        }
    }
}

proof fn lemma_shown_requests(
    task: DetailsView,
    wanted: spec_fn(TaskStatus) -> bool,
    action: CmdAction,
    d: DispatchView,
)
    ensures
        requests(task.task.id, shown_commands(task.task.commands), wanted, action).contains(d)
            <==> exists|k: int|
            0 <= k < task.task.commands.len() && wanted((#[trigger] task.task.commands[k]).status)
                && asks(d, task, task.task.commands[k], action),
{
    broadcast use vstd::seq_lib::group_to_multiset_ensures;

    let cmds = task.task.commands;
    let shown = shown_commands(cmds);
    lemma_all_are_shown(cmds);
    lemma_requests(task, shown, wanted, action, d);
    if exists|k: int|
        0 <= k < shown.len() && wanted((#[trigger] shown[k]).status) && asks(
            d,
            task,
            shown[k],
            action,
        ) {
        let k = choose|k: int|
            0 <= k < shown.len() && wanted((#[trigger] shown[k]).status) && asks(
                d,
                task,
                shown[k],
                action,
            );
        assert(shown.contains(shown[k]));
        assert(shown.to_multiset().count(shown[k]) > 0);
        assert(cmds.contains(shown[k]));
        let i = choose|i: int| 0 <= i < cmds.len() && cmds[i] == shown[k];
        assert(wanted(cmds[i].status) && asks(d, task, cmds[i], action));
    }
    if exists|k: int|
        0 <= k < cmds.len() && wanted((#[trigger] cmds[k]).status) && asks(
            d,
            task,
            cmds[k],
            action,
        ) {
        let k = choose|k: int|
            0 <= k < cmds.len() && wanted((#[trigger] cmds[k]).status) && asks(
                d,
                task,
                cmds[k],
                action,
            );
        assert(cmds.contains(cmds[k]));
        assert(cmds.to_multiset().count(cmds[k]) > 0);
        assert(shown.contains(cmds[k]));
        let i = choose|i: int| 0 <= i < shown.len() && shown[i] == cmds[k];
        assert(wanted(shown[i].status) && asks(d, task, shown[i], action));
    }
}

/// On the selected task one key restarts every command and one forces those to stop that run or
/// are about to. Nothing else is asked for.
pub proof fn lemma_restart_and_force(
    m: TuiView,
    ctrl: bool,
    now: i64,
    tasks: Seq<DetailsView>,
    t: int,
    d: DispatchView,
)
    requires
        is_open(m, Focus::Tasks),
        m.state.selected_task_id matches Some(id) && is_listed(tasks, t, id),
    ensures
        ({
            let cmds = tasks[t].task.commands;
            let restart = key_pressed(m, Key::Char('r'), ctrl, now, tasks);
            let force = key_pressed(m, Key::Char('S'), ctrl, now, tasks);
            &&& restart.1.contains(d) <==> exists|k: int|
                0 <= k < cmds.len() && asks(d, tasks[t], #[trigger] cmds[k], CmdAction::Restart)
            &&& force.1.contains(d) <==> exists|k: int|
                0 <= k < cmds.len() && asks(d, tasks[t], #[trigger] cmds[k], CmdAction::ForceStop)
                    && (cmds[k].status == TaskStatus::Running || cmds[k].status
                    == TaskStatus::Starting)
            &&& restart.0.state.focus == m.state.focus && force.0.state.focus == m.state.focus
            &&& restart.0.state.selected_task_id == m.state.selected_task_id
            &&& force.0.state.selected_task_id == m.state.selected_task_id
        }),
{
    let id = m.state.selected_task_id->0;
    lemma_is_listed(tasks, t, id);
    assert(m.state.top() == Focus::Tasks);
    let cmds = tasks[t].task.commands;
    let all = |x: TaskStatus| true;
    let going = |x: TaskStatus| x is Running || x is Starting;
    lemma_requests(tasks[t], cmds, all, CmdAction::Restart, d);
    lemma_requests(tasks[t], cmds, going, CmdAction::ForceStop, d);
    let restart = key_pressed(m, Key::Char('r'), ctrl, now, tasks);
    assert(restart.1 == requests(id, cmds, all, CmdAction::Restart));
    let force = key_pressed(m, Key::Char('S'), ctrl, now, tasks);
    assert(force.1 == requests(id, cmds, going, CmdAction::ForceStop));
    if exists|k: int|
        0 <= k < cmds.len() && asks(d, tasks[t], #[trigger] cmds[k], CmdAction::Restart) {
        let k = choose|k: int|
            0 <= k < cmds.len() && asks(d, tasks[t], #[trigger] cmds[k], CmdAction::Restart);
        assert(all(cmds[k].status));
    }
    if exists|k: int|
        0 <= k < cmds.len() && asks(d, tasks[t], #[trigger] cmds[k], CmdAction::ForceStop) && (
        cmds[k].status == TaskStatus::Running || cmds[k].status == TaskStatus::Starting) {
        let k = choose|k: int|
            0 <= k < cmds.len() && asks(d, tasks[t], #[trigger] cmds[k], CmdAction::ForceStop) && (
            cmds[k].status == TaskStatus::Running || cmds[k].status == TaskStatus::Starting);
        assert(going(cmds[k].status));
    }
    if force.1.contains(d) {
        let k = choose|k: int|
            0 <= k < cmds.len() && going((#[trigger] cmds[k]).status) && asks(
                d,
                tasks[t],
                cmds[k],
                CmdAction::ForceStop,
            );
        assert(cmds[k].status is Running || cmds[k].status is Starting);
    }
}

/// One key turns the selected task round: nothing is asked for while one of its commands is
/// about to start or to stop; else those that failed, succeeded or were stopped are started,
/// and where there is none of these, those that run are stopped.
pub proof fn lemma_turned_round(
    m: TuiView,
    ctrl: bool,
    now: i64,
    tasks: Seq<DetailsView>,
    t: int,
    d: DispatchView,
)
    requires
        is_open(m, Focus::Tasks),
        m.state.selected_task_id matches Some(id) && is_listed(tasks, t, id),
    ensures
        ({
            let cmds = tasks[t].task.commands;
            let asked = key_pressed(m, Key::Char('s'), ctrl, now, tasks).1;
            let busy = exists|k: int|
                0 <= k < cmds.len() && ((#[trigger] cmds[k]).status == TaskStatus::Starting
                    || cmds[k].status == TaskStatus::Stopping);
            let ended = exists|k: int|
                0 <= k < cmds.len() && ((#[trigger] cmds[k]).status == TaskStatus::Failed
                    || cmds[k].status == TaskStatus::Successed || cmds[k].status
                    == TaskStatus::Stopped);
            &&& busy ==> asked.len() == 0
            &&& !busy && ended ==> (asked.contains(d) <==> exists|k: int|
                0 <= k < cmds.len() && asks(d, tasks[t], #[trigger] cmds[k], CmdAction::Start) && (
                cmds[k].status == TaskStatus::Failed || cmds[k].status == TaskStatus::Successed
                    || cmds[k].status == TaskStatus::Stopped))
            &&& !busy && !ended ==> (asked.contains(d) <==> exists|k: int|
                0 <= k < cmds.len() && asks(d, tasks[t], #[trigger] cmds[k], CmdAction::Stop)
                    && cmds[k].status == TaskStatus::Running)
        }),
{
    let id = m.state.selected_task_id->0;
    lemma_is_listed(tasks, t, id);
    assert(m.state.top() == Focus::Tasks);
    let task = tasks[t];
    let cmds = task.task.commands;
    let shown = shown_commands(cmds);
    let over = |x: TaskStatus| x.finished();
    let going = |x: TaskStatus| x is Running;
    let starts = requests(id, shown, over, CmdAction::Start);
    let busy = exists|k: int|
        0 <= k < cmds.len() && crate::tui_managerv2::in_transition((#[trigger] cmds[k]).status);
    if busy {
        let k = choose|k: int|
            0 <= k < cmds.len() && crate::tui_managerv2::in_transition((#[trigger] cmds[k]).status);
        assert(cmds[k].status == TaskStatus::Starting || cmds[k].status == TaskStatus::Stopping);
    }
    if exists|k: int|
        0 <= k < cmds.len() && ((#[trigger] cmds[k]).status == TaskStatus::Starting
            || cmds[k].status == TaskStatus::Stopping) {
        let k = choose|k: int|
            0 <= k < cmds.len() && ((#[trigger] cmds[k]).status == TaskStatus::Starting
                || cmds[k].status == TaskStatus::Stopping);
        assert(crate::tui_managerv2::in_transition(cmds[k].status));
    }
    if starts.len() > 0 {
        let first = starts[0];
        assert(starts.contains(first));
        lemma_shown_requests(task, over, CmdAction::Start, first);
        let k = choose|k: int|
            0 <= k < task.task.commands.len() && over((#[trigger] task.task.commands[k]).status)
                && asks(first, task, task.task.commands[k], CmdAction::Start);
        assert(cmds[k].status.finished());
    }
    if exists|k: int|
        0 <= k < cmds.len() && ((#[trigger] cmds[k]).status == TaskStatus::Failed || cmds[k].status
            == TaskStatus::Successed || cmds[k].status == TaskStatus::Stopped) {
        let k = choose|k: int|
            0 <= k < cmds.len() && ((#[trigger] cmds[k]).status == TaskStatus::Failed
                || cmds[k].status == TaskStatus::Successed || cmds[k].status
                == TaskStatus::Stopped);
        let e = DispatchView { task_id: id, command_id: cmds[k].id, action: CmdAction::Start };
        lemma_shown_requests(task, over, CmdAction::Start, e);
        assert(over(task.task.commands[k].status));
        assert(starts.contains(e));
    }
    lemma_shown_requests(task, over, CmdAction::Start, d);
    lemma_shown_requests(task, going, CmdAction::Stop, d);
    if starts.contains(d) {
        let k = choose|k: int|
            0 <= k < task.task.commands.len() && over((#[trigger] task.task.commands[k]).status)
                && asks(d, task, task.task.commands[k], CmdAction::Start);
        assert(cmds[k].status.finished());
    }
    if exists|k: int|
        0 <= k < cmds.len() && asks(d, tasks[t], #[trigger] cmds[k], CmdAction::Start) && (
        cmds[k].status == TaskStatus::Failed || cmds[k].status == TaskStatus::Successed
            || cmds[k].status == TaskStatus::Stopped) {
        let k = choose|k: int|
            0 <= k < cmds.len() && asks(d, tasks[t], #[trigger] cmds[k], CmdAction::Start) && (
            cmds[k].status == TaskStatus::Failed || cmds[k].status == TaskStatus::Successed
                || cmds[k].status == TaskStatus::Stopped);
        assert(over(task.task.commands[k].status));
    }
    let stops = requests(id, shown, going, CmdAction::Stop);
    if stops.contains(d) {
        let k = choose|k: int|
            0 <= k < task.task.commands.len() && going((#[trigger] task.task.commands[k]).status)
                && asks(d, task, task.task.commands[k], CmdAction::Stop);
        assert(cmds[k].status is Running);
    }
    if exists|k: int|
        0 <= k < cmds.len() && asks(d, tasks[t], #[trigger] cmds[k], CmdAction::Stop)
            && cmds[k].status == TaskStatus::Running {
        let k = choose|k: int|
            0 <= k < cmds.len() && asks(d, tasks[t], #[trigger] cmds[k], CmdAction::Stop)
                && cmds[k].status == TaskStatus::Running;
        assert(going(task.task.commands[k].status));
    }
    let asked = key_pressed(m, Key::Char('s'), ctrl, now, tasks).1;
    assert(!busy && starts.len() > 0 ==> asked == starts);
    assert(!busy && starts.len() == 0 ==> asked == stops);
}

proof fn lemma_restart_all(tasks: Seq<DetailsView>, d: DispatchView)
    ensures
        restart_all(tasks).contains(d) <==> exists|t: int, k: int|
            0 <= t < tasks.len() && 0 <= k < (#[trigger] tasks[t]).task.commands.len() && asks(
                d,
                tasks[t],
                #[trigger] tasks[t].task.commands[k],
                CmdAction::Restart,
            ),
    decreases tasks.len(),
{
    if tasks.len() > 0 {
        let less = tasks.drop_last();
        let last = tasks.last();
        let n = tasks.len() - 1;
        let wanted = |s: TaskStatus| true;
        lemma_restart_all(less, d);
        lemma_requests(last, last.task.commands, wanted, CmdAction::Restart, d);
        let before = restart_all(less);
        let own = requests(last.task.id, last.task.commands, wanted, CmdAction::Restart);
        let all = restart_all(tasks);
        assert(all == before + own);
        assert(tasks[n] == last);
        if before.contains(d) {
            let i = choose|i: int| 0 <= i < before.len() && before[i] == d;
            assert(all[i] == d);
            let (t, k) = choose|t: int, k: int|
                0 <= t < less.len() && 0 <= k < (#[trigger] less[t]).task.commands.len() && asks(
                    d,
                    less[t],
                    #[trigger] less[t].task.commands[k],
                    CmdAction::Restart,
                );
            assert(tasks[t] == less[t]);
            assert(asks(d, tasks[t], tasks[t].task.commands[k], CmdAction::Restart));
        }
        if own.contains(d) {
            let i = choose|i: int| 0 <= i < own.len() && own[i] == d;
            assert(all[before.len() + i] == d);
            let k = choose|k: int|
                0 <= k < last.task.commands.len() && wanted(
                    (#[trigger] last.task.commands[k]).status,
                ) && asks(d, last, last.task.commands[k], CmdAction::Restart);
            assert(asks(d, tasks[n], tasks[n].task.commands[k], CmdAction::Restart));
        }
        if all.contains(d) {
            let i = choose|i: int| 0 <= i < all.len() && all[i] == d;
            if i < before.len() {
                assert(before[i] == d);
            } else {
                assert(own[i - before.len()] == d);
            }
        }
        if exists|t: int, k: int|
            0 <= t < tasks.len() && 0 <= k < (#[trigger] tasks[t]).task.commands.len() && asks(
                d,
                tasks[t],
                #[trigger] tasks[t].task.commands[k],
                CmdAction::Restart,
            ) {
            let (t, k) = choose|t: int, k: int|
                0 <= t < tasks.len() && 0 <= k < (#[trigger] tasks[t]).task.commands.len() && asks(
                    d,
                    tasks[t],
                    #[trigger] tasks[t].task.commands[k],
                    CmdAction::Restart,
                );
            if t < n {
                assert(less[t] == tasks[t]);
                assert(asks(d, less[t], less[t].task.commands[k], CmdAction::Restart));
            } else {
                assert(wanted(last.task.commands[k].status));
            }
        }
    }
}

/// One key restarts every command of every task, whatever is selected.
pub proof fn lemma_all_restarted(
    m: TuiView,
    ctrl: bool,
    now: i64,
    tasks: Seq<DetailsView>,
    d: DispatchView,
)
    requires
        is_open(m, Focus::Tasks),
    ensures
        key_pressed(m, Key::Char('R'), ctrl, now, tasks).1.contains(d) <==> exists|t: int, k: int|
            0 <= t < tasks.len() && 0 <= k < (#[trigger] tasks[t]).task.commands.len() && asks(
                d,
                tasks[t],
                #[trigger] tasks[t].task.commands[k],
                CmdAction::Restart,
            ),
{
    assert(m.state.top() == Focus::Tasks);
    lemma_restart_all(tasks, d);
}

/// Whether the output window shows the command at place `tab` of the task at place `t`.
pub open spec fn shows_tab(
    m: TuiView,
    window: WindowView,
    tasks: Seq<DetailsView>,
    t: int,
    tab: int,
) -> bool {
    &&& is_open(m, Focus::Logs)
    &&& m.state.logs == Some(window)
    &&& is_listed(tasks, t, window.task_id)
    &&& 0 <= tab < shown_commands(tasks[t].task.commands).len()
    &&& window.tab == tab || (window.tab > tab && tab == shown_commands(
        tasks[t].task.commands,
    ).len() - 1)
}

/// In the output window keys act on the command whose output is shown: one turns it round, which
/// stops it where it runs, does nothing while it is about to start or to stop, and starts it
/// else; one forces it to stop; one restarts it.
pub proof fn lemma_tab_requests(
    m: TuiView,
    window: WindowView,
    ctrl: bool,
    now: i64,
    tasks: Seq<DetailsView>,
    t: int,
    tab: int,
)
    requires
        shows_tab(m, window, tasks, t, tab),
    ensures
        ({
            let cmd = shown_commands(tasks[t].task.commands)[tab];
            let turned = key_pressed(m, Key::Char('s'), ctrl, now, tasks).1;
            let forced = key_pressed(m, Key::Char('S'), ctrl, now, tasks).1;
            let restarted = key_pressed(m, Key::Char('r'), ctrl, now, tasks).1;
            &&& forced.len() == 1 && asks(forced[0], tasks[t], cmd, CmdAction::ForceStop)
            &&& restarted.len() == 1 && asks(restarted[0], tasks[t], cmd, CmdAction::Restart)
            &&& cmd.status == TaskStatus::Starting || cmd.status == TaskStatus::Stopping
                ==> turned.len() == 0
            &&& cmd.status == TaskStatus::Running ==> turned.len() == 1 && asks(
                turned[0],
                tasks[t],
                cmd,
                CmdAction::Stop,
            )
            &&& cmd.status == TaskStatus::Init || cmd.status == TaskStatus::Failed || cmd.status
                == TaskStatus::Successed || cmd.status == TaskStatus::Stopped ==> turned.len() == 1
                && asks(turned[0], tasks[t], cmd, CmdAction::Start)
        }),
{
    lemma_is_listed(tasks, t, window.task_id);
    assert(m.state.top() == Focus::Logs);
}

/// In the output window keys go from one command to the next or the one before, as far as there
/// is one, and one key closes the window.
pub proof fn lemma_tab_moves(
    m: TuiView,
    window: WindowView,
    key: Key,
    ctrl: bool,
    now: i64,
    tasks: Seq<DetailsView>,
    t: int,
    tab: int,
)
    requires
        shows_tab(m, window, tasks, t, tab),
    ensures
        ({
            let n = shown_commands(tasks[t].task.commands).len();
            let (after, asked) = key_pressed(m, key, ctrl, now, tasks);
            let back = key == Key::Char('h') || key == Key::Left || key == Key::BackTab;
            let on = key == Key::Char('l') || key == Key::Right || key == Key::Tab;
            &&& back || on || key == Key::Esc ==> asked.len() == 0 && after.state.selected_task_id
                == m.state.selected_task_id && after.state.quit == m.state.quit
            &&& back ==> after.state.logs == Some(
                WindowView {
                    tab: if tab > 0 {
                        (tab - 1) as nat
                    } else {
                        0
                    },
                    ..window
                },
            )
            &&& on ==> after.state.logs == Some(
                WindowView {
                    tab: if tab + 1 < n {
                        (tab + 1) as nat
                    } else {
                        tab as nat
                    },
                    ..window
                },
            )
            &&& back || on ==> after.state.focus == m.state.focus
            &&& key == Key::Esc ==> after.state.logs is None && (m.state.focus.len() > 1
                ==> after.state.focus == m.state.focus.take(m.state.focus.len() - 1))
        }),
{
    lemma_is_listed(tasks, t, window.task_id);
    assert(m.state.top() == Focus::Logs);
    if m.state.focus.len() > 1 {
        assert(m.state.focus.drop_last() =~= m.state.focus.take(m.state.focus.len() - 1));
    }
}

/// In the output window keys to scroll move the output that is shown by a row or a page, or to
/// one of its ends, and one key lets it follow or no longer follow new output. The output of
/// other commands stays where it is.
pub proof fn lemma_tab_scrolls(
    m: TuiView,
    window: WindowView,
    key: Key,
    ctrl: bool,
    now: i64,
    tasks: Seq<DetailsView>,
    t: int,
    tab: int,
    other: Seq<char>,
)
    requires
        shows_tab(m, window, tasks, t, tab),
        key == Key::Char('f') || key == Key::Char('k') || key == Key::Up || key == Key::Char('j')
            || key == Key::Down || key == Key::PageUp || key == Key::PageDown || key == Key::Home
            || key == Key::End,
        window.panes.contains_key(shown_commands(tasks[t].task.commands)[tab].id),
    ensures
        ({
            let cmd = shown_commands(tasks[t].task.commands)[tab];
            let (after, asked) = key_pressed(m, key, ctrl, now, tasks);
            let pane = window.panes[cmd.id];
            let most = if pane.rows.len() > pane.viewport_height {
                pane.rows.len() - pane.viewport_height
            } else {
                0
            };
            let page = if pane.viewport_height == 0 {
                1
            } else {
                pane.viewport_height as int
            };
            &&& asked.len() == 0
            &&& after.state.focus == m.state.focus
            &&& after.state.logs matches Some(w) && w.tab == tab && w.task_id == window.task_id
                && w.panes.contains_key(cmd.id) && ({
                let moved = w.panes[cmd.id];
                &&& moved.rows == pane.rows
                &&& key == Key::Char('k') || key == Key::Up ==> is_up(pane, moved, 1)
                &&& key == Key::PageUp ==> is_up(pane, moved, page)
                &&& key == Key::Char('j') || key == Key::Down ==> is_down(pane, moved, 1, most)
                &&& key == Key::PageDown ==> is_down(pane, moved, page, most)
                &&& key == Key::Home ==> moved.scroll == 0 && !moved.follow
                &&& key == Key::End ==> moved.scroll == most && moved.follow
                &&& key == Key::Char('f') && pane.follow ==> !moved.follow && moved.scroll
                    == pane.scroll
                &&& key == Key::Char('f') && !pane.follow ==> moved.follow && moved.scroll == most
                &&& other != cmd.id ==> w.panes.contains_key(other) == window.panes.contains_key(
                    other,
                ) && (window.panes.contains_key(other) ==> w.panes[other] == window.panes[other])
            })
        }),
{
    lemma_is_listed(tasks, t, window.task_id);
    assert(m.state.top() == Focus::Logs);
}

/// Whether a pane is another one that was moved up by some rows, as far as there were any.
pub open spec fn is_up(pane: PaneView, moved: PaneView, rows: int) -> bool {
    &&& pane.scroll >= rows ==> moved.scroll == pane.scroll - rows
    &&& pane.scroll < rows ==> moved.scroll == 0
    &&& !moved.follow
}

/// Whether a pane is another one that was moved down by some rows, as far as `most` allows.
pub open spec fn is_down(pane: PaneView, moved: PaneView, rows: int, most: int) -> bool {
    &&& pane.scroll + rows <= most ==> moved.scroll == pane.scroll + rows
    &&& pane.scroll + rows > most ==> moved.scroll == most
    &&& moved.follow <==> moved.scroll == most
}

/// The wheel moves the selection by one where the list of tasks is open, and the output by three
/// rows where that is.
pub proof fn lemma_wheel(m: TuiView, up: bool, tasks: Seq<DetailsView>)
    ensures
        is_open(m, Focus::Tasks) && up ==> wheel_turned(m, up, tasks).state == selection_moved(
            m.state,
            -1,
            tasks,
        ),
        is_open(m, Focus::Tasks) && !up ==> wheel_turned(m, up, tasks).state == selection_moved(
            m.state,
            1,
            tasks,
        ),
        is_open(m, Focus::QuitConfirm) ==> wheel_turned(m, up, tasks) == m,
        wheel_turned(m, up, tasks).is_running == m.is_running,
        wheel_turned(m, up, tasks).mouse_wanted == m.mouse_wanted,
{
}

/// The wheel moves the output that is shown by three rows.
pub proof fn lemma_wheel_in_output(
    m: TuiView,
    window: WindowView,
    up: bool,
    tasks: Seq<DetailsView>,
    t: int,
    tab: int,
)
    requires
        shows_tab(m, window, tasks, t, tab),
        window.tab == tab,
        window.panes.contains_key(shown_commands(tasks[t].task.commands)[tab].id),
    ensures
        ({
            let cmd = shown_commands(tasks[t].task.commands)[tab];
            let pane = window.panes[cmd.id];
            let most = if pane.rows.len() > pane.viewport_height {
                pane.rows.len() - pane.viewport_height
            } else {
                0
            };
            let after = wheel_turned(m, up, tasks);
            &&& after.state.logs matches Some(w) && w.tab == tab && w.panes.contains_key(cmd.id) && (
            up ==> is_up(pane, w.panes[cmd.id], 3)) && (!up ==> is_down(
                pane,
                w.panes[cmd.id],
                3,
                most,
            ))
            &&& after.state.selected_task_id == m.state.selected_task_id
        }),
{
    lemma_is_listed(tasks, t, window.task_id);
    assert(m.state.top() == Focus::Logs);
}

/// What is said of a key in the list of tasks.
pub proof fn lemma_said(
    m: TuiView,
    ctrl: bool,
    now: i64,
    tasks: Seq<DetailsView>,
    t: int,
)
    requires
        is_open(m, Focus::Tasks),
        m.state.selected_task_id matches Some(id) && is_listed(tasks, t, id),
    ensures
        ({
            let name = tasks[t].task.name;
            let said = |key: Key| key_pressed(m, key, ctrl, now, tasks).0.state.last_key_log;
            &&& said(Key::Enter) == Some("Opened output for "@ + name)
            &&& said(Key::Char('r')) == Some("Restarting "@ + name)
            &&& said(Key::Char('S')) == Some("Force stopping "@ + name)
            &&& said(Key::Char('R')) == Some("Restarting every task"@)
            &&& said(Key::Esc) == Some("Deselected"@)
            &&& said(Key::Char('j')) == Some("Next task"@)
            &&& said(Key::Char('k')) == Some("Previous task"@)
        }),
{
    lemma_is_listed(tasks, t, m.state.selected_task_id->0);
    assert(m.state.top() == Focus::Tasks);
}

/// What is said of a key in the output window: what is done to the command that is shown.
pub proof fn lemma_said_of_tab(
    m: TuiView,
    window: WindowView,
    ctrl: bool,
    now: i64,
    tasks: Seq<DetailsView>,
    t: int,
    tab: int,
)
    requires
        shows_tab(m, window, tasks, t, tab),
    ensures
        ({
            let cmd = shown_commands(tasks[t].task.commands)[tab];
            let name = match cmd.command {
                CommandTypeView::Simple(script) => script,
                CommandTypeView::Plexus { name, command } => name,
            };
            let said = |key: Key| key_pressed(m, key, ctrl, now, tasks).0.state.last_key_log;
            &&& said(Key::Char('r')) == Some("Restarting "@ + name)
            &&& said(Key::Char('S')) == Some("Force stopping "@ + name)
            &&& cmd.status == TaskStatus::Running ==> said(Key::Char('s')) == Some(
                "Stopping "@ + name,
            )
            &&& cmd.status == TaskStatus::Starting ==> said(Key::Char('s')) == Some(
                name + " is already "@ + "TSStarting"@,
            )
            &&& cmd.status == TaskStatus::Stopping ==> said(Key::Char('s')) == Some(
                name + " is already "@ + "TSStopping"@,
            )
            &&& cmd.status == TaskStatus::Init || cmd.status == TaskStatus::Failed || cmd.status
                == TaskStatus::Successed || cmd.status == TaskStatus::Stopped ==> said(
                Key::Char('s'),
            ) == Some("Starting "@ + name)
        }),
{
    lemma_is_listed(tasks, t, window.task_id);
    assert(m.state.top() == Focus::Logs);
}

} // verus!
