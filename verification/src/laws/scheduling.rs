//! Which commands are handed out to run, and when a run ends.

use vstd::prelude::*;

use crate::task::CommandTypeView;
use crate::task::RunnableView;
use crate::task::TaskStatus;
use crate::task::TaskView;
use crate::task_managerv2::ManagerView;
use crate::task_managerv2::acts_on_changes;
use crate::task_managerv2::loop_exit;
use crate::task_managerv2::runnable_ids;
use crate::task_managerv2::with_all;
use crate::task_store::StoreView;
use crate::task_store::children_done;
use crate::task_store::distinct_commands;
use crate::task_store::in_step;
use crate::task_store::is_next;
use crate::task_store::lowest_pending;
use crate::task_store::next_commands;
use crate::task_store::pending_at;
use crate::task_store::task_ids;
use crate::text;

verus! {

/// The name by which a command is known: that of the script, or the one that stands for several.
pub open spec fn known_as(c: CommandTypeView) -> Seq<char> {
    match c {
        CommandTypeView::Simple(s) => s,
        CommandTypeView::Plexus { name, command } => name,
    }
}

/// Whether the task at place `t` waits for the task at place `u`.
pub open spec fn is_child_of(tasks: Seq<TaskView>, u: int, t: int) -> bool {
    &&& tasks[t].children_id is Some
    &&& exists|j: int|
        0 <= j < tasks[t].children_id->0.len() && #[trigger] tasks[t].children_id->0[j]
            == tasks[u].id
}

/// Where a command that is handed out stands, and what it was made of.
pub open spec fn stands_at(tasks: Seq<TaskView>, run: RunnableView, t: int, c: int) -> bool {
    &&& 0 <= t < tasks.len()
    &&& 0 <= c < tasks[t].commands.len()
    &&& run.id == tasks[t].commands[c].id
    &&& run.command == tasks[t].commands[c].command
    &&& run.task_id == tasks[t].id
    &&& run.name == tasks[t].name
    &&& run.path == tasks[t].path
}

proof fn lemma_child_done(tasks: Seq<TaskView>, t: int, u: int, label: Seq<char>)
    requires
        task_ids(tasks).no_duplicates(),
        0 <= t < tasks.len(),
        0 <= u < tasks.len(),
        is_child_of(tasks, u, t),
        children_done(tasks, tasks[t], label),
    ensures
        forall|k: int|
            0 <= k < tasks[u].commands.len() && known_as(
                (#[trigger] tasks[u].commands[k]).command,
            ) == label ==> tasks[u].commands[k].status == TaskStatus::Successed,
{
    let j = choose|j: int|
        0 <= j < tasks[t].children_id->0.len() && #[trigger] tasks[t].children_id->0[j]
            == tasks[u].id;
    let ids = task_ids(tasks);
    text::lemma_first_at(ids, tasks[u].id);
    assert(ids[u] == tasks[u].id);
    assert(ids[text::first_at(ids, tasks[u].id)] == ids[u]);
    assert(crate::task_store::child_done(tasks, tasks[t].children_id->0[j], label));
}

/// Whatever is handed out is a command of the store that waits or has ended, and of whose name
/// its task has one that waits. Every command of that name, in every task that its task waits
/// for, has succeeded: none of them waits, is under way, has failed or was stopped.
pub proof fn lemma_handed_out(tasks: Seq<TaskView>, sequential: i8, i: int)
    requires
        task_ids(tasks).no_duplicates(),
        0 <= i < next_commands(tasks, sequential, tasks.len() as int).len(),
    ensures
        ({
            let run = next_commands(tasks, sequential, tasks.len() as int)[i];
            exists|t: int, c: int| #[trigger]
                stands_at(tasks, run, t, c) && ({
                    let status = tasks[t].commands[c].status;
                    ||| status == TaskStatus::Init
                    ||| status == TaskStatus::Failed
                    ||| status == TaskStatus::Successed
                    ||| status == TaskStatus::Stopped
                }) && (exists|k: int|
                    0 <= k < tasks[t].commands.len() && known_as(
                        (#[trigger] tasks[t].commands[k]).command,
                    ) == known_as(run.command) && tasks[t].commands[k].status
                        == TaskStatus::Init) && (forall|u: int, k: int|
                    0 <= u < tasks.len() && is_child_of(tasks, u, t) && 0 <= k
                        < tasks[u].commands.len() && known_as(
                        (#[trigger] tasks[u].commands[k]).command,
                    ) == known_as(run.command) ==> tasks[u].commands[k].status
                        == TaskStatus::Successed)
        }),
{
    let n = tasks.len() as int;
    crate::task_store::lemma_next_commands(tasks, sequential, n);
    let run = next_commands(tasks, sequential, n)[i];
    let (t, c) = choose|t: int, c: int|
        0 <= t < n && 0 <= c < tasks[t].commands.len() && #[trigger] is_next(
            tasks,
            sequential,
            t,
            c,
        ) && run == crate::task::runnable(tasks[t].commands[c], tasks[t]);
    assert(stands_at(tasks, run, t, c));
    let label = known_as(run.command);
    assert forall|u: int, k: int|
        0 <= u < tasks.len() && is_child_of(tasks, u, t) && 0 <= k < tasks[u].commands.len()
            && known_as((#[trigger] tasks[u].commands[k]).command) == label implies
        tasks[u].commands[k].status == TaskStatus::Successed by {
        lemma_child_done(tasks, t, u, label);
    }
    let k = choose|k: int|
        0 <= k < tasks[t].commands.len() && (#[trigger] tasks[t].commands[k]).command.label()
            == label && tasks[t].commands[k].status is Init;
    assert(known_as(tasks[t].commands[k].command) == label);
}

/// A command that waits is handed out, unless commands are run in turn, as soon as every command
/// of its name, in every task that its task waits for, has succeeded.
pub proof fn lemma_waiting_is_handed_out(tasks: Seq<TaskView>, sequential: i8, t: int, c: int)
    requires
        sequential < 0,
        task_ids(tasks).no_duplicates(),
        0 <= t < tasks.len(),
        0 <= c < tasks[t].commands.len(),
        tasks[t].commands[c].status == TaskStatus::Init,
        tasks[t].children_id matches Some(ids) ==> forall|j: int|
            0 <= j < ids.len() ==> task_ids(tasks).contains(#[trigger] ids[j]),
        forall|u: int, k: int|
            0 <= u < tasks.len() && is_child_of(tasks, u, t) && 0 <= k < tasks[u].commands.len()
                && known_as((#[trigger] tasks[u].commands[k]).command) == known_as(
                tasks[t].commands[c].command,
            ) ==> tasks[u].commands[k].status == TaskStatus::Successed,
    ensures
        next_commands(tasks, sequential, tasks.len() as int).contains(
            RunnableView {
                id: tasks[t].commands[c].id,
                task_id: tasks[t].id,
                name: tasks[t].name,
                command: tasks[t].commands[c].command,
                path: tasks[t].path,
            },
        ),
{
    lemma_may_run(tasks, t, c);
    crate::task_store::lemma_next_commands(tasks, sequential, tasks.len() as int);
    assert(is_next(tasks, sequential, t, c));
}

/// With a command that waits, those of the same name in its task are handed out that failed,
/// succeeded or were stopped before.
pub proof fn lemma_handed_out_together(
    tasks: Seq<TaskView>,
    sequential: i8,
    t: int,
    c: int,
    d: int,
)
    requires
        sequential < 0,
        task_ids(tasks).no_duplicates(),
        0 <= t < tasks.len(),
        0 <= c < tasks[t].commands.len(),
        0 <= d < tasks[t].commands.len(),
        tasks[t].commands[c].status == TaskStatus::Init,
        known_as(tasks[t].commands[d].command) == known_as(tasks[t].commands[c].command),
        tasks[t].children_id matches Some(ids) ==> forall|j: int|
            0 <= j < ids.len() ==> task_ids(tasks).contains(#[trigger] ids[j]),
        forall|u: int, k: int|
            0 <= u < tasks.len() && is_child_of(tasks, u, t) && 0 <= k < tasks[u].commands.len()
                && known_as((#[trigger] tasks[u].commands[k]).command) == known_as(
                tasks[t].commands[c].command,
            ) ==> tasks[u].commands[k].status == TaskStatus::Successed,
    ensures
        ({
            let status = tasks[t].commands[d].status;
            status == TaskStatus::Failed || status == TaskStatus::Successed || status
                == TaskStatus::Stopped
        }) ==> next_commands(tasks, sequential, tasks.len() as int).contains(
            RunnableView {
                id: tasks[t].commands[d].id,
                task_id: tasks[t].id,
                name: tasks[t].name,
                command: tasks[t].commands[d].command,
                path: tasks[t].path,
            },
        ),
{
    lemma_may_run(tasks, t, c);
    crate::task_store::lemma_next_commands(tasks, sequential, tasks.len() as int);
    let status = tasks[t].commands[d].status;
    if status == TaskStatus::Failed || status == TaskStatus::Successed || status
        == TaskStatus::Stopped {
        assert(is_next(tasks, sequential, t, d));
    }
}

proof fn lemma_may_run(tasks: Seq<TaskView>, t: int, c: int)
    requires
        task_ids(tasks).no_duplicates(),
        0 <= t < tasks.len(),
        0 <= c < tasks[t].commands.len(),
        tasks[t].commands[c].status == TaskStatus::Init,
        tasks[t].children_id matches Some(ids) ==> forall|j: int|
            0 <= j < ids.len() ==> task_ids(tasks).contains(#[trigger] ids[j]),
        forall|u: int, k: int|
            0 <= u < tasks.len() && is_child_of(tasks, u, t) && 0 <= k < tasks[u].commands.len()
                && known_as((#[trigger] tasks[u].commands[k]).command) == known_as(
                tasks[t].commands[c].command,
            ) ==> tasks[u].commands[k].status == TaskStatus::Successed,
    ensures
        crate::task_store::may_run(tasks, tasks[t], known_as(tasks[t].commands[c].command)),
{
    let label = known_as(tasks[t].commands[c].command);
    if tasks[t].children_id is Some {
        let ids = tasks[t].children_id->0;
        assert forall|j: int| 0 <= j < ids.len() implies crate::task_store::child_done(
            tasks,
            #[trigger] ids[j],
            label,
        ) by {
            let u = text::first_at(task_ids(tasks), ids[j]);
            text::lemma_first_at(task_ids(tasks), ids[j]);
            assert(task_ids(tasks)[u] == tasks[u].id);
            assert(tasks[t].children_id->0[j] == tasks[u].id);
            assert(is_child_of(tasks, u, t));
            assert forall|k: int|
                0 <= k < tasks[u].commands.len() && (
                #[trigger] tasks[u].commands[k]).command.label() == label implies
                tasks[u].commands[k].status is Successed by {
                assert(known_as(tasks[u].commands[k].command) == label);
            }
        }
    }
    assert(crate::task_store::waits(tasks[t], label)) by {
        assert(tasks[t].commands[c].command.label() == label);
    }
}

proof fn lemma_lowest(tasks: Seq<TaskView>, i: int, last: int)
    ensures
        ({
            let low = lowest_pending(tasks, i, last);
            ||| low == 0 && forall|k: int| i <= k <= last ==> !#[trigger] pending_at(tasks, k)
            ||| i <= low <= last && pending_at(tasks, low) && forall|k: int|
                i <= k < low ==> !#[trigger] pending_at(tasks, k)
        }),
    decreases last - i + 1,
{
    if i <= last && !pending_at(tasks, i) {
        lemma_lowest(tasks, i + 1, last);
    }
}

/// Where commands are run in turn, none is handed out before all commands at earlier places, of
/// whichever task, have succeeded.
pub proof fn lemma_in_turn(tasks: Seq<TaskView>, sequential: i8, i: int)
    requires
        0 <= sequential,
        forall|t: int| 0 <= t < tasks.len() ==> (#[trigger] tasks[t]).commands.len() <= 128,
        0 <= i < next_commands(tasks, sequential, tasks.len() as int).len(),
    ensures
        ({
            let run = next_commands(tasks, sequential, tasks.len() as int)[i];
            exists|t: int, c: int| #[trigger]
                stands_at(tasks, run, t, c) && c <= sequential && forall|u: int, k: int|
                    0 <= u < tasks.len() && 0 <= k < c && k < tasks[u].commands.len() ==> (
                    #[trigger] tasks[u].commands[k]).status == TaskStatus::Successed
        }),
{
    let n = tasks.len() as int;
    crate::task_store::lemma_next_commands(tasks, sequential, n);
    let run = next_commands(tasks, sequential, n)[i];
    let (t, c) = choose|t: int, c: int|
        0 <= t < n && 0 <= c < tasks[t].commands.len() && #[trigger] is_next(
            tasks,
            sequential,
            t,
            c,
        ) && run == crate::task::runnable(tasks[t].commands[c], tasks[t]);
    assert(stands_at(tasks, run, t, c));
    lemma_lowest(tasks, 0, sequential as int);
    let x = c as usize;
    assert(x as i8 == x) by (bit_vector)
        requires
            x < 128,
    ;
    assert(c == lowest_pending(tasks, 0, sequential as int));
    assert forall|u: int, k: int|
        0 <= u < tasks.len() && 0 <= k < c && k < tasks[u].commands.len() implies (
    #[trigger] tasks[u].commands[k]).status == TaskStatus::Successed by {
        assert(!pending_at(tasks, k));
    }
}

/// Where commands are run in turn, one that waits is handed out as soon as all commands at
/// earlier places have succeeded, and so has what its task waits for.
pub proof fn lemma_turn_comes(tasks: Seq<TaskView>, sequential: i8, t: int, c: int)
    requires
        task_ids(tasks).no_duplicates(),
        0 <= t < tasks.len(),
        0 <= c < tasks[t].commands.len(),
        c <= sequential,
        tasks[t].commands[c].status == TaskStatus::Init,
        forall|u: int, k: int|
            0 <= u < tasks.len() && 0 <= k < c && k < tasks[u].commands.len() ==> (
            #[trigger] tasks[u].commands[k]).status == TaskStatus::Successed,
        tasks[t].children_id matches Some(ids) ==> forall|j: int|
            0 <= j < ids.len() ==> task_ids(tasks).contains(#[trigger] ids[j]),
        forall|u: int, k: int|
            0 <= u < tasks.len() && is_child_of(tasks, u, t) && 0 <= k < tasks[u].commands.len()
                && known_as((#[trigger] tasks[u].commands[k]).command) == known_as(
                tasks[t].commands[c].command,
            ) ==> tasks[u].commands[k].status == TaskStatus::Successed,
    ensures
        exists|i: int| #[trigger]
            stands_at(tasks, next_commands(tasks, sequential, tasks.len() as int)[i], t, c) && 0
                <= i < next_commands(tasks, sequential, tasks.len() as int).len(),
{
    lemma_may_run(tasks, t, c);
    lemma_lowest(tasks, 0, sequential as int);
    assert(pending_at(tasks, c)) by {
        assert(c < tasks[t].commands.len() && !(tasks[t].commands[c].status is Successed));
    }
    assert forall|k: int| 0 <= k < c implies !#[trigger] pending_at(tasks, k) by {
        if pending_at(tasks, k) {
            let u = choose|u: int|
                0 <= u < tasks.len() && k < (#[trigger] tasks[u]).commands.len() && !(
                tasks[u].commands[k].status is Successed);
            assert(tasks[u].commands[k].status == TaskStatus::Successed);
        }
    }
    assert(lowest_pending(tasks, 0, sequential as int) == c);
    let x = c as usize;
    assert(x as i8 == x) by (bit_vector)
        requires
            x < 128,
    ;
    assert(is_next(tasks, sequential, t, c));
    crate::task_store::lemma_next_commands(tasks, sequential, tasks.len() as int);
    let all = next_commands(tasks, sequential, tasks.len() as int);
    let run = crate::task::runnable(tasks[t].commands[c], tasks[t]);
    let i = choose|i: int| 0 <= i < all.len() && all[i] == run;
    assert(stands_at(tasks, all[i], t, c));
}

/// A round of the main loop marks what it hands out as about to run and leaves the rest alone:
/// a command whose id was handed out is `Starting`, every other one has the status that it had.
pub proof fn lemma_round(s: StoreView, sequential: i8)
    requires
        in_step(s),
    ensures
        ({
            let next = next_commands(s.tasks, sequential, s.tasks.len() as int);
            let after = with_all(s, runnable_ids(next), TaskStatus::Starting, next.len() as int);
            &&& after.tasks.len() == s.tasks.len()
            &&& after.logs == s.logs
            &&& after.last_run_time == s.last_run_time
            &&& after.show_colors == s.show_colors
            &&& forall|t: int, c: int|
                0 <= t < s.tasks.len() && 0 <= c < s.tasks[t].commands.len() ==> {
                    let was = s.tasks[t].commands[c];
                    let is = #[trigger] after.tasks[t].commands[c];
                    &&& is.id == was.id
                    &&& is.command == was.command
                    &&& is.status == (if exists|i: int|
                        0 <= i < next.len() && (#[trigger] next[i]).id == was.id {
                        TaskStatus::Starting
                    } else {
                        was.status
                    })
                    &&& after.statuses.contains_key(was.id) && after.statuses[was.id] == is.status
                }
        }),
{
    let next = next_commands(s.tasks, sequential, s.tasks.len() as int);
    let ids = runnable_ids(next);
    let after = with_all(s, ids, TaskStatus::Starting, next.len() as int);
    crate::task_managerv2::lemma_with_all(s, ids, TaskStatus::Starting, next.len() as int);
    lemma_with_all_rest(s, ids, TaskStatus::Starting, next.len() as int);
    assert(ids.take(next.len() as int) =~= ids);
    assert forall|t: int, c: int|
        0 <= t < s.tasks.len() && 0 <= c < s.tasks[t].commands.len() implies {
        let was = s.tasks[t].commands[c];
        let is = #[trigger] after.tasks[t].commands[c];
        &&& is.id == was.id
        &&& is.command == was.command
        &&& is.status == (if exists|i: int| 0 <= i < next.len() && (#[trigger] next[i]).id
            == was.id {
            TaskStatus::Starting
        } else {
            was.status
        })
        &&& after.statuses.contains_key(was.id) && after.statuses[was.id] == is.status
    } by {
        let was = s.tasks[t].commands[c];
        let is = after.tasks[t].commands[c];
        if ids.contains(was.id) {
            let i = choose|i: int| 0 <= i < ids.len() && ids[i] == was.id;
            assert(next[i].id == was.id);
        }
        if exists|i: int| 0 <= i < next.len() && (#[trigger] next[i]).id == was.id {
            let i = choose|i: int| 0 <= i < next.len() && (#[trigger] next[i]).id == was.id;
            assert(ids[i] == was.id);
        }
        assert(is.id == was.id);
    }
}

/// A change of statuses leaves the output and the times alone.
pub proof fn lemma_with_all_rest(s: StoreView, ids: Seq<Seq<char>>, status: TaskStatus, n: int)
    ensures
        with_all(s, ids, status, n).logs == s.logs,
        with_all(s, ids, status, n).last_run_time == s.last_run_time,
        with_all(s, ids, status, n).show_colors == s.show_colors,
    decreases n,
{
    if n > 0 {
        lemma_with_all_rest(s, ids, status, n - 1);
    }
}

/// Nothing is handed out twice in one round.
pub proof fn lemma_handed_out_once(tasks: Seq<TaskView>, sequential: i8, n: int)
    requires
        distinct_commands(tasks),
        0 <= n <= tasks.len(),
    ensures
        forall|i: int, j: int|
            0 <= i < j < next_commands(tasks, sequential, n).len() ==> (#[trigger] next_commands(
                tasks,
                sequential,
                n,
            )[i]).id != (#[trigger] next_commands(tasks, sequential, n)[j]).id,
    decreases n,
{
    if n > 0 {
        let before = next_commands(tasks, sequential, n - 1);
        let m = tasks[n - 1].commands.len() as int;
        let own = crate::task_store::next_of_task(tasks, sequential, n - 1, m);
        let all = next_commands(tasks, sequential, n);
        lemma_handed_out_once(tasks, sequential, n - 1);
        lemma_own_once(tasks, sequential, n - 1, m);
        crate::task_store::lemma_next_commands(tasks, sequential, n - 1);
        assert(all == before + own);
        assert forall|i: int, j: int| 0 <= i < j < all.len() implies (#[trigger] all[i]).id != (
        #[trigger] all[j]).id by {
            if j < before.len() {
                assert(all[i] == before[i] && all[j] == before[j]);
            } else if i >= before.len() {
                assert(all[i] == own[i - before.len()] && all[j] == own[j - before.len()]);
            } else {
                assert(all[i] == before[i] && all[j] == own[j - before.len()]);
                let (t, c) = choose|t: int, c: int|
                    0 <= t < n - 1 && 0 <= c < tasks[t].commands.len() && #[trigger] is_next(
                        tasks,
                        sequential,
                        t,
                        c,
                    ) && before[i] == crate::task::runnable(tasks[t].commands[c], tasks[t]);
                let d = choose|d: int|
                    0 <= d < m && #[trigger] tasks[n - 1].commands[d].id == own[j
                        - before.len()].id;
                assert(tasks[t].commands[c].id != tasks[n - 1].commands[d].id);
            }
        }
    }
}

proof fn lemma_own_once(tasks: Seq<TaskView>, sequential: i8, t: int, n: int)
    requires
        distinct_commands(tasks),
        0 <= t < tasks.len(),
        0 <= n <= tasks[t].commands.len(),
    ensures
        ({
            let own = crate::task_store::next_of_task(tasks, sequential, t, n);
            &&& forall|i: int|
                0 <= i < own.len() ==> exists|d: int|
                    0 <= d < n && #[trigger] tasks[t].commands[d].id == (#[trigger] own[i]).id
            &&& forall|i: int, j: int|
                0 <= i < j < own.len() ==> (#[trigger] own[i]).id != (#[trigger] own[j]).id
        }),
    decreases n,
{
    if n > 0 {
        lemma_own_once(tasks, sequential, t, n - 1);
        let before = crate::task_store::next_of_task(tasks, sequential, t, n - 1);
        let own = crate::task_store::next_of_task(tasks, sequential, t, n);
        assert forall|i: int| 0 <= i < own.len() implies exists|d: int|
            0 <= d < n && #[trigger] tasks[t].commands[d].id == (#[trigger] own[i]).id by {
            if i < before.len() {
                assert(own[i] == before[i]);
                let d = choose|d: int|
                    0 <= d < n - 1 && #[trigger] tasks[t].commands[d].id == before[i].id;
                assert(tasks[t].commands[d].id == own[i].id);
            } else {
                assert(tasks[t].commands[n - 1].id == own[i].id);
            }
        }
        assert forall|i: int, j: int| 0 <= i < j < own.len() implies (#[trigger] own[i]).id != (
        #[trigger] own[j]).id by {
            assert(own[i] == before[i]);
            if j < before.len() {
                assert(own[j] == before[j]);
            } else {
                let d = choose|d: int|
                    0 <= d < n - 1 && #[trigger] tasks[t].commands[d].id == before[i].id;
                assert(tasks[t].commands[d].id != tasks[t].commands[n - 1].id);
            }
        }
    }
}

/// When a run ends and how: with success where it was told to end or, where no files are
/// watched, where every command has failed, succeeded or was stopped; without where, short of
/// that, one has failed. Else it goes on, and a run that watches files always does.
pub proof fn lemma_run_ends(m: ManagerView, watch_mode: bool)
    ensures
        !m.is_running ==> loop_exit(m, watch_mode) == Some(true),
        m.is_running && watch_mode ==> loop_exit(m, watch_mode) is None,
        m.is_running && !watch_mode && (forall|k: Seq<char>| #[trigger]
            m.store.statuses.contains_key(k) ==> m.store.statuses[k] == TaskStatus::Failed
                || m.store.statuses[k] == TaskStatus::Successed || m.store.statuses[k]
                == TaskStatus::Stopped) ==> loop_exit(m, watch_mode) == Some(true),
        forall|going: Seq<char>, failed: Seq<char>| #![auto]
            m.is_running && !watch_mode && m.store.statuses.contains_key(going)
                && m.store.statuses.contains_key(failed) && (m.store.statuses[going]
                == TaskStatus::Init || m.store.statuses[going] == TaskStatus::Starting
                || m.store.statuses[going] == TaskStatus::Running || m.store.statuses[going]
                == TaskStatus::Stopping) && m.store.statuses[failed] == TaskStatus::Failed
                ==> loop_exit(m, watch_mode) == Some(false),
        forall|going: Seq<char>| #![auto]
            m.is_running && !watch_mode && m.store.statuses.contains_key(going) && (
            m.store.statuses[going] == TaskStatus::Init || m.store.statuses[going]
                == TaskStatus::Starting || m.store.statuses[going] == TaskStatus::Running
                || m.store.statuses[going] == TaskStatus::Stopping) && (forall|k: Seq<char>|
                #[trigger]
                m.store.statuses.contains_key(k) ==> m.store.statuses[k] != TaskStatus::Failed)
                ==> loop_exit(m, watch_mode) is None,
{
}

/// From when on changed files are acted upon: never where no files are watched and it was not so
/// before; at once where every command runs, has failed, has succeeded or was stopped; more
/// than ten seconds after the start also where no command waits, or where one has failed. Once
/// it is so it stays so.
pub proof fn lemma_acts_on_changes(m: ManagerView, watch_mode: bool, elapsed: u64)
    ensures
        m.is_watch_mode ==> acts_on_changes(m, watch_mode, elapsed),
        !m.is_watch_mode && !watch_mode ==> !acts_on_changes(m, watch_mode, elapsed),
        watch_mode && (forall|k: Seq<char>| #[trigger]
            m.store.statuses.contains_key(k) ==> m.store.statuses[k] == TaskStatus::Running
                || m.store.statuses[k] == TaskStatus::Failed || m.store.statuses[k]
                == TaskStatus::Successed || m.store.statuses[k] == TaskStatus::Stopped)
            ==> acts_on_changes(m, watch_mode, elapsed),
        watch_mode && elapsed > 10_000_000_000 && (forall|k: Seq<char>| #[trigger]
            m.store.statuses.contains_key(k) ==> m.store.statuses[k] != TaskStatus::Init)
            ==> acts_on_changes(m, watch_mode, elapsed),
        watch_mode && elapsed > 10_000_000_000 && (exists|k: Seq<char>| #[trigger]
            m.store.statuses.contains_key(k) && m.store.statuses[k] == TaskStatus::Failed)
            ==> acts_on_changes(m, watch_mode, elapsed),
        forall|k: Seq<char>|
            !m.is_watch_mode && elapsed <= 10_000_000_000 && #[trigger]
                m.store.statuses.contains_key(k) && (m.store.statuses[k] == TaskStatus::Init
                || m.store.statuses[k] == TaskStatus::Starting || m.store.statuses[k]
                == TaskStatus::Stopping) ==> !acts_on_changes(m, watch_mode, elapsed),
        forall|k: Seq<char>|
            !m.is_watch_mode && #[trigger] m.store.statuses.contains_key(k)
                && m.store.statuses[k] == TaskStatus::Init && (forall|j: Seq<char>| #[trigger]
                m.store.statuses.contains_key(j) ==> m.store.statuses[j] != TaskStatus::Failed)
                ==> !acts_on_changes(m, watch_mode, elapsed),
{
}

} // verus!
