//! What a changed file, and starting and stopping by hand, do to the commands.

use vstd::prelude::*;

use crate::laws::scheduling::is_child_of;
use crate::laws::scheduling::known_as;
use crate::task::TaskStatus;
use crate::task::TaskView;
use crate::task_managerv2::ManagerView;
use crate::task_managerv2::StopStep;
use crate::task_managerv2::concerned;
use crate::task_managerv2::lemma_file_changed;
use crate::task_managerv2::reached_in;
use crate::task_managerv2::reset_ids;
use crate::task_managerv2::started;
use crate::task_managerv2::stop_told;
use crate::task_managerv2::stopping;
use crate::task_managerv2::stops;
use crate::task_managerv2::with_all;
use crate::task_store::StoreView;
use crate::task_store::in_step;
use crate::text;

verus! {

/// The store after a file of the task `start` has changed.
pub open spec fn changed(m: ManagerView, start: Seq<char>) -> StoreView {
    let ids = reset_ids(m, start, m.store.tasks.len() as int);
    with_all(m.store, ids, TaskStatus::Init, ids.len() as int)
}

/// Where dependents are not run again, a changed file lets the commands of its task wait that
/// waited, failed, succeeded or were stopped. Those that are about to run, run or are about to
/// stop go on, and no other task is touched.
pub proof fn lemma_change_alone(m: ManagerView, start: Seq<char>, t: int, c: int)
    requires
        in_step(m.store),
        !m.build_depends_on,
        0 <= t < m.store.tasks.len(),
        0 <= c < m.store.tasks[t].commands.len(),
    ensures
        ({
            let was = m.store.tasks[t].commands[c].status;
            let is = changed(m, start).tasks[t].commands[c].status;
            &&& m.store.tasks[t].id == start && (was == TaskStatus::Init || was
                == TaskStatus::Failed || was == TaskStatus::Successed || was
                == TaskStatus::Stopped) ==> is == TaskStatus::Init
            &&& was == TaskStatus::Starting || was == TaskStatus::Running || was
                == TaskStatus::Stopping ==> is == was
            &&& m.store.tasks[t].id != start ==> is == was
        }),
{
    lemma_file_changed(m, start);
    assert(changed(m, start).tasks[t].commands[c].status == changed(
        m,
        start,
    ).tasks[t].commands[c].status);
}

/// Where dependents are run again, a changed file lets the commands of every concerned task wait
/// that waited, failed, succeeded or were stopped, as far as their names are among those that
/// dependents run again, where these are limited. Those under way go on.
pub proof fn lemma_change_with_dependents(m: ManagerView, start: Seq<char>, t: int, c: int)
    requires
        in_step(m.store),
        m.build_depends_on,
        0 <= t < m.store.tasks.len(),
        0 <= c < m.store.tasks[t].commands.len(),
    ensures
        ({
            let cmd = m.store.tasks[t].commands[c];
            let was = cmd.status;
            let is = changed(m, start).tasks[t].commands[c].status;
            let named = match m.depends_on {
                Some(names) => exists|i: int|
                    0 <= i < names.len() && #[trigger] names[i] == known_as(cmd.command),
                None => true,
            };
            &&& concerned(m, start, m.store.tasks[t].id) && named && (was == TaskStatus::Init
                || was == TaskStatus::Failed || was == TaskStatus::Successed || was
                == TaskStatus::Stopped) ==> is == TaskStatus::Init
            &&& was == TaskStatus::Starting || was == TaskStatus::Running || was
                == TaskStatus::Stopping ==> is == was
            &&& !concerned(m, start, m.store.tasks[t].id) || !named ==> is == was
        }),
{
    lemma_file_changed(m, start);
    assert(changed(m, start).tasks[t].commands[c].status == changed(
        m,
        start,
    ).tasks[t].commands[c].status);
}

/// Where dependents are run again, a changed file concerns its own task, and with a task every
/// one that waits for it.
pub proof fn lemma_change_spreads(m: ManagerView, start: Seq<char>, t: int, u: int)
    requires
        m.build_depends_on,
        0 <= t < m.store.tasks.len(),
        0 <= u < m.store.tasks.len(),
        is_child_of(m.store.tasks, u, t),
    ensures
        concerned(m, start, start),
        concerned(m, start, m.store.tasks[u].id) ==> concerned(m, start, m.store.tasks[t].id),
{
    let tasks = m.store.tasks;
    assert(reached_in(tasks, start, start, 0));
    if concerned(m, start, tasks[u].id) {
        let n = choose|n: nat| reached_in(tasks, start, tasks[u].id, n);
        let j = choose|j: int|
            0 <= j < tasks[t].children_id->0.len() && #[trigger] tasks[t].children_id->0[j]
                == tasks[u].id;
        assert(reached_in(tasks, start, tasks[t].children_id->0[j], n));
        assert(reached_in(tasks, start, tasks[t].id, n + 1));
    }
}

/// Whether each task of a chain of ids waits for the one before it.
pub open spec fn is_chain(tasks: Seq<TaskView>, chain: Seq<Seq<char>>) -> bool {
    forall|k: int|
        1 <= k < chain.len() ==> exists|t: int, j: int|
            0 <= t < tasks.len() && (#[trigger] tasks[t]).id == #[trigger] chain[k]
                && tasks[t].children_id is Some && 0 <= j < tasks[t].children_id->0.len()
                && #[trigger] tasks[t].children_id->0[j] == chain[k - 1]
}

/// Nothing but what is joined to it by tasks that wait for each other is concerned by a changed
/// file.
pub proof fn lemma_change_stays_in_reach(m: ManagerView, start: Seq<char>, id: Seq<char>)
    requires
        concerned(m, start, id),
    ensures
        exists|chain: Seq<Seq<char>>| #[trigger]
            is_chain(m.store.tasks, chain) && chain.len() > 0 && chain[0] == start
                && chain[chain.len() - 1] == id,
        !m.build_depends_on ==> id == start,
{
    if m.build_depends_on {
        let n = choose|n: nat| reached_in(m.store.tasks, start, id, n);
        lemma_chain(m.store.tasks, start, id, n);
    } else {
        assert(is_chain(m.store.tasks, seq![start]));
        assert(seq![start][0] == start);
    }
}

proof fn lemma_chain(tasks: Seq<TaskView>, start: Seq<char>, id: Seq<char>, n: nat)
    requires
        reached_in(tasks, start, id, n),
    ensures
        exists|chain: Seq<Seq<char>>| #[trigger]
            is_chain(tasks, chain) && chain.len() > 0 && chain[0] == start && chain[chain.len() - 1]
                == id,
    decreases n,
{
    if id == start {
        assert(is_chain(tasks, seq![start]));
        assert(seq![start][0] == start);
    } else {
        let (t, i) = choose|t: int, i: int|
            0 <= t < tasks.len() && (#[trigger] tasks[t]).id == id && tasks[t].children_id is Some
                && 0 <= i < tasks[t].children_id->0.len() && reached_in(
                tasks,
                start,
                #[trigger] tasks[t].children_id->0[i],
                (n - 1) as nat,
            );
        let child = tasks[t].children_id->0[i];
        lemma_chain(tasks, start, child, (n - 1) as nat);
        let chain = choose|chain: Seq<Seq<char>>| #[trigger]
            is_chain(tasks, chain) && chain.len() > 0 && chain[0] == start && chain[chain.len() - 1]
                == child;
        let longer = chain.push(id);
        assert forall|k: int| 1 <= k < longer.len() implies exists|t: int, j: int|
            0 <= t < tasks.len() && (#[trigger] tasks[t]).id == #[trigger] longer[k]
                && tasks[t].children_id is Some && 0 <= j < tasks[t].children_id->0.len()
                && #[trigger] tasks[t].children_id->0[j] == longer[k - 1] by {
            if k < chain.len() {
                assert(longer[k] == chain[k] && longer[k - 1] == chain[k - 1]);
            } else {
                assert(tasks[t].id == longer[k]);
                assert(tasks[t].children_id->0[i] == longer[k - 1]);
            }
        }
        assert(is_chain(tasks, longer));
        assert(longer[0] == start);
    }
}

/// A changed file changes neither which commands there are nor what they printed.
pub proof fn lemma_change_keeps(m: ManagerView, start: Seq<char>)
    requires
        in_step(m.store),
    ensures
        changed(m, start).logs == m.store.logs,
        changed(m, start).last_run_time == m.store.last_run_time,
        changed(m, start).tasks.len() == m.store.tasks.len(),
        forall|t: int, c: int|
            0 <= t < m.store.tasks.len() && 0 <= c < m.store.tasks[t].commands.len() ==> {
                let was = m.store.tasks[t].commands[c];
                let is = #[trigger] changed(m, start).tasks[t].commands[c];
                is.id == was.id && is.command == was.command
            },
{
    let ids = reset_ids(m, start, m.store.tasks.len() as int);
    crate::task_managerv2::lemma_with_all(m.store, ids, TaskStatus::Init, ids.len() as int);
    crate::laws::scheduling::lemma_with_all_rest(
        m.store,
        ids,
        TaskStatus::Init,
        ids.len() as int,
    );
}

/// Stopping by hand touches a command that runs or is about to, or any where it is forced, and
/// marks it as about to stop. A command that waits or has ended is left alone, and so is every
/// other command.
pub proof fn lemma_stop_by_hand(m: ManagerView, t: int, c: int, force: bool)
    requires
        in_step(m.store),
        crate::task_store::task_ids(m.store.tasks).no_duplicates(),
        0 <= t < m.store.tasks.len(),
        0 <= c < m.store.tasks[t].commands.len(),
    ensures
        ({
            let cmd = m.store.tasks[t].commands[c];
            let after = stop_told(m, cmd.id);
            &&& stops(m, m.store.tasks[t].id, cmd.id, force) <==> force || cmd.status
                == TaskStatus::Running || cmd.status == TaskStatus::Starting
            &&& after.store.statuses[cmd.id] == TaskStatus::Stopping
            &&& after.store.tasks[t].commands[c].status == TaskStatus::Stopping
            &&& forall|u: int, d: int|
                0 <= u < m.store.tasks.len() && 0 <= d < m.store.tasks[u].commands.len() && (u != t
                    || d != c) ==> #[trigger] after.store.tasks[u].commands[d]
                    == m.store.tasks[u].commands[d]
        }),
{
    lemma_status_at(m, t, c);
    let id = m.store.tasks[t].commands[c].id;
    lemma_one_status(m.store, t, c, TaskStatus::Stopping);
}

/// Starting by hand lets a command wait that waits, failed, succeeded or was stopped, or any
/// where it is forced. One that is under way is left alone, and so is every other command.
pub proof fn lemma_start_by_hand(m: ManagerView, t: int, c: int, force: bool)
    requires
        in_step(m.store),
        crate::task_store::task_ids(m.store.tasks).no_duplicates(),
        0 <= t < m.store.tasks.len(),
        0 <= c < m.store.tasks[t].commands.len(),
    ensures
        ({
            let cmd = m.store.tasks[t].commands[c];
            let after = started(m, m.store.tasks[t].id, cmd.id, force);
            &&& after.store.tasks[t].commands[c].status == (if force || cmd.status
                == TaskStatus::Init || cmd.status == TaskStatus::Failed || cmd.status
                == TaskStatus::Successed || cmd.status == TaskStatus::Stopped {
                TaskStatus::Init
            } else {
                cmd.status
            })
            &&& after.store.statuses[cmd.id] == after.store.tasks[t].commands[c].status
            &&& forall|u: int, d: int|
                0 <= u < m.store.tasks.len() && 0 <= d < m.store.tasks[u].commands.len() && (u != t
                    || d != c) ==> #[trigger] after.store.tasks[u].commands[d]
                    == m.store.tasks[u].commands[d]
        }),
{
    lemma_status_at(m, t, c);
    lemma_one_status(m.store, t, c, TaskStatus::Init);
}

/// How long a command that was told to stop is waited for: until it is stopped, for at most five
/// seconds.
pub proof fn lemma_stop_is_waited_for(m: ManagerView, id: Seq<char>, elapsed: u64)
    ensures
        elapsed > 5_000_000_000 ==> stopping(m, id, elapsed) == StopStep::Done(false),
        elapsed <= 5_000_000_000 && m.store.statuses[id] == TaskStatus::Stopped ==> stopping(
            m,
            id,
            elapsed,
        ) == StopStep::Done(true),
        elapsed <= 5_000_000_000 && m.store.statuses[id] != TaskStatus::Stopped ==> stopping(
            m,
            id,
            elapsed,
        ) == StopStep::Wait,
{
}

proof fn lemma_status_at(m: ManagerView, t: int, c: int)
    requires
        in_step(m.store),
        crate::task_store::task_ids(m.store.tasks).no_duplicates(),
        0 <= t < m.store.tasks.len(),
        0 <= c < m.store.tasks[t].commands.len(),
    ensures
        crate::task_managerv2::status_of(
            m,
            m.store.tasks[t].id,
            m.store.tasks[t].commands[c].id,
        ) == m.store.tasks[t].commands[c].status,
{
    let tasks = m.store.tasks;
    let ids = crate::task_store::task_ids(tasks);
    text::lemma_first_at(ids, tasks[t].id);
    assert(ids[t] == tasks[t].id);
    assert(text::first_at(ids, tasks[t].id) == t);
    let own = crate::task::command_ids(tasks[t].commands);
    let id = tasks[t].commands[c].id;
    text::lemma_first_at(own, id);
    assert(own[c] == id);
    let d = text::first_at(own, id);
    assert(own[d] == tasks[t].commands[d].id);
    if d != c {
        assert(tasks[t].commands[d].id != tasks[t].commands[c].id);
    }
}

proof fn lemma_one_status(s: StoreView, t: int, c: int, status: TaskStatus)
    requires
        in_step(s),
        0 <= t < s.tasks.len(),
        0 <= c < s.tasks[t].commands.len(),
    ensures
        ({
            let id = s.tasks[t].commands[c].id;
            let after = crate::task_store::with_status(s.tasks, id, status);
            &&& after[t].commands[c].status == status
            &&& forall|u: int, d: int|
                0 <= u < s.tasks.len() && 0 <= d < s.tasks[u].commands.len() && (u != t || d != c)
                    ==> #[trigger] after[u].commands[d] == s.tasks[u].commands[d]
        }),
{
    let id = s.tasks[t].commands[c].id;
    crate::task_store::lemma_with_status_exact(s.tasks, id, status);
    let after = crate::task_store::with_status(s.tasks, id, status);
    assert(after[t].commands[c].status == status);
    assert forall|u: int, d: int|
        0 <= u < s.tasks.len() && 0 <= d < s.tasks[u].commands.len() && (u != t || d != c) implies
        #[trigger] after[u].commands[d] == s.tasks[u].commands[d] by {
        assert(s.tasks[u].commands[d].id != s.tasks[t].commands[c].id);
    }
}

} // verus!
