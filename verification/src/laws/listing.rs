//! What the lists of tasks and commands hold, and in which order.

use vstd::prelude::*;

use crate::json::JsonView;
use crate::json::field_of;
use crate::json::json_text;
use crate::laws::texts::lemma_strip;
use crate::task::CommandTypeView;
use crate::task::CommandView;
use crate::task::DetailsView;
use crate::task::TaskStatus;
use crate::task::TaskView;
use crate::task::put_in_order;
use crate::task::runnable;
use crate::task::shown_before;
use crate::task::shown_commands;
use crate::task_managerv2::names_in;
use crate::task_store::StoreView;
use crate::task_store::all_details;
use crate::task_store::listed_before;
use crate::task_store::logs_of;
use crate::task_store::task_ids;
use crate::task_store::task_status;
use crate::task_store::with_init;
use crate::task_store::with_task;
use crate::text;

verus! {

/// The name under which a command is shown: that of its script, or the one that it shares with
/// others.
pub open spec fn shown_name(c: CommandView) -> Seq<char> {
    match c.command {
        CommandTypeView::Simple(script) => script,
        CommandTypeView::Plexus { name, command } => name,
    }
}

/// Commands are shown by name, and those of one name by id.
pub proof fn lemma_shown_before(a: CommandView, b: CommandView)
    ensures
        text::text_lt(shown_name(a), shown_name(b)) ==> shown_before(a, b),
        text::text_lt(shown_name(b), shown_name(a)) ==> !shown_before(a, b),
        shown_name(a) == shown_name(b) ==> shown_before(a, b) == text::text_lt(a.id, b.id),
{
    text::lemma_text_lt_total(shown_name(a), shown_name(b));
}

proof fn lemma_put(s: Seq<CommandView>, c: CommandView)
    ensures
        put_in_order(s, c).to_multiset() == s.to_multiset().insert(c),
        put_in_order(s, c).len() == s.len() + 1,
    decreases s.len(),
{
    broadcast use vstd::seq_lib::group_to_multiset_ensures;

    if s.len() > 0 && shown_before(c, s.last()) {
        let less = s.drop_last();
        lemma_put(less, c);
        assert(s =~= less.push(s.last()));
        assert(put_in_order(s, c).to_multiset() =~= s.to_multiset().insert(c));
    }
}

/// The commands that are shown of a task are its commands, each as often as it has it.
pub proof fn lemma_all_are_shown(s: Seq<CommandView>)
    ensures
        shown_commands(s).to_multiset() == s.to_multiset(),
        shown_commands(s).len() == s.len(),
    decreases s.len(),
{
    broadcast use vstd::seq_lib::group_to_multiset_ensures;

    if s.len() > 0 {
        let less = s.drop_last();
        lemma_all_are_shown(less);
        lemma_put(shown_commands(less), s.last());
        assert(s =~= less.push(s.last()));
        assert(shown_commands(s).to_multiset() =~= s.to_multiset());
    } else {
        assert(shown_commands(s) =~= s);
    }
}

/// Whether commands stand in the order of their names, and those of one name in that of their
/// ids.
pub open spec fn are_in_order(s: Seq<CommandView>) -> bool {
    forall|i: int, j: int|
        0 <= i < j < s.len() ==> {
            ||| text::text_lt(shown_name(#[trigger] s[i]), shown_name(#[trigger] s[j]))
            ||| shown_name(s[i]) == shown_name(s[j]) && !text::text_lt(s[j].id, s[i].id)
        }
}

proof fn lemma_put_keeps_order(s: Seq<CommandView>, c: CommandView)
    requires
        are_in_order(s),
    ensures
        are_in_order(put_in_order(s, c)),
        forall|i: int|
            0 <= i < put_in_order(s, c).len() ==> #[trigger] put_in_order(s, c)[i] == c
                || s.contains(put_in_order(s, c)[i]),
    decreases s.len(),
{
    let all = put_in_order(s, c);
    if s.len() == 0 {
        assert(all =~= seq![c]);
    } else if shown_before(c, s.last()) {
        let less = s.drop_last();
        let before = put_in_order(less, c);
        lemma_put_keeps_order(less, c);
        assert(all == before.push(s.last()));
        assert forall|i: int| 0 <= i < all.len() implies #[trigger] all[i] == c || s.contains(
            all[i],
        ) by {
            if i < before.len() {
                assert(all[i] == before[i]);
                if before[i] != c {
                    let k = choose|k: int| 0 <= k < less.len() && less[k] == before[i];
                    assert(s[k] == all[i]);
                }
            } else {
                assert(s[s.len() - 1] == all[i]);
            }
        }
        assert forall|i: int, j: int| 0 <= i < j < all.len() implies {
            ||| text::text_lt(shown_name(#[trigger] all[i]), shown_name(#[trigger] all[j]))
            ||| shown_name(all[i]) == shown_name(all[j]) && !text::text_lt(all[j].id, all[i].id)
        } by {
            if j < before.len() {
                assert(all[i] == before[i] && all[j] == before[j]);
            } else {
                assert(all[i] == before[i]);
                if before[i] == c {
                    lemma_shown_before(c, s.last());
                    text::lemma_text_lt_total(shown_name(c), shown_name(s.last()));
                    text::lemma_text_lt_total(c.id, s.last().id);
                } else {
                    let k = choose|k: int| 0 <= k < less.len() && less[k] == before[i];
                    assert(s[k] == all[i]);
                    assert(s[s.len() - 1] == all[j]);
                }
            }
        }
    } else {
        let n = s.len() - 1;
        assert forall|i: int| 0 <= i < all.len() implies #[trigger] all[i] == c || s.contains(
            all[i],
        ) by {
            if i < s.len() {
                assert(s[i] == all[i]);
            }
        }
        lemma_shown_before(c, s[n]);
        text::lemma_text_lt_total(shown_name(c), shown_name(s[n]));
        assert forall|i: int, j: int| 0 <= i < j < all.len() implies {
            ||| text::text_lt(shown_name(#[trigger] all[i]), shown_name(#[trigger] all[j]))
            ||| shown_name(all[i]) == shown_name(all[j]) && !text::text_lt(all[j].id, all[i].id)
        } by {
            if j < s.len() {
                assert(all[i] == s[i] && all[j] == s[j]);
            } else if i < n {
                assert(all[i] == s[i] && all[j] == c);
                let a = shown_name(s[i]);
                let b = shown_name(s[n]);
                let d = shown_name(c);
                if text::text_lt(a, b) && text::text_lt(b, d) {
                    text::lemma_text_lt_trans(a, b, d);
                }
                if a == d && a == b && text::text_lt(c.id, s[i].id) {
                    text::lemma_text_lt_total(s[i].id, s[n].id);
                    if s[i].id != s[n].id {
                        text::lemma_text_lt_trans(c.id, s[i].id, s[n].id);
                    }
                }
            }
        }
    }
}

/// The commands of a task are shown in the order of their names, and those of one name in that
/// of their ids.
pub proof fn lemma_shown_in_order(s: Seq<CommandView>)
    ensures
        are_in_order(shown_commands(s)),
    decreases s.len(),
{
    if s.len() > 0 {
        lemma_shown_in_order(s.drop_last());
        lemma_put_keeps_order(shown_commands(s.drop_last()), s.last());
    }
}

/// A task is at the top of the list where a command of it is about to run, runs, is about to
/// stop, was stopped or has failed: not where all of them wait or have succeeded.
pub proof fn lemma_at_the_top(task: TaskView)
    ensures
        task_status(task) is Other <==> forall|k: int|
            0 <= k < task.commands.len() ==> (#[trigger] task.commands[k]).status
                == TaskStatus::Init || task.commands[k].status == TaskStatus::Successed,
        task_status(task) is Running <==> !(task_status(task) is Other),
{
    if task_status(task) is Running {
        let k = choose|k: int|
            0 <= k < task.commands.len() && {
                let s = (#[trigger] task.commands[k]).status;
                s is Running || s is Starting || s is Stopping || s is Stopped || s is Failed
            };
        assert(!(task.commands[k].status == TaskStatus::Init));
    }
    if exists|k: int|
        0 <= k < task.commands.len() && !((#[trigger] task.commands[k]).status == TaskStatus::Init
            || task.commands[k].status == TaskStatus::Successed) {
        let k = choose|k: int|
            0 <= k < task.commands.len() && !((#[trigger] task.commands[k]).status
                == TaskStatus::Init || task.commands[k].status == TaskStatus::Successed);
        let s = task.commands[k].status;
        assert(s is Running || s is Starting || s is Stopping || s is Stopped || s is Failed);
    }
}

/// What is at the top of the list comes before all else, by name. All else is ordered by when it
/// last ran, the latest first; what never ran counts as if it ran a day ago.
pub proof fn lemma_listed_before(a: DetailsView, b: DetailsView, now: int)
    ensures
        a.status is Running && b.status is Other ==> listed_before(a, b, now),
        a.status is Other && b.status is Running ==> !listed_before(a, b, now),
        a.status is Running && b.status is Running ==> listed_before(a, b, now) == text::text_lt(
            a.task.name,
            b.task.name,
        ),
        a.status is Other && b.status is Other ==> {
            &&& a.last_run_time is Some && b.last_run_time is Some ==> listed_before(a, b, now) == (
            a.last_run_time->0 > b.last_run_time->0)
            &&& a.last_run_time is Some && b.last_run_time is None ==> listed_before(a, b, now) == (
            a.last_run_time->0 > now - 86_400_000_000_000)
            &&& a.last_run_time is None && b.last_run_time is Some ==> listed_before(a, b, now) == (
            now - 86_400_000_000_000 > b.last_run_time->0)
            &&& a.last_run_time is None && b.last_run_time is None ==> !listed_before(a, b, now)
        },
{
}

/// The list shows each task of the store with the time at which it last ran, where it did.
pub proof fn lemma_all_details(s: StoreView, i: int)
    requires
        0 <= i < s.tasks.len(),
    ensures
        all_details(s).len() == s.tasks.len(),
        all_details(s)[i].task == s.tasks[i],
        all_details(s)[i].status == task_status(s.tasks[i]),
        s.last_run_time.contains_key(s.tasks[i].id) ==> all_details(s)[i].last_run_time == Some(
            s.last_run_time[s.tasks[i].id],
        ),
        !s.last_run_time.contains_key(s.tasks[i].id) ==> all_details(s)[i].last_run_time is None,
{
}

/// A task that is added takes the place of the one with its id, where there is one, and else
/// stands at the end. All others stay where they are.
pub proof fn lemma_with_task(tasks: Seq<TaskView>, t: TaskView, i: int)
    requires
        0 <= i < tasks.len(),
        forall|k: int| 0 <= k < i ==> (#[trigger] tasks[k]).id != t.id,
    ensures
        tasks[i].id == t.id ==> with_task(tasks, t).len() == tasks.len() && with_task(tasks, t)[i]
            == t && forall|k: int|
            0 <= k < tasks.len() && k != i ==> #[trigger] with_task(tasks, t)[k] == tasks[k],
        tasks[i].id != t.id && i == tasks.len() - 1 ==> with_task(tasks, t) == tasks.push(t),
{
    let ids = task_ids(tasks);
    assert forall|k: int| 0 <= k < i implies ids[k] != t.id by {
        assert(ids[k] == tasks[k].id);
    }
    assert(ids[i] == tasks[i].id);
    if tasks[i].id == t.id {
        text::lemma_is_first_at(ids, t.id, i);
    } else if i == tasks.len() - 1 {
        text::lemma_is_first_at(ids, t.id, ids.len() as int);
    }
}

/// Commands that are added wait for their turn; all others keep their status.
pub proof fn lemma_with_init(
    statuses: Map<Seq<char>, TaskStatus>,
    ids: Seq<Seq<char>>,
    id: Seq<char>,
)
    ensures
        ({
            let new = exists|i: int| 0 <= i < ids.len() && #[trigger] ids[i] == id;
            &&& new ==> with_init(statuses, ids).contains_key(id) && with_init(statuses, ids)[id]
                == TaskStatus::Init
            &&& !new ==> with_init(statuses, ids).contains_key(id) == statuses.contains_key(id)
            &&& !new && statuses.contains_key(id) ==> with_init(statuses, ids)[id] == statuses[id]
        }),
{
    assert(ids.contains(id) <==> exists|i: int| 0 <= i < ids.len() && #[trigger] ids[i] == id);
}

/// A command has printed nothing until it has.
pub proof fn lemma_logs_of(s: StoreView, id: Seq<char>)
    ensures
        s.logs.contains_key(id) ==> logs_of(s, id) == s.logs[id],
        !s.logs.contains_key(id) ==> logs_of(s, id).len() == 0,
{
}

/// What is handed out to run a command names the command, its task and the directory of its
/// task.
pub proof fn lemma_runnable(cmd: CommandView, task: TaskView)
    ensures
        runnable(cmd, task).id == cmd.id,
        runnable(cmd, task).task_id == task.id,
        runnable(cmd, task).name == task.name,
        runnable(cmd, task).path == task.path,
        runnable(cmd, task).command == cmd.command,
{
}

/// A package is listed under its name, without the quotation marks around it; one without a name
/// is passed over.
pub proof fn lemma_names_in(items: Seq<JsonView>, last: JsonView, name: Seq<char>)
    ensures
        names_in(Seq::empty()).len() == 0,
        field_of(last, "name"@) is None ==> names_in(items.push(last)) == names_in(items),
        (field_of(last, "name"@) matches Some(j) && json_text(j) == seq!['"'] + name + seq!['"'])
            && (name.len() == 0 || (name[0] != '"' && name[name.len() - 1] != '"'))
            ==> names_in(items.push(last)) == names_in(items).push(name),
{
    assert(items.push(last).drop_last() =~= items);
    let one = Seq::new(1, |i: int| '"');
    assert(one =~= seq!['"']);
    let tail = name + seq!['"'];
    assert(seq!['"'] + name + seq!['"'] =~= one + tail);
    lemma_strip(name, '"', 1);
    if name.len() > 0 {
        assert(tail[0] == name[0]);
        lemma_strip(tail, '"', 1);
    } else {
        let two = Seq::new(2, |i: int| '"');
        assert(seq!['"'] + name + seq!['"'] =~= two + name);
        lemma_strip(name, '"', 2);
        assert(name =~= Seq::<char>::empty());
        assert(text::strip_end(name, '"') == name);
    }
}

} // verus!
