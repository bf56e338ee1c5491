//! What the central operations do, from what goes into a call to what comes out of it.

use vstd::prelude::*;

use crate::config::Config;
use crate::config::ConfigCommand;
use crate::config::ConfigCommandView;
use crate::config::OptionConfig;
use crate::config::ProjectSource;
use crate::config::command_views;
use crate::config::init_default_config;
use crate::globs::any_matches;
use crate::json::Json;
use crate::laws::changes::lemma_change_alone;
use crate::laws::changes::lemma_start_by_hand;
use crate::laws::changes::lemma_stop_by_hand;
use crate::laws::drawing::lemma_drawn_up_dependencies;
use crate::laws::drawing::lists;
use crate::laws::drawing::names;
use crate::laws::loading::lemma_asked;
use crate::laws::scheduling::is_child_of;
use crate::laws::scheduling::known_as;
use crate::laws::scheduling::lemma_handed_out;
use crate::laws::scheduling::stands_at;
use crate::laws::watching::lemma_what_concerns_a_task;
use crate::strmap::StrMap;
use crate::task::TaskCommandRunnable;
use crate::task::TaskStatus;
use crate::task_loading::LoadError;
use crate::task_loading::asked_commands;
use crate::task_managerv2::LoopStep;
use crate::task_managerv2::StopStep;
use crate::task_managerv2::TaskManager;
use crate::task_managerv2::TaskManagerWatchData;
use crate::task_store::TaskStore;
use crate::task_store::in_step;
use crate::task_store::next_commands;
use crate::task_store::task_ids;
use crate::text;
use crate::watch_managerv2::WatchEntry;
use crate::watch_managerv2::WatchPlan;
use crate::watch_managerv2::concerns;
use crate::watch_managerv2::glob_path;
use crate::watch_managerv2::init_watch_state;

verus! {

/// Whatever a store hands out to run is a command of one of its tasks. Every command of the same
/// name, in every task that its own waits for, has succeeded.
pub proof fn lemma_get_runnable_commands(
    store: &TaskStore,
    sequential: i8,
    r: Vec<TaskCommandRunnable>,
    i: int,
)
    requires
        call_ensures(TaskStore::get_runnable_commands, (store, sequential), r),
        task_ids(store@.tasks).no_duplicates(),
        0 <= i < r@.len(),
    ensures
        exists|t: int, c: int| #[trigger]
            stands_at(store@.tasks, r@[i]@, t, c) && forall|u: int, k: int|
                0 <= u < store@.tasks.len() && is_child_of(store@.tasks, u, t) && 0 <= k
                    < store@.tasks[u].commands.len() && known_as(
                    (#[trigger] store@.tasks[u].commands[k]).command,
                ) == known_as(r@[i]@.command) ==> store@.tasks[u].commands[k].status
                    == TaskStatus::Successed,
{
    let all = r@.map_values(|c: TaskCommandRunnable| c@);
    assert(all.len() == r@.len());
    assert(all[i] == r@[i]@);
    lemma_handed_out(store@.tasks, sequential, i);
}

/// So it is with what a round of the main loop has run.
pub proof fn lemma_main_loop(
    manager: &mut TaskManager,
    watch_mode: bool,
    sequential: i8,
    elapsed: u64,
    cmds: Vec<TaskCommandRunnable>,
    i: int,
)
    requires
        call_ensures(
            TaskManager::main_loop,
            (manager, watch_mode, sequential, elapsed),
            LoopStep::Run(cmds),
        ),
        task_ids(old(manager)@.store.tasks).no_duplicates(),
        0 <= i < cmds@.len(),
    ensures
        ({
            let tasks = old(manager)@.store.tasks;
            exists|t: int, c: int| #[trigger]
                stands_at(tasks, cmds@[i]@, t, c) && forall|u: int, k: int|
                    0 <= u < tasks.len() && is_child_of(tasks, u, t) && 0 <= k
                        < tasks[u].commands.len() && known_as(
                        (#[trigger] tasks[u].commands[k]).command,
                    ) == known_as(cmds@[i]@.command) ==> tasks[u].commands[k].status
                        == TaskStatus::Successed
        }),
{
    let tasks = old(manager)@.store.tasks;
    let all = cmds@.map_values(|c: TaskCommandRunnable| c@);
    assert(all.len() == cmds@.len());
    assert(all[i] == cmds@[i]@);
    assert(all == next_commands(tasks, sequential, tasks.len() as int));
    lemma_handed_out(tasks, sequential, i);
}

/// Of the commands of a project exactly those are taken whose name was asked for, of whichever
/// kind they are.
pub proof fn lemma_asked_commands(
    commands: &Vec<ConfigCommand>,
    names: &Vec<String>,
    r: Vec<ConfigCommand>,
    k: int,
)
    requires
        call_ensures(asked_commands, (commands, names), r),
        0 <= k < commands@.len(),
    ensures
        (exists|j: int| 0 <= j < r@.len() && (#[trigger] r@[j])@ == commands@[k]@) <==> ({
            let name = match commands@[k]@ {
                ConfigCommandView::Simple(script) => script,
                ConfigCommandView::Plexus { name, actual_commands } => name,
                ConfigCommandView::WithDependency { command, depends_on, envs } => command,
            };
            exists|n: int| 0 <= n < names@.len() && (#[trigger] names@[n])@ == name
        }),
{
    let all = command_views(commands@);
    let taken = command_views(r@);
    let asked = text::texts(names@);
    assert(all.len() == commands@.len() && taken.len() == r@.len() && asked.len() == names@.len());
    assert(all[k] == commands@[k]@);
    lemma_asked(all, asked, k);
    let name = match commands@[k]@ {
        ConfigCommandView::Simple(script) => script,
        ConfigCommandView::Plexus { name, actual_commands } => name,
        ConfigCommandView::WithDependency { command, depends_on, envs } => command,
    };
    if taken.contains(all[k]) {
        let j = choose|j: int| 0 <= j < taken.len() && taken[j] == all[k];
        assert(taken[j] == r@[j]@);
    }
    if exists|j: int| 0 <= j < r@.len() && (#[trigger] r@[j])@ == commands@[k]@ {
        let j = choose|j: int| 0 <= j < r@.len() && (#[trigger] r@[j])@ == commands@[k]@;
        assert(taken[j] == all[k]);
    }
    if asked.contains(name) {
        let n = choose|n: int| 0 <= n < asked.len() && asked[n] == name;
        assert(asked[n] == names@[n]@);
    }
    if exists|n: int| 0 <= n < names@.len() && (#[trigger] names@[n])@ == name {
        let n = choose|n: int| 0 <= n < names@.len() && (#[trigger] names@[n])@ == name;
        assert(asked[n] == name);
    }
}

/// A load that is refused changes nothing.
pub proof fn lemma_refused_load(
    manager: &mut TaskManager,
    config: &Config,
    filters: &Vec<String>,
    commands: &Vec<String>,
    packages: &StrMap<Vec<String>>,
    e: LoadError,
)
    requires
        call_ensures(
            TaskManager::load_tasks,
            (manager, config, filters, commands, packages),
            Err::<(), LoadError>(e),
        ),
    ensures
        *final(manager) == *old(manager),
{
}

/// After a file of a task has changed, where dependents are not run again, every command of the
/// task waits that waited, failed, succeeded or was stopped. Those that are about to run, run or
/// are about to stop go on, and so does every command of another task.
pub proof fn lemma_file_changed(manager: &mut TaskManager, task_id: &str, t: int, c: int)
    requires
        call_ensures(TaskManager::file_changed, (manager, task_id), ()),
        in_step(old(manager)@.store),
        !old(manager)@.build_depends_on,
        0 <= t < old(manager)@.store.tasks.len(),
        0 <= c < old(manager)@.store.tasks[t].commands.len(),
    ensures
        ({
            let was = old(manager)@.store.tasks[t].commands[c].status;
            let now = final(manager)@.store.tasks[t].commands[c].status;
            let own = old(manager)@.store.tasks[t].id == task_id@;
            &&& own && was == TaskStatus::Init ==> now == TaskStatus::Init
            &&& own && was == TaskStatus::Failed ==> now == TaskStatus::Init
            &&& own && was == TaskStatus::Successed ==> now == TaskStatus::Init
            &&& own && was == TaskStatus::Stopped ==> now == TaskStatus::Init
            &&& was == TaskStatus::Starting ==> now == TaskStatus::Starting
            &&& was == TaskStatus::Running ==> now == TaskStatus::Running
            &&& was == TaskStatus::Stopping ==> now == TaskStatus::Stopping
            &&& !own ==> now == was
        }),
{
    lemma_change_alone(old(manager)@, task_id@, t, c);
}

/// A file that a pattern of a task, or an ignore of the program, leaves out never concerns the
/// task. Where the task names patterns of its own, exactly the files concern it that one of these
/// matches and that are not left out.
pub proof fn lemma_init_watch_state(
    d: &TaskManagerWatchData,
    ignores: &Vec<String>,
    entries: &Vec<WatchEntry>,
    r: WatchPlan,
    path: Seq<char>,
)
    requires
        call_ensures(init_watch_state, (d, ignores, entries), r),
    ensures
        ({
            let p = glob_path(path);
            let out = any_matches(text::texts(d.excludes@), p) || any_matches(
                text::texts(ignores@),
                p,
            );
            let hit = concerns(text::texts(r.includes@), text::texts(r.excludes@), path);
            &&& out ==> !hit
            &&& !d.use_default_watch_ignore && d.includes@.len() > 0 ==> (hit <==> any_matches(
                text::texts(d.includes@),
                p,
            ) && !out)
        }),
{
    lemma_what_concerns_a_task(
        d@,
        text::texts(ignores@),
        crate::watch_managerv2::entry_views(entries@),
        path,
    );
    assert(text::texts(d.includes@).len() == d.includes@.len());
}

/// A configuration that is drawn up has one project for each source. It depends on a listed
/// project exactly where the `package.json` names that among its peer dependencies, its
/// dependencies for development or its other dependencies.
pub proof fn lemma_init_default_config(
    listing: &Json,
    sources: &Vec<ProjectSource>,
    workspace: &str,
    r: Config,
    i: int,
    name: Seq<char>,
)
    requires
        call_ensures(init_default_config, (listing, sources, workspace), r),
        0 <= i < sources@.len(),
        lists(listing@, name),
    ensures
        r.projects@.len() == sources@.len(),
        r.projects@[i].name@ == sources@[i].name@,
        (r.projects@[i].depends_on matches OptionConfig::List(v) && exists|k: int|
            0 <= k < v@.len() && (#[trigger] v@[k])@ == name) <==> names(
            sources@[i].manifest@,
            "peerDependencies"@,
            name,
        ) || names(sources@[i].manifest@, "devDependencies"@, name) || names(
            sources@[i].manifest@,
            "dependencies"@,
            name,
        ),
        r.version@ == "1.0"@,
        r.schema@ == "node_modules/plexus.schema.json"@,
        r.envs is None,
{
    lemma_drawn_up_dependencies(r.projects@[i], sources@[i], listing@, workspace@, name);
}

/// A command is told to stop exactly where it runs, is about to, or is forced to; it is then
/// about to stop. Any other is left alone.
pub proof fn lemma_stop_command(
    manager: &mut TaskManager,
    task_id: &str,
    command_id: &str,
    force: bool,
    r: StopStep,
    t: int,
    c: int,
)
    requires
        call_ensures(TaskManager::stop_command, (manager, task_id, command_id, force), r),
        in_step(old(manager)@.store),
        task_ids(old(manager)@.store.tasks).no_duplicates(),
        0 <= t < old(manager)@.store.tasks.len(),
        0 <= c < old(manager)@.store.tasks[t].commands.len(),
        old(manager)@.store.tasks[t].id == task_id@,
        old(manager)@.store.tasks[t].commands[c].id == command_id@,
    ensures
        ({
            let was = old(manager)@.store.tasks[t].commands[c].status;
            let now = final(manager)@.store.tasks[t].commands[c].status;
            let told = force || was == TaskStatus::Running || was == TaskStatus::Starting;
            &&& told ==> now == TaskStatus::Stopping && r is Wait
            &&& !told ==> now == was && r == StopStep::Done(false)
        }),
{
    lemma_stop_by_hand(old(manager)@, t, c, force);
}

/// A command is let wait for its turn exactly where it waits, failed, succeeded or was stopped,
/// or is forced to. Any other is left alone.
pub proof fn lemma_start_command(
    manager: &mut TaskManager,
    task_id: &str,
    command_id: &str,
    force: bool,
    r: bool,
    t: int,
    c: int,
)
    requires
        call_ensures(TaskManager::start_command, (manager, task_id, command_id, force), r),
        in_step(old(manager)@.store),
        task_ids(old(manager)@.store.tasks).no_duplicates(),
        0 <= t < old(manager)@.store.tasks.len(),
        0 <= c < old(manager)@.store.tasks[t].commands.len(),
        old(manager)@.store.tasks[t].id == task_id@,
        old(manager)@.store.tasks[t].commands[c].id == command_id@,
    ensures
        ({
            let was = old(manager)@.store.tasks[t].commands[c].status;
            let now = final(manager)@.store.tasks[t].commands[c].status;
            let waits = force || was == TaskStatus::Init || was == TaskStatus::Failed || was
                == TaskStatus::Successed || was == TaskStatus::Stopped;
            &&& waits ==> now == TaskStatus::Init
            &&& !waits ==> now == was
        }),
{
    lemma_start_by_hand(old(manager)@, t, c, force);
}

/// What is noted of a command is noted of that command: its status, a line of its output, or
/// when its task last ran.
pub proof fn lemma_store_notes(
    a: &mut TaskStore,
    b: &mut TaskStore,
    c: &mut TaskStore,
    id: &str,
    status: TaskStatus,
    line: String,
    time: i64,
    other: Seq<char>,
)
    requires
        call_ensures(TaskStore::set_status, (a, id, status), ()),
        call_ensures(TaskStore::add_log, (b, id, line), ()),
        call_ensures(TaskStore::set_last_run_time, (c, id, time), ()),
        other != id@,
    ensures
        final(a)@.statuses.contains_key(id@) && final(a)@.statuses[id@] == status,
        final(a)@.statuses.contains_key(other) == old(a)@.statuses.contains_key(other),
        old(a)@.statuses.contains_key(other) ==> final(a)@.statuses[other]
            == old(a)@.statuses[other],
        final(a)@.logs == old(a)@.logs,
        final(b)@.logs.contains_key(id@),
        old(b)@.logs.contains_key(id@) ==> final(b)@.logs[id@] == old(b)@.logs[id@].push(line@),
        !old(b)@.logs.contains_key(id@) ==> final(b)@.logs[id@] == seq![line@],
        old(b)@.logs.contains_key(other) ==> final(b)@.logs[other] == old(b)@.logs[other],
        final(b)@.statuses == old(b)@.statuses,
        final(b)@.tasks == old(b)@.tasks,
        final(c)@.last_run_time.contains_key(id@) && final(c)@.last_run_time[id@] == time,
        final(c)@.statuses == old(c)@.statuses,
        final(c)@.logs == old(c)@.logs,
{
    if !old(b)@.logs.contains_key(id@) {
        assert(final(b)@.logs[id@] =~= seq![line@]);
    }
}

} // verus!
