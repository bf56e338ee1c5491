//! The task manager: it loads tasks from the configuration, hands out the commands that are
//! to run, and resets what a changed file concerns.

use vstd::prelude::*;

use crate::config::Config;
use crate::config::ConfigProject;
use crate::config::ConfigWatch;
use crate::config::ConfigWatchView;
use crate::config::OptionConfig;
use crate::config::ProjectView;
use crate::config::command_views;
use crate::config::place_of_project;
use crate::config::project_names;
use crate::config::projects_view;
use crate::json::Json;
use crate::json::JsonView;
use crate::strmap::StrMap;
use crate::task::CommandView;
use crate::task::TaskView;
use crate::task::all_drawn;
use crate::task::command_ids;
use crate::task::is_drawn;
use crate::task::lemma_new_commands;
use crate::task::new_commands;
use crate::task::script_count;
use crate::task::scripts_of;
use crate::task::uuid;
use crate::task_loading::LoadContext;
use crate::task_loading::LoadError;
use crate::task_loading::PlannedTask;
use crate::task_loading::PlannedView;
use crate::task_loading::asked;
use crate::task_loading::asked_commands;
use crate::task_loading::lemma_plan;
use crate::task_loading::load_level;
use crate::task_loading::packages_view;
use crate::task_loading::plan_tasks;
use crate::task_loading::plan_view;
use crate::task_loading::planned_names;
use crate::task_loading::settled;
use crate::task_runner::with_status_of;
use crate::task_store::StoreView;
use crate::task_store::children_known;
use crate::task_store::command_by_id;
use crate::task_store::has_run;
use crate::task_store::ids_of_names;
use crate::task_store::in_step;
use crate::task_store::lemma_set_status_in_step;
use crate::task_store::lemma_with_status;
use crate::task_store::lemma_with_status_exact;
use crate::task_store::next_commands;
use crate::task_store::task_by_id;
use crate::task_store::task_ids;
use crate::task_store::task_names;
use crate::task_store::with_children;
use crate::task_store::with_init;
use crate::task_store::with_status;
use crate::task_store::with_task;
use crate::text;

pub use crate::task::InternalTaskStatus;
pub use crate::task::Task;
pub use crate::task::TaskCommand;
pub use crate::task::TaskCommandRunnable;
pub use crate::task::TaskCommandType;
pub use crate::task::TaskPlexusCommand;
pub use crate::task::TaskStatus;
pub use crate::task::TaskWithDetails;
pub use crate::task_runner::TaskRunner;
pub use crate::task_store::TaskStore;

verus! {

/// Which files lead to a task being run again.
pub struct TaskManagerWatchData {
    pub task_id: String,
    pub task_path: String,
    pub includes: Vec<String>,
    pub excludes: Vec<String>,
    pub use_default_watch_ignore: bool,
}

/// What a [`TaskManagerWatchData`] says.
pub struct WatchDataView {
    pub task_id: Seq<char>,
    pub task_path: Seq<char>,
    pub includes: Seq<Seq<char>>,
    pub excludes: Seq<Seq<char>>,
    pub use_default_watch_ignore: bool,
}

impl View for TaskManagerWatchData {
    type V = WatchDataView;

    open spec fn view(&self) -> WatchDataView {
        WatchDataView {
            task_id: self.task_id@,
            task_path: self.task_path@,
            includes: text::texts(self.includes@),
            excludes: text::texts(self.excludes@),
            use_default_watch_ignore: self.use_default_watch_ignore,
        }
    }
}

impl Clone for TaskManagerWatchData {
    fn clone(&self) -> (r: Self)
        ensures
            r@ == self@,
    {
        TaskManagerWatchData {
            task_id: self.task_id.clone(),
            task_path: self.task_path.clone(),
            includes: text::clone_texts(&self.includes),
            excludes: text::clone_texts(&self.excludes),
            use_default_watch_ignore: self.use_default_watch_ignore,
        }
    }
}

/// What the watch data of a list says.
pub open spec fn watch_list_view(v: Seq<TaskManagerWatchData>) -> Seq<WatchDataView> {
    v.map_values(|w: TaskManagerWatchData| w@)
}

/// What can happen to a task.
pub enum TaskManagerEvent {
    FileChanged { task_id: String },
    TaskStatusChanged { task_id: String, command_id: String, status: TaskStatus },
    TaskLogAdded { task_id: String, command_id: String, log: String },
}

/// The manager of the tasks of one run.
pub struct TaskManager {
    pub _store: TaskStore,
    pub _is_running: bool,
    pub _is_watch_mode: bool,
    pub _watch_data_list: Vec<TaskManagerWatchData>,
    pub _build_depends_on: bool,
    pub _depends_on: Option<Vec<String>>,
    pub _is_loading: bool,
}

/// What a [`TaskManager`] holds.
#[verifier::ext_equal]
pub struct ManagerView {
    pub store: StoreView,
    pub is_running: bool,
    pub is_watch_mode: bool,
    pub watch_data: Seq<WatchDataView>,
    pub build_depends_on: bool,
    pub depends_on: Option<Seq<Seq<char>>>,
    pub is_loading: bool,
}

impl View for TaskManager {
    type V = ManagerView;

    open spec fn view(&self) -> ManagerView {
        ManagerView {
            store: self._store@,
            is_running: self._is_running,
            is_watch_mode: self._is_watch_mode,
            watch_data: watch_list_view(self._watch_data_list@),
            build_depends_on: self._build_depends_on,
            depends_on: text::opt_texts(self._depends_on),
            is_loading: self._is_loading,
        }
    }
}

/// The names in the list that the package manager prints, each without the quotation marks
/// around its text: none where the list is no array.
pub open spec fn package_names_of(list: JsonView) -> Seq<Seq<char>> {
    names_in(crate::json::items_of(list))
}

/// The names of listed packages; those without a name are passed over.
pub open spec fn names_in(items: Seq<JsonView>) -> Seq<Seq<char>>
    decreases items.len(),
{
    if items.len() == 0 {
        Seq::empty()
    } else {
        let before = names_in(items.drop_last());
        match crate::json::field_of(items.last(), "name"@) {
            Some(name) => before.push(
                text::strip_end(text::strip_start(crate::json::json_text(name), '"'), '"'),
            ),
            None => before,
        }
    }
}

/// The names in the list that the package manager prints.
pub fn listed_package_names(list: &Json) -> (r: Vec<String>)
    ensures
        text::texts(r@) == package_names_of(list@),
{
    let mut out: Vec<String> = Vec::new();
    match list {
        Json::Array(items) => {
            let ghost all = list@->Array_0;
            let mut i: usize = 0;
            assert(text::texts(out@) =~= names_in(all.take(0)));
            while i < items.len()
                invariant
                    i <= items@.len(),
                    all.len() == items@.len(),
                    forall|k: int| 0 <= k < all.len() ==> #[trigger] all[k] == items@[k]@,
                    text::texts(out@) == names_in(all.take(i as int)),
                decreases items@.len() - i,
            {
                let ghost before = out@;
                proof {
                    assert(all.take(i + 1).drop_last() =~= all.take(i as int));
                    assert(all.take(i + 1).last() == items@[i as int]@);
                }
                match items[i].field("name") {
                    Some(name) => {
                        let shown = name.render();
                        let bare = text::trim_matches(shown.as_str(), '"');
                        out.push(bare);
                        assert(text::texts(out@) =~= text::texts(before).push(bare@));
                    },
                    None => {},
                }
                i += 1;
            }
            assert(all.take(i as int) =~= all);
        },
        _ => {
            assert(text::texts(out@) =~= package_names_of(list@));
        },
    }
    out
}

/// The names in the text that the package manager prints: none where it is no JSON.
pub fn package_names(printed: &str) -> (r: Vec<String>)
    ensures
        text::texts(r@) == (match crate::json::parsed_json(printed@) {
            Some(list) => package_names_of(list),
            None => Seq::empty(),
        }),
{
    match crate::json::parse(printed) {
        Some(list) => listed_package_names(&list),
        None => {
            let none: Vec<String> = Vec::new();
            assert(text::texts(none@) =~= Seq::<Seq<char>>::empty());
            none
        },
    }
}

/// Fresh ids for the task of a project and for its commands.
pub struct FreshIds {
    pub task: String,
    pub commands: Vec<String>,
}

/// What [`FreshIds`] say.
pub struct FreshView {
    pub task: Seq<char>,
    pub commands: Seq<Seq<char>>,
}

impl View for FreshIds {
    type V = FreshView;

    open spec fn view(&self) -> FreshView {
        FreshView { task: self.task@, commands: text::texts(self.commands@) }
    }
}

/// What the fresh ids of a list say.
pub open spec fn ids_view(v: Seq<FreshIds>) -> Seq<FreshView> {
    v.map_values(|f: FreshIds| f@)
}

/// Whether there are fresh ids for each project, as many as it has scripts among the
/// commands that were asked for.
pub open spec fn ids_fit(
    projects: Seq<ProjectView>,
    commands: Seq<Seq<char>>,
    ids: Seq<FreshView>,
) -> bool {
    &&& ids.len() == projects.len()
    &&& forall|p: int|
        0 <= p < projects.len() ==> (#[trigger] ids[p]).commands.len() == scripts_of(
            asked(projects[p].commands, commands),
        ).len()
}

/// Whether all of some fresh ids have the length of those that are drawn.
pub open spec fn all_fresh(ids: Seq<FreshView>) -> bool {
    forall|p: int|
        0 <= p < ids.len() ==> is_drawn((#[trigger] ids[p]).task) && all_drawn(ids[p].commands)
}

/// The task that a planned project becomes.
pub open spec fn planned_task(
    projects: Seq<ProjectView>,
    commands: Seq<Seq<char>>,
    ids: Seq<FreshView>,
    t: PlannedView,
) -> TaskView {
    let project = projects[t.project];
    TaskView {
        id: ids[t.project].task,
        name: project.name,
        path: project.path,
        commands: new_commands(
            project.name,
            scripts_of(asked(project.commands, commands)),
            ids[t.project].commands,
        ),
        parent_id: match t.parent {
            Some(p) => Some(ids[p].task),
            None => None,
        },
        children_id: match t.children {
            Some(c) => Some(c.map_values(|p: int| ids[p].task)),
            None => None,
        },
    }
}

/// The patterns of all watches of a project that have any, one after the other.
pub open spec fn joined(lists: Seq<Option<Seq<Seq<char>>>>) -> Seq<Seq<char>>
    decreases lists.len(),
{
    if lists.len() == 0 {
        Seq::empty()
    } else {
        match lists.last() {
            Some(l) => joined(lists.drop_last()) + l,
            None => joined(lists.drop_last()),
        }
    }
}

/// Which files lead to the task `id` of a project being run again.
pub open spec fn watch_data_of(project: ProjectView, id: Seq<char>) -> WatchDataView {
    match project.watches {
        None => WatchDataView {
            task_id: id,
            task_path: project.path,
            includes: Seq::empty(),
            excludes: Seq::empty(),
            use_default_watch_ignore: true,
        },
        Some(w) => WatchDataView {
            task_id: id,
            task_path: project.path,
            includes: joined(w.map_values(|x: ConfigWatchView| x.includes)),
            excludes: joined(w.map_values(|x: ConfigWatchView| x.exclude)),
            use_default_watch_ignore: forall|i: int|
                0 <= i < w.len() ==> (#[trigger] w[i]).path is None && w[i].includes is None
                    && w[i].exclude is None,
        },
    }
}

/// The manager after the first `n` projects of a plan became tasks.
pub open spec fn added(
    m: ManagerView,
    projects: Seq<ProjectView>,
    commands: Seq<Seq<char>>,
    ids: Seq<FreshView>,
    plan: Seq<PlannedView>,
    n: int,
) -> ManagerView
    decreases n,
{
    if n <= 0 {
        m
    } else {
        let before = added(m, projects, commands, ids, plan, n - 1);
        let task = planned_task(projects, commands, ids, plan[n - 1]);
        ManagerView {
            store: StoreView {
                tasks: with_task(before.store.tasks, task),
                statuses: with_init(before.store.statuses, command_ids(task.commands)),
                ..before.store
            },
            watch_data: before.watch_data.push(
                watch_data_of(projects[plan[n - 1].project], task.id),
            ),
            ..before
        }
    }
}

/// `tasks` where each of the first `n` of `names` waits for the tasks of the projects that
/// it depends on.
pub open spec fn linked(
    tasks: Seq<TaskView>,
    projects: Seq<ProjectView>,
    names: Seq<Seq<char>>,
    n: int,
) -> Seq<TaskView>
    decreases n,
{
    if n <= 0 {
        tasks
    } else {
        let before = linked(tasks, projects, names, n - 1);
        match projects[text::first_at(project_names(projects), names[n - 1])].depends_on {
            Some(deps) => with_children(before, names[n - 1], ids_of_names(before, deps)),
            None => before,
        }
    }
}

/// The manager after a plan was carried out.
pub open spec fn loaded(
    m: ManagerView,
    projects: Seq<ProjectView>,
    commands: Seq<Seq<char>>,
    ids: Seq<FreshView>,
    plan: Seq<PlannedView>,
) -> ManagerView {
    let all = added(m, projects, commands, ids, plan, plan.len() as int);
    let tasks = all.store.tasks;
    ManagerView {
        store: StoreView {
            tasks: linked(tasks, projects, task_names(tasks), tasks.len() as int),
            ..all.store
        },
        is_loading: false,
        ..all
    }
}

/// What decides which projects the manager `m` loads.
pub open spec fn load_context(
    m: ManagerView,
    projects: Seq<ProjectView>,
    commands: Seq<Seq<char>>,
    packages: Map<Seq<char>, Seq<Seq<char>>>,
) -> LoadContext {
    LoadContext { projects, commands, packages, existing: task_names(m.store.tasks) }
}

fn add_patterns(to: &mut Vec<String>, from: &Option<Vec<String>>)
    ensures
        text::texts(final(to)@) == (match text::opt_texts(*from) {
            Some(l) => text::texts(old(to)@) + l,
            None => text::texts(old(to)@),
        }),
{
    match from {
        Some(v) => text::append_texts(to, v),
        None => {},
    }
}

fn watch_data(project: &ConfigProject, id: &String) -> (r: TaskManagerWatchData)
    ensures
        r@ == watch_data_of(project@, id@),
{
    let mut includes: Vec<String> = Vec::new();
    let mut excludes: Vec<String> = Vec::new();
    let mut use_default_watch_ignore = true;
    assert(text::texts(includes@) =~= Seq::<Seq<char>>::empty());
    match &project.watches {
        Some(watches) => {
            let ghost w = project@.watches->0;
            let ghost a = w.map_values(|x: ConfigWatchView| x.includes);
            let ghost b = w.map_values(|x: ConfigWatchView| x.exclude);
            let mut i: usize = 0;
            assert(text::texts(includes@) =~= joined(a.take(0)));
            assert(text::texts(excludes@) =~= joined(b.take(0)));
            while i < watches.len()
                invariant
                    i <= watches@.len(),
                    w == watches@.map_values(|x: ConfigWatch| x@),
                    a == w.map_values(|x: ConfigWatchView| x.includes),
                    b == w.map_values(|x: ConfigWatchView| x.exclude),
                    text::texts(includes@) == joined(a.take(i as int)),
                    text::texts(excludes@) == joined(b.take(i as int)),
                    use_default_watch_ignore == forall|k: int|
                        0 <= k < i ==> (#[trigger] w[k]).path is None && w[k].includes is None
                            && w[k].exclude is None,
                decreases watches@.len() - i,
            {
                let x = &watches[i];
                proof {
                    assert(w[i as int] == x@);
                    assert(a.take(i + 1).drop_last() =~= a.take(i as int));
                    assert(b.take(i + 1).drop_last() =~= b.take(i as int));
                    assert(a.take(i + 1).last() == x@.includes);
                    assert(b.take(i + 1).last() == x@.exclude);
                }
                add_patterns(&mut includes, &x.includes);
                add_patterns(&mut excludes, &x.exclude);
                use_default_watch_ignore = use_default_watch_ignore && x.path.is_none()
                    && x.includes.is_none() && x.exclude.is_none();
                i += 1;
            }
            assert(a.take(i as int) =~= a);
            assert(b.take(i as int) =~= b);
        },
        None => {},
    }
    TaskManagerWatchData {
        task_id: id.clone(),
        task_path: project.path.clone(),
        includes,
        excludes,
        use_default_watch_ignore,
    }
}

fn ids_at(ids: &Vec<FreshIds>, places: &Vec<usize>) -> (r: Vec<String>)
    requires
        forall|i: int| 0 <= i < places@.len() ==> (#[trigger] places@[i]) < ids@.len(),
    ensures
        text::texts(r@) == crate::task_loading::places(places@).map_values(
            |p: int| ids_view(ids@)[p].task,
        ),
{
    let mut out: Vec<String> = Vec::new();
    let ghost want = crate::task_loading::places(places@).map_values(
        |p: int| ids_view(ids@)[p].task,
    );
    let mut i: usize = 0;
    assert(text::texts(out@) =~= want.take(0));
    while i < places.len()
        invariant
            i <= places@.len(),
            want == crate::task_loading::places(places@).map_values(
                |p: int| ids_view(ids@)[p].task,
            ),
            forall|k: int| 0 <= k < places@.len() ==> (#[trigger] places@[k]) < ids@.len(),
            text::texts(out@) == want.take(i as int),
        decreases places@.len() - i,
    {
        let ghost before = out@;
        out.push(ids[places[i]].task.clone());
        proof {
            assert(text::texts(out@) =~= text::texts(before).push(want[i as int]));
            assert(want.take(i + 1) =~= want.take(i as int).push(want[i as int]));
        }
        i += 1;
    }
    assert(want.take(i as int) =~= want);
    out
}

/// Fresh ids for every project.
fn fresh_ids(projects: &Vec<ConfigProject>, commands: &Vec<String>) -> (r: Vec<FreshIds>)
    ensures
        ids_fit(projects_view(projects@), text::texts(commands@), ids_view(r@)),
        all_fresh(ids_view(r@)),
{
    let mut out: Vec<FreshIds> = Vec::new();
    while out.len() < projects.len()
        invariant
            out@.len() <= projects@.len(),
            all_fresh(ids_view(out@)),
            forall|p: int|
                0 <= p < out@.len() ==> (#[trigger] ids_view(out@)[p]).commands.len()
                    == scripts_of(
                    asked(projects_view(projects@)[p].commands, text::texts(commands@)),
                ).len(),
        decreases projects@.len() - out@.len(),
    {
        let ghost before = ids_view(out@);
        let i: usize = out.len();
        let own = asked_commands(&projects[i].commands, commands);
        let n: usize = script_count(&own);
        let mut fresh: Vec<String> = Vec::new();
        while fresh.len() < n
            invariant
                fresh@.len() <= n,
                forall|k: int| 0 <= k < fresh@.len() ==> is_drawn(#[trigger] fresh@[k]@),
            decreases n - fresh@.len(),
        {
            fresh.push(uuid());
        }
        out.push(FreshIds { task: uuid(), commands: fresh });
        proof {
            let last = out@[i as int];
            assert(ids_view(out@) =~= before.push(last@));
            assert forall|k: int| 0 <= k < last@.commands.len() implies is_drawn(
                #[trigger] last@.commands[k],
            ) by {
                assert(last@.commands[k] == last.commands@[k]@);
            }
        }
    }
    out
}

impl TaskManager {
    /// The store is well-formed.
    pub open spec fn wf(&self) -> bool {
        self._store.wf()
    }

    /// A manager without tasks, which is still to load them.
    pub fn new(show_colors: bool, build_depends_on: bool, depends_on: Option<Vec<String>>) -> (r:
        Self)
        ensures
            r.wf(),
            r@ == (ManagerView {
                store: StoreView {
                    tasks: Seq::empty(),
                    statuses: Map::empty(),
                    logs: Map::empty(),
                    last_run_time: Map::empty(),
                    show_colors,
                },
                is_running: true,
                is_watch_mode: false,
                watch_data: Seq::empty(),
                build_depends_on,
                depends_on: text::opt_texts(depends_on),
                is_loading: true,
            }),
    {
        let r = TaskManager {
            _store: TaskStore::new(show_colors),
            _is_running: true,
            _is_watch_mode: false,
            _watch_data_list: Vec::new(),
            _build_depends_on: build_depends_on,
            _depends_on: depends_on,
            _is_loading: true,
        };
        assert(r@.watch_data =~= Seq::<WatchDataView>::empty());
        r
    }

    /// Whether changed files are acted upon.
    pub fn is_watch_mode(&self) -> (r: bool)
        ensures
            r == self@.is_watch_mode,
    {
        self._is_watch_mode
    }

    /// Which files lead to which task being run again.
    pub fn get_watch_data(&self) -> (r: Vec<TaskManagerWatchData>)
        ensures
            watch_list_view(r@) == self@.watch_data,
    {
        let r = self._watch_data_list.clone();
        assert(watch_list_view(r@) =~= self@.watch_data);
        r
    }

    /// Whether tasks are still to be loaded.
    pub fn is_loading(&self) -> (r: bool)
        ensures
            r == self@.is_loading,
    {
        self._is_loading
    }

    /// The store.
    pub fn get_store(&self) -> (r: &TaskStore)
        ensures
            *r == self._store,
    {
        &self._store
    }

    /// The names of the tasks that are there.
    fn names(&self) -> (r: Vec<String>)
        ensures
            text::texts(r@) == task_names(self@.store.tasks),
    {
        let mut out: Vec<String> = Vec::new();
        let ghost all = task_names(self@.store.tasks);
        let mut i: usize = 0;
        assert(text::texts(out@) =~= all.take(0));
        while i < self._store._tasks.len()
            invariant
                i <= self._store._tasks@.len(),
                all == task_names(self@.store.tasks),
                text::texts(out@) == all.take(i as int),
            decreases self._store._tasks@.len() - i,
        {
            let ghost before = out@;
            out.push(self._store._tasks[i]._name.clone());
            proof {
                assert(all[i as int] == self._store._tasks@[i as int]._name@);
                assert(text::texts(out@) =~= text::texts(before).push(all[i as int]));
                assert(all.take(i + 1) =~= all.take(i as int).push(all[i as int]));
            }
            i += 1;
        }
        assert(all.take(i as int) =~= all);
        out
    }

    /// Makes tasks of the projects of a plan, in order.
    fn add_planned(
        &mut self,
        projects: &Vec<ConfigProject>,
        commands: &Vec<String>,
        ids: &Vec<FreshIds>,
        plan: &Vec<PlannedTask>,
    )
        requires
            old(self).wf(),
            ids_fit(projects_view(projects@), text::texts(commands@), ids_view(ids@)),
            forall|k: int|
                0 <= k < plan@.len() ==> (#[trigger] plan@[k]).in_range(projects@.len() as int),
        ensures
            final(self).wf(),
            final(self)@ == added(
                old(self)@,
                projects_view(projects@),
                text::texts(commands@),
                ids_view(ids@),
                plan_view(plan@),
                plan@.len() as int,
            ),
    {
        let ghost ps = projects_view(projects@);
        let ghost cs = text::texts(commands@);
        let ghost fs = ids_view(ids@);
        let ghost pl = plan_view(plan@);
        let mut i: usize = 0;
        while i < plan.len()
            invariant
                i <= plan@.len(),
                self.wf(),
                ps == projects_view(projects@),
                cs == text::texts(commands@),
                fs == ids_view(ids@),
                pl == plan_view(plan@),
                ids_fit(ps, cs, fs),
                forall|k: int|
                    0 <= k < plan@.len() ==> (#[trigger] plan@[k]).in_range(projects@.len() as int),
                self@ == added(old(self)@, ps, cs, fs, pl, i as int),
            decreases plan@.len() - i,
        {
            let t = &plan[i];
            assert(t.in_range(projects@.len() as int));
            assert(pl[i as int] == t@);
            let project = &projects[t.project];
            assert(ps[t.project as int] == project@);
            let own = asked_commands(&project.commands, commands);
            let fresh = &ids[t.project];
            assert(fs[t.project as int] == fresh@);
            assert(fresh@.commands.len() == fresh.commands@.len());
            let parent_id = match t.parent {
                Some(p) => Some(ids[p].task.clone()),
                None => None,
            };
            let children_id = match &t.children {
                Some(c) => Some(ids_at(ids, c)),
                None => None,
            };
            let task = Task::with_uuids(
                fresh.task.clone(),
                project.name.clone(),
                project.path.clone(),
                &own,
                parent_id,
                children_id,
                &fresh.commands,
            );
            let ghost view = planned_task(ps, cs, fs, pl[i as int]);
            proof {
                assert(task@.children_id == view.children_id);
                assert(task@ == view);
                lemma_new_commands(
                    project.name@,
                    scripts_of(command_views(own@)),
                    text::texts(fresh.commands@),
                );
            }
            let ghost before = self._watch_data_list@;
            self._store.add_task(task);
            self._watch_data_list.push(watch_data(project, &fresh.task));
            proof {
                assert(watch_list_view(self._watch_data_list@) =~= watch_list_view(before).push(
                    watch_data_of(ps[t.project as int], view.id),
                ));
            }
            i += 1;
        }
    }

    /// Makes every task wait for the tasks of the projects that it depends on.
    fn link_children(&mut self, projects: &Vec<ConfigProject>)
        requires
            old(self).wf(),
            forall|t: int|
                0 <= t < old(self)@.store.tasks.len() ==> project_names(
                    projects_view(projects@),
                ).contains(#[trigger] task_names(old(self)@.store.tasks)[t]),
        ensures
            final(self).wf(),
            final(self)@ == (ManagerView {
                store: StoreView {
                    tasks: linked(
                        old(self)@.store.tasks,
                        projects_view(projects@),
                        task_names(old(self)@.store.tasks),
                        old(self)@.store.tasks.len() as int,
                    ),
                    ..old(self)@.store
                },
                ..old(self)@
            }),
    {
        let ghost ps = projects_view(projects@);
        let names = self.names();
        let ghost all = text::texts(names@);
        let ghost tasks = self@.store.tasks;
        assert(all.len() == names@.len() && task_names(tasks).len() == tasks.len());
        let mut i: usize = 0;
        while i < names.len()
            invariant
                i <= names@.len(),
                self.wf(),
                ps == projects_view(projects@),
                all == text::texts(names@),
                all == task_names(tasks),
                names@.len() == tasks.len(),
                tasks == old(self)@.store.tasks,
                forall|t: int|
                    0 <= t < tasks.len() ==> project_names(ps).contains(
                        #[trigger] task_names(tasks)[t],
                    ),
                task_names(self@.store.tasks) == all,
                self@ == (ManagerView {
                    store: StoreView {
                        tasks: linked(tasks, ps, all, i as int),
                        ..old(self)@.store
                    },
                    ..old(self)@
                }),
            decreases names@.len() - i,
        {
            let name = names[i].as_str();
            proof {
                assert(all[i as int] == name@);
                assert(project_names(ps).contains(task_names(tasks)[i as int]));
                text::lemma_first_at(project_names(ps), name@);
                assert(task_names(self@.store.tasks).contains(name@)) by {
                    assert(task_names(self@.store.tasks)[i as int] == name@);
                }
            }
            let p = place_of_project(projects, name);
            assert(ps[p as int] == projects@[p as int]@);
            match &projects[p].depends_on {
                OptionConfig::List(deps) => {
                    let ghost before = self@.store.tasks;
                    let deps = text::clone_texts(deps);
                    self._store.update_task_childs(name, deps);
                    proof {
                        text::lemma_first_at(task_names(before), name@);
                        assert(task_names(self@.store.tasks) =~= task_names(before));
                    }
                },
                OptionConfig::Absent(_) => {},
            }
            i += 1;
        }
    }

    /// Carries out a plan: its projects become tasks with the given ids, and every task waits
    /// for the tasks of the projects that it depends on.
    pub fn load_planned(
        &mut self,
        config: &Config,
        commands: &Vec<String>,
        ids: &Vec<FreshIds>,
        plan: &Vec<PlannedTask>,
    )
        requires
            old(self).wf(),
            ids_fit(projects_view(config.projects@), text::texts(commands@), ids_view(ids@)),
            forall|k: int|
                0 <= k < plan@.len() ==> (#[trigger] plan@[k]).in_range(
                    config.projects@.len() as int,
                ),
            forall|t: int|
                0 <= t < old(self)@.store.tasks.len() ==> project_names(
                    projects_view(config.projects@),
                ).contains(#[trigger] task_names(old(self)@.store.tasks)[t]),
        ensures
            final(self).wf(),
            final(self)@ == loaded(
                old(self)@,
                projects_view(config.projects@),
                text::texts(commands@),
                ids_view(ids@),
                plan_view(plan@),
            ),
    {
        self.add_planned(&config.projects, commands, ids, plan);
        proof {
            lemma_added_names(
                old(self)@,
                projects_view(config.projects@),
                text::texts(commands@),
                ids_view(ids@),
                plan_view(plan@),
                plan@.len() as int,
            );
        }
        self.link_children(&config.projects);
        self._is_loading = false;
    }

    /// Loads the projects that `filters` stand for and what they depend on, with fresh ids.
    /// `packages` tells what the package manager lists for a filter that is not the name of
    /// a project. Where the projects cannot be loaded nothing changes.
    pub fn load_tasks(
        &mut self,
        config: &Config,
        filters: &Vec<String>,
        commands: &Vec<String>,
        packages: &StrMap<Vec<String>>,
    ) -> (r: Result<(), LoadError>)
        requires
            old(self).wf(),
            packages.wf(),
            forall|t: int|
                0 <= t < old(self)@.store.tasks.len() ==> project_names(
                    projects_view(config.projects@),
                ).contains(#[trigger] task_names(old(self)@.store.tasks)[t]),
        ensures
            final(self).wf(),
            children_known(old(self)@.store.tasks) ==> children_known(final(self)@.store.tasks),
            ({
                let ps = projects_view(config.projects@);
                let cs = text::texts(commands@);
                let c = load_context(old(self)@, ps, cs, packages_view(*packages));
                match load_level(c, text::texts(filters@), None, 0, Seq::empty()) {
                    Ok((plan, roots)) => r is Ok && exists|ids: Seq<FreshView>|
                        ids_fit(ps, cs, ids) && all_fresh(ids) && final(self)@ == #[trigger] loaded(
                            old(self)@,
                            ps,
                            cs,
                            ids,
                            plan,
                        ),
                    Err(e) => r is Err && r->Err_0@ == e && *final(self) == *old(self),
                }
            }),
    {
        let existing = self.names();
        match plan_tasks(&config.projects, filters, commands, packages, &existing) {
            Ok(plan) => {
                let ids = fresh_ids(&config.projects, commands);
                self.load_planned(config, commands, &ids, &plan);
                proof {
                    if children_known(old(self)@.store.tasks) {
                        lemma_loaded_children_known(
                            old(self)@,
                            projects_view(config.projects@),
                            text::texts(commands@),
                            packages_view(*packages),
                            text::texts(filters@),
                            ids_view(ids@),
                        );
                    }
                }
                Ok(())
            },
            Err(e) => Err(e),
        }
    }
}

proof fn lemma_with_task_names(tasks: Seq<TaskView>, t: TaskView)
    ensures
        forall|k: int|
            0 <= k < with_task(tasks, t).len() ==> (#[trigger] with_task(tasks, t)[k] == t || (k
                < tasks.len() && with_task(tasks, t)[k] == tasks[k])),
        with_task(tasks, t).len() >= tasks.len(),
{
    text::lemma_first_at(task_ids(tasks), t.id);
}

/// Every task that a plan leads to bears the name of a project.
proof fn lemma_added_names(
    m: ManagerView,
    projects: Seq<ProjectView>,
    commands: Seq<Seq<char>>,
    ids: Seq<FreshView>,
    plan: Seq<PlannedView>,
    n: int,
)
    requires
        0 <= n <= plan.len(),
        forall|k: int| 0 <= k < n ==> 0 <= (#[trigger] plan[k]).project < projects.len(),
        forall|t: int|
            0 <= t < m.store.tasks.len() ==> project_names(projects).contains(
                #[trigger] task_names(m.store.tasks)[t],
            ),
    ensures
        ({
            let tasks = added(m, projects, commands, ids, plan, n).store.tasks;
            forall|t: int|
                0 <= t < tasks.len() ==> project_names(projects).contains(
                    #[trigger] task_names(tasks)[t],
                )
        }),
    decreases n,
{
    if n > 0 {
        lemma_added_names(m, projects, commands, ids, plan, n - 1);
        let before = added(m, projects, commands, ids, plan, n - 1).store.tasks;
        let t = planned_task(projects, commands, ids, plan[n - 1]);
        let tasks = with_task(before, t);
        lemma_with_task_names(before, t);
        assert forall|k: int| 0 <= k < tasks.len() implies project_names(projects).contains(
            #[trigger] task_names(tasks)[k],
        ) by {
            if tasks[k] == t {
                assert(project_names(projects)[plan[n - 1].project] == t.name);
            } else {
                assert(task_names(before)[k] == task_names(tasks)[k]);
            }
        }
    }
}

/// Whether every child that a task waits for is among `ids`.
pub open spec fn knows_children(t: TaskView, ids: Seq<Seq<char>>) -> bool {
    t.children_id matches Some(children) ==> forall|i: int|
        0 <= i < children.len() ==> ids.contains(#[trigger] children[i])
}

proof fn lemma_ids_of_names(tasks: Seq<TaskView>, names: Seq<Seq<char>>)
    ensures
        forall|i: int|
            0 <= i < ids_of_names(tasks, names).len() ==> task_ids(tasks).contains(
                #[trigger] ids_of_names(tasks, names)[i],
            ),
    decreases tasks.len(),
{
    if tasks.len() > 0 {
        let less = tasks.drop_last();
        lemma_ids_of_names(less, names);
        let all = ids_of_names(tasks, names);
        assert forall|i: int| 0 <= i < all.len() implies task_ids(tasks).contains(
            #[trigger] all[i],
        ) by {
            let before = ids_of_names(less, names);
            if i < before.len() {
                assert(all[i] == before[i]);
                let k = choose|k: int| 0 <= k < task_ids(less).len() && task_ids(less)[k] == all[i];
                assert(task_ids(tasks)[k] == all[i]);
            } else {
                assert(task_ids(tasks)[tasks.len() - 1] == all[i]);
            }
        }
    }
}

proof fn lemma_ids_of_names_same(a: Seq<TaskView>, b: Seq<TaskView>, names: Seq<Seq<char>>)
    requires
        task_ids(a) == task_ids(b),
        task_names(a) == task_names(b),
    ensures
        ids_of_names(a, names) == ids_of_names(b, names),
    decreases a.len(),
{
    assert(task_ids(a).len() == a.len() && task_ids(b).len() == b.len());
    if a.len() > 0 {
        let n = a.len() - 1;
        assert(task_ids(a)[n] == a[n].id && task_ids(b)[n] == b[n].id);
        assert(task_names(a)[n] == a[n].name && task_names(b)[n] == b[n].name);
        assert(task_ids(a.drop_last()) =~= task_ids(a).drop_last());
        assert(task_ids(b.drop_last()) =~= task_ids(b).drop_last());
        assert(task_names(a.drop_last()) =~= task_names(a).drop_last());
        assert(task_names(b.drop_last()) =~= task_names(b).drop_last());
        lemma_ids_of_names_same(a.drop_last(), b.drop_last(), names);
    }
}

/// Where a task of a given name stands first among those of that name, what it depends on.
pub open spec fn deps_at(projects: Seq<ProjectView>, tasks: Seq<TaskView>, t: int) -> Option<
    Seq<Seq<char>>,
> {
    if text::first_at(task_names(tasks), tasks[t].name) == t {
        projects[text::first_at(project_names(projects), tasks[t].name)].depends_on
    } else {
        None
    }
}

/// Each task that stands first among those of its name and whose project depends on others
/// waits, in the end, for exactly the tasks of those projects. Nothing else changes.
pub proof fn lemma_linked(tasks: Seq<TaskView>, projects: Seq<ProjectView>, n: int)
    requires
        0 <= n <= tasks.len(),
    ensures
        ({
            let new = linked(tasks, projects, task_names(tasks), n);
            &&& new.len() == tasks.len()
            &&& task_ids(new) == task_ids(tasks)
            &&& task_names(new) == task_names(tasks)
            &&& forall|t: int|
                0 <= t < tasks.len() ==> #[trigger] new[t] == (TaskView {
                    children_id: new[t].children_id,
                    ..tasks[t]
                })
            &&& forall|t: int|
                0 <= t < n ==> (deps_at(projects, tasks, t) matches Some(deps) ==> (
                #[trigger] new[t]).children_id == Some(ids_of_names(tasks, deps)))
            &&& forall|t: int|
                0 <= t < tasks.len() ==> (knows_children(tasks[t], task_ids(tasks)) || (t < n
                    && deps_at(projects, tasks, t) is Some) ==> knows_children(
                    #[trigger] new[t],
                    task_ids(tasks),
                ))
        }),
    decreases n,
{
    let names = task_names(tasks);
    let ids = task_ids(tasks);
    if n > 0 {
        lemma_linked(tasks, projects, n - 1);
        let before = linked(tasks, projects, names, n - 1);
        let new = linked(tasks, projects, names, n);
        let name = names[n - 1];
        let at = text::first_at(names, name);
        text::lemma_first_at(names, name);
        assert(names[n - 1] == tasks[n - 1].name);
        match projects[text::first_at(project_names(projects), name)].depends_on {
            Some(deps) => {
                lemma_ids_of_names(tasks, deps);
                lemma_ids_of_names_same(before, tasks, deps);
                assert(task_ids(new) =~= task_ids(before));
                assert(task_names(new) =~= task_names(before));
                assert(names[at] == tasks[at].name);
                assert forall|t: int| 0 <= t < n implies (deps_at(projects, tasks, t) matches Some(
                    d,
                ) ==> (#[trigger] new[t]).children_id == Some(ids_of_names(tasks, d))) by {
                    assert(before[t].children_id == new[t].children_id || t == at);
                }
                assert forall|t: int|
                    0 <= t < tasks.len() && (knows_children(tasks[t], ids) || (t < n && deps_at(
                        projects,
                        tasks,
                        t,
                    ) is Some)) implies knows_children(#[trigger] new[t], ids) by {
                    if t != at {
                        assert(new[t] == before[t]);
                        assert(knows_children(before[t], ids) == knows_children(new[t], ids));
                        if t == n - 1 && deps_at(projects, tasks, t) is Some {
                            assert(false);
                        }
                    }
                }
            },
            None => {
                assert(new == before);
                assert forall|t: int| 0 <= t < n implies (deps_at(projects, tasks, t) matches Some(
                    d,
                ) ==> (#[trigger] new[t]).children_id == Some(ids_of_names(tasks, d))) by {
                    assert(before[t].children_id == new[t].children_id);
                }
                assert forall|t: int|
                    0 <= t < tasks.len() && (knows_children(tasks[t], ids) || (t < n && deps_at(
                        projects,
                        tasks,
                        t,
                    ) is Some)) implies knows_children(#[trigger] new[t], ids) by {
                    assert(knows_children(before[t], ids) == knows_children(new[t], ids));
                }
            },
        }
    }
}

/// What adding the projects of a plan leads to.
proof fn lemma_added(
    m: ManagerView,
    c: LoadContext,
    ids: Seq<FreshView>,
    plan: Seq<PlannedView>,
    n: int,
)
    requires
        0 <= n <= plan.len(),
        settled(c, plan),
        c.existing == task_names(m.store.tasks),
        forall|k: int| 0 <= k < plan.len() ==> 0 <= (#[trigger] plan[k]).project < c.projects.len(),
    ensures
        ({
            let tasks = added(m, c.projects, c.commands, ids, plan, n).store.tasks;
            &&& forall|x: Seq<char>|
                task_ids(m.store.tasks).contains(x) ==> #[trigger] task_ids(tasks).contains(x)
            &&& forall|t: int|
                0 <= t < tasks.len() ==> (t < m.store.tasks.len() && #[trigger] tasks[t]
                    == m.store.tasks[t]) || exists|k: int|
                    0 <= k < n && tasks[t] == #[trigger] planned_task(
                        c.projects,
                        c.commands,
                        ids,
                        plan[k],
                    )
            &&& forall|t: int, u: int|
                0 <= t < tasks.len() && 0 <= u < tasks.len() && t != u && (
                #[trigger] tasks[t]).name == (#[trigger] tasks[u]).name ==> c.existing.contains(
                    tasks[t].name,
                )
        }),
    decreases n,
{
    let names = planned_names(c, plan);
    if n <= 0 {
        let tasks = m.store.tasks;
        assert forall|t: int, u: int|
            0 <= t < tasks.len() && 0 <= u < tasks.len() && t != u && (#[trigger] tasks[t]).name
                == (#[trigger] tasks[u]).name implies c.existing.contains(tasks[t].name) by {
            assert(task_names(tasks)[t] == tasks[t].name);
        }
    } else {
        lemma_added(m, c, ids, plan, n - 1);
        let before = added(m, c.projects, c.commands, ids, plan, n - 1).store.tasks;
        let x = planned_task(c.projects, c.commands, ids, plan[n - 1]);
        let tasks = with_task(before, x);
        let at = text::first_at(task_ids(before), x.id);
        text::lemma_first_at(task_ids(before), x.id);
        lemma_with_task_names(before, x);
        assert(names[n - 1] == x.name);
        assert forall|i: Seq<char>| task_ids(m.store.tasks).contains(i) implies
            #[trigger] task_ids(tasks).contains(i) by {
            assert(task_ids(before).contains(i));
            let k = choose|k: int| 0 <= k < task_ids(before).len() && task_ids(before)[k] == i;
            assert(task_ids(tasks)[k] == i);
        }
        assert forall|t: int| 0 <= t < tasks.len() implies (t < m.store.tasks.len()
            && #[trigger] tasks[t] == m.store.tasks[t]) || exists|k: int|
            0 <= k < n && tasks[t] == #[trigger] planned_task(
                c.projects,
                c.commands,
                ids,
                plan[k],
            ) by {
            if tasks[t] == x {
                assert(tasks[t] == planned_task(c.projects, c.commands, ids, plan[n - 1]));
            } else {
                assert(tasks[t] == before[t]);
                if !(t < m.store.tasks.len() && before[t] == m.store.tasks[t]) {
                    let k = choose|k: int|
                        0 <= k < n - 1 && before[t] == #[trigger] planned_task(
                            c.projects,
                            c.commands,
                            ids,
                            plan[k],
                        );
                    assert(tasks[t] == planned_task(c.projects, c.commands, ids, plan[k]));
                }
            }
        }
        let place = if at < before.len() {
            at
        } else {
            before.len() as int
        };
        assert(forall|t: int| 0 <= t < tasks.len() && t != place ==> tasks[t] == before[t]);
        assert(tasks[place] == x);
        assert forall|u: int| 0 <= u < tasks.len() && u != place implies (
        #[trigger] tasks[u]).name != x.name by {
            assert(tasks[u] == before[u]);
            if u < m.store.tasks.len() && before[u] == m.store.tasks[u] {
                assert(c.existing[u] == before[u].name);
            } else {
                let k = choose|k: int|
                    0 <= k < n - 1 && before[u] == #[trigger] planned_task(
                        c.projects,
                        c.commands,
                        ids,
                        plan[k],
                    );
                assert(names[k] == before[u].name);
                assert(names[k] != names[n - 1]);
            }
        }
        assert forall|t: int, u: int|
            0 <= t < tasks.len() && 0 <= u < tasks.len() && t != u && (#[trigger] tasks[t]).name
                == (#[trigger] tasks[u]).name implies c.existing.contains(tasks[t].name) by {
            assert(t != place && u != place);
            assert(before[t].name == before[u].name);
        }
    }
}

/// However tasks are loaded, every child that a task waits for is there.
pub proof fn lemma_loaded_children_known(
    m: ManagerView,
    projects: Seq<ProjectView>,
    commands: Seq<Seq<char>>,
    packages: Map<Seq<char>, Seq<Seq<char>>>,
    filters: Seq<Seq<char>>,
    ids: Seq<FreshView>,
)
    requires
        children_known(m.store.tasks),
    ensures
        load_level(
            load_context(m, projects, commands, packages),
            filters,
            None,
            0,
            Seq::empty(),
        ) matches Ok((plan, roots)) ==> children_known(
            loaded(m, projects, commands, ids, plan).store.tasks,
        ),
{
    let c = load_context(m, projects, commands, packages);
    if load_level(c, filters, None, 0, Seq::empty()) is Ok {
        let plan = load_level(c, filters, None, 0, Seq::empty())->Ok_0.0;
        lemma_plan(c, filters);
        let names = planned_names(c, plan);
        assert forall|k: int| 0 <= k < plan.len() implies 0 <= (#[trigger] plan[k]).project
            < projects.len() by {
            assert(names[k] == projects[plan[k].project].name);
            text::lemma_first_at(project_names(projects), names[k]);
        }
        let n = plan.len() as int;
        lemma_added(m, c, ids, plan, n);
        let tasks = added(m, projects, commands, ids, plan, n).store.tasks;
        let all_ids = task_ids(tasks);
        lemma_linked(tasks, projects, tasks.len() as int);
        let new = linked(tasks, projects, task_names(tasks), tasks.len() as int);
        assert forall|t: int| 0 <= t < tasks.len() implies knows_children(
            #[trigger] new[t],
            all_ids,
        ) by {
            if t < m.store.tasks.len() && tasks[t] == m.store.tasks[t] {
                assert forall|i: int|
                    tasks[t].children_id is Some && 0 <= i
                        < tasks[t].children_id->0.len() implies all_ids.contains(
                    #[trigger] tasks[t].children_id->0[i],
                ) by {
                    assert(task_ids(m.store.tasks).contains(
                        m.store.tasks[t].children_id->0[i],
                    ));
                }
                assert(knows_children(tasks[t], all_ids));
            } else {
                let k = choose|k: int|
                    0 <= k < n && tasks[t] == #[trigger] planned_task(
                        projects,
                        commands,
                        ids,
                        plan[k],
                    );
                assert(names[k] == tasks[t].name);
                text::lemma_first_at(task_names(tasks), tasks[t].name);
                let f = text::first_at(task_names(tasks), tasks[t].name);
                assert(task_names(tasks)[t] == tasks[t].name);
                assert(f <= t);
                if f != t {
                    assert(task_names(tasks)[f] == tasks[f].name);
                    assert(tasks[f].name == tasks[t].name);
                    assert(c.existing.contains(tasks[f].name));
                    assert(false);
                }
                if tasks[t].children_id is Some {
                    assert(deps_at(projects, tasks, t) is Some);
                } else {
                    assert(knows_children(tasks[t], all_ids));
                }
            }
        }
        assert forall|t: int, i: int|
            0 <= t < new.len() && (#[trigger] new[t]).children_id is Some && 0 <= i
                < new[t].children_id->0.len() implies task_ids(new).contains(
            #[trigger] new[t].children_id->0[i],
        ) by {
            assert(knows_children(new[t], all_ids));
        }
    }
}

/// Whether the task `id` is reached from the task `start` in at most `n` steps, each from a
/// task to one that waits for it.
pub open spec fn reached_in(tasks: Seq<TaskView>, start: Seq<char>, id: Seq<char>, n: nat) -> bool
    decreases n,
{
    id == start || (n > 0 && exists|t: int, i: int|
        0 <= t < tasks.len() && (#[trigger] tasks[t]).id == id && tasks[t].children_id is Some
            && 0 <= i < tasks[t].children_id->0.len() && reached_in(
            tasks,
            start,
            #[trigger] tasks[t].children_id->0[i],
            (n - 1) as nat,
        ))
}

/// Whether a change in the task `start` concerns the task `id`: it is that task, or waits
/// for it, be it through others.
pub open spec fn reached(tasks: Seq<TaskView>, start: Seq<char>, id: Seq<char>) -> bool {
    exists|n: nat| reached_in(tasks, start, id, n)
}

/// Whether the commands of the task `id` are reset when a file of the task `start` changes.
pub open spec fn concerned(m: ManagerView, start: Seq<char>, id: Seq<char>) -> bool {
    if m.build_depends_on {
        reached(m.store.tasks, start, id)
    } else {
        id == start
    }
}

/// Whether a command of a concerned task is run again: it is among those that dependents run
/// again, where these are limited, and it waits or has ended.
pub open spec fn resets(m: ManagerView, cmd: CommandView) -> bool {
    &&& m.build_depends_on ==> (m.depends_on matches Some(names) ==> names.contains(
        cmd.command.label(),
    ))
    &&& cmd.status is Init || cmd.status.finished()
}

/// The ids of those of the first `n` commands of a task that are run again.
pub open spec fn reset_in(m: ManagerView, task: TaskView, n: int) -> Seq<Seq<char>>
    decreases n,
{
    if n <= 0 {
        Seq::empty()
    } else if resets(m, task.commands[n - 1]) {
        reset_in(m, task, n - 1).push(task.commands[n - 1].id)
    } else {
        reset_in(m, task, n - 1)
    }
}

/// The ids of the commands of the first `n` tasks that are run again when a file of the task
/// `start` changes.
pub open spec fn reset_ids(m: ManagerView, start: Seq<char>, n: int) -> Seq<Seq<char>>
    decreases n,
{
    if n <= 0 {
        Seq::empty()
    } else {
        let task = m.store.tasks[n - 1];
        let before = reset_ids(m, start, n - 1);
        if concerned(m, start, task.id) {
            before + reset_in(m, task, task.commands.len() as int)
        } else {
            before
        }
    }
}

/// The store after the first `n` of `ids` got the status `status`.
pub open spec fn with_all(s: StoreView, ids: Seq<Seq<char>>, status: TaskStatus, n: int) -> StoreView
    decreases n,
{
    if n <= 0 {
        s
    } else {
        let before = with_all(s, ids, status, n - 1);
        StoreView {
            tasks: with_status(before.tasks, ids[n - 1], status),
            statuses: before.statuses.insert(ids[n - 1], status),
            ..before
        }
    }
}

/// A change of statuses changes neither which tasks there are nor what they wait for.
pub proof fn lemma_with_all_children(
    s: StoreView,
    ids: Seq<Seq<char>>,
    status: TaskStatus,
    n: int,
)
    ensures
        task_ids(with_all(s, ids, status, n).tasks) == task_ids(s.tasks),
        children_known(s.tasks) ==> children_known(with_all(s, ids, status, n).tasks),
    decreases n,
{
    if n > 0 {
        lemma_with_all_children(s, ids, status, n - 1);
        lemma_with_status_children(with_all(s, ids, status, n - 1).tasks, ids[n - 1], status);
    }
}

/// A change of status changes neither which tasks there are nor what they wait for.
pub proof fn lemma_with_status_children(tasks: Seq<TaskView>, id: Seq<char>, status: TaskStatus)
    ensures
        task_ids(with_status(tasks, id, status)) == task_ids(tasks),
        children_known(tasks) ==> children_known(with_status(tasks, id, status)),
{
    let new = with_status(tasks, id, status);
    lemma_with_status(tasks, id, status);
    assert(task_ids(new) =~= task_ids(tasks));
    if children_known(tasks) {
        assert forall|t: int, i: int|
            0 <= t < new.len() && (#[trigger] new[t]).children_id is Some && 0 <= i
                < new[t].children_id->0.len() implies task_ids(new).contains(
            #[trigger] new[t].children_id->0[i],
        ) by {
            assert(new[t].children_id == tasks[t].children_id);
            assert(task_ids(tasks).contains(tasks[t].children_id->0[i]));
        }
    }
}

proof fn lemma_reached_more(
    tasks: Seq<TaskView>,
    start: Seq<char>,
    id: Seq<char>,
    n: nat,
    k: nat,
)
    requires
        reached_in(tasks, start, id, n),
        n <= k,
    ensures
        reached_in(tasks, start, id, k),
    decreases n,
{
    if id != start {
        let (t, i) = choose|t: int, i: int|
            0 <= t < tasks.len() && (#[trigger] tasks[t]).id == id && tasks[t].children_id is Some
                && 0 <= i < tasks[t].children_id->0.len() && reached_in(
                tasks,
                start,
                #[trigger] tasks[t].children_id->0[i],
                (n - 1) as nat,
            );
        lemma_reached_more(
            tasks,
            start,
            tasks[t].children_id->0[i],
            (n - 1) as nat,
            (k - 1) as nat,
        );
        assert(tasks[t].id == id);
    }
}

/// A set that holds the start and every task that waits for one of it holds all that is
/// reached.
proof fn lemma_reached_closed(
    tasks: Seq<TaskView>,
    start: Seq<char>,
    found: Seq<Seq<char>>,
    id: Seq<char>,
    n: nat,
)
    requires
        found.contains(start),
        forall|t: int, i: int|
            0 <= t < tasks.len() && (#[trigger] tasks[t]).children_id is Some && 0 <= i
                < tasks[t].children_id->0.len() && found.contains(
                #[trigger] tasks[t].children_id->0[i],
            ) ==> found.contains(tasks[t].id),
        reached_in(tasks, start, id, n),
    ensures
        found.contains(id),
    decreases n,
{
    if id != start {
        let (t, i) = choose|t: int, i: int|
            0 <= t < tasks.len() && (#[trigger] tasks[t]).id == id && tasks[t].children_id is Some
                && 0 <= i < tasks[t].children_id->0.len() && reached_in(
                tasks,
                start,
                #[trigger] tasks[t].children_id->0[i],
                (n - 1) as nat,
            );
        lemma_reached_closed(tasks, start, found, tasks[t].children_id->0[i], (n - 1) as nat);
        assert(found.contains(tasks[t].children_id->0[i]));
        assert(found.contains(tasks[t].id));
    }
}

proof fn lemma_reached_step(
    tasks: Seq<TaskView>,
    start: Seq<char>,
    t: int,
    i: int,
)
    requires
        0 <= t < tasks.len(),
        tasks[t].children_id is Some,
        0 <= i < tasks[t].children_id->0.len(),
        reached(tasks, start, tasks[t].children_id->0[i]),
    ensures
        reached(tasks, start, tasks[t].id),
{
    let child = tasks[t].children_id->0[i];
    let n = choose|n: nat| reached_in(tasks, start, child, n);
    lemma_reached_more(tasks, start, child, n, n);
    assert(reached_in(tasks, start, tasks[t].children_id->0[i], ((n + 1) - 1) as nat));
    assert(reached_in(tasks, start, tasks[t].id, n + 1));
}

proof fn lemma_short(found: Seq<Seq<char>>, ids: Seq<Seq<char>>)
    requires
        found.no_duplicates(),
        forall|i: int| 0 <= i < found.len() ==> ids.contains(#[trigger] found[i]),
    ensures
        found.len() <= ids.len(),
{
    found.unique_seq_to_set();
    assert(found.to_set().subset_of(ids.to_set())) by {
        assert forall|x: Seq<char>| found.to_set().contains(x) implies ids.to_set().contains(x) by {
            let i = choose|i: int| 0 <= i < found.len() && found[i] == x;
            assert(ids.contains(found[i]));
        }
    }
    vstd::seq_lib::seq_to_set_is_finite(ids);
    vstd::set_lib::lemma_len_subset(found.to_set(), ids.to_set());
    ids.lemma_cardinality_of_set();
}

fn waits_for(task: &Task, found: &Vec<String>) -> (r: bool)
    ensures
        r == (task@.children_id is Some && exists|i: int|
            0 <= i < task@.children_id->0.len() && text::texts(found@).contains(
                #[trigger] task@.children_id->0[i],
            )),
{
    match &task._children_id {
        Some(children) => {
            let ghost ids = task@.children_id->0;
            let mut i: usize = 0;
            while i < children.len()
                invariant
                    i <= children@.len(),
                    ids == text::texts(children@),
                    task@.children_id == Some(ids),
                    forall|k: int|
                        0 <= k < i ==> !text::texts(found@).contains(
                            #[trigger] task@.children_id->0[k],
                        ),
                decreases children@.len() - i,
            {
                assert(ids[i as int] == children@[i as int]@);
                if text::contains_text(found, children[i].as_str()) {
                    assert(text::texts(found@).contains(task@.children_id->0[i as int]));
                    return true;
                }
                i += 1;
            }
            false
        },
        None => false,
    }
}

impl TaskManager {
    /// The ids of the tasks that a change in the task `start` concerns.
    fn dependents(&self, start: &str) -> (r: Vec<String>)
        requires
            self.wf(),
            task_ids(self@.store.tasks).contains(start@),
        ensures
            forall|t: int|
                0 <= t < self@.store.tasks.len() ==> (text::texts(r@).contains(
                    (#[trigger] self@.store.tasks[t]).id,
                ) <==> reached(self@.store.tasks, start@, self@.store.tasks[t].id)),
    {
        let ghost tasks = self@.store.tasks;
        let ghost ids = task_ids(tasks);
        let mut found: Vec<String> = Vec::new();
        found.push(start.to_owned());
        proof {
            assert(text::texts(found@) =~= seq![start@]);
            assert(reached_in(tasks, start@, start@, 0));
            assert(text::texts(found@)[0] == start@);
        }
        loop
            invariant
                tasks == self@.store.tasks,
                ids == task_ids(tasks),
                ids.no_duplicates(),
                text::texts(found@).contains(start@),
                text::texts(found@).no_duplicates(),
                forall|i: int|
                    0 <= i < found@.len() ==> ids.contains(#[trigger] text::texts(found@)[i])
                        && reached(tasks, start@, text::texts(found@)[i]),
            ensures
                text::texts(found@).contains(start@),
                forall|i: int|
                    0 <= i < found@.len() ==> reached(
                        tasks,
                        start@,
                        #[trigger] text::texts(found@)[i],
                    ),
                forall|t: int, i: int|
                    0 <= t < tasks.len() && (#[trigger] tasks[t]).children_id is Some && 0 <= i
                        < tasks[t].children_id->0.len() && text::texts(found@).contains(
                        #[trigger] tasks[t].children_id->0[i],
                    ) ==> text::texts(found@).contains(tasks[t].id),
            decreases ids.len() - found@.len(),
        {
            let n: usize = found.len();
            let ghost at_start = text::texts(found@);
            let mut t: usize = 0;
            while t < self._store._tasks.len()
                invariant
                    t <= self._store._tasks@.len(),
                    tasks == self@.store.tasks,
                    ids == task_ids(tasks),
                    ids.no_duplicates(),
                    n == at_start.len(),
                    n <= found@.len(),
                    n == found@.len() ==> text::texts(found@) == at_start,
                    text::texts(found@).contains(start@),
                    text::texts(found@).no_duplicates(),
                    forall|i: int|
                        0 <= i < found@.len() ==> ids.contains(#[trigger] text::texts(found@)[i])
                            && reached(tasks, start@, text::texts(found@)[i]),
                    n == found@.len() ==> forall|u: int, i: int|
                        0 <= u < t && (#[trigger] tasks[u]).children_id is Some && 0 <= i
                            < tasks[u].children_id->0.len() && text::texts(found@).contains(
                            #[trigger] tasks[u].children_id->0[i],
                        ) ==> text::texts(found@).contains(tasks[u].id),
                decreases self._store._tasks@.len() - t,
            {
                let task = &self._store._tasks[t];
                assert(tasks[t as int] == task@);
                if !text::contains_text(&found, task._id.as_str()) && waits_for(task, &found) {
                    let ghost before = text::texts(found@);
                    proof {
                        let i = choose|i: int|
                            0 <= i < task@.children_id->0.len() && before.contains(
                                #[trigger] task@.children_id->0[i],
                            );
                        let k = choose|k: int|
                            0 <= k < before.len() && before[k] == task@.children_id->0[i];
                        assert(reached(tasks, start@, before[k]));
                        lemma_reached_step(tasks, start@, t as int, i);
                        assert(ids[t as int] == task@.id);
                    }
                    found.push(task._id.clone());
                    proof {
                        let after = text::texts(found@);
                        assert(after =~= before.push(task@.id));
                        let k = choose|k: int| 0 <= k < before.len() && before[k] == start@;
                        assert(after[k] == start@);
                        assert forall|i: int| 0 <= i < found@.len() implies ids.contains(
                            #[trigger] after[i],
                        ) && reached(tasks, start@, after[i]) by {
                            if i < before.len() {
                                assert(after[i] == before[i]);
                            }
                        }
                    }
                }
                t += 1;
            }
            proof {
                lemma_short(text::texts(found@), ids);
            }
            if found.len() == n {
                break;
            }
        }
        proof {
            let all = text::texts(found@);
            assert forall|t: int| 0 <= t < tasks.len() implies (all.contains(
                (#[trigger] tasks[t]).id,
            ) <==> reached(tasks, start@, tasks[t].id)) by {
                if reached(tasks, start@, tasks[t].id) {
                    let n = choose|n: nat| reached_in(tasks, start@, tasks[t].id, n);
                    lemma_reached_closed(tasks, start@, all, tasks[t].id, n);
                }
                if all.contains(tasks[t].id) {
                    let i = choose|i: int| 0 <= i < all.len() && all[i] == tasks[t].id;
                    assert(reached(tasks, start@, all[i]));
                }
            }
        }
        found
    }

    fn is_reset(&self, cmd: &TaskCommand) -> (r: bool)
        ensures
            r == resets(self@, cmd@),
    {
        if self._build_depends_on {
            match &self._depends_on {
                Some(names) => {
                    if !text::contains_text(names, cmd._command.label().as_str()) {
                        return false;
                    }
                },
                None => {},
            }
        }
        cmd._status.is_init() || cmd._status.is_finished()
    }

    /// The ids of the commands that are run again when a file of a task changes.
    fn commands_to_reset(&self, task_id: &str) -> (r: Vec<String>)
        requires
            self.wf(),
            task_ids(self@.store.tasks).contains(task_id@),
        ensures
            text::texts(r@) == reset_ids(self@, task_id@, self@.store.tasks.len() as int),
    {
        let found: Vec<String> = if self._build_depends_on {
            self.dependents(task_id)
        } else {
            Vec::new()
        };
        let ghost m = self@;
        let ghost tasks = m.store.tasks;
        let mut out: Vec<String> = Vec::new();
        let mut t: usize = 0;
        assert(text::texts(out@) =~= reset_ids(m, task_id@, 0));
        while t < self._store._tasks.len()
            invariant
                t <= self._store._tasks@.len(),
                m == self@,
                tasks == m.store.tasks,
                m.build_depends_on ==> forall|u: int|
                    0 <= u < tasks.len() ==> (text::texts(found@).contains(
                        (#[trigger] tasks[u]).id,
                    ) <==> reached(tasks, task_id@, tasks[u].id)),
                text::texts(out@) == reset_ids(m, task_id@, t as int),
            decreases self._store._tasks@.len() - t,
        {
            let task = &self._store._tasks[t];
            assert(tasks[t as int] == task@);
            let hit = if self._build_depends_on {
                text::contains_text(&found, task._id.as_str())
            } else {
                *task._id.as_str() == *task_id
            };
            assert(hit == concerned(m, task_id@, task@.id));
            if hit {
                let ghost start = text::texts(out@);
                let mut k: usize = 0;
                assert(start + reset_in(m, task@, 0) =~= start);
                while k < task._commands.len()
                    invariant
                        k <= task._commands@.len(),
                        m == self@,
                        text::texts(out@) == start + reset_in(m, task@, k as int),
                    decreases task._commands@.len() - k,
                {
                    let cmd = &task._commands[k];
                    let ghost before = text::texts(out@);
                    assert(task@.commands[k as int] == cmd@);
                    if self.is_reset(cmd) {
                        out.push(cmd._id.clone());
                        proof {
                            assert(text::texts(out@) =~= before.push(cmd@.id));
                            assert((start + reset_in(m, task@, k as int)).push(cmd@.id) =~= start
                                + reset_in(m, task@, k as int).push(cmd@.id));
                        }
                    }
                    k += 1;
                }
                assert(task@.commands.len() == task._commands@.len());
            }
            t += 1;
        }
        out
    }

    /// A file of a task has changed: the commands of that task that wait or have ended get
    /// the status `Init`, and so do those of the tasks that wait for it, where dependents are
    /// run again too.
    pub fn file_changed(&mut self, task_id: &str)
        requires
            old(self).wf(),
            task_ids(old(self)@.store.tasks).contains(task_id@),
        ensures
            final(self).wf(),
            children_known(old(self)@.store.tasks) ==> children_known(final(self)@.store.tasks),
            ({
                let ids = reset_ids(
                    old(self)@,
                    task_id@,
                    old(self)@.store.tasks.len() as int,
                );
                final(self)@ == (ManagerView {
                    store: with_all(
                        old(self)@.store,
                        ids,
                        TaskStatus::Init,
                        ids.len() as int,
                    ),
                    ..old(self)@
                })
            }),
    {
        let ids = self.commands_to_reset(task_id);
        self.set_all(&ids, TaskStatus::Init);
        proof {
            lemma_with_all_children(
                old(self)@.store,
                text::texts(ids@),
                TaskStatus::Init,
                ids@.len() as int,
            );
        }
    }

    fn set_all(&mut self, ids: &Vec<String>, status: TaskStatus)
        requires
            old(self).wf(),
        ensures
            final(self).wf(),
            final(self)@ == (ManagerView {
                store: with_all(
                    old(self)@.store,
                    text::texts(ids@),
                    status,
                    ids@.len() as int,
                ),
                ..old(self)@
            }),
    {
        let mut i: usize = 0;
        while i < ids.len()
            invariant
                i <= ids@.len(),
                self.wf(),
                self@ == (ManagerView {
                    store: with_all(old(self)@.store, text::texts(ids@), status, i as int),
                    ..old(self)@
                }),
            decreases ids@.len() - i,
        {
            assert(text::texts(ids@)[i as int] == ids@[i as int]@);
            self._store.set_status(ids[i].as_str(), status);
            i += 1;
        }
    }
}

/// A change of several statuses gives each of the named commands the status, and no other one.
pub proof fn lemma_with_all(s: StoreView, ids: Seq<Seq<char>>, status: TaskStatus, n: int)
    requires
        in_step(s),
        0 <= n <= ids.len(),
    ensures
        in_step(with_all(s, ids, status, n)),
        with_all(s, ids, status, n).tasks.len() == s.tasks.len(),
        forall|t: int|
            0 <= t < s.tasks.len() ==> (#[trigger] with_all(s, ids, status, n).tasks[t]).id
                == s.tasks[t].id && with_all(s, ids, status, n).tasks[t].commands.len()
                == s.tasks[t].commands.len(),
        forall|t: int, c: int|
            0 <= t < s.tasks.len() && 0 <= c < s.tasks[t].commands.len() ==> {
                let cmd = s.tasks[t].commands[c];
                #[trigger] with_all(s, ids, status, n).tasks[t].commands[c] == (if ids.take(
                    n,
                ).contains(cmd.id) {
                    CommandView { status, ..cmd }
                } else {
                    cmd
                })
            },
    decreases n,
{
    if n > 0 {
        lemma_with_all(s, ids, status, n - 1);
        let before = with_all(s, ids, status, n - 1);
        let after = with_all(s, ids, status, n);
        let id = ids[n - 1];
        lemma_with_status(before.tasks, id, status);
        lemma_with_status_exact(before.tasks, id, status);
        lemma_set_status_in_step(before, id, status);
        assert forall|t: int| 0 <= t < s.tasks.len() implies (#[trigger] after.tasks[t]).id
            == s.tasks[t].id && after.tasks[t].commands.len() == s.tasks[t].commands.len() by {
            assert(command_ids(after.tasks[t].commands) == command_ids(before.tasks[t].commands));
            assert(command_ids(after.tasks[t].commands).len() == after.tasks[t].commands.len());
            assert(command_ids(before.tasks[t].commands).len() == before.tasks[t].commands.len());
        }
        assert forall|t: int, c: int|
            0 <= t < s.tasks.len() && 0 <= c < s.tasks[t].commands.len() implies {
            let cmd = s.tasks[t].commands[c];
            #[trigger] after.tasks[t].commands[c] == (if ids.take(n).contains(cmd.id) {
                CommandView { status, ..cmd }
            } else {
                cmd
            })
        } by {
            let cmd = s.tasks[t].commands[c];
            assert(before.tasks[t].id == s.tasks[t].id);
            assert(before.tasks[t].commands[c].id == cmd.id);
            assert(with_status(before.tasks, id, status)[t].commands[c] == after.tasks[t].commands[c]);
            let less = ids.take(n - 1);
            let more = ids.take(n);
            assert(more =~= less.push(id));
            if less.contains(cmd.id) {
                let k = choose|k: int| 0 <= k < less.len() && less[k] == cmd.id;
                assert(more[k] == cmd.id);
            }
            if cmd.id == id {
                assert(more[n - 1] == cmd.id);
            }
            if more.contains(cmd.id) {
                let k = choose|k: int| 0 <= k < more.len() && more[k] == cmd.id;
                if k < n - 1 {
                    assert(less[k] == cmd.id);
                }
            }
        }
    } else {
        assert(ids.take(n) =~= Seq::<Seq<char>>::empty());
    }
}

proof fn lemma_reset_in(m: ManagerView, task: TaskView, n: int)
    requires
        0 <= n <= task.commands.len(),
    ensures
        forall|i: int|
            0 <= i < reset_in(m, task, n).len() ==> exists|c: int|
                0 <= c < n && resets(m, #[trigger] task.commands[c]) && task.commands[c].id
                    == #[trigger] reset_in(m, task, n)[i],
        forall|c: int|
            0 <= c < n && resets(m, #[trigger] task.commands[c]) ==> reset_in(
                m,
                task,
                n,
            ).contains(task.commands[c].id),
    decreases n,
{
    if n > 0 {
        lemma_reset_in(m, task, n - 1);
        let before = reset_in(m, task, n - 1);
        let all = reset_in(m, task, n);
        assert forall|i: int| 0 <= i < all.len() implies exists|c: int|
            0 <= c < n && resets(m, #[trigger] task.commands[c]) && task.commands[c].id
                == #[trigger] all[i] by {
            if i < before.len() {
                assert(all[i] == before[i]);
                let c = choose|c: int|
                    0 <= c < n - 1 && resets(m, #[trigger] task.commands[c])
                        && task.commands[c].id == before[i];
                assert(resets(m, task.commands[c]));
            } else {
                assert(resets(m, task.commands[n - 1]));
            }
        }
        assert forall|c: int|
            0 <= c < n && resets(m, #[trigger] task.commands[c]) implies all.contains(
            task.commands[c].id,
        ) by {
            if c < n - 1 {
                let k = choose|k: int| 0 <= k < before.len() && before[k] == task.commands[c].id;
                assert(all[k] == task.commands[c].id);
            } else {
                assert(all[before.len() as int] == task.commands[c].id);
            }
        }
    }
}

/// Whether one of the first `n` tasks has a command with a given id that is run again.
spec fn is_reset_id(m: ManagerView, start: Seq<char>, n: int, id: Seq<char>) -> bool {
    exists|t: int, c: int|
        0 <= t < n && 0 <= c < m.store.tasks[t].commands.len() && concerned(
            m,
            start,
            m.store.tasks[t].id,
        ) && resets(m, #[trigger] m.store.tasks[t].commands[c]) && m.store.tasks[t].commands[c].id
            == id
}

proof fn lemma_reset_ids(m: ManagerView, start: Seq<char>, n: int)
    requires
        0 <= n <= m.store.tasks.len(),
    ensures
        forall|i: int|
            0 <= i < reset_ids(m, start, n).len() ==> is_reset_id(
                m,
                start,
                n,
                #[trigger] reset_ids(m, start, n)[i],
            ),
        forall|t: int, c: int|
            0 <= t < n && 0 <= c < m.store.tasks[t].commands.len() && concerned(
                m,
                start,
                m.store.tasks[t].id,
            ) && resets(m, #[trigger] m.store.tasks[t].commands[c]) ==> reset_ids(
                m,
                start,
                n,
            ).contains(m.store.tasks[t].commands[c].id),
    decreases n,
{
    if n > 0 {
        lemma_reset_ids(m, start, n - 1);
        let tasks = m.store.tasks;
        let task = tasks[n - 1];
        let own = reset_in(m, task, task.commands.len() as int);
        lemma_reset_in(m, task, task.commands.len() as int);
        let before = reset_ids(m, start, n - 1);
        let all = reset_ids(m, start, n);
        assert forall|i: int| 0 <= i < all.len() implies is_reset_id(
            m,
            start,
            n,
            #[trigger] all[i],
        ) by {
            if i < before.len() {
                assert(all[i] == before[i]);
                assert(is_reset_id(m, start, n - 1, before[i]));
                let (t, c) = choose|t: int, c: int|
                    0 <= t < n - 1 && 0 <= c < m.store.tasks[t].commands.len() && concerned(
                        m,
                        start,
                        m.store.tasks[t].id,
                    ) && resets(m, #[trigger] m.store.tasks[t].commands[c])
                        && m.store.tasks[t].commands[c].id == before[i];
                assert(resets(m, m.store.tasks[t].commands[c]));
            } else {
                let j = i - before.len();
                assert(all[i] == own[j]);
                let c = choose|c: int|
                    0 <= c < task.commands.len() && resets(m, #[trigger] task.commands[c])
                        && task.commands[c].id == own[j];
                assert(resets(m, m.store.tasks[n - 1].commands[c]));
            }
        }
        assert forall|t: int, c: int|
            0 <= t < n && 0 <= c < tasks[t].commands.len() && concerned(m, start, tasks[t].id)
                && resets(m, #[trigger] tasks[t].commands[c]) implies all.contains(
            tasks[t].commands[c].id,
        ) by {
            let id = tasks[t].commands[c].id;
            if t < n - 1 {
                let k = choose|k: int| 0 <= k < before.len() && before[k] == id;
                assert(all[k] == id);
            } else {
                assert(own.contains(id));
                let k = choose|k: int| 0 <= k < own.len() && own[k] == id;
                assert(all[before.len() + k] == id);
            }
        }
    }
}

/// What a changed file does where no two commands have the same id: the commands that are
/// run again get the status `Init`, every other command keeps its own, and the two ways to
/// ask for a status stay in step.
pub proof fn lemma_file_changed(m: ManagerView, start: Seq<char>)
    requires
        in_step(m.store),
    ensures
        ({
            let ids = reset_ids(m, start, m.store.tasks.len() as int);
            let after = with_all(m.store, ids, TaskStatus::Init, ids.len() as int);
            &&& in_step(after)
            &&& forall|t: int, c: int|
                0 <= t < m.store.tasks.len() && 0 <= c < m.store.tasks[t].commands.len() ==> {
                    let cmd = m.store.tasks[t].commands[c];
                    (#[trigger] after.tasks[t].commands[c]).status == (if concerned(
                        m,
                        start,
                        m.store.tasks[t].id,
                    ) && resets(m, cmd) {
                        TaskStatus::Init
                    } else {
                        cmd.status
                    })
                }
        }),
{
    let n = m.store.tasks.len() as int;
    let ids = reset_ids(m, start, n);
    let after = with_all(m.store, ids, TaskStatus::Init, ids.len() as int);
    let tasks = m.store.tasks;
    lemma_with_all(m.store, ids, TaskStatus::Init, ids.len() as int);
    lemma_reset_ids(m, start, n);
    assert(ids.take(ids.len() as int) =~= ids);
    assert forall|t: int, c: int| 0 <= t < n && 0 <= c < tasks[t].commands.len() implies {
        let cmd = tasks[t].commands[c];
        (#[trigger] after.tasks[t].commands[c]).status == (if concerned(m, start, tasks[t].id)
            && resets(m, cmd) {
            TaskStatus::Init
        } else {
            cmd.status
        })
    } by {
        let cmd = tasks[t].commands[c];
        if ids.contains(cmd.id) {
            let i = choose|i: int| 0 <= i < ids.len() && ids[i] == cmd.id;
            assert(is_reset_id(m, start, n, ids[i]));
            let (u, d) = choose|u: int, d: int|
                0 <= u < n && 0 <= d < m.store.tasks[u].commands.len() && concerned(
                    m,
                    start,
                    m.store.tasks[u].id,
                ) && resets(m, #[trigger] m.store.tasks[u].commands[d])
                    && m.store.tasks[u].commands[d].id == ids[i];
            if t != u || c != d {
                assert(tasks[t].commands[c].id != tasks[u].commands[d].id);
            }
        }
    }
}

/// How a command that was told to stop is doing.
pub enum StopStep {
    /// The wait is over: whether the command has stopped.
    Done(bool),
    /// Ask again after a short sleep.
    Wait,
}

/// How long to wait for a command to stop, in nanoseconds.
pub const STOP_TIMEOUT: u64 = 5_000_000_000;

/// After how long, in nanoseconds, changed files are acted upon though some command still
/// waits.
pub const SETTLE_TIME: u64 = 10_000_000_000;

/// What the main loop is to do next.
pub enum LoopStep {
    /// End, with the result of the run.
    Exit(bool),
    /// Run these commands, then come back after a short sleep.
    Run(Vec<TaskCommandRunnable>),
}

/// Whether every command of a store has ended.
pub open spec fn all_finished(s: StoreView) -> bool {
    forall|k: Seq<char>| #[trigger] s.statuses.contains_key(k) ==> s.statuses[k].finished()
}

/// Whether some command of a store has failed.
pub open spec fn any_failed(s: StoreView) -> bool {
    exists|k: Seq<char>| #[trigger] s.statuses.contains_key(k) && s.statuses[k] is Failed
}

/// Whether every command of a store runs or has ended.
pub open spec fn all_running_or_finished(s: StoreView) -> bool {
    forall|k: Seq<char>| #[trigger]
        s.statuses.contains_key(k) ==> s.statuses[k] is Running || s.statuses[k].finished()
}

/// Whether no command of a store waits for its turn.
pub open spec fn none_waits(s: StoreView) -> bool {
    forall|k: Seq<char>| #[trigger] s.statuses.contains_key(k) ==> !(s.statuses[k] is Init)
}

/// Whether the main loop ends, and with what result.
pub open spec fn loop_exit(m: ManagerView, watch_mode: bool) -> Option<bool> {
    if !m.is_running {
        Some(true)
    } else if !watch_mode && all_finished(m.store) {
        Some(true)
    } else if !watch_mode && any_failed(m.store) {
        Some(false)
    } else {
        None
    }
}

/// Whether changed files are acted upon from now on: where files are watched, once every
/// command runs or has ended, or after a while once none waits or one has failed.
pub open spec fn acts_on_changes(m: ManagerView, watch_mode: bool, elapsed: u64) -> bool {
    m.is_watch_mode || (watch_mode && (all_running_or_finished(m.store) || (elapsed > SETTLE_TIME
        && (none_waits(m.store) || any_failed(m.store)))))
}

/// The ids of commands that are to be run.
pub open spec fn runnable_ids(v: Seq<crate::task::RunnableView>) -> Seq<Seq<char>> {
    v.map_values(|r: crate::task::RunnableView| r.id)
}

/// The status of a command of a task.
pub open spec fn status_of(m: ManagerView, task_id: Seq<char>, command_id: Seq<char>) -> TaskStatus {
    command_by_id(task_by_id(m.store.tasks, task_id).commands, command_id).status
}

/// Whether a command is told to stop: it runs or is about to, or it is forced to.
pub open spec fn stops(
    m: ManagerView,
    task_id: Seq<char>,
    command_id: Seq<char>,
    force: bool,
) -> bool {
    force || status_of(m, task_id, command_id) is Running || status_of(
        m,
        task_id,
        command_id,
    ) is Starting
}

/// How a command that was told to stop is doing after some time.
pub open spec fn stopping(m: ManagerView, command_id: Seq<char>, elapsed: u64) -> StopStep {
    if elapsed > STOP_TIMEOUT {
        StopStep::Done(false)
    } else if m.store.statuses[command_id] is Stopped {
        StopStep::Done(true)
    } else {
        StopStep::Wait
    }
}

/// After a command was let wait for its turn: it does where it waits or has ended, or where it
/// is forced to.
pub open spec fn started(
    m: ManagerView,
    task_id: Seq<char>,
    command_id: Seq<char>,
    force: bool,
) -> ManagerView {
    let status = status_of(m, task_id, command_id);
    if force || status is Init || status.finished() {
        ManagerView { store: with_status_of(m.store, command_id, TaskStatus::Init), ..m }
    } else {
        m
    }
}

/// After a command was told to stop.
pub open spec fn stop_told(m: ManagerView, command_id: Seq<char>) -> ManagerView {
    ManagerView { store: with_status_of(m.store, command_id, TaskStatus::Stopping), ..m }
}

impl TaskManager {
    /// Tells a command to stop, where it runs or is about to, or where it is forced to.
    pub fn stop_command(&mut self, task_id: &str, command_id: &str, force: bool) -> (r: StopStep)
        requires
            old(self).wf(),
            task_ids(old(self)@.store.tasks).contains(task_id@),
            command_ids(task_by_id(old(self)@.store.tasks, task_id@).commands).contains(
                command_id@,
            ),
        ensures
            final(self).wf(),
            children_known(old(self)@.store.tasks) ==> children_known(final(self)@.store.tasks),
            if stops(old(self)@, task_id@, command_id@, force) {
                r is Wait && final(self)@ == stop_told(old(self)@, command_id@)
            } else {
                r == StopStep::Done(false) && *final(self) == *old(self)
            },
    {
        let command = self._store.get_task_command(task_id, command_id);
        if force || command._status.is_running() || command._status.is_starting() {
            self._store.set_status(command_id, TaskStatus::Stopping);
            proof {
                lemma_with_status_children(
                    old(self)@.store.tasks,
                    command_id@,
                    TaskStatus::Stopping,
                );
            }
            StopStep::Wait
        } else {
            StopStep::Done(false)
        }
    }

    /// How a command that was told to stop is doing, `elapsed` nanoseconds after that.
    pub fn stop_progress(&self, command_id: &str, elapsed: u64) -> (r: StopStep)
        requires
            self.wf(),
            self@.store.statuses.contains_key(command_id@),
        ensures
            r == stopping(self@, command_id@, elapsed),
    {
        if elapsed > STOP_TIMEOUT {
            return StopStep::Done(false);
        }
        if self._store.get_status(command_id).is_stopped() {
            StopStep::Done(true)
        } else {
            StopStep::Wait
        }
    }

    /// Lets a command that waits or has ended, or that is forced to, wait for its turn. The
    /// result is always `false`.
    pub fn start_command(&mut self, task_id: &str, command_id: &str, force: bool) -> (r: bool)
        requires
            old(self).wf(),
            task_ids(old(self)@.store.tasks).contains(task_id@),
            command_ids(task_by_id(old(self)@.store.tasks, task_id@).commands).contains(
                command_id@,
            ),
        ensures
            final(self).wf(),
            children_known(old(self)@.store.tasks) ==> children_known(final(self)@.store.tasks),
            !r,
            final(self)@ == started(old(self)@, task_id@, command_id@, force),
    {
        let command = self._store.get_task_command(task_id, command_id);
        if force || command._status.is_init() || command._status.is_finished() {
            self._store.set_status(command_id, TaskStatus::Init);
            proof {
                lemma_with_status_children(old(self)@.store.tasks, command_id@, TaskStatus::Init);
            }
        }
        false
    }

    /// Stops a command, and lets it wait for its turn once the wait for its end is over, however
    /// that went. `elapsed` is how many nanoseconds ago the command was told to stop: nothing
    /// where it was not told yet.
    pub fn restart_command(
        &mut self,
        task_id: &str,
        command_id: &str,
        force: bool,
        elapsed: Option<u64>,
    ) -> (r: StopStep)
        requires
            old(self).wf(),
            task_ids(old(self)@.store.tasks).contains(task_id@),
            command_ids(task_by_id(old(self)@.store.tasks, task_id@).commands).contains(
                command_id@,
            ),
            elapsed is Some ==> old(self)@.store.statuses.contains_key(command_id@),
        ensures
            final(self).wf(),
            children_known(old(self)@.store.tasks) ==> children_known(final(self)@.store.tasks),
            r == (match elapsed {
                None => if stops(old(self)@, task_id@, command_id@, force) {
                    StopStep::Wait
                } else {
                    StopStep::Done(false)
                },
                Some(e) => stopping(old(self)@, command_id@, e),
            }),
            final(self)@ == (match (r, elapsed) {
                (StopStep::Done(_), _) => started(old(self)@, task_id@, command_id@, force),
                (StopStep::Wait, None) => stop_told(old(self)@, command_id@),
                (StopStep::Wait, Some(_)) => old(self)@,
            }),
    {
        let step = match elapsed {
            None => self.stop_command(task_id, command_id, force),
            Some(e) => self.stop_progress(command_id, e),
        };
        match step {
            StopStep::Wait => StopStep::Wait,
            StopStep::Done(stopped) => {
                self.start_command(task_id, command_id, force);
                StopStep::Done(stopped)
            },
        }
    }

    /// Whether the main loop ends with its next round, and how.
    pub fn ends(&self, watch_mode: bool) -> (r: Option<bool>)
        requires
            self.wf(),
        ensures
            r == loop_exit(self@, watch_mode),
    {
        if !self._is_running {
            return Some(true);
        }
        if !watch_mode {
            if self._store.is_all_finished() {
                return Some(true);
            }
            if self._store.is_any_failed() {
                return Some(false);
            }
        }
        None
    }

    /// One round of the main loop, `elapsed` nanoseconds after its start. The commands that
    /// it hands out have the status `Starting`.
    pub fn main_loop(&mut self, watch_mode: bool, sequential: i8, elapsed: u64) -> (r: LoopStep)
        requires
            old(self).wf(),
            loop_exit(old(self)@, watch_mode) is None ==> children_known(old(self)@.store.tasks),
        ensures
            final(self).wf(),
            children_known(old(self)@.store.tasks) ==> children_known(final(self)@.store.tasks),
            match loop_exit(old(self)@, watch_mode) {
                Some(result) => r == LoopStep::Exit(result) && final(self)@ == (ManagerView {
                    is_running: false,
                    ..old(self)@
                }),
                None => {
                    let next = next_commands(
                        old(self)@.store.tasks,
                        sequential,
                        old(self)@.store.tasks.len() as int,
                    );
                    &&& r matches LoopStep::Run(cmds)
                    &&& cmds@.map_values(|c: TaskCommandRunnable| c@) == next
                    &&& final(self)@ == (ManagerView {
                        is_watch_mode: acts_on_changes(old(self)@, watch_mode, elapsed),
                        store: with_all(
                            old(self)@.store,
                            runnable_ids(next),
                            TaskStatus::Starting,
                            next.len() as int,
                        ),
                        ..old(self)@
                    })
                },
            },
    {
        match self.ends(watch_mode) {
            Some(result) => {
                self._is_running = false;
                return LoopStep::Exit(result);
            },
            None => {},
        }
        if watch_mode && !self._is_watch_mode {
            if self._store.is_all_running_or_finished() {
                self._is_watch_mode = true;
            }
            if elapsed > SETTLE_TIME {
                if self._store.is_all_not_init() {
                    self._is_watch_mode = true;
                } else if self._store.is_any_failed() {
                    self._is_watch_mode = true;
                }
            }
        }
        let cmds = self._store.get_runnable_commands(sequential);
        let ghost next = cmds@.map_values(|c: TaskCommandRunnable| c@);
        let ghost ids = runnable_ids(next);
        let ghost start = self@;
        let mut i: usize = 0;
        while i < cmds.len()
            invariant
                i <= cmds@.len(),
                self.wf(),
                next == cmds@.map_values(|c: TaskCommandRunnable| c@),
                ids == runnable_ids(next),
                self@ == (ManagerView {
                    store: with_all(start.store, ids, TaskStatus::Starting, i as int),
                    ..start
                }),
            decreases cmds@.len() - i,
        {
            assert(ids[i as int] == cmds@[i as int]._id@);
            self._store.set_status(cmds[i]._id.as_str(), TaskStatus::Starting);
            i += 1;
        }
        proof {
            lemma_with_all_children(start.store, ids, TaskStatus::Starting, ids.len() as int);
        }
        LoopStep::Run(cmds)
    }
}

/// Whether each task that stands first among those of its name waits for exactly the tasks of
/// the projects that its project depends on.
pub open spec fn waits_as_configured(tasks: Seq<TaskView>, projects: Seq<ProjectView>) -> bool {
    forall|t: int|
        0 <= t < tasks.len() ==> (deps_at(projects, tasks, t) matches Some(deps) ==> (
        #[trigger] tasks[t]).children_id == Some(ids_of_names(tasks, deps)))
}

/// Once tasks are loaded, each waits for what the configuration says that it depends on.
pub proof fn lemma_loaded_waits(
    m: ManagerView,
    projects: Seq<ProjectView>,
    commands: Seq<Seq<char>>,
    ids: Seq<FreshView>,
    plan: Seq<PlannedView>,
)
    ensures
        waits_as_configured(loaded(m, projects, commands, ids, plan).store.tasks, projects),
{
    let tasks = added(m, projects, commands, ids, plan, plan.len() as int).store.tasks;
    let new = linked(tasks, projects, task_names(tasks), tasks.len() as int);
    lemma_linked(tasks, projects, tasks.len() as int);
    assert forall|t: int| 0 <= t < new.len() implies (deps_at(projects, new, t) matches Some(deps)
        ==> (#[trigger] new[t]).children_id == Some(ids_of_names(new, deps))) by {
        assert(new[t].name == tasks[t].name);
        assert(deps_at(projects, new, t) == deps_at(projects, tasks, t));
        if deps_at(projects, new, t) is Some {
            lemma_ids_of_names_same(new, tasks, deps_at(projects, new, t)->0);
        }
    }
}

/// A first load makes no two tasks of one name.
pub proof fn lemma_loaded_names_once(
    m: ManagerView,
    projects: Seq<ProjectView>,
    commands: Seq<Seq<char>>,
    packages: Map<Seq<char>, Seq<Seq<char>>>,
    filters: Seq<Seq<char>>,
    ids: Seq<FreshView>,
)
    requires
        m.store.tasks.len() == 0,
    ensures
        load_level(
            load_context(m, projects, commands, packages),
            filters,
            None,
            0,
            Seq::empty(),
        ) matches Ok((plan, roots)) ==> task_names(
            loaded(m, projects, commands, ids, plan).store.tasks,
        ).no_duplicates(),
{
    let c = load_context(m, projects, commands, packages);
    if load_level(c, filters, None, 0, Seq::empty()) is Ok {
        let plan = load_level(c, filters, None, 0, Seq::empty())->Ok_0.0;
        lemma_plan(c, filters);
        let names = planned_names(c, plan);
        assert forall|k: int| 0 <= k < plan.len() implies 0 <= (#[trigger] plan[k]).project
            < projects.len() by {
            assert(names[k] == projects[plan[k].project].name);
            text::lemma_first_at(project_names(projects), names[k]);
        }
        let n = plan.len() as int;
        lemma_added(m, c, ids, plan, n);
        let tasks = added(m, projects, commands, ids, plan, n).store.tasks;
        lemma_linked(tasks, projects, tasks.len() as int);
        let all = task_names(tasks);
        assert forall|t: int, u: int| 0 <= t < u < all.len() implies all[t] != all[u] by {
            assert(all[t] == tasks[t].name && all[u] == tasks[u].name);
            if tasks[t].name == tasks[u].name {
                assert(c.existing.contains(tasks[t].name));
            }
        }
    }
}

/// Whatever becomes of a command, its task goes on waiting for what the configuration says.
pub proof fn lemma_status_keeps_waits(
    tasks: Seq<TaskView>,
    projects: Seq<ProjectView>,
    id: Seq<char>,
    status: TaskStatus,
)
    requires
        waits_as_configured(tasks, projects),
    ensures
        waits_as_configured(with_status(tasks, id, status), projects),
        task_ids(with_status(tasks, id, status)) == task_ids(tasks),
        task_names(with_status(tasks, id, status)) == task_names(tasks),
{
    let new = with_status(tasks, id, status);
    lemma_with_status(tasks, id, status);
    assert(task_ids(new) =~= task_ids(tasks));
    assert(task_names(new) =~= task_names(tasks));
    assert forall|t: int| 0 <= t < new.len() implies (deps_at(projects, new, t) matches Some(deps)
        ==> (#[trigger] new[t]).children_id == Some(ids_of_names(new, deps))) by {
        assert(new[t].name == tasks[t].name);
        assert(deps_at(projects, new, t) == deps_at(projects, tasks, t));
        if deps_at(projects, new, t) is Some {
            lemma_ids_of_names_same(new, tasks, deps_at(projects, new, t)->0);
        }
    }
}

/// However many statuses change at once, the tasks go on waiting for what the configuration
/// says.
pub proof fn lemma_statuses_keep_waits(
    s: StoreView,
    projects: Seq<ProjectView>,
    ids: Seq<Seq<char>>,
    status: TaskStatus,
    n: int,
)
    requires
        waits_as_configured(s.tasks, projects),
    ensures
        waits_as_configured(with_all(s, ids, status, n).tasks, projects),
    decreases n,
{
    if n > 0 {
        lemma_statuses_keep_waits(s, projects, ids, status, n - 1);
        lemma_status_keeps_waits(
            with_all(s, ids, status, n - 1).tasks,
            projects,
            ids[n - 1],
            status,
        );
    }
}

proof fn lemma_id_of_name(tasks: Seq<TaskView>, names: Seq<Seq<char>>, u: int)
    requires
        0 <= u < tasks.len(),
        names.contains(tasks[u].name),
    ensures
        ids_of_names(tasks, names).contains(tasks[u].id),
    decreases tasks.len(),
{
    let before = ids_of_names(tasks.drop_last(), names);
    let all = ids_of_names(tasks, names);
    if u == tasks.len() - 1 {
        assert(all.last() == tasks[u].id);
    } else {
        lemma_id_of_name(tasks.drop_last(), names, u);
        let i = choose|i: int| 0 <= i < before.len() && before[i] == tasks[u].id;
        assert(all[i] == tasks[u].id);
    }
}

/// Dependencies are fully built before what depends on them begins: whatever is handed out to
/// run, every task of a project that its own project depends on has run all of its commands with
/// the same label with success, however many scripts that label stands for.
pub proof fn lemma_dependencies_first(
    tasks: Seq<TaskView>,
    projects: Seq<ProjectView>,
    sequential: i8,
    i: int,
    u: int,
)
    requires
        waits_as_configured(tasks, projects),
        task_ids(tasks).no_duplicates(),
        task_names(tasks).no_duplicates(),
        0 <= i < next_commands(tasks, sequential, tasks.len() as int).len(),
        0 <= u < tasks.len(),
        ({
            let run = next_commands(tasks, sequential, tasks.len() as int)[i];
            projects[text::first_at(project_names(projects), run.name)].depends_on matches Some(
                deps,
            ) && deps.contains(tasks[u].name)
        }),
    ensures
        has_run(
            tasks[u],
            next_commands(tasks, sequential, tasks.len() as int)[i].command.label(),
        ),
{
    let n = tasks.len() as int;
    crate::task_store::lemma_next_commands(tasks, sequential, n);
    let run = next_commands(tasks, sequential, n)[i];
    let (t, c) = choose|t: int, c: int|
        0 <= t < n && 0 <= c < tasks[t].commands.len() && #[trigger] crate::task_store::is_next(
            tasks,
            sequential,
            t,
            c,
        ) && run == crate::task::runnable(tasks[t].commands[c], tasks[t]);
    let names = task_names(tasks);
    text::lemma_first_at(names, tasks[t].name);
    let f = text::first_at(names, tasks[t].name);
    assert(names[t] == tasks[t].name);
    assert(names[f] == names[t]);
    assert(f == t);
    let deps = projects[text::first_at(project_names(projects), run.name)].depends_on->0;
    assert(deps_at(projects, tasks, t) == Some(deps));
    assert(tasks[t].children_id == Some(ids_of_names(tasks, deps)));
    lemma_id_of_name(tasks, deps, u);
    let children = ids_of_names(tasks, deps);
    let k = choose|k: int| 0 <= k < children.len() && children[k] == tasks[u].id;
    let label = tasks[t].commands[c].command.label();
    assert(crate::task_store::children_done(tasks, tasks[t], label));
    assert(tasks[t].children_id->0 == children);
    assert(crate::task_store::child_done(tasks, tasks[t].children_id->0[k], label));
    let ids = task_ids(tasks);
    text::lemma_first_at(ids, tasks[u].id);
    assert(ids[u] == tasks[u].id);
    assert(text::first_at(ids, tasks[u].id) == u);
}

/// A command that stopped in time waits for its turn after a restart. One that did not stop
/// is left as it is, unless it is forced to.
pub proof fn lemma_restarted(
    m: ManagerView,
    task_id: Seq<char>,
    command_id: Seq<char>,
    elapsed: u64,
    force: bool,
)
    requires
        in_step(m.store),
        task_ids(m.store.tasks).contains(task_id),
        command_ids(task_by_id(m.store.tasks, task_id).commands).contains(command_id),
    ensures
        stopping(m, command_id, elapsed) == StopStep::Done(true) ==> started(
            m,
            task_id,
            command_id,
            force,
        ).store.statuses[command_id] is Init,
        m.store.statuses[command_id] is Stopping && !force ==> started(
            m,
            task_id,
            command_id,
            force,
        ) == m,
{
    let t = text::first_at(task_ids(m.store.tasks), task_id);
    text::lemma_first_at(task_ids(m.store.tasks), task_id);
    let cmds = m.store.tasks[t].commands;
    let c = text::first_at(command_ids(cmds), command_id);
    text::lemma_first_at(command_ids(cmds), command_id);
    assert(command_ids(cmds)[c] == cmds[c].id);
    assert(m.store.tasks[t].commands[c].id == command_id);
}

} // verus!
