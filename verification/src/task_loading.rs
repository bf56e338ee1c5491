//! From a configuration to tasks: which projects are loaded, in which order, and which task
//! waits for which.

use vstd::prelude::*;

use crate::config::ConfigCommand;
use crate::config::ConfigCommandView;
use crate::config::ConfigProject;
use crate::config::OptionConfig;
use crate::config::ProjectView;
use crate::config::command_views;
use crate::config::place_of_project;
use crate::config::project_names;
use crate::config::projects_view;
use crate::strmap::StrMap;
use crate::text;

verus! {

/// How deep dependencies may be nested.
pub const MAX_DEPTH: u8 = 20;

/// Why projects could not be loaded.
pub enum LoadError {
    /// Dependencies are nested too deep, as they are where they go round in a circle.
    TooDeep,
    /// A filter is not the name of a project, and what the package manager lists for it is
    /// not known.
    NeedPackages(String),
    /// The package manager lists a package that is no project of the configuration.
    UnknownProject(String),
}

/// What a [`LoadError`] says.
pub enum LoadErrorView {
    TooDeep,
    NeedPackages(Seq<char>),
    UnknownProject(Seq<char>),
}

impl View for LoadError {
    type V = LoadErrorView;

    open spec fn view(&self) -> LoadErrorView {
        match *self {
            LoadError::TooDeep => LoadErrorView::TooDeep,
            LoadError::NeedPackages(f) => LoadErrorView::NeedPackages(f@),
            LoadError::UnknownProject(n) => LoadErrorView::UnknownProject(n@),
        }
    }
}

/// A project that is to become a task. Projects are told by their place in the
/// configuration.
pub struct PlannedTask {
    pub project: usize,
    pub parent: Option<usize>,
    pub children: Option<Vec<usize>>,
}

/// What a [`PlannedTask`] says.
pub struct PlannedView {
    pub project: int,
    pub parent: Option<int>,
    pub children: Option<Seq<int>>,
}

/// The places in a list.
pub open spec fn places(v: Seq<usize>) -> Seq<int> {
    v.map_values(|x: usize| x as int)
}

impl View for PlannedTask {
    type V = PlannedView;

    open spec fn view(&self) -> PlannedView {
        PlannedView {
            project: self.project as int,
            parent: match self.parent {
                Some(p) => Some(p as int),
                None => None,
            },
            children: match self.children {
                Some(c) => Some(places(c@)),
                None => None,
            },
        }
    }
}

impl PlannedTask {
    /// Whether the planned task speaks of the first `n` projects only.
    pub open spec fn in_range(&self, n: int) -> bool {
        &&& self.project < n
        &&& self.parent matches Some(p) ==> p < n
        &&& self.children matches Some(c) ==> forall|i: int|
            0 <= i < c@.len() ==> (#[trigger] c@[i]) < n
    }
}

/// What a plan says.
pub open spec fn plan_view(v: Seq<PlannedTask>) -> Seq<PlannedView> {
    v.map_values(|p: PlannedTask| p@)
}

/// What decides which projects are loaded.
pub struct LoadContext {
    /// The projects of the configuration.
    pub projects: Seq<ProjectView>,
    /// The commands that were asked for.
    pub commands: Seq<Seq<char>>,
    /// What the package manager lists for a filter.
    pub packages: Map<Seq<char>, Seq<Seq<char>>>,
    /// The names of the tasks that are there already.
    pub existing: Seq<Seq<char>>,
}

/// `s` with `x` at the end, unless it is there already.
pub open spec fn with_name(s: Seq<Seq<char>>, x: Seq<char>) -> Seq<Seq<char>> {
    if s.contains(x) {
        s
    } else {
        s.push(x)
    }
}

/// `s` with each of `xs` that is not there yet, in order.
pub open spec fn with_names(s: Seq<Seq<char>>, xs: Seq<Seq<char>>) -> Seq<Seq<char>>
    decreases xs.len(),
{
    if xs.len() == 0 {
        s
    } else {
        with_name(with_names(s, xs.drop_last()), xs.last())
    }
}

/// The projects that filters stand for, each once: the project of that name, or what the
/// package manager lists.
pub open spec fn resolved(c: LoadContext, filters: Seq<Seq<char>>) -> Result<
    Seq<Seq<char>>,
    LoadErrorView,
>
    decreases filters.len(),
{
    if filters.len() == 0 {
        Ok(Seq::empty())
    } else {
        match resolved(c, filters.drop_last()) {
            Err(e) => Err(e),
            Ok(before) => {
                let f = filters.last();
                if project_names(c.projects).contains(f) {
                    Ok(with_name(before, f))
                } else if c.packages.contains_key(f) {
                    Ok(with_names(before, c.packages[f]))
                } else {
                    Err(LoadErrorView::NeedPackages(f))
                }
            },
        }
    }
}

/// Those of `commands` that were asked for.
pub open spec fn asked(commands: Seq<ConfigCommandView>, names: Seq<Seq<char>>) -> Seq<
    ConfigCommandView,
>
    decreases commands.len(),
{
    if commands.len() == 0 {
        Seq::empty()
    } else {
        let before = asked(commands.drop_last(), names);
        if names.contains(commands.last().name()) {
            before.push(commands.last())
        } else {
            before
        }
    }
}

/// The names of the projects of a plan.
pub open spec fn planned_names(c: LoadContext, plan: Seq<PlannedView>) -> Seq<Seq<char>> {
    plan.map_values(|p: PlannedView| c.projects[p.project].name)
}

/// Whether a task of a given name is there or planned.
pub open spec fn is_loaded(c: LoadContext, plan: Seq<PlannedView>, name: Seq<char>) -> bool {
    c.existing.contains(name) || planned_names(c, plan).contains(name)
}

/// The plan after the projects `names` were added to `plan`, in order, as tasks that
/// `parent` waits for, and the places of those that were added themselves. A project is
/// passed over where it is there already or has none of the commands that were asked for;
/// what it depends on comes before it.
pub open spec fn load_names(
    c: LoadContext,
    names: Seq<Seq<char>>,
    parent: Option<int>,
    depth: int,
    plan: Seq<PlannedView>,
) -> Result<(Seq<PlannedView>, Seq<int>), LoadErrorView>
    decreases MAX_DEPTH + 1 - depth, 0int, names.len(),
{
    if names.len() == 0 {
        Ok((plan, Seq::empty()))
    } else {
        match load_names(c, names.drop_last(), parent, depth, plan) {
            Err(e) => Err(e),
            Ok((before, added)) => {
                let name = names.last();
                let p = text::first_at(project_names(c.projects), name);
                if is_loaded(c, before, name) {
                    Ok((before, added))
                } else if p >= c.projects.len() {
                    Err(LoadErrorView::UnknownProject(name))
                } else if asked(c.projects[p].commands, c.commands).len() == 0 {
                    Ok((before, added))
                } else {
                    match c.projects[p].depends_on {
                        None => Ok(
                            (
                                before.push(PlannedView { project: p, parent, children: None }),
                                added.push(p),
                            ),
                        ),
                        Some(deps) => {
                            if depth > MAX_DEPTH {
                                Err(LoadErrorView::TooDeep)
                            } else {
                                match load_level(c, deps, Some(p), depth + 1, before) {
                                    Err(e) => Err(e),
                                    Ok((after, children)) => Ok(
                                        (
                                            after.push(
                                                PlannedView {
                                                    project: p,
                                                    parent,
                                                    children: Some(children),
                                                },
                                            ),
                                            added.push(p),
                                        ),
                                    ),
                                }
                            }
                        },
                    }
                }
            },
        }
    }
}

/// The plan after the projects that `filters` stand for were added to `plan`.
pub open spec fn load_level(
    c: LoadContext,
    filters: Seq<Seq<char>>,
    parent: Option<int>,
    depth: int,
    plan: Seq<PlannedView>,
) -> Result<(Seq<PlannedView>, Seq<int>), LoadErrorView>
    decreases MAX_DEPTH + 1 - depth, 1int, 0nat,
{
    if depth > MAX_DEPTH {
        Err(LoadErrorView::TooDeep)
    } else {
        match resolved(c, filters) {
            Err(e) => Err(e),
            Ok(names) => load_names(c, names, parent, depth, plan),
        }
    }
}

proof fn lemma_load_names_err(
    c: LoadContext,
    names: Seq<Seq<char>>,
    parent: Option<int>,
    depth: int,
    plan: Seq<PlannedView>,
    k: int,
)
    requires
        0 <= k <= names.len(),
        load_names(c, names.take(k), parent, depth, plan) is Err,
    ensures
        load_names(c, names, parent, depth, plan) == load_names(
            c,
            names.take(k),
            parent,
            depth,
            plan,
        ),
    decreases names.len(),
{
    if k == names.len() {
        assert(names.take(k) =~= names);
    } else {
        assert(names.drop_last().take(k) =~= names.take(k));
        lemma_load_names_err(c, names.drop_last(), parent, depth, plan, k);
    }
}

proof fn lemma_resolved_err(c: LoadContext, filters: Seq<Seq<char>>, k: int)
    requires
        0 <= k <= filters.len(),
        resolved(c, filters.take(k)) is Err,
    ensures
        resolved(c, filters) == resolved(c, filters.take(k)),
    decreases filters.len(),
{
    if k == filters.len() {
        assert(filters.take(k) =~= filters);
    } else {
        assert(filters.drop_last().take(k) =~= filters.take(k));
        lemma_resolved_err(c, filters.drop_last(), k);
    }
}

fn put_name(out: &mut Vec<String>, name: &String)
    ensures
        text::texts(final(out)@) == with_name(text::texts(old(out)@), name@),
{
    if !text::contains_text(out, name.as_str()) {
        out.push(name.clone());
        assert(text::texts(out@) =~= text::texts(old(out)@).push(name@));
    }
}

/// What the package manager lists for filters, as texts.
pub open spec fn packages_view(m: StrMap<Vec<String>>) -> Map<Seq<char>, Seq<Seq<char>>> {
    m@.map_values(|v: Vec<String>| text::texts(v@))
}

/// The projects that filters stand for, each once.
fn resolve(
    projects: &Vec<ConfigProject>,
    packages: &StrMap<Vec<String>>,
    filters: &Vec<String>,
    Ghost(c): Ghost<LoadContext>,
) -> (r: Result<Vec<String>, LoadError>)
    requires
        packages.wf(),
        c.projects == projects_view(projects@),
        c.packages == packages_view(*packages),
    ensures
        match r {
            Ok(names) => resolved(c, text::texts(filters@)) == Ok::<
                Seq<Seq<char>>,
                LoadErrorView,
            >(text::texts(names@)),
            Err(e) => resolved(c, text::texts(filters@)) == Err::<Seq<Seq<char>>, LoadErrorView>(
                e@,
            ),
        },
{
    let ghost all = text::texts(filters@);
    let mut out: Vec<String> = Vec::new();
    let mut i: usize = 0;
    assert(text::texts(out@) =~= Seq::<Seq<char>>::empty());
    while i < filters.len()
        invariant
            i <= filters@.len(),
            all == text::texts(filters@),
            packages.wf(),
            c.projects == projects_view(projects@),
            c.packages == packages_view(*packages),
            resolved(c, all.take(i as int)) == Ok::<Seq<Seq<char>>, LoadErrorView>(
                text::texts(out@),
            ),
        decreases filters@.len() - i,
    {
        let f = &filters[i];
        proof {
            assert(all.take(i + 1).drop_last() =~= all.take(i as int));
            assert(all.take(i + 1).last() == f@);
            text::lemma_first_at(project_names(c.projects), f@);
        }
        if place_of_project(projects, f.as_str()) < projects.len() {
            put_name(&mut out, f);
        } else {
            match packages.get(f.as_str()) {
                Some(listed) => {
                    let ghost before = text::texts(out@);
                    let ghost xs = text::texts(listed@);
                    let mut k: usize = 0;
                    assert(with_names(before, xs.take(0)) == before);
                    while k < listed.len()
                        invariant
                            k <= listed@.len(),
                            xs == text::texts(listed@),
                            text::texts(out@) == with_names(before, xs.take(k as int)),
                        decreases listed@.len() - k,
                    {
                        proof {
                            assert(xs.take(k + 1).drop_last() =~= xs.take(k as int));
                            assert(xs.take(k + 1).last() == listed@[k as int]@);
                        }
                        put_name(&mut out, &listed[k]);
                        k += 1;
                    }
                    assert(xs.take(k as int) =~= xs);
                },
                None => {
                    proof {
                        lemma_resolved_err(c, all, i + 1);
                    }
                    return Err(LoadError::NeedPackages(f.clone()));
                },
            }
        }
        i += 1;
    }
    assert(all.take(i as int) =~= all);
    Ok(out)
}

/// Those of the commands of a project that were asked for.
pub fn asked_commands(commands: &Vec<ConfigCommand>, names: &Vec<String>) -> (r: Vec<ConfigCommand>)
    ensures
        command_views(r@) == asked(command_views(commands@), text::texts(names@)),
{
    let ghost all = command_views(commands@);
    let mut out: Vec<ConfigCommand> = Vec::new();
    let mut i: usize = 0;
    assert(command_views(out@) =~= asked(all.take(0), text::texts(names@)));
    while i < commands.len()
        invariant
            i <= commands@.len(),
            all == command_views(commands@),
            command_views(out@) == asked(all.take(i as int), text::texts(names@)),
        decreases commands@.len() - i,
    {
        let ghost before = out@;
        proof {
            assert(all.take(i + 1).drop_last() =~= all.take(i as int));
            assert(all.take(i + 1).last() == commands@[i as int]@);
        }
        if text::contains_text(names, commands[i].name().as_str()) {
            out.push(commands[i].clone());
            assert(command_views(out@) =~= command_views(before).push(commands@[i as int]@));
        }
        i += 1;
    }
    assert(all.take(i as int) =~= all);
    out
}

fn is_planned(
    projects: &Vec<ConfigProject>,
    existing: &Vec<String>,
    plan: &Vec<PlannedTask>,
    name: &str,
    Ghost(c): Ghost<LoadContext>,
) -> (r: bool)
    requires
        c.projects == projects_view(projects@),
        c.existing == text::texts(existing@),
        forall|k: int| 0 <= k < plan@.len() ==> (#[trigger] plan@[k]).project < projects@.len(),
    ensures
        r == is_loaded(c, plan_view(plan@), name@),
{
    if text::contains_text(existing, name) {
        return true;
    }
    let ghost names = planned_names(c, plan_view(plan@));
    let mut i: usize = 0;
    while i < plan.len()
        invariant
            i <= plan@.len(),
            c.projects == projects_view(projects@),
            c.existing == text::texts(existing@),
            !c.existing.contains(name@),
            names == planned_names(c, plan_view(plan@)),
            forall|k: int| 0 <= k < plan@.len() ==> (#[trigger] plan@[k]).project < projects@.len(),
            forall|k: int| 0 <= k < i ==> names[k] != name@,
        decreases plan@.len() - i,
    {
        assert(names[i as int] == projects@[plan@[i as int].project as int].name@);
        if *projects[plan[i].project].name.as_str() == *name {
            assert(names.contains(name@));
            return true;
        }
        i += 1;
    }
    false
}

/// Adds the projects that `filters` stand for to the plan.
fn plan_level(
    projects: &Vec<ConfigProject>,
    commands: &Vec<String>,
    packages: &StrMap<Vec<String>>,
    existing: &Vec<String>,
    filters: &Vec<String>,
    parent: Option<usize>,
    depth: u8,
    plan: &mut Vec<PlannedTask>,
    Ghost(c): Ghost<LoadContext>,
) -> (r: Result<Vec<usize>, LoadError>)
    requires
        packages.wf(),
        c.projects == projects_view(projects@),
        c.commands == text::texts(commands@),
        c.packages == packages_view(*packages),
        c.existing == text::texts(existing@),
        depth <= MAX_DEPTH + 1,
        parent matches Some(p) ==> p < projects@.len(),
        forall|k: int|
            0 <= k < old(plan)@.len() ==> (#[trigger] old(plan)@[k]).in_range(
                projects@.len() as int,
            ),
    ensures
        forall|k: int|
            0 <= k < final(plan)@.len() ==> (#[trigger] final(plan)@[k]).in_range(
                projects@.len() as int,
            ),
        r matches Ok(added) ==> forall|k: int|
            0 <= k < added@.len() ==> (#[trigger] added@[k]) < projects@.len(),
        match r {
            Ok(added) => load_level(
                c,
                text::texts(filters@),
                opt_place(parent),
                depth as int,
                plan_view(old(plan)@),
            ) == Ok::<(Seq<PlannedView>, Seq<int>), LoadErrorView>(
                (plan_view(final(plan)@), places(added@)),
            ),
            Err(e) => load_level(
                c,
                text::texts(filters@),
                opt_place(parent),
                depth as int,
                plan_view(old(plan)@),
            ) == Err::<(Seq<PlannedView>, Seq<int>), LoadErrorView>(e@),
        },
    decreases MAX_DEPTH + 1 - depth,
{
    if depth > MAX_DEPTH {
        return Err(LoadError::TooDeep);
    }
    let names = match resolve(projects, packages, filters, Ghost(c)) {
        Ok(names) => names,
        Err(e) => {
            return Err(e);
        },
    };
    let ghost start = plan_view(plan@);
    let ghost all = text::texts(names@);
    let ghost up = opt_place(parent);
    let mut added: Vec<usize> = Vec::new();
    let mut i: usize = 0;
    assert(places(added@) =~= Seq::<int>::empty());
    while i < names.len()
        invariant
            i <= names@.len(),
            packages.wf(),
            c.projects == projects_view(projects@),
            c.commands == text::texts(commands@),
            c.packages == packages_view(*packages),
            c.existing == text::texts(existing@),
            depth <= MAX_DEPTH,
            start == plan_view(old(plan)@),
            all == text::texts(names@),
            up == opt_place(parent),
            resolved(c, text::texts(filters@)) == Ok::<Seq<Seq<char>>, LoadErrorView>(all),
            parent matches Some(p) ==> p < projects@.len(),
            forall|k: int|
                0 <= k < plan@.len() ==> (#[trigger] plan@[k]).in_range(projects@.len() as int),
            forall|k: int| 0 <= k < added@.len() ==> (#[trigger] added@[k]) < projects@.len(),
            load_names(c, all.take(i as int), up, depth as int, start) == Ok::<
                (Seq<PlannedView>, Seq<int>),
                LoadErrorView,
            >((plan_view(plan@), places(added@))),
        decreases names@.len() - i,
    {
        let name = names[i].as_str();
        let ghost before = plan_view(plan@);
        proof {
            assert(all.take(i + 1).drop_last() =~= all.take(i as int));
            assert(all.take(i + 1).last() == name@);
            text::lemma_first_at(project_names(c.projects), name@);
        }
        if !is_planned(projects, existing, plan, name, Ghost(c)) {
            let p = place_of_project(projects, name);
            if p >= projects.len() {
                proof {
                    lemma_load_names_err(c, all, up, depth as int, start, i + 1);
                }
                return Err(LoadError::UnknownProject(names[i].clone()));
            }
            let project = &projects[p];
            assert(c.projects[p as int] == project@);
            let own = asked_commands(&project.commands, commands);
            assert(command_views(own@).len() == own@.len());
            if own.len() > 0 {
                let children: Option<Vec<usize>> = match &project.depends_on {
                    OptionConfig::Absent(_) => None,
                    OptionConfig::List(deps) => {
                        match plan_level(
                            projects,
                            commands,
                            packages,
                            existing,
                            deps,
                            Some(p),
                            depth + 1,
                            plan,
                            Ghost(c),
                        ) {
                            Ok(children) => Some(children),
                            Err(e) => {
                                proof {
                                    lemma_load_names_err(c, all, up, depth as int, start, i + 1);
                                }
                                return Err(e);
                            },
                        }
                    },
                };
                let ghost mid = plan@;
                let ghost mid_added = added@;
                let next = PlannedTask { project: p, parent, children };
                let ghost next_view = next@;
                plan.push(next);
                added.push(p);
                proof {
                    assert(plan_view(plan@) =~= plan_view(mid).push(next_view));
                    assert(places(added@) =~= places(mid_added).push(p as int));
                }
            }
        }
        i += 1;
    }
    assert(all.take(i as int) =~= all);
    Ok(added)
}

/// A place, as a number.
pub open spec fn opt_place(p: Option<usize>) -> Option<int> {
    match p {
        Some(i) => Some(i as int),
        None => None,
    }
}

/// Plans which projects become tasks, what each depends on before it. `packages` tells what
/// the package manager lists for a filter that is not the name of a project; `existing` are
/// the names of the tasks that are there already.
pub fn plan_tasks(
    projects: &Vec<ConfigProject>,
    filters: &Vec<String>,
    commands: &Vec<String>,
    packages: &StrMap<Vec<String>>,
    existing: &Vec<String>,
) -> (r: Result<Vec<PlannedTask>, LoadError>)
    requires
        packages.wf(),
    ensures
        ({
            let c = LoadContext {
                projects: projects_view(projects@),
                commands: text::texts(commands@),
                packages: packages_view(*packages),
                existing: text::texts(existing@),
            };
            let plan = load_level(c, text::texts(filters@), None, 0, Seq::empty());
            match r {
                Ok(v) => plan is Ok && plan_view(v@) == plan->Ok_0.0 && forall|k: int|
                    0 <= k < v@.len() ==> (#[trigger] v@[k]).in_range(projects@.len() as int),
                Err(e) => plan == Err::<(Seq<PlannedView>, Seq<int>), LoadErrorView>(e@),
            }
        }),
{
    let ghost c = LoadContext {
        projects: projects_view(projects@),
        commands: text::texts(commands@),
        packages: packages_view(*packages),
        existing: text::texts(existing@),
    };
    let mut plan: Vec<PlannedTask> = Vec::new();
    assert(plan_view(plan@) =~= Seq::<PlannedView>::empty());
    match plan_level(
        projects,
        commands,
        packages,
        existing,
        filters,
        None,
        0,
        &mut plan,
        Ghost(c),
    ) {
        Ok(_) => Ok(plan),
        Err(e) => Err(e),
    }
}

/// Whether a project of a given name becomes a task where it comes up: it is in the
/// configuration and has a command that was asked for.
pub open spec fn loadable(c: LoadContext, name: Seq<char>) -> bool {
    let p = text::first_at(project_names(c.projects), name);
    p < c.projects.len() && asked(c.projects[p].commands, c.commands).len() > 0
}

/// Whether the project `name` depends on the project `dep`.
pub open spec fn depends(c: LoadContext, name: Seq<char>, dep: Seq<char>) -> bool {
    let p = text::first_at(project_names(c.projects), name);
    &&& c.projects[p].depends_on matches Some(deps)
    &&& resolved(c, deps) matches Ok(names)
    &&& names.contains(dep)
}

/// Whether the first `n` tasks of a plan, or the tasks that are there already, hold `name`.
pub open spec fn loaded_by(
    c: LoadContext,
    plan: Seq<PlannedView>,
    n: int,
    name: Seq<char>,
) -> bool {
    c.existing.contains(name) || exists|j: int|
        0 <= j < n && #[trigger] planned_names(c, plan)[j] == name
}

/// Whether a plan is in order: its tasks can be loaded, no project occurs twice or is there
/// already, and what a project depends on comes before it.
pub open spec fn settled(c: LoadContext, plan: Seq<PlannedView>) -> bool {
    &&& planned_names(c, plan).no_duplicates()
    &&& forall|k: int|
        0 <= k < plan.len() ==> {
            let name = #[trigger] planned_names(c, plan)[k];
            &&& loadable(c, name)
            &&& plan[k].project == text::first_at(project_names(c.projects), name)
            &&& !c.existing.contains(name)
            &&& plan[k].children is Some <==> c.projects[plan[k].project].depends_on is Some
            &&& forall|d: Seq<char>| #[trigger]
                depends(c, name, d) && loadable(c, d) ==> loaded_by(c, plan, k, d)
        }
}

/// Whether each project of a chain depends on the next.
spec fn linked(c: LoadContext, chain: Seq<Seq<char>>) -> bool {
    &&& forall|i: int| 0 <= i < chain.len() ==> loadable(c, #[trigger] chain[i])
    &&& forall|i: int|
        0 <= i && i + 1 < chain.len() ==> depends(c, #[trigger] chain[i], chain[i + 1])
}

proof fn lemma_settled_push(c: LoadContext, plan: Seq<PlannedView>, t: PlannedView)
    requires
        settled(c, plan),
        0 <= t.project < c.projects.len(),
        t.project == text::first_at(project_names(c.projects), c.projects[t.project].name),
        loadable(c, c.projects[t.project].name),
        t.children is Some <==> c.projects[t.project].depends_on is Some,
        !is_loaded(c, plan, c.projects[t.project].name),
        forall|d: Seq<char>| #[trigger]
            depends(c, c.projects[t.project].name, d) && loadable(c, d) ==> is_loaded(c, plan, d),
    ensures
        settled(c, plan.push(t)),
        forall|n: Seq<char>| #[trigger]
            is_loaded(c, plan.push(t), n) == (is_loaded(c, plan, n) || n
                == c.projects[t.project].name),
{
    let next = plan.push(t);
    let names = planned_names(c, plan);
    let new_names = planned_names(c, next);
    let name = c.projects[t.project].name;
    assert(new_names =~= names.push(name));
    assert forall|k: int| 0 <= k < next.len() implies {
        let n = #[trigger] new_names[k];
        &&& loadable(c, n)
        &&& next[k].project == text::first_at(project_names(c.projects), n)
        &&& !c.existing.contains(n)
        &&& next[k].children is Some <==> c.projects[next[k].project].depends_on is Some
        &&& forall|d: Seq<char>| #[trigger]
            depends(c, n, d) && loadable(c, d) ==> loaded_by(c, next, k, d)
    } by {
        let n = new_names[k];
        if k < plan.len() {
            assert(names[k] == n);
            assert forall|d: Seq<char>| #[trigger]
                depends(c, n, d) && loadable(c, d) implies loaded_by(c, next, k, d) by {
                assert(loaded_by(c, plan, k, d));
                if !c.existing.contains(d) {
                    let j = choose|j: int| 0 <= j < k && #[trigger] names[j] == d;
                    assert(new_names[j] == d);
                }
            }
        } else {
            assert forall|d: Seq<char>| #[trigger]
                depends(c, n, d) && loadable(c, d) implies loaded_by(c, next, k, d) by {
                assert(is_loaded(c, plan, d));
                if !c.existing.contains(d) {
                    let j = choose|j: int| 0 <= j < names.len() && names[j] == d;
                    assert(new_names[j] == d);
                }
            }
        }
    }
    assert forall|n: Seq<char>| #[trigger] is_loaded(c, next, n) == (is_loaded(c, plan, n) || n
        == name) by {
        if names.contains(n) {
            let j = choose|j: int| 0 <= j < names.len() && names[j] == n;
            assert(new_names[j] == n);
        }
        if n == name {
            assert(new_names[plan.len() as int] == n);
        }
        if new_names.contains(n) {
            let j = choose|j: int| 0 <= j < new_names.len() && new_names[j] == n;
            if j < plan.len() {
                assert(names[j] == n);
            }
        }
    }
}

proof fn lemma_load_names(
    c: LoadContext,
    names: Seq<Seq<char>>,
    parent: Option<int>,
    depth: int,
    plan: Seq<PlannedView>,
    chain: Seq<Seq<char>>,
)
    requires
        depth <= MAX_DEPTH,
        settled(c, plan),
        linked(c, chain),
        forall|i: int| 0 <= i < chain.len() ==> !is_loaded(c, plan, #[trigger] chain[i]),
        chain.len() > 0 ==> forall|n: Seq<char>| #[trigger]
            names.contains(n) ==> depends(c, chain.last(), n),
    ensures
        load_names(c, names, parent, depth, plan) matches Ok((after, added)) ==> {
            &&& settled(c, after)
            &&& forall|i: int| 0 <= i < chain.len() ==> !is_loaded(c, after, #[trigger] chain[i])
            &&& forall|n: Seq<char>| #[trigger]
                names.contains(n) && loadable(c, n) ==> is_loaded(c, after, n)
            &&& forall|n: Seq<char>| #[trigger] is_loaded(c, plan, n) ==> is_loaded(c, after, n)
        },
    decreases MAX_DEPTH + 1 - depth, names.len(),
{
    if names.len() > 0 {
        let less = names.drop_last();
        let name = names.last();
        assert(names[names.len() - 1] == name);
        assert(names.contains(name));
        assert(chain.len() > 0 ==> depends(c, chain.last(), name));
        assert forall|n: Seq<char>| #[trigger] less.contains(n) implies names.contains(n) by {
            let j = choose|j: int| 0 <= j < less.len() && less[j] == n;
            assert(names[j] == n);
        }
        assert forall|n: Seq<char>| #[trigger] names.contains(n) implies less.contains(n) || n
            == name by {
            let j = choose|j: int| 0 <= j < names.len() && names[j] == n;
            if j < less.len() {
                assert(less[j] == n);
            }
        }
        lemma_load_names(c, less, parent, depth, plan, chain);
        if load_names(c, names, parent, depth, plan) is Ok {
            let (before, added) = load_names(c, less, parent, depth, plan)->Ok_0;
            let p = text::first_at(project_names(c.projects), name);
            text::lemma_first_at(project_names(c.projects), name);
            if !is_loaded(c, before, name) && asked(c.projects[p].commands, c.commands).len() > 0 {
                assert(project_names(c.projects)[p] == c.projects[p].name);
                let (after, children) = match c.projects[p].depends_on {
                    None => (before, None),
                    Some(deps) => {
                        let l = load_level(c, deps, Some(p), depth + 1, before)->Ok_0;
                        (l.0, Some(l.1))
                    },
                };
                let longer = chain.push(name);
                if c.projects[p].depends_on is Some {
                    let deps = c.projects[p].depends_on->0;
                    let inner = resolved(c, deps)->Ok_0;
                    assert(linked(c, longer)) by {
                        assert forall|i: int| 0 <= i && i + 1 < longer.len() implies depends(
                            c,
                            #[trigger] longer[i],
                            longer[i + 1],
                        ) by {
                            if i + 1 < chain.len() {
                                assert(depends(c, chain[i], chain[i + 1]));
                            } else {
                                assert(longer[i] == chain.last());
                                assert(longer[i + 1] == name);
                            }
                        }
                    }
                    assert forall|i: int| 0 <= i < longer.len() implies !is_loaded(
                        c,
                        before,
                        #[trigger] longer[i],
                    ) by {
                        if i < chain.len() {
                            assert(longer[i] == chain[i]);
                        }
                    }
                    assert(longer.last() == name);
                    lemma_load_names(c, inner, Some(p), depth + 1, before, longer);
                    assert forall|i: int| 0 <= i < chain.len() implies !is_loaded(
                        c,
                        after,
                        #[trigger] chain[i],
                    ) by {
                        assert(longer[i] == chain[i]);
                    }
                    assert(!is_loaded(c, after, longer[chain.len() as int]));
                    assert forall|d: Seq<char>| #[trigger]
                        depends(c, name, d) && loadable(c, d) implies is_loaded(c, after, d) by {
                        assert(inner.contains(d));
                    }
                }
                assert forall|i: int| 0 <= i < chain.len() implies #[trigger] chain[i] != name by {
                    if chain[i] == name {
                        let next = if i + 1 < chain.len() {
                            chain[i + 1]
                        } else {
                            name
                        };
                        assert(i + 1 == chain.len() ==> chain[i] == chain.last());
                        assert(depends(c, chain[i], next));
                        assert(is_loaded(c, after, next));
                        assert(false);
                    }
                }
                lemma_settled_push(
                    c,
                    after,
                    PlannedView { project: p, parent, children },
                );
            }
        }
    }
}

/// What holds of every plan: no project becomes a task twice, what a project depends on
/// comes before it, and every project that the filters stand for and that has a command
/// that was asked for is there.
pub proof fn lemma_plan(c: LoadContext, filters: Seq<Seq<char>>)
    ensures
        load_level(c, filters, None, 0, Seq::empty()) matches Ok((plan, added)) ==> {
            &&& settled(c, plan)
            &&& resolved(c, filters) matches Ok(names)
            &&& forall|n: Seq<char>| #[trigger]
                names.contains(n) && loadable(c, n) ==> is_loaded(c, plan, n)
        },
{
    if load_level(c, filters, None, 0, Seq::empty()) is Ok {
        let names = resolved(c, filters)->Ok_0;
        let none = Seq::<PlannedView>::empty();
        assert(planned_names(c, none) =~= Seq::<Seq<char>>::empty());
        lemma_load_names(c, names, None, 0, none, Seq::empty());
    }
}

/// Projects that depend on each other in a circle are never loaded: where a project that can
/// be loaded depends on itself, no plan holds it.
pub proof fn lemma_no_circle(c: LoadContext, filters: Seq<Seq<char>>, name: Seq<char>)
    requires
        loadable(c, name),
        depends(c, name, name),
        !c.existing.contains(name),
    ensures
        load_level(c, filters, None, 0, Seq::empty()) matches Ok((plan, added))
            ==> !planned_names(c, plan).contains(name),
{
    lemma_plan(c, filters);
    if load_level(c, filters, None, 0, Seq::empty()) is Ok {
        let plan = load_level(c, filters, None, 0, Seq::empty())->Ok_0.0;
        let names = planned_names(c, plan);
        if names.contains(name) {
            let k = choose|k: int| 0 <= k < names.len() && names[k] == name;
            assert(loaded_by(c, plan, k, name));
            let j = choose|j: int| 0 <= j < k && #[trigger] names[j] == name;
            assert(names[j] == names[k]);
        }
    }
}

} // verus!
