//! Which tasks a configuration leads to, what they run and what they wait for.

use vstd::prelude::*;

use crate::config::ConfigCommandView;
use crate::config::ProjectView;
use crate::config::project_names;
use crate::task::CommandTypeView;
use crate::task::TaskView;
use crate::task::all_drawn;
use crate::task::command_id;
use crate::task::command_ids;
use crate::task::lemma_new_commands_distinct;
use crate::task::new_command;
use crate::task::new_commands;
use crate::task::scripts_of;
use crate::task::scripts_of_one;
use crate::task_loading::LoadContext;
use crate::task_loading::LoadErrorView;
use crate::task_loading::MAX_DEPTH;
use crate::task_loading::PlannedView;
use crate::task_loading::asked;
use crate::task_loading::depends;
use crate::task_loading::is_loaded;
use crate::task_loading::lemma_plan;
use crate::task_loading::load_level;
use crate::task_loading::load_names;
use crate::task_loading::loadable;
use crate::task_loading::loaded_by;
use crate::task_loading::planned_names;
use crate::task_loading::resolved;
use crate::task_loading::settled;
use crate::task_loading::with_name;
use crate::task_loading::with_names;
use crate::task_managerv2::FreshView;
use crate::task_managerv2::ManagerView;
use crate::task_managerv2::added;
use crate::task_managerv2::all_fresh;
use crate::task_managerv2::deps_at;
use crate::task_managerv2::ids_fit;
use crate::task_managerv2::lemma_linked;
use crate::task_managerv2::linked;
use crate::task_managerv2::load_context;
use crate::task_managerv2::loaded;
use crate::task_managerv2::planned_task;
use crate::task_store::ids_of_names;
use crate::task_store::task_ids;
use crate::task_store::task_names;
use crate::text;

verus! {

/// Whether a command of a configuration is one of those with the given names.
pub open spec fn goes_by(c: ConfigCommandView, names: Seq<Seq<char>>) -> bool {
    match c {
        ConfigCommandView::Simple(script) => names.contains(script),
        ConfigCommandView::Plexus { name, actual_commands } => names.contains(name),
        ConfigCommandView::WithDependency { command, depends_on, envs } => names.contains(command),
    }
}

/// Whether a command of a configuration runs a script under a label.
pub open spec fn runs(c: ConfigCommandView, x: CommandTypeView) -> bool {
    match c {
        ConfigCommandView::Simple(script) => x == CommandTypeView::Simple(script),
        ConfigCommandView::Plexus { name, actual_commands } => exists|a: int|
            0 <= a < actual_commands.len() && x == (CommandTypeView::Plexus {
                name,
                command: #[trigger] actual_commands[a],
            }),
        ConfigCommandView::WithDependency { command, depends_on, envs } => x
            == CommandTypeView::Simple(command),
    }
}

/// Of the commands of a project exactly those are taken that were asked for by name, whether
/// they are one script, stand for several or wait for others.
pub proof fn lemma_asked(commands: Seq<ConfigCommandView>, names: Seq<Seq<char>>, k: int)
    requires
        0 <= k < commands.len(),
    ensures
        asked(commands, names).contains(commands[k]) <==> match commands[k] {
            ConfigCommandView::Simple(script) => names.contains(script),
            ConfigCommandView::Plexus { name, actual_commands } => names.contains(name),
            ConfigCommandView::WithDependency { command, depends_on, envs } => names.contains(
                command,
            ),
        },
{
    lemma_asked_members(commands, names, commands[k]);
    assert(commands[k] == commands[k]);
}

proof fn lemma_asked_members(
    commands: Seq<ConfigCommandView>,
    names: Seq<Seq<char>>,
    x: ConfigCommandView,
)
    ensures
        asked(commands, names).contains(x) <==> goes_by(x, names) && exists|k: int|
            0 <= k < commands.len() && #[trigger] commands[k] == x,
    decreases commands.len(),
{
    if commands.len() > 0 {
        let less = commands.drop_last();
        let last = commands.last();
        lemma_asked_members(less, names, x);
        let before = asked(less, names);
        let all = asked(commands, names);
        assert(commands[commands.len() - 1] == last);
        if before.contains(x) {
            let i = choose|i: int| 0 <= i < before.len() && before[i] == x;
            assert(all[i] == x);
            let k = choose|k: int| 0 <= k < less.len() && #[trigger] less[k] == x;
            assert(commands[k] == x);
        }
        if all.contains(x) {
            let i = choose|i: int| 0 <= i < all.len() && all[i] == x;
            if i < before.len() {
                assert(before[i] == x);
            }
        }
        if goes_by(x, names) && exists|k: int| 0 <= k < commands.len() && #[trigger] commands[k] == x {
            let k = choose|k: int| 0 <= k < commands.len() && #[trigger] commands[k] == x;
            if k < less.len() {
                assert(less[k] == x);
            } else {
                assert(all[before.len() as int] == x);
            }
        }
    }
}

/// Commands are taken one by one and stay in their order.
pub proof fn lemma_asked_in_order(
    a: Seq<ConfigCommandView>,
    b: Seq<ConfigCommandView>,
    names: Seq<Seq<char>>,
)
    ensures
        asked(a + b, names) == asked(a, names) + asked(b, names),
    decreases b.len(),
{
    if b.len() == 0 {
        assert(a + b =~= a);
        assert(asked(a, names) + asked(b, names) =~= asked(a, names));
    } else {
        assert((a + b).drop_last() =~= a + b.drop_last());
        lemma_asked_in_order(a, b.drop_last(), names);
        assert(asked(a + b, names) =~= asked(a, names) + asked(b, names));
    }
}

/// What commands run is what each of them runs.
pub proof fn lemma_scripts(commands: Seq<ConfigCommandView>, x: CommandTypeView)
    ensures
        scripts_of(commands).contains(x) <==> exists|k: int|
            0 <= k < commands.len() && runs(#[trigger] commands[k], x),
    decreases commands.len(),
{
    if commands.len() > 0 {
        let less = commands.drop_last();
        let last = commands.last();
        lemma_scripts(less, x);
        let before = scripts_of(less);
        let own = scripts_of_one(last);
        let all = scripts_of(commands);
        assert(all == before + own);
        assert(commands[commands.len() - 1] == last);
        assert(own.contains(x) <==> runs(last, x)) by {
            match last {
                ConfigCommandView::Plexus { name, actual_commands } => {
                    if own.contains(x) {
                        let a = choose|a: int| 0 <= a < own.len() && own[a] == x;
                        assert(x == (CommandTypeView::Plexus {
                            name,
                            command: actual_commands[a],
                        }));
                    }
                    if runs(last, x) {
                        let a = choose|a: int|
                            0 <= a < actual_commands.len() && x == (CommandTypeView::Plexus {
                                name,
                                command: #[trigger] actual_commands[a],
                            });
                        assert(own[a] == x);
                    }
                },
                _ => {
                    assert(own[0] == CommandTypeView::Simple(last.name()));
                    if own.contains(x) {
                        let a = choose|a: int| 0 <= a < own.len() && own[a] == x;
                        assert(a == 0);
                    }
                },
            }
        }
        if before.contains(x) {
            let i = choose|i: int| 0 <= i < before.len() && before[i] == x;
            assert(all[i] == x);
            let k = choose|k: int| 0 <= k < less.len() && runs(#[trigger] less[k], x);
            assert(commands[k] == less[k]);
        }
        if own.contains(x) {
            let i = choose|i: int| 0 <= i < own.len() && own[i] == x;
            assert(all[before.len() + i] == x);
        }
        if all.contains(x) {
            let i = choose|i: int| 0 <= i < all.len() && all[i] == x;
            if i < before.len() {
                assert(before[i] == x);
            } else {
                assert(own[i - before.len()] == x);
            }
        }
        if exists|k: int| 0 <= k < commands.len() && runs(#[trigger] commands[k], x) {
            let k = choose|k: int| 0 <= k < commands.len() && runs(#[trigger] commands[k], x);
            if k < less.len() {
                assert(less[k] == commands[k]);
            }
        }
    }
}

/// Scripts stay in the order of their commands, and within a command in its own order: one for
/// each that it stands for, and one where it stands for itself.
pub proof fn lemma_scripts_in_order(a: Seq<ConfigCommandView>, c: ConfigCommandView)
    ensures
        scripts_of(a + seq![c]).len() == scripts_of(a).len() + (match c {
            ConfigCommandView::Plexus { name, actual_commands } => actual_commands.len(),
            _ => 1,
        }),
        forall|i: int|
            0 <= i < scripts_of(a).len() ==> #[trigger] scripts_of(a + seq![c])[i] == scripts_of(
                a,
            )[i],
        c matches ConfigCommandView::Plexus { name, actual_commands } ==> forall|i: int|
            0 <= i < actual_commands.len() ==> scripts_of(a + seq![c])[scripts_of(a).len() + i] == (
            CommandTypeView::Plexus { name, command: #[trigger] actual_commands[i] }),
{
    assert((a + seq![c]).drop_last() =~= a);
    assert((a + seq![c]).last() == c);
}

/// Whether a configuration has a project of a given name.
pub open spec fn has_project(projects: Seq<ProjectView>, name: Seq<char>) -> bool {
    exists|p: int| 0 <= p < projects.len() && (#[trigger] projects[p]).name == name
}

/// Whether a filter stands for a project: it is its name, or the package manager lists it.
pub open spec fn stands_for(c: LoadContext, f: Seq<char>, name: Seq<char>) -> bool {
    if has_project(c.projects, f) {
        name == f
    } else {
        c.packages.contains_key(f) && exists|i: int|
            0 <= i < c.packages[f].len() && #[trigger] c.packages[f][i] == name
    }
}

proof fn lemma_has_project(projects: Seq<ProjectView>, name: Seq<char>)
    ensures
        project_names(projects).contains(name) <==> has_project(projects, name),
        text::first_at(project_names(projects), name) < projects.len() <==> has_project(
            projects,
            name,
        ),
{
    let names = project_names(projects);
    text::lemma_first_at(names, name);
    if names.contains(name) {
        let p = choose|p: int| 0 <= p < names.len() && names[p] == name;
        assert(projects[p].name == name);
    }
    if has_project(projects, name) {
        let p = choose|p: int| 0 <= p < projects.len() && (#[trigger] projects[p]).name == name;
        assert(names[p] == name);
    }
}

proof fn lemma_with_name(s: Seq<Seq<char>>, x: Seq<char>, n: Seq<char>)
    ensures
        with_name(s, x).contains(n) <==> s.contains(n) || n == x,
{
    let all = with_name(s, x);
    if !s.contains(x) {
        if s.contains(n) {
            let i = choose|i: int| 0 <= i < s.len() && s[i] == n;
            assert(all[i] == n);
        }
        assert(all[s.len() as int] == x);
        if all.contains(n) {
            let i = choose|i: int| 0 <= i < all.len() && all[i] == n;
            if i < s.len() {
                assert(s[i] == n);
            }
        }
    }
}

proof fn lemma_with_names(s: Seq<Seq<char>>, xs: Seq<Seq<char>>, n: Seq<char>)
    ensures
        with_names(s, xs).contains(n) <==> s.contains(n) || exists|i: int|
            0 <= i < xs.len() && #[trigger] xs[i] == n,
    decreases xs.len(),
{
    if xs.len() > 0 {
        let less = xs.drop_last();
        lemma_with_names(s, less, n);
        lemma_with_name(with_names(s, less), xs.last(), n);
        if exists|i: int| 0 <= i < less.len() && #[trigger] less[i] == n {
            let i = choose|i: int| 0 <= i < less.len() && #[trigger] less[i] == n;
            assert(xs[i] == n);
        }
        assert(xs[xs.len() - 1] == xs.last());
        if exists|i: int| 0 <= i < xs.len() && #[trigger] xs[i] == n {
            let i = choose|i: int| 0 <= i < xs.len() && #[trigger] xs[i] == n;
            if i < less.len() {
                assert(less[i] == n);
            }
        }
    }
}

/// Filters stand for the projects that they name and for what the package manager lists for the
/// others. Where it has not been asked yet about one of these, it is to be asked about the first.
pub proof fn lemma_filters(c: LoadContext, filters: Seq<Seq<char>>, name: Seq<char>)
    ensures
        match resolved(c, filters) {
            Ok(names) => {
                &&& forall|i: int|
                    0 <= i < filters.len() ==> has_project(c.projects, #[trigger] filters[i])
                        || c.packages.contains_key(filters[i])
                &&& names.contains(name) <==> exists|i: int|
                    0 <= i < filters.len() && stands_for(c, #[trigger] filters[i], name)
            },
            Err(e) => exists|i: int|
                {
                    &&& 0 <= i < filters.len()
                    &&& e == LoadErrorView::NeedPackages(#[trigger] filters[i])
                    &&& !has_project(c.projects, filters[i])
                    &&& !c.packages.contains_key(filters[i])
                    &&& forall|j: int|
                        0 <= j < i ==> has_project(c.projects, #[trigger] filters[j])
                            || c.packages.contains_key(filters[j])
                },
        },
    decreases filters.len(),
{
    if filters.len() > 0 {
        let less = filters.drop_last();
        let f = filters.last();
        let n = filters.len() - 1;
        assert(filters[n] == f);
        lemma_filters(c, less, name);
        lemma_has_project(c.projects, f);
        match resolved(c, less) {
            Ok(before) => {
                assert forall|i: int| 0 <= i < n implies has_project(
                    c.projects,
                    #[trigger] filters[i],
                ) || c.packages.contains_key(filters[i]) by {
                    assert(less[i] == filters[i]);
                }
                lemma_with_name(before, f, name);
                if c.packages.contains_key(f) {
                    lemma_with_names(before, c.packages[f], name);
                }
                if exists|i: int| 0 <= i < less.len() && stands_for(c, #[trigger] less[i], name) {
                    let i = choose|i: int|
                        0 <= i < less.len() && stands_for(c, #[trigger] less[i], name);
                    assert(stands_for(c, filters[i], name));
                }
                if exists|i: int|
                    0 <= i < filters.len() && stands_for(c, #[trigger] filters[i], name) {
                    let i = choose|i: int|
                        0 <= i < filters.len() && stands_for(c, #[trigger] filters[i], name);
                    if i < n {
                        assert(stands_for(c, less[i], name));
                    }
                }
            },
            Err(e) => {
                let i = choose|i: int|
                    {
                        &&& 0 <= i < less.len()
                        &&& e == LoadErrorView::NeedPackages(#[trigger] less[i])
                        &&& !has_project(c.projects, less[i])
                        &&& !c.packages.contains_key(less[i])
                        &&& forall|j: int|
                            0 <= j < i ==> has_project(c.projects, #[trigger] less[j])
                                || c.packages.contains_key(less[j])
                    };
                assert(filters[i] == less[i]);
                assert forall|j: int| 0 <= j < i implies has_project(
                    c.projects,
                    #[trigger] filters[j],
                ) || c.packages.contains_key(filters[j]) by {
                    assert(less[j] == filters[j]);
                }
            },
        }
    }
}

/// What a plan was asked to hold, and who asked for it: nothing is planned that neither the
/// given names nor a project that is planned after it asks for, and what was planned stays.
proof fn lemma_planned_for_a_reason(
    c: LoadContext,
    names: Seq<Seq<char>>,
    parent: Option<int>,
    depth: int,
    plan: Seq<PlannedView>,
)
    requires
        depth <= MAX_DEPTH,
    ensures
        load_names(c, names, parent, depth, plan) matches Ok((after, added)) ==> {
            &&& plan.len() <= after.len()
            &&& forall|k: int| 0 <= k < plan.len() ==> #[trigger] after[k] == plan[k]
            &&& forall|k: int|
                plan.len() <= k < after.len() ==> has_reason(c, names, parent, after, k)
        },
    decreases MAX_DEPTH + 1 - depth, names.len(),
{
    if names.len() > 0 && load_names(c, names, parent, depth, plan) is Ok {
        let less = names.drop_last();
        let name = names.last();
        lemma_planned_for_a_reason(c, less, parent, depth, plan);
        let (before, _) = load_names(c, less, parent, depth, plan)->Ok_0;
        let (all, _) = load_names(c, names, parent, depth, plan)->Ok_0;
        let p = text::first_at(project_names(c.projects), name);
        text::lemma_first_at(project_names(c.projects), name);
        assert(names[names.len() - 1] == name);
        let adds = !is_loaded(c, before, name) && asked(c.projects[p].commands, c.commands).len()
            > 0;
        if adds {
            assert(project_names(c.projects)[p] == c.projects[p].name);
            match c.projects[p].depends_on {
                None => {
                    assert(all.drop_last() =~= before);
                },
                Some(deps) => {
                    assert(load_level(c, deps, Some(p), depth + 1, before) is Ok);
                    let inner = resolved(c, deps)->Ok_0;
                    lemma_planned_for_a_reason(c, inner, Some(p), depth + 1, before);
                    let after = load_names(c, inner, Some(p), depth + 1, before)->Ok_0.0;
                    assert(all.drop_last() =~= after);
                    assert(all[after.len() as int].project == p);
                    assert forall|k: int| before.len() <= k < after.len() implies has_reason(
                        c,
                        names,
                        parent,
                        all,
                        k,
                    ) by {
                        assert(has_reason(c, inner, Some(p), after, k));
                        assert(all[k] == after[k]);
                        let own = c.projects[after[k].project].name;
                        if after[k].parent == Some(p) && inner.contains(own) {
                            assert(depends(c, name, own));
                            assert(asks_for(c, all, after.len() as int, k));
                        } else {
                            let j = choose|j: int|
                                k < j < after.len() && #[trigger] asks_for(c, after, j, k);
                            assert(all[j] == after[j]);
                            assert(asks_for(c, all, j, k));
                        }
                    }
                },
            }
            assert(names.contains(c.projects[p].name));
            assert(has_reason(c, names, parent, all, all.len() - 1));
        }
        assert forall|k: int| plan.len() <= k < before.len() implies has_reason(
            c,
            names,
            parent,
            all,
            k,
        ) by {
            assert(has_reason(c, less, parent, before, k));
            assert(all[k] == before[k]);
            let own = c.projects[before[k].project].name;
            if before[k].parent == parent && less.contains(own) {
                let i = choose|i: int| 0 <= i < less.len() && less[i] == own;
                assert(names[i] == own);
            } else {
                let j = choose|j: int|
                    k < j < before.len() && #[trigger] asks_for(c, before, j, k);
                assert(all[j] == before[j]);
                assert(asks_for(c, all, j, k));
            }
        }
    }
}

/// Whether the project at place `j` of a plan depends on the one at place `k`, and is the one
/// that it was planned for.
pub open spec fn asks_for(c: LoadContext, plan: Seq<PlannedView>, j: int, k: int) -> bool {
    &&& plan[k].parent == Some(plan[j].project)
    &&& depends(c, c.projects[plan[j].project].name, c.projects[plan[k].project].name)
}

/// Whether the project at place `k` of a plan is one of `names` or was asked for by one that
/// comes after it.
pub open spec fn has_reason(
    c: LoadContext,
    names: Seq<Seq<char>>,
    parent: Option<int>,
    plan: Seq<PlannedView>,
    k: int,
) -> bool {
    ||| plan[k].parent == parent && names.contains(c.projects[plan[k].project].name)
    ||| exists|j: int| k < j < plan.len() && #[trigger] asks_for(c, plan, j, k)
}

/// Nothing is loaded that was not asked for: a planned project is one that a filter stands for
/// and waits for nobody's sake, or one that a project planned after it depends on, which is then
/// its parent.
pub proof fn lemma_nothing_unasked(c: LoadContext, filters: Seq<Seq<char>>, k: int)
    requires
        load_level(c, filters, None, 0, Seq::empty()) matches Ok((plan, roots)) && 0 <= k
            < plan.len(),
    ensures
        ({
            let plan = load_level(c, filters, None, 0, Seq::empty())->Ok_0.0;
            let own = c.projects[plan[k].project].name;
            ||| plan[k].parent is None && exists|i: int|
                0 <= i < filters.len() && stands_for(c, #[trigger] filters[i], own)
            ||| exists|j: int|
                k < j < plan.len() && plan[k].parent == Some((#[trigger] plan[j]).project)
                    && depends(c, c.projects[plan[j].project].name, own)
        }),
{
    let names = resolved(c, filters)->Ok_0;
    lemma_planned_for_a_reason(c, names, None, 0, Seq::empty());
    let plan = load_level(c, filters, None, 0, Seq::empty())->Ok_0.0;
    let own = c.projects[plan[k].project].name;
    lemma_filters(c, filters, own);
    assert(has_reason(c, names, None, plan, k));
    if !(plan[k].parent == None::<int> && names.contains(own)) {
        let j = choose|j: int| k < j < plan.len() && #[trigger] asks_for(c, plan, j, k);
        assert(plan[k].parent == Some(plan[j].project));
    }
}

/// Whether a project has a command with one of the given names.
pub open spec fn has_command(project: ProjectView, names: Seq<Seq<char>>) -> bool {
    exists|k: int| 0 <= k < project.commands.len() && goes_by(#[trigger] project.commands[k], names)
}

/// Whether `p` is the first project of its name.
pub open spec fn is_project(projects: Seq<ProjectView>, p: int, name: Seq<char>) -> bool {
    &&& 0 <= p < projects.len()
    &&& projects[p].name == name
    &&& forall|q: int| 0 <= q < p ==> (#[trigger] projects[q]).name != name
}

proof fn lemma_is_project(projects: Seq<ProjectView>, p: int, name: Seq<char>)
    ensures
        is_project(projects, p, name) <==> 0 <= p < projects.len() && text::first_at(
            project_names(projects),
            name,
        ) == p,
{
    let names = project_names(projects);
    text::lemma_first_at(names, name);
    if is_project(projects, p, name) {
        assert forall|q: int| 0 <= q < p implies names[q] != name by {
            assert(names[q] == projects[q].name);
        }
        text::lemma_is_first_at(names, name, p);
    }
    if 0 <= p < projects.len() && text::first_at(names, name) == p {
        assert(names[p] == name);
        assert forall|q: int| 0 <= q < p implies (#[trigger] projects[q]).name != name by {
            assert(names[q] == projects[q].name);
        }
    }
}

proof fn lemma_has_command(project: ProjectView, names: Seq<Seq<char>>)
    ensures
        asked(project.commands, names).len() > 0 <==> has_command(project, names),
{
    let all = asked(project.commands, names);
    if all.len() > 0 {
        lemma_asked_members(project.commands, names, all[0]);
        assert(all.contains(all[0]));
        let k = choose|k: int|
            0 <= k < project.commands.len() && #[trigger] project.commands[k] == all[0];
        assert(goes_by(project.commands[k], names));
    }
    if has_command(project, names) {
        let k = choose|k: int|
            0 <= k < project.commands.len() && goes_by(#[trigger] project.commands[k], names);
        lemma_asked_members(project.commands, names, project.commands[k]);
        assert(all.contains(project.commands[k]));
    }
}

/// Whether the ids that are at hand are as good as unique.
pub open spec fn tell_apart(m: ManagerView, ids: Seq<FreshView>) -> bool {
    &&& all_fresh(ids)
    &&& forall|p: int, q: int|
        0 <= p < q < ids.len() ==> (#[trigger] ids[p]).task != (#[trigger] ids[q]).task
    &&& forall|p: int|
        0 <= p < ids.len() ==> !task_ids(m.store.tasks).contains((#[trigger] ids[p]).task)
            && ids[p].commands.no_duplicates()
}

proof fn lemma_projects_planned(c: LoadContext, plan: Seq<PlannedView>)
    requires
        settled(c, plan),
    ensures
        forall|k: int|
            0 <= k < plan.len() ==> is_project(
                c.projects,
                (#[trigger] plan[k]).project,
                c.projects[plan[k].project].name,
            ) && has_command(c.projects[plan[k].project], c.commands),
        forall|k: int, l: int|
            0 <= k < l < plan.len() ==> (#[trigger] plan[k]).project != (
            #[trigger] plan[l]).project,
{
    let names = planned_names(c, plan);
    assert forall|k: int| 0 <= k < plan.len() implies is_project(
        c.projects,
        (#[trigger] plan[k]).project,
        c.projects[plan[k].project].name,
    ) && has_command(c.projects[plan[k].project], c.commands) by {
        let name = names[k];
        assert(name == c.projects[plan[k].project].name);
        assert(loadable(c, name));
        text::lemma_first_at(project_names(c.projects), name);
        lemma_is_project(c.projects, plan[k].project, name);
        lemma_has_command(c.projects[plan[k].project], c.commands);
    }
    assert forall|k: int, l: int| 0 <= k < l < plan.len() implies (#[trigger] plan[k]).project != (
    #[trigger] plan[l]).project by {
        assert(names[k] != names[l]);
        assert(names[k] == c.projects[plan[k].project].name);
        assert(names[l] == c.projects[plan[l].project].name);
    }
}

proof fn lemma_added_exactly(
    m: ManagerView,
    c: LoadContext,
    ids: Seq<FreshView>,
    plan: Seq<PlannedView>,
    n: int,
)
    requires
        0 <= n <= plan.len(),
        settled(c, plan),
        ids.len() == c.projects.len(),
        tell_apart(m, ids),
    ensures
        ({
            let tasks = added(m, c.projects, c.commands, ids, plan, n).store.tasks;
            let old = m.store.tasks;
            &&& tasks.len() == old.len() + n
            &&& forall|t: int| 0 <= t < old.len() ==> #[trigger] tasks[t] == old[t]
            &&& forall|k: int|
                0 <= k < n ==> tasks[old.len() + k] == planned_task(
                    c.projects,
                    c.commands,
                    ids,
                    #[trigger] plan[k],
                )
        }),
    decreases n,
{
    if n > 0 {
        lemma_added_exactly(m, c, ids, plan, n - 1);
        lemma_projects_planned(c, plan);
        let before = added(m, c.projects, c.commands, ids, plan, n - 1).store.tasks;
        let old = m.store.tasks;
        let x = planned_task(c.projects, c.commands, ids, plan[n - 1]);
        let all = task_ids(before);
        text::lemma_first_at(all, x.id);
        let at = text::first_at(all, x.id);
        if at < before.len() {
            assert(all[at] == before[at].id);
            if at < old.len() {
                assert(task_ids(old)[at] == x.id);
            } else {
                let k = at - old.len();
                assert(before[old.len() + k] == planned_task(
                    c.projects,
                    c.commands,
                    ids,
                    plan[k],
                ));
                assert(plan[k].project != plan[n - 1].project);
            }
            assert(false);
        }
    }
}

proof fn lemma_distinct_command_ids(
    name: Seq<char>,
    scripts: Seq<CommandTypeView>,
    uuids: Seq<Seq<char>>,
)
    requires
        scripts.len() == uuids.len(),
        all_drawn(uuids),
        uuids.no_duplicates(),
    ensures
        forall|i: int, j: int|
            0 <= i < j < scripts.len() ==> #[trigger] command_id(name, scripts[i], uuids[i])
                != #[trigger] command_id(name, scripts[j], uuids[j]),
{
    assert forall|i: int, j: int| 0 <= i < j < scripts.len() implies #[trigger] command_id(
        name,
        scripts[i],
        uuids[i],
    ) != #[trigger] command_id(name, scripts[j], uuids[j]) by {
        let a = command_id(name, scripts[i], uuids[i]);
        let b = command_id(name, scripts[j], uuids[j]);
        assert(crate::task::is_drawn(uuids[i]) && crate::task::is_drawn(uuids[j]));
        assert(a.skip(a.len() - 36) =~= uuids[i]);
        assert(b.skip(b.len() - 36) =~= uuids[j]);
        assert(uuids[i] != uuids[j]);
    }
}

/// What a load leads to: the tasks that were there, and after them one task for each project of
/// the plan, with its name and path and under the id that was drawn for it.
pub proof fn lemma_loaded_tasks(
    m: ManagerView,
    projects: Seq<ProjectView>,
    commands: Seq<Seq<char>>,
    packages: Map<Seq<char>, Seq<Seq<char>>>,
    filters: Seq<Seq<char>>,
    ids: Seq<FreshView>,
)
    requires
        load_level(
            load_context(m, projects, commands, packages),
            filters,
            None,
            0,
            Seq::empty(),
        ) is Ok,
        ids.len() == projects.len(),
        tell_apart(m, ids),
    ensures
        ({
            let c = load_context(m, projects, commands, packages);
            let plan = load_level(c, filters, None, 0, Seq::empty())->Ok_0.0;
            let tasks = loaded(m, projects, commands, ids, plan).store.tasks;
            let old = m.store.tasks;
            &&& tasks.len() == old.len() + plan.len()
            &&& forall|t: int|
                0 <= t < old.len() ==> {
                    &&& (#[trigger] tasks[t]).id == old[t].id
                    &&& tasks[t].name == old[t].name
                    &&& tasks[t].path == old[t].path
                    &&& tasks[t].commands == old[t].commands
                    &&& tasks[t].parent_id == old[t].parent_id
                }
            &&& forall|k: int|
                0 <= k < plan.len() ==> {
                    let p = (#[trigger] plan[k]).project;
                    let task = tasks[old.len() + k];
                    &&& is_project(projects, p, task.name)
                    &&& has_command(projects[p], commands)
                    &&& task.id == ids[p].task
                    &&& task.path == projects[p].path
                    &&& task.parent_id == (match plan[k].parent {
                        Some(q) => Some(ids[q].task),
                        None => None,
                    })
                }
        }),
{
    let c = load_context(m, projects, commands, packages);
    let plan = load_level(c, filters, None, 0, Seq::empty())->Ok_0.0;
    lemma_plan(c, filters);
    lemma_projects_planned(c, plan);
    let n = plan.len() as int;
    lemma_added_exactly(m, c, ids, plan, n);
    let tasks = added(m, projects, commands, ids, plan, n).store.tasks;
    lemma_linked(tasks, projects, tasks.len() as int);
    let all = loaded(m, projects, commands, ids, plan).store.tasks;
    let old = m.store.tasks;
    assert forall|t: int| 0 <= t < old.len() implies {
        &&& (#[trigger] all[t]).id == old[t].id
        &&& all[t].name == old[t].name
        &&& all[t].path == old[t].path
        &&& all[t].commands == old[t].commands
        &&& all[t].parent_id == old[t].parent_id
    } by {
        assert(tasks[t] == old[t]);
        assert(all[t] == (TaskView { children_id: all[t].children_id, ..tasks[t] }));
    }
    assert forall|k: int| 0 <= k < plan.len() implies {
        let p = (#[trigger] plan[k]).project;
        let task = all[old.len() + k];
        &&& is_project(projects, p, task.name)
        &&& has_command(projects[p], commands)
        &&& task.id == ids[p].task
        &&& task.path == projects[p].path
        &&& task.parent_id == (match plan[k].parent {
            Some(q) => Some(ids[q].task),
            None => None,
        })
    } by {
        let t = old.len() + k;
        assert(tasks[t] == planned_task(projects, commands, ids, plan[k]));
        assert(all[t] == (TaskView { children_id: all[t].children_id, ..tasks[t] }));
    }
}

/// A loaded task runs exactly what the commands of its project that were asked for stand for: a
/// script of its own name, or each of several under one label.
pub proof fn lemma_loaded_command(
    m: ManagerView,
    projects: Seq<ProjectView>,
    commands: Seq<Seq<char>>,
    packages: Map<Seq<char>, Seq<Seq<char>>>,
    filters: Seq<Seq<char>>,
    ids: Seq<FreshView>,
    t: int,
    x: CommandTypeView,
)
    requires
        load_level(
            load_context(m, projects, commands, packages),
            filters,
            None,
            0,
            Seq::empty(),
        ) matches Ok((plan, roots)) && m.store.tasks.len() <= t < m.store.tasks.len() + plan.len(),
        ids_fit(projects, commands, ids),
        tell_apart(m, ids),
    ensures
        ({
            let c = load_context(m, projects, commands, packages);
            let plan = load_level(c, filters, None, 0, Seq::empty())->Ok_0.0;
            let task = loaded(m, projects, commands, ids, plan).store.tasks[t];
            let own = projects[plan[t - m.store.tasks.len()].project].commands;
            &&& (exists|i: int|
                0 <= i < task.commands.len() && (#[trigger] task.commands[i]).command == x)
                <==> (exists|k: int|
                0 <= k < own.len() && goes_by(#[trigger] own[k], commands) && runs(own[k], x))
            &&& forall|i: int|
                0 <= i < task.commands.len() ==> (#[trigger] task.commands[i]).status is Init
        }),
{
    let c = load_context(m, projects, commands, packages);
    let plan = load_level(c, filters, None, 0, Seq::empty())->Ok_0.0;
    lemma_plan(c, filters);
    lemma_projects_planned(c, plan);
    let n = plan.len() as int;
    lemma_added_exactly(m, c, ids, plan, n);
    let tasks = added(m, projects, commands, ids, plan, n).store.tasks;
    lemma_linked(tasks, projects, tasks.len() as int);
    let all = loaded(m, projects, commands, ids, plan).store.tasks;
    let k0 = t - m.store.tasks.len();
    let p = plan[k0].project;
    assert(tasks[m.store.tasks.len() + k0] == planned_task(projects, commands, ids, plan[k0]));
    assert(all[t] == (TaskView { children_id: all[t].children_id, ..tasks[t] }));
    let project = projects[p];
    let own = project.commands;
    let taken = asked(own, commands);
    let scripts = scripts_of(taken);
    let uuids = ids[p].commands;
    lemma_distinct_command_ids(project.name, scripts, uuids);
    lemma_new_commands_distinct(project.name, scripts, uuids);
    let cmds = all[t].commands;
    assert(cmds == new_commands(project.name, scripts, uuids));
    assert(forall|i: int|
        0 <= i < cmds.len() ==> #[trigger] cmds[i] == new_command(
            project.name,
            scripts[i],
            uuids[i],
        ));
    lemma_scripts(taken, x);
    if exists|i: int| 0 <= i < cmds.len() && (#[trigger] cmds[i]).command == x {
        let i = choose|i: int| 0 <= i < cmds.len() && (#[trigger] cmds[i]).command == x;
        assert(scripts[i] == x);
        assert(scripts.contains(x));
        let a = choose|a: int| 0 <= a < taken.len() && runs(#[trigger] taken[a], x);
        lemma_asked_members(own, commands, taken[a]);
        assert(taken.contains(taken[a]));
        let k = choose|k: int| 0 <= k < own.len() && #[trigger] own[k] == taken[a];
        assert(goes_by(own[k], commands) && runs(own[k], x));
    }
    if exists|k: int|
        0 <= k < own.len() && goes_by(#[trigger] own[k], commands) && runs(own[k], x) {
        let k = choose|k: int|
            0 <= k < own.len() && goes_by(#[trigger] own[k], commands) && runs(own[k], x);
        lemma_asked_members(own, commands, own[k]);
        assert(taken.contains(own[k]));
        let a = choose|a: int| 0 <= a < taken.len() && taken[a] == own[k];
        assert(runs(taken[a], x));
        assert(scripts.contains(x));
        let i = choose|i: int| 0 <= i < scripts.len() && scripts[i] == x;
        assert(cmds[i].command == x);
    }
}

/// Whatever a filter stands for and has a command that was asked for is there after a load, and
/// so is whatever such a project depends on, and so on.
pub proof fn lemma_all_asked_is_loaded(
    m: ManagerView,
    projects: Seq<ProjectView>,
    commands: Seq<Seq<char>>,
    packages: Map<Seq<char>, Seq<Seq<char>>>,
    filters: Seq<Seq<char>>,
    ids: Seq<FreshView>,
    p: int,
)
    requires
        load_level(
            load_context(m, projects, commands, packages),
            filters,
            None,
            0,
            Seq::empty(),
        ) is Ok,
        ids.len() == projects.len(),
        tell_apart(m, ids),
        is_project(projects, p, projects[p].name),
        has_command(projects[p], commands),
    ensures
        ({
            let c = load_context(m, projects, commands, packages);
            let plan = load_level(c, filters, None, 0, Seq::empty())->Ok_0.0;
            let tasks = loaded(m, projects, commands, ids, plan).store.tasks;
            let wanted = exists|i: int|
                0 <= i < filters.len() && stands_for(c, #[trigger] filters[i], projects[p].name);
            let needed = exists|k: int|
                0 <= k < plan.len() && (projects[(#[trigger] plan[k]).project].depends_on matches Some(
                    deps,
                ) && exists|d: int|
                    0 <= d < deps.len() && stands_for(c, #[trigger] deps[d], projects[p].name));
            wanted || needed ==> exists|t: int|
                0 <= t < tasks.len() && (#[trigger] tasks[t]).name == projects[p].name
        }),
{
    let c = load_context(m, projects, commands, packages);
    let plan = load_level(c, filters, None, 0, Seq::empty())->Ok_0.0;
    let tasks = loaded(m, projects, commands, ids, plan).store.tasks;
    let old = m.store.tasks;
    let name = projects[p].name;
    let names = planned_names(c, plan);
    lemma_plan(c, filters);
    lemma_loaded_tasks(m, projects, commands, packages, filters, ids);
    lemma_filters(c, filters, name);
    lemma_is_project(projects, p, name);
    lemma_has_command(projects[p], commands);
    assert(loadable(c, name));
    let wanted = exists|i: int|
        0 <= i < filters.len() && stands_for(c, #[trigger] filters[i], name);
    let needed = exists|k: int|
        0 <= k < plan.len() && (projects[(#[trigger] plan[k]).project].depends_on matches Some(deps)
            && exists|d: int| 0 <= d < deps.len() && stands_for(c, #[trigger] deps[d], name));
    if wanted {
        assert(is_loaded(c, plan, name));
    } else if needed {
        let k = choose|k: int|
            0 <= k < plan.len() && (projects[(#[trigger] plan[k]).project].depends_on matches Some(
                deps,
            ) && exists|d: int| 0 <= d < deps.len() && stands_for(c, #[trigger] deps[d], name));
        let from = names[k];
        assert(from == projects[plan[k].project].name);
        let deps = projects[plan[k].project].depends_on->0;
        lemma_filters(c, deps, name);
        lemma_deps_resolved(c, filters, k);
        assert(depends(c, from, name));
        assert(loaded_by(c, plan, k, name));
        if !c.existing.contains(name) {
            let j = choose|j: int| 0 <= j < k && #[trigger] names[j] == name;
            assert(names.contains(name));
        }
        assert(is_loaded(c, plan, name));
    }
    if wanted || needed {
        if c.existing.contains(name) {
            let t = choose|t: int| 0 <= t < c.existing.len() && c.existing[t] == name;
            assert(old[t].name == name);
            assert(tasks[t].name == name);
        } else {
            let j = choose|j: int| 0 <= j < names.len() && names[j] == name;
            assert(names[j] == projects[plan[j].project].name);
            assert(tasks[old.len() + j].name == name);
        }
    }
}

proof fn lemma_names_resolved(
    c: LoadContext,
    names: Seq<Seq<char>>,
    parent: Option<int>,
    depth: int,
    plan: Seq<PlannedView>,
)
    requires
        depth <= MAX_DEPTH,
        forall|k: int|
            0 <= k < plan.len() ==> (c.projects[(#[trigger] plan[k]).project].depends_on matches Some(
                deps,
            ) ==> resolved(c, deps) is Ok),
    ensures
        load_names(c, names, parent, depth, plan) matches Ok((after, added)) ==> forall|k: int|
            0 <= k < after.len() ==> (c.projects[(
            #[trigger] after[k]).project].depends_on matches Some(deps) ==> resolved(c, deps) is Ok),
    decreases MAX_DEPTH + 1 - depth, names.len(),
{
    if names.len() > 0 && load_names(c, names, parent, depth, plan) is Ok {
        let less = names.drop_last();
        let name = names.last();
        lemma_names_resolved(c, less, parent, depth, plan);
        let (before, _) = load_names(c, less, parent, depth, plan)->Ok_0;
        let p = text::first_at(project_names(c.projects), name);
        if !is_loaded(c, before, name) && asked(c.projects[p].commands, c.commands).len() > 0 {
            if let Some(deps) = c.projects[p].depends_on {
                assert(load_level(c, deps, Some(p), depth + 1, before) is Ok);
                let inner = resolved(c, deps)->Ok_0;
                lemma_names_resolved(c, inner, Some(p), depth + 1, before);
            }
        }
    }
}

proof fn lemma_deps_resolved(c: LoadContext, filters: Seq<Seq<char>>, k: int)
    requires
        load_level(c, filters, None, 0, Seq::empty()) matches Ok((plan, roots)) && 0 <= k
            < plan.len(),
    ensures
        ({
            let plan = load_level(c, filters, None, 0, Seq::empty())->Ok_0.0;
            c.projects[plan[k].project].depends_on matches Some(deps) ==> resolved(c, deps) is Ok
        }),
{
    lemma_names_resolved(c, resolved(c, filters)->Ok_0, None, 0, Seq::empty());
}

proof fn lemma_ids_of_names_exactly(tasks: Seq<TaskView>, names: Seq<Seq<char>>, id: Seq<char>)
    ensures
        ids_of_names(tasks, names).contains(id) <==> exists|u: int|
            0 <= u < tasks.len() && (#[trigger] tasks[u]).id == id && names.contains(tasks[u].name),
    decreases tasks.len(),
{
    if tasks.len() > 0 {
        let less = tasks.drop_last();
        let last = tasks.last();
        lemma_ids_of_names_exactly(less, names, id);
        let before = ids_of_names(less, names);
        let all = ids_of_names(tasks, names);
        assert(tasks[tasks.len() - 1] == last);
        if before.contains(id) {
            let i = choose|i: int| 0 <= i < before.len() && before[i] == id;
            assert(all[i] == id);
            let u = choose|u: int|
                0 <= u < less.len() && (#[trigger] less[u]).id == id && names.contains(
                    less[u].name,
                );
            assert(tasks[u] == less[u]);
        }
        if all.contains(id) {
            let i = choose|i: int| 0 <= i < all.len() && all[i] == id;
            if i < before.len() {
                assert(before[i] == id);
            }
        }
        if exists|u: int|
            0 <= u < tasks.len() && (#[trigger] tasks[u]).id == id && names.contains(
                tasks[u].name,
            ) {
            let u = choose|u: int|
                0 <= u < tasks.len() && (#[trigger] tasks[u]).id == id && names.contains(
                    tasks[u].name,
                );
            if u < less.len() {
                assert(less[u] == tasks[u]);
            } else {
                assert(all[before.len() as int] == id);
            }
        }
    }
}

/// A loaded task waits for exactly the tasks of the projects that its own names in
/// `depends_on`, and for none where it names none.
pub proof fn lemma_loaded_children(
    m: ManagerView,
    projects: Seq<ProjectView>,
    commands: Seq<Seq<char>>,
    packages: Map<Seq<char>, Seq<Seq<char>>>,
    filters: Seq<Seq<char>>,
    ids: Seq<FreshView>,
    t: int,
    u: int,
)
    requires
        load_level(
            load_context(m, projects, commands, packages),
            filters,
            None,
            0,
            Seq::empty(),
        ) matches Ok((plan, roots)) && m.store.tasks.len() <= t < m.store.tasks.len() + plan.len()
            && 0 <= u < m.store.tasks.len() + plan.len(),
        ids.len() == projects.len(),
        tell_apart(m, ids),
        task_ids(m.store.tasks).no_duplicates(),
    ensures
        ({
            let c = load_context(m, projects, commands, packages);
            let plan = load_level(c, filters, None, 0, Seq::empty())->Ok_0.0;
            let tasks = loaded(m, projects, commands, ids, plan).store.tasks;
            match projects[plan[t - m.store.tasks.len()].project].depends_on {
                None => tasks[t].children_id is None,
                Some(deps) => tasks[t].children_id matches Some(children) && ((exists|i: int|
                    0 <= i < children.len() && #[trigger] children[i] == tasks[u].id) <==> (exists|
                    d: int,
                |
                    0 <= d < deps.len() && #[trigger] deps[d] == tasks[u].name)),
            }
        }),
{
    let c = load_context(m, projects, commands, packages);
    let plan = load_level(c, filters, None, 0, Seq::empty())->Ok_0.0;
    lemma_plan(c, filters);
    lemma_projects_planned(c, plan);
    let n = plan.len() as int;
    lemma_added_exactly(m, c, ids, plan, n);
    let tasks = added(m, projects, commands, ids, plan, n).store.tasks;
    lemma_linked(tasks, projects, tasks.len() as int);
    let all = loaded(m, projects, commands, ids, plan).store.tasks;
    let old = m.store.tasks;
    let names = planned_names(c, plan);
    let k = t - old.len();
    let p = plan[k].project;
    assert(tasks[old.len() + k] == planned_task(projects, commands, ids, plan[k]));
    assert(all[t] == (TaskView { children_id: all[t].children_id, ..tasks[t] }));
    assert(all[u] == (TaskView { children_id: all[u].children_id, ..tasks[u] }));
    assert(names[k] == projects[p].name);
    let here = task_names(tasks);
    text::lemma_first_at(here, tasks[t].name);
    assert(here[t] == tasks[t].name);
    let f = text::first_at(here, tasks[t].name);
    if f != t {
        assert(here[f] == tasks[f].name);
        if f < old.len() {
            assert(c.existing[f] == old[f].name);
            assert(tasks[f] == old[f]);
            assert(c.existing.contains(names[k]));
        } else {
            assert(tasks[old.len() + (f - old.len())] == planned_task(
                projects,
                commands,
                ids,
                plan[f - old.len()],
            ));
            assert(names[f - old.len()] == names[k]);
        }
        assert(false);
    }
    lemma_is_project(projects, p, projects[p].name);
    assert(deps_at(projects, tasks, t) == projects[p].depends_on);
    if let Some(deps) = projects[p].depends_on {
        let children = ids_of_names(tasks, deps);
        assert(all[t].children_id == Some(children));
        lemma_ids_of_names_exactly(tasks, deps, tasks[u].id);
        assert forall|v: int| 0 <= v < tasks.len() && (#[trigger] tasks[v]).id == tasks[u].id implies v
            == u by {
            lemma_task_ids_distinct(m, c, ids, plan, u, v);
        }
        assert((exists|i: int| 0 <= i < children.len() && #[trigger] children[i] == tasks[u].id)
            <==> children.contains(tasks[u].id));
        assert((exists|d: int| 0 <= d < deps.len() && #[trigger] deps[d] == tasks[u].name)
            <==> deps.contains(tasks[u].name));
    } else {
        assert(plan[k].children is None);
        lemma_linked_keeps(tasks, projects, tasks.len() as int, t);
    }
}

proof fn lemma_linked_keeps(tasks: Seq<TaskView>, projects: Seq<ProjectView>, n: int, t: int)
    requires
        0 <= n <= tasks.len(),
        0 <= t < tasks.len(),
        projects[text::first_at(project_names(projects), tasks[t].name)].depends_on is None,
    ensures
        linked(tasks, projects, task_names(tasks), n)[t].children_id == tasks[t].children_id,
    decreases n,
{
    if n > 0 {
        lemma_linked_keeps(tasks, projects, n - 1, t);
        lemma_linked(tasks, projects, n - 1);
        let names = task_names(tasks);
        let before = linked(tasks, projects, names, n - 1);
        let name = names[n - 1];
        text::lemma_first_at(task_names(before), name);
        let at = text::first_at(task_names(before), name);
        assert(task_names(before)[n - 1] == name);
        if at == t {
            assert(task_names(before)[t] == name);
            assert(names[t] == tasks[t].name);
        }
    }
}

proof fn lemma_task_ids_distinct(
    m: ManagerView,
    c: LoadContext,
    ids: Seq<FreshView>,
    plan: Seq<PlannedView>,
    u: int,
    v: int,
)
    requires
        settled(c, plan),
        ids.len() == c.projects.len(),
        tell_apart(m, ids),
        task_ids(m.store.tasks).no_duplicates(),
        0 <= u < m.store.tasks.len() + plan.len(),
        0 <= v < m.store.tasks.len() + plan.len(),
        ({
            let tasks = added(m, c.projects, c.commands, ids, plan, plan.len() as int).store.tasks;
            tasks[u].id == tasks[v].id
        }),
    ensures
        u == v,
{
    let n = plan.len() as int;
    lemma_added_exactly(m, c, ids, plan, n);
    lemma_projects_planned(c, plan);
    let tasks = added(m, c.projects, c.commands, ids, plan, n).store.tasks;
    let old = m.store.tasks;
    let old_ids = task_ids(old);
    if u < old.len() {
        assert(old_ids[u] == old[u].id);
        assert(tasks[u] == old[u]);
    } else {
        assert(tasks[old.len() + (u - old.len())] == planned_task(
            c.projects,
            c.commands,
            ids,
            plan[u - old.len()],
        ));
    }
    if v < old.len() {
        assert(old_ids[v] == old[v].id);
        assert(tasks[v] == old[v]);
    } else {
        assert(tasks[old.len() + (v - old.len())] == planned_task(
            c.projects,
            c.commands,
            ids,
            plan[v - old.len()],
        ));
    }
}

proof fn lemma_added_rest(
    m: ManagerView,
    projects: Seq<ProjectView>,
    commands: Seq<Seq<char>>,
    ids: Seq<FreshView>,
    plan: Seq<PlannedView>,
    n: int,
)
    requires
        0 <= n <= plan.len(),
    ensures
        ({
            let after = added(m, projects, commands, ids, plan, n);
            &&& after.store.logs == m.store.logs
            &&& after.store.last_run_time == m.store.last_run_time
            &&& after.watch_data.len() == m.watch_data.len() + n
            &&& forall|i: int|
                0 <= i < m.watch_data.len() ==> #[trigger] after.watch_data[i] == m.watch_data[i]
            &&& forall|k: int|
                0 <= k < n ==> {
                    let w = after.watch_data[m.watch_data.len() + k];
                    &&& w.task_id == ids[(#[trigger] plan[k]).project].task
                    &&& w.task_path == projects[plan[k].project].path
                }
            &&& forall|k: int, i: int|
                #![trigger planned_task(projects, commands, ids, plan[k]).commands[i]]
                0 <= k < n && 0 <= i < planned_task(
                    projects,
                    commands,
                    ids,
                    plan[k],
                ).commands.len() ==> {
                    let id = planned_task(projects, commands, ids, plan[k]).commands[i].id;
                    after.store.statuses.contains_key(id) && after.store.statuses[id] is Init
                }
        }),
    decreases n,
{
    if n > 0 {
        lemma_added_rest(m, projects, commands, ids, plan, n - 1);
        let before = added(m, projects, commands, ids, plan, n - 1);
        let after = added(m, projects, commands, ids, plan, n);
        let x = planned_task(projects, commands, ids, plan[n - 1]);
        assert forall|k: int, i: int|
            #![trigger planned_task(projects, commands, ids, plan[k]).commands[i]]
            0 <= k < n && 0 <= i < planned_task(
                projects,
                commands,
                ids,
                plan[k],
            ).commands.len() implies {
            let id = planned_task(projects, commands, ids, plan[k]).commands[i].id;
            after.store.statuses.contains_key(id) && after.store.statuses[id] is Init
        } by {
            let id = planned_task(projects, commands, ids, plan[k]).commands[i].id;
            if k < n - 1 {
                assert(before.store.statuses.contains_key(id));
            } else {
                assert(command_ids(x.commands)[i] == id);
            }
        }
    }
}

/// After a load every command of a new task is known and waits for its turn, each new task has
/// one entry among what is watched, no output is lost, and the manager loads no longer.
pub proof fn lemma_loaded_rest(
    m: ManagerView,
    projects: Seq<ProjectView>,
    commands: Seq<Seq<char>>,
    packages: Map<Seq<char>, Seq<Seq<char>>>,
    filters: Seq<Seq<char>>,
    ids: Seq<FreshView>,
    k: int,
)
    requires
        load_level(
            load_context(m, projects, commands, packages),
            filters,
            None,
            0,
            Seq::empty(),
        ) matches Ok((plan, roots)) && 0 <= k < plan.len(),
        ids.len() == projects.len(),
        tell_apart(m, ids),
    ensures
        ({
            let c = load_context(m, projects, commands, packages);
            let plan = load_level(c, filters, None, 0, Seq::empty())->Ok_0.0;
            let after = loaded(m, projects, commands, ids, plan);
            let task = after.store.tasks[m.store.tasks.len() + k];
            let watched = after.watch_data[m.watch_data.len() + k];
            &&& forall|i: int|
                0 <= i < task.commands.len() ==> after.store.statuses.contains_key(
                    (#[trigger] task.commands[i]).id,
                ) && after.store.statuses[task.commands[i].id] is Init
            &&& after.watch_data.len() == m.watch_data.len() + plan.len()
            &&& watched.task_id == task.id
            &&& watched.task_path == task.path
            &&& after.store.logs == m.store.logs
            &&& after.store.last_run_time == m.store.last_run_time
            &&& !after.is_loading
        }),
{
    let c = load_context(m, projects, commands, packages);
    let plan = load_level(c, filters, None, 0, Seq::empty())->Ok_0.0;
    let n = plan.len() as int;
    lemma_plan(c, filters);
    lemma_added_exactly(m, c, ids, plan, n);
    lemma_added_rest(m, projects, commands, ids, plan, n);
    let tasks = added(m, projects, commands, ids, plan, n).store.tasks;
    lemma_linked(tasks, projects, tasks.len() as int);
    let after = loaded(m, projects, commands, ids, plan);
    let t = m.store.tasks.len() + k;
    let all = after.store.tasks;
    assert(tasks[t] == planned_task(projects, commands, ids, plan[k]));
    assert(all[t] == (TaskView { children_id: all[t].children_id, ..tasks[t] }));
    assert forall|i: int| 0 <= i < all[t].commands.len() implies after.store.statuses.contains_key(
        (#[trigger] all[t].commands[i]).id,
    ) && after.store.statuses[all[t].commands[i].id] is Init by {
        assert(planned_task(projects, commands, ids, plan[k]).commands[i] == all[t].commands[i]);
    }
}

/// Whether `height` bounds how deep the dependencies of each project are nested.
pub open spec fn is_height(c: LoadContext, height: spec_fn(Seq<char>) -> nat) -> bool {
    forall|name: Seq<char>, p: int|
        #![trigger is_project(c.projects, p, name)]
        is_project(c.projects, p, name) ==> (c.projects[p].depends_on matches Some(deps) ==> height(
            name,
        ) > 0 && forall|d: int, dep: Seq<char>|
            0 <= d < deps.len() && #[trigger] stands_for(c, deps[d], dep) ==> height(dep) < height(
                name,
            ))
}

proof fn lemma_error_of_names(
    c: LoadContext,
    names: Seq<Seq<char>>,
    parent: Option<int>,
    depth: int,
    plan: Seq<PlannedView>,
    height: spec_fn(Seq<char>) -> nat,
)
    requires
        0 <= depth <= 20,
        is_height(c, height),
        forall|n: Seq<char>| #[trigger] names.contains(n) ==> height(n) <= 20 - depth,
    ensures
        load_names(c, names, parent, depth, plan) matches Err(e) ==> match e {
            LoadErrorView::TooDeep => false,
            LoadErrorView::NeedPackages(f) => !has_project(c.projects, f)
                && !c.packages.contains_key(f),
            LoadErrorView::UnknownProject(n) => !has_project(c.projects, n),
        },
    decreases MAX_DEPTH + 1 - depth, names.len(),
{
    if names.len() > 0 {
        let less = names.drop_last();
        let name = names.last();
        assert(names[names.len() - 1] == name);
        assert(names.contains(name));
        assert forall|n: Seq<char>| #[trigger] less.contains(n) implies height(n) <= 20
            - depth by {
            let i = choose|i: int| 0 <= i < less.len() && less[i] == n;
            assert(names[i] == n);
            assert(names.contains(n));
        }
        lemma_error_of_names(c, less, parent, depth, plan, height);
        if let Ok((before, added)) = load_names(c, less, parent, depth, plan) {
            let p = text::first_at(project_names(c.projects), name);
            text::lemma_first_at(project_names(c.projects), name);
            lemma_has_project(c.projects, name);
            if p < c.projects.len() && !is_loaded(c, before, name) && asked(
                c.projects[p].commands,
                c.commands,
            ).len() > 0 {
                lemma_is_project(c.projects, p, name);
                assert(is_project(c.projects, p, name));
                if let Some(deps) = c.projects[p].depends_on {
                    assert(height(name) > 0);
                    assert(load_level(c, deps, Some(p), depth + 1, before) == match resolved(
                        c,
                        deps,
                    ) {
                        Err(e) => Err(e),
                        Ok(inner) => load_names(c, inner, Some(p), depth + 1, before),
                    });
                    lemma_filters(c, deps, name);
                    if let Ok(inner) = resolved(c, deps) {
                        assert forall|n: Seq<char>| #[trigger] inner.contains(n) implies height(n)
                            <= 20 - (depth + 1) by {
                            lemma_filters(c, deps, n);
                            let d = choose|d: int|
                                0 <= d < deps.len() && stands_for(c, #[trigger] deps[d], n);
                            assert(stands_for(c, deps[d], n));
                        }
                        lemma_error_of_names(c, inner, Some(p), depth + 1, before, height);
                    }
                }
            }
        }
    }
}

/// A load is refused only for a reason: where dependencies are nested at most twenty deep, it
/// is refused only for want of what the package manager lists, or because it lists a package
/// that is no project.
pub proof fn lemma_refused_for_a_reason(
    c: LoadContext,
    filters: Seq<Seq<char>>,
    height: spec_fn(Seq<char>) -> nat,
)
    requires
        is_height(c, height),
        forall|n: Seq<char>| #[trigger] height(n) <= 20,
    ensures
        load_level(c, filters, None, 0, Seq::empty()) matches Err(e) ==> match e {
            LoadErrorView::TooDeep => false,
            LoadErrorView::NeedPackages(f) => !has_project(c.projects, f)
                && !c.packages.contains_key(f),
            LoadErrorView::UnknownProject(n) => !has_project(c.projects, n),
        },
{
    let none = Seq::<PlannedView>::empty();
    if let Ok(names) = resolved(c, filters) {
        lemma_error_of_names(c, names, None, 0, none, height);
    } else {
        lemma_filters(c, filters, Seq::empty());
    }
}

/// Whether the project at place `p` can be loaded and depends on the one at place `q` alone.
pub open spec fn needs_only(c: LoadContext, p: int, q: int) -> bool {
    &&& is_project(c.projects, p, c.projects[p].name)
    &&& has_command(c.projects[p], c.commands)
    &&& !c.existing.contains(c.projects[p].name)
    &&& c.projects[p].depends_on == Some(seq![c.projects[q].name])
}

proof fn lemma_too_deep_from(c: LoadContext, chain: Seq<int>, parent: Option<int>, i: int)
    requires
        0 <= i <= 21,
        chain.len() == 22,
        forall|k: int| 0 <= k < 21 ==> needs_only(c, #[trigger] chain[k], chain[k + 1]),
    ensures
        load_level(c, seq![c.projects[chain[i]].name], parent, i, Seq::empty()) == Err::<
            (Seq<PlannedView>, Seq<int>),
            LoadErrorView,
        >(LoadErrorView::TooDeep),
    decreases 21 - i,
{
    if i < 21 {
        let p = chain[i];
        let name = c.projects[p].name;
        let none = Seq::<PlannedView>::empty();
        let filters = seq![name];
        assert(needs_only(c, p, chain[i + 1]));
        lemma_is_project(c.projects, p, name);
        lemma_has_project(c.projects, name);
        lemma_has_command(c.projects[p], c.commands);
        assert(filters.drop_last() =~= Seq::<Seq<char>>::empty());
        assert(resolved(c, filters.drop_last()) == Ok::<Seq<Seq<char>>, LoadErrorView>(
            Seq::empty(),
        ));
        let names = with_name(Seq::empty(), name);
        assert(names =~= filters);
        assert(filters.last() == name);
        assert(resolved(c, filters) == Ok::<Seq<Seq<char>>, LoadErrorView>(names));
        lemma_too_deep_from(c, chain, Some(p), i + 1);
        assert(load_names(c, filters.drop_last(), parent, i, none) == Ok::<
            (Seq<PlannedView>, Seq<int>),
            LoadErrorView,
        >((none, Seq::empty())));
        assert(planned_names(c, none) =~= Seq::<Seq<char>>::empty());
        assert(!is_loaded(c, none, name));
        assert(load_names(c, filters, parent, i, none) == Err::<
            (Seq<PlannedView>, Seq<int>),
            LoadErrorView,
        >(LoadErrorView::TooDeep));
    }
}

/// Dependencies that are nested deeper than that, as they are where they go round in a circle,
/// are refused.
pub proof fn lemma_too_deep_is_refused(c: LoadContext, chain: Seq<int>)
    requires
        chain.len() == 22,
        forall|k: int| 0 <= k < 21 ==> needs_only(c, #[trigger] chain[k], chain[k + 1]),
    ensures
        load_level(c, seq![c.projects[chain[0]].name], None, 0, Seq::empty()) == Err::<
            (Seq<PlannedView>, Seq<int>),
            LoadErrorView,
        >(LoadErrorView::TooDeep),
{
    lemma_too_deep_from(c, chain, None, 0);
}

/// The id of a command tells its task first and what was drawn for it last; a script that is run
/// under another name tells that name between the two.
pub proof fn lemma_command_id(name: Seq<char>, c: CommandTypeView, uuid: Seq<char>)
    ensures
        c is Simple ==> command_id(name, c, uuid) == name + "-"@ + uuid,
        c matches CommandTypeView::Plexus { name: own, command } ==> command_id(name, c, uuid)
            == name + "-"@ + own + "-"@ + uuid,
        new_command(name, c, uuid).id == command_id(name, c, uuid),
        new_command(name, c, uuid).command == c,
        new_command(name, c, uuid).status is Init,
{
}

} // verus!
