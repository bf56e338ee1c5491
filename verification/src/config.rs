//! The configuration file: its shape, and how one is drawn up from a workspace.

use vstd::prelude::*;

use crate::globs::no_backslash;
use crate::globs::path_tail;
use crate::globs::reads_alike;
use crate::globs::strip_prefix;
use crate::json::Json;
use crate::json::str_or_empty;
use crate::text;

verus! {

/// A list, or a value that says that there is none.
pub enum OptionConfig<T, N = bool> {
    Absent(N),
    List(Vec<T>),
}

/// A command of another project that has to come first.
pub struct Dependency {
    pub name: Option<String>,
    pub command: Option<String>,
}

/// Which files of a project are watched.
pub struct ConfigWatch {
    pub path: Option<String>,
    pub includes: Option<Vec<String>>,
    pub exclude: Option<Vec<String>>,
    pub disable_default_exclude: Option<bool>,
    pub default_exclude: Vec<String>,
}

/// A command that stands for several scripts.
pub struct PlexusCommand {
    pub name: String,
    pub actual_commands: Vec<String>,
}

/// A command of a project.
pub enum ConfigCommand {
    Simple(String),
    Plexus(PlexusCommand),
    WithDependency {
        command: String,
        depends_on: Option<Vec<Dependency>>,
        envs: Option<ConfigEnvs>,
    },
}

/// One environment variable.
pub struct ConfigEnv {
    pub key: String,
    pub value: String,
}

/// Where environment variables come from.
pub enum ConfigEnvs {
    Absent,
    List(Vec<ConfigEnv>),
    File(String),
    Files(Vec<String>),
}

/// One project of the workspace.
pub struct ConfigProject {
    pub name: String,
    pub path: String,
    pub depends_on: OptionConfig<String>,
    pub watches: Option<Vec<ConfigWatch>>,
    pub commands: Vec<ConfigCommand>,
    pub envs: Option<ConfigEnv>,
}

/// The whole configuration.
pub struct Config {
    pub schema: String,
    pub version: String,
    pub projects: Vec<ConfigProject>,
    pub envs: Option<ConfigEnvs>,
}

/// What a [`Dependency`] says.
pub struct DependencyView {
    pub name: Option<Seq<char>>,
    pub command: Option<Seq<char>>,
}

/// What a [`ConfigEnvs`] says.
pub enum ConfigEnvsView {
    Absent,
    List(Seq<(Seq<char>, Seq<char>)>),
    File(Seq<char>),
    Files(Seq<Seq<char>>),
}

/// What a [`ConfigCommand`] says.
pub enum ConfigCommandView {
    Simple(Seq<char>),
    Plexus { name: Seq<char>, actual_commands: Seq<Seq<char>> },
    WithDependency {
        command: Seq<char>,
        depends_on: Option<Seq<DependencyView>>,
        envs: Option<ConfigEnvsView>,
    },
}

impl ConfigCommandView {
    /// The name by which the command is asked for.
    pub open spec fn name(self) -> Seq<char> {
        match self {
            ConfigCommandView::Simple(s) => s,
            ConfigCommandView::Plexus { name, .. } => name,
            ConfigCommandView::WithDependency { command, .. } => command,
        }
    }
}

impl View for Dependency {
    type V = DependencyView;

    open spec fn view(&self) -> DependencyView {
        DependencyView { name: text::opt_text(self.name), command: text::opt_text(self.command) }
    }
}

impl View for ConfigEnvs {
    type V = ConfigEnvsView;

    open spec fn view(&self) -> ConfigEnvsView {
        match *self {
            ConfigEnvs::Absent => ConfigEnvsView::Absent,
            ConfigEnvs::List(v) => ConfigEnvsView::List(
                v@.map_values(|e: ConfigEnv| (e.key@, e.value@)),
            ),
            ConfigEnvs::File(f) => ConfigEnvsView::File(f@),
            ConfigEnvs::Files(v) => ConfigEnvsView::Files(text::texts(v@)),
        }
    }
}

/// The views of an optional list of dependencies.
pub open spec fn dependency_views(d: Option<Vec<Dependency>>) -> Option<Seq<DependencyView>> {
    match d {
        Some(v) => Some(v@.map_values(|x: Dependency| x@)),
        None => None,
    }
}

/// The view of optional environment variables.
pub open spec fn envs_view(e: Option<ConfigEnvs>) -> Option<ConfigEnvsView> {
    match e {
        Some(v) => Some(v@),
        None => None,
    }
}

impl View for ConfigCommand {
    type V = ConfigCommandView;

    open spec fn view(&self) -> ConfigCommandView {
        match *self {
            ConfigCommand::Simple(s) => ConfigCommandView::Simple(s@),
            ConfigCommand::Plexus(p) => ConfigCommandView::Plexus {
                name: p.name@,
                actual_commands: text::texts(p.actual_commands@),
            },
            ConfigCommand::WithDependency { command, depends_on, envs } => {
                ConfigCommandView::WithDependency {
                    command: command@,
                    depends_on: dependency_views(depends_on),
                    envs: envs_view(envs),
                }
            },
        }
    }
}

/// What a [`ConfigWatch`] says.
pub struct ConfigWatchView {
    pub path: Option<Seq<char>>,
    pub includes: Option<Seq<Seq<char>>>,
    pub exclude: Option<Seq<Seq<char>>>,
    pub disable_default_exclude: Option<bool>,
    pub default_exclude: Seq<Seq<char>>,
}

impl View for ConfigWatch {
    type V = ConfigWatchView;

    open spec fn view(&self) -> ConfigWatchView {
        ConfigWatchView {
            path: text::opt_text(self.path),
            includes: text::opt_texts(self.includes),
            exclude: text::opt_texts(self.exclude),
            disable_default_exclude: self.disable_default_exclude,
            default_exclude: text::texts(self.default_exclude@),
        }
    }
}

/// What a [`ConfigProject`] says of the tasks that it leads to.
pub struct ProjectView {
    pub name: Seq<char>,
    pub path: Seq<char>,
    pub depends_on: Option<Seq<Seq<char>>>,
    pub watches: Option<Seq<ConfigWatchView>>,
    pub commands: Seq<ConfigCommandView>,
}

/// The names in a list of dependencies: nothing where there is no list.
pub open spec fn listed_deps(d: OptionConfig<String>) -> Option<Seq<Seq<char>>> {
    match d {
        OptionConfig::Absent(_) => None,
        OptionConfig::List(v) => Some(text::texts(v@)),
    }
}

/// What the watches of a project say.
pub open spec fn watch_views(w: Option<Vec<ConfigWatch>>) -> Option<Seq<ConfigWatchView>> {
    match w {
        Some(v) => Some(v@.map_values(|x: ConfigWatch| x@)),
        None => None,
    }
}

impl View for ConfigProject {
    type V = ProjectView;

    open spec fn view(&self) -> ProjectView {
        ProjectView {
            name: self.name@,
            path: self.path@,
            depends_on: listed_deps(self.depends_on),
            watches: watch_views(self.watches),
            commands: command_views(self.commands@),
        }
    }
}

/// What the projects of a configuration say.
pub open spec fn projects_view(v: Seq<ConfigProject>) -> Seq<ProjectView> {
    v.map_values(|p: ConfigProject| p@)
}

/// The names of projects.
pub open spec fn project_names(v: Seq<ProjectView>) -> Seq<Seq<char>> {
    v.map_values(|p: ProjectView| p.name)
}

/// The place of the first project with a given name: the number of projects where there is
/// none.
pub fn place_of_project(projects: &Vec<ConfigProject>, name: &str) -> (r: usize)
    ensures
        r == text::first_at(project_names(projects_view(projects@)), name@),
        r <= projects@.len(),
{
    let ghost names = project_names(projects_view(projects@));
    let mut i: usize = 0;
    while i < projects.len()
        invariant
            i <= projects@.len(),
            names == project_names(projects_view(projects@)),
            forall|k: int| 0 <= k < i ==> names[k] != name@,
        decreases projects@.len() - i,
    {
        assert(names[i as int] == projects@[i as int].name@);
        if *projects[i].name.as_str() == *name {
            proof {
                text::lemma_is_first_at(names, name@, i as int);
            }
            return i;
        }
        i += 1;
    }
    proof {
        text::lemma_is_first_at(names, name@, i as int);
    }
    i
}

/// What the commands of a list say.
pub open spec fn command_views(v: Seq<ConfigCommand>) -> Seq<ConfigCommandView> {
    v.map_values(|c: ConfigCommand| c@)
}

impl Clone for Dependency {
    fn clone(&self) -> (r: Self)
        ensures
            r@ == self@,
    {
        Dependency { name: self.name.clone(), command: self.command.clone() }
    }
}

impl Clone for ConfigEnv {
    fn clone(&self) -> (r: Self)
        ensures
            r.key@ == self.key@,
            r.value@ == self.value@,
    {
        ConfigEnv { key: self.key.clone(), value: self.value.clone() }
    }
}

impl Clone for ConfigEnvs {
    fn clone(&self) -> (r: Self)
        ensures
            r@ == self@,
    {
        match self {
            ConfigEnvs::Absent => ConfigEnvs::Absent,
            ConfigEnvs::List(v) => {
                let r = v.clone();
                assert(r@.map_values(|e: ConfigEnv| (e.key@, e.value@)) =~= v@.map_values(
                    |e: ConfigEnv| (e.key@, e.value@),
                ));
                ConfigEnvs::List(r)
            },
            ConfigEnvs::File(f) => ConfigEnvs::File(f.clone()),
            ConfigEnvs::Files(v) => ConfigEnvs::Files(text::clone_texts(v)),
        }
    }
}

impl Clone for ConfigCommand {
    fn clone(&self) -> (r: Self)
        ensures
            r@ == self@,
    {
        match self {
            ConfigCommand::Simple(s) => ConfigCommand::Simple(s.clone()),
            ConfigCommand::Plexus(p) => ConfigCommand::Plexus(
                PlexusCommand {
                    name: p.name.clone(),
                    actual_commands: text::clone_texts(&p.actual_commands),
                },
            ),
            ConfigCommand::WithDependency { command, depends_on, envs } => {
                let d = match depends_on {
                    Some(v) => {
                        let c = v.clone();
                        assert(c@.map_values(|x: Dependency| x@) =~= v@.map_values(
                            |x: Dependency| x@,
                        ));
                        Some(c)
                    },
                    None => None,
                };
                let e = match envs {
                    Some(v) => Some(v.clone()),
                    None => None,
                };
                ConfigCommand::WithDependency { command: command.clone(), depends_on: d, envs: e }
            },
        }
    }
}

impl ConfigCommand {
    /// The name by which the command is asked for.
    pub fn name(&self) -> (r: &String)
        ensures
            r@ == self@.name(),
    {
        match self {
            ConfigCommand::Simple(s) => s,
            ConfigCommand::Plexus(p) => &p.name,
            ConfigCommand::WithDependency { command, .. } => command,
        }
    }
}

/// The document in the text of a `package.json`: nothing where the text is no JSON.
pub fn read_package_json(contents: &str) -> (r: Option<Json>)
    ensures
        match r {
            Some(j) => crate::json::parsed_json(contents@) == Some(j@),
            None => crate::json::parsed_json(contents@) is None,
        },
{
    crate::json::parse(contents)
}

/// A project that the package manager lists.
pub struct ListedProject {
    pub name: String,
    pub path: String,
}

/// A project with what its `package.json` says, at the path under which it is listed.
pub struct ProjectSource {
    pub name: String,
    pub path: String,
    pub manifest: Json,
}

/// Whether `r` is the path of a project as the configuration tells it: with `/` as the
/// separator, and from the workspace on where the project lies in it.
pub open spec fn is_stored_path(r: Seq<char>, path: Seq<char>, workspace: Seq<char>) -> bool {
    let p = text::with_char(path, '\\', '/');
    let w = text::with_char(workspace, '\\', '/');
    &&& no_backslash(r)
    &&& reads_alike(p, w) ==> r == (match path_tail(p, w) {
        Some(rest) => rest,
        None => p,
    })
}

/// The path of a project as the configuration tells it: from the workspace on, where the
/// project lies in it, and with `/` as the separator whatever the system.
pub fn relative_path(path: &str, workspace: &str) -> (r: String)
    ensures
        is_stored_path(r@, path@, workspace@),
{
    let p = text::replace_char(path, '\\', '/');
    let w = text::replace_char(workspace, '\\', '/');
    assert forall|i: int| 0 <= i < p@.len() implies #[trigger] p@[i] != '\\' by {}
    match strip_prefix(p.as_str(), w.as_str()) {
        Some(rest) => rest,
        None => p,
    }
}

/// The name and the path under which a project is listed.
pub open spec fn listed(item: crate::json::JsonView) -> (Seq<char>, Seq<char>) {
    (
        crate::json::text_or_empty(crate::json::field_of(item, "name"@)),
        crate::json::text_or_empty(crate::json::field_of(item, "path"@)),
    )
}

/// The listed projects whose name is not that of the workspace itself, in order.
pub open spec fn listed_but(items: Seq<crate::json::JsonView>, root: Seq<char>) -> Seq<
    (Seq<char>, Seq<char>),
>
    decreases items.len(),
{
    if items.len() == 0 {
        Seq::empty()
    } else {
        let before = listed_but(items.drop_last(), root);
        if listed(items.last()).0 == root {
            before
        } else {
            before.push(listed(items.last()))
        }
    }
}

/// What a list of listed projects says.
pub open spec fn listed_views(v: Seq<ListedProject>) -> Seq<(Seq<char>, Seq<char>)> {
    v.map_values(|p: ListedProject| (p.name@, p.path@))
}

/// The projects of the workspace, without the workspace itself: nothing where the listing
/// is no array.
pub fn listed_projects(root: &Json, listing: &Json) -> (r: Option<Vec<ListedProject>>)
    ensures
        match r {
            Some(v) => listing@ is Array && listed_views(v@) == listed_but(
                listing@->Array_0,
                crate::json::text_or_empty(crate::json::field_of(root@, "name"@)),
            ),
            None => !(listing@ is Array),
        },
{
    let root_name = str_or_empty(root.field("name"));
    match listing {
        Json::Array(items) => {
            let ghost all = listing@->Array_0;
            let mut out: Vec<ListedProject> = Vec::new();
            let mut i: usize = 0;
            proof {
                assert(listed_views(out@) =~= listed_but(all.take(0), root_name@));
            }
            while i < items.len()
                invariant
                    i <= items@.len(),
                    all.len() == items@.len(),
                    forall|k: int| 0 <= k < all.len() ==> #[trigger] all[k] == items@[k]@,
                    listed_views(out@) == listed_but(all.take(i as int), root_name@),
                decreases items@.len() - i,
            {
                let name = str_or_empty(items[i].field("name"));
                let path = str_or_empty(items[i].field("path"));
                let ghost before = out@;
                proof {
                    assert(all.take(i + 1).drop_last() =~= all.take(i as int));
                    assert(all.take(i + 1).last() == all[i as int]);
                }
                if *name.as_str() != *root_name.as_str() {
                    out.push(ListedProject { name, path });
                    assert(listed_views(out@) =~= listed_views(before).push((name@, path@)));
                }
                i += 1;
            }
            assert(all.take(i as int) =~= all);
            Some(out)
        },
        _ => None,
    }
}

/// The field names of an object, in order.
pub open spec fn field_names(j: Option<crate::json::JsonView>) -> Seq<Seq<char>> {
    crate::json::fields_of(j).map_values(|f: (Seq<char>, crate::json::JsonView)| f.0)
}

/// Every package that a manifest names as a dependency: first the peer dependencies, then
/// those for development, then the rest.
pub open spec fn declared_deps(manifest: crate::json::JsonView) -> Seq<Seq<char>> {
    field_names(crate::json::field_of(manifest, "peerDependencies"@)) + field_names(
        crate::json::field_of(manifest, "devDependencies"@),
    ) + field_names(crate::json::field_of(manifest, "dependencies"@))
}

/// Those of `names` that are in `known`, each where it first occurs.
pub open spec fn known_once(names: Seq<Seq<char>>, known: Seq<Seq<char>>) -> Seq<Seq<char>>
    decreases names.len(),
{
    if names.len() == 0 {
        Seq::empty()
    } else {
        let before = known_once(names.drop_last(), known);
        if before.contains(names.last()) || !known.contains(names.last()) {
            before
        } else {
            before.push(names.last())
        }
    }
}

/// The names under which projects are listed.
pub open spec fn listed_names(listing: crate::json::JsonView) -> Seq<Seq<char>> {
    crate::json::items_of(listing).map_values(|j: crate::json::JsonView| listed(j).0)
}

/// No dependency of a project is named twice, and each is a project of the workspace.
pub proof fn lemma_known_once(names: Seq<Seq<char>>, known: Seq<Seq<char>>)
    ensures
        known_once(names, known).no_duplicates(),
        forall|i: int|
            0 <= i < known_once(names, known).len() ==> known.contains(
                #[trigger] known_once(names, known)[i],
            ) && names.contains(known_once(names, known)[i]),
        forall|n: Seq<char>|
            known.contains(n) && names.contains(n) ==> known_once(names, known).contains(n),
    decreases names.len(),
{
    if names.len() > 0 {
        let before = known_once(names.drop_last(), known);
        let all = known_once(names, known);
        lemma_known_once(names.drop_last(), known);
        assert forall|i: int| 0 <= i < all.len() implies known.contains(#[trigger] all[i])
            && names.contains(all[i]) by {
            if i < before.len() {
                assert(all[i] == before[i]);
                let k = choose|k: int|
                    0 <= k < names.drop_last().len() && names.drop_last()[k] == before[i];
                assert(names[k] == before[i]);
            } else {
                assert(names[names.len() - 1] == names.last());
            }
        }
        assert forall|n: Seq<char>| known.contains(n) && names.contains(n) implies all.contains(
            n,
        ) by {
            let k = choose|k: int| 0 <= k < names.len() && names[k] == n;
            if k < names.len() - 1 {
                assert(names.drop_last()[k] == n);
                let j = choose|j: int| 0 <= j < before.len() && before[j] == n;
                assert(all[j] == n);
            } else if before.contains(n) {
                let j = choose|j: int| 0 <= j < before.len() && before[j] == n;
                assert(all[j] == n);
            } else {
                assert(all[all.len() - 1] == n);
            }
        }
    }
}

fn add_known(out: &mut Vec<String>, object: Option<&Json>, known: &Vec<String>, Ghost(
    seen,
): Ghost<Seq<Seq<char>>>)
    requires
        text::texts(old(out)@) == known_once(seen, text::texts(known@)),
    ensures
        text::texts(final(out)@) == known_once(
            seen + field_names(crate::json::opt_view(object)),
            text::texts(known@),
        ),
{
    let ghost names = field_names(crate::json::opt_view(object));
    proof {
        assert(seen + names.take(0) =~= seen);
    }
    match object {
        Some(Json::Object(fields)) => {
            let ghost all = crate::json::opt_view(object)->0->Object_0;
            let mut i: usize = 0;
            while i < fields.len()
                invariant
                    i <= fields@.len(),
                    names.len() == fields@.len(),
                    all.len() == fields@.len(),
                    names == all.map_values(|f: (Seq<char>, crate::json::JsonView)| f.0),
                    forall|k: int| 0 <= k < all.len() ==> (#[trigger] all[k]).0 == fields@[k].0@,
                    text::texts(out@) == known_once(
                        seen + names.take(i as int),
                        text::texts(known@),
                    ),
                decreases fields@.len() - i,
            {
                let ghost before = out@;
                let name = &fields[i].0;
                proof {
                    let next = seen + names.take(i + 1);
                    assert(all[i as int].0 == name@);
                    assert(next.drop_last() =~= seen + names.take(i as int));
                    assert(next.last() == name@);
                }
                if !text::contains_text(out, name.as_str()) && text::contains_text(
                    known,
                    name.as_str(),
                ) {
                    out.push(name.clone());
                    assert(text::texts(out@) =~= text::texts(before).push(name@));
                }
                i += 1;
            }
            assert(names.take(i as int) =~= names);
        },
        _ => {
            assert(names =~= Seq::<Seq<char>>::empty());
            assert(seen + names =~= seen);
        },
    }
}

fn workspace_deps(manifest: &Json, known: &Vec<String>) -> (r: Vec<String>)
    ensures
        text::texts(r@) == known_once(declared_deps(manifest@), text::texts(known@)),
{
    let mut out: Vec<String> = Vec::new();
    let ghost none = Seq::<Seq<char>>::empty();
    let ghost peer = field_names(crate::json::field_of(manifest@, "peerDependencies"@));
    let ghost dev = field_names(crate::json::field_of(manifest@, "devDependencies"@));
    assert(text::texts(out@) =~= known_once(none, text::texts(known@)));
    add_known(&mut out, manifest.field("peerDependencies"), known, Ghost(none));
    assert(none + peer =~= peer);
    add_known(&mut out, manifest.field("devDependencies"), known, Ghost(peer));
    add_known(&mut out, manifest.field("dependencies"), known, Ghost(peer + dev));
    out
}

/// The command that a script of a manifest stands for. A script that starts with `/plexus`
/// stands for the scripts named after its first word.
pub open spec fn script_command(script: (Seq<char>, crate::json::JsonView)) -> ConfigCommandView {
    let line = crate::json::text_or_empty(Some(script.1));
    if text::begins_with(line, "/plexus"@) {
        ConfigCommandView::Plexus { name: script.0, actual_commands: text::words(line).skip(1) }
    } else {
        ConfigCommandView::Simple(script.0)
    }
}

/// The commands that the scripts of a manifest stand for.
pub open spec fn script_commands(manifest: crate::json::JsonView) -> Seq<ConfigCommandView> {
    crate::json::fields_of(crate::json::field_of(manifest, "scripts"@)).map_values(
        |f: (Seq<char>, crate::json::JsonView)| script_command(f),
    )
}

fn command_of(name: &String, script: &Json) -> (r: ConfigCommand)
    ensures
        r@ == script_command((name@, script@)),
{
    let line = str_or_empty(Some(script));
    if text::starts_with(line.as_str(), "/plexus") {
        let all = text::split_whitespace(line.as_str());
        let mut parts: Vec<String> = Vec::new();
        let mut i: usize = 1;
        proof {
            assert(text::words(line@).len() >= 1) by {
                lemma_plexus_has_word(line@);
            }
            assert(text::texts(all@) == text::words(line@));
            assert(text::texts(parts@) =~= text::words(line@).subrange(1, 1));
        }
        while i < all.len()
            invariant
                1 <= i <= all@.len(),
                text::texts(all@) == text::words(line@),
                text::texts(parts@) == text::words(line@).subrange(1, i as int),
            decreases all@.len() - i,
        {
            let ghost before = parts@;
            parts.push(all[i].clone());
            proof {
                assert(text::texts(parts@) =~= text::texts(before).push(all@[i as int]@));
                assert(text::texts(all@)[i as int] == all@[i as int]@);
                assert(text::words(line@).subrange(1, i + 1) =~= text::words(line@).subrange(
                    1,
                    i as int,
                ).push(text::words(line@)[i as int]));
            }
            i += 1;
        }
        assert(text::words(line@).subrange(1, i as int) =~= text::words(line@).skip(1));
        ConfigCommand::Plexus(PlexusCommand { name: name.clone(), actual_commands: parts })
    } else {
        ConfigCommand::Simple(name.clone())
    }
}

/// A line that begins with `/plexus` has a word.
pub proof fn lemma_plexus_has_word(line: Seq<char>)
    requires
        text::begins_with(line, "/plexus"@),
    ensures
        text::words(line).len() >= 1,
{
    reveal_strlit("/plexus");
    assert(line.take(7)[0] == '/');
    assert(line[0] == '/');
    assert(!text::is_white('/'));
    assert(text::trim_start(line) == line);
}

fn commands_of(manifest: &Json) -> (r: Vec<ConfigCommand>)
    ensures
        command_views(r@) == script_commands(manifest@),
{
    let mut out: Vec<ConfigCommand> = Vec::new();
    let scripts = manifest.field("scripts");
    match scripts {
        Some(Json::Object(fields)) => {
            let ghost all = crate::json::opt_view(scripts)->0->Object_0;
            let mut i: usize = 0;
            proof {
                assert(script_commands(manifest@).len() == all.len());
                assert(command_views(out@) =~= script_commands(manifest@).take(0));
            }
            while i < fields.len()
                invariant
                    i <= fields@.len(),
                    all.len() == fields@.len(),
                    forall|k: int|
                        0 <= k < all.len() ==> #[trigger] all[k] == (
                            fields@[k].0@,
                            fields@[k].1@,
                        ),
                    script_commands(manifest@) == all.map_values(
                        |f: (Seq<char>, crate::json::JsonView)| script_command(f),
                    ),
                    command_views(out@) == script_commands(manifest@).take(i as int),
                decreases fields@.len() - i,
            {
                let ghost before = out@;
                out.push(command_of(&fields[i].0, &fields[i].1));
                proof {
                    assert(script_commands(manifest@)[i as int] == script_command(all[i as int]));
                    assert(command_views(out@) =~= command_views(before).push(
                        script_commands(manifest@)[i as int],
                    ));
                    assert(script_commands(manifest@).take(i + 1) =~= script_commands(
                        manifest@,
                    ).take(i as int).push(script_commands(manifest@)[i as int]));
                }
                i += 1;
            }
            assert(script_commands(manifest@).take(i as int) =~= script_commands(manifest@));
        },
        _ => {
            assert(command_views(out@) =~= script_commands(manifest@));
        },
    }
    out
}

/// The patterns that a drawn-up configuration excludes by default.
pub open spec fn default_excludes() -> Seq<Seq<char>> {
    seq!["node_modules/**"@, "dist/**"@, "build/**"@, "out/**"@, "target/**"@, "**/*.log"@]
}

fn default_watch() -> (r: ConfigWatch)
    ensures
        r.path is None,
        r.includes is None,
        r.exclude is None,
        r.disable_default_exclude is None,
        text::texts(r.default_exclude@) == default_excludes(),
{
    let default_exclude = vec![
        "node_modules/**".to_owned(),
        "dist/**".to_owned(),
        "build/**".to_owned(),
        "out/**".to_owned(),
        "target/**".to_owned(),
        "**/*.log".to_owned(),
    ];
    assert(text::texts(default_exclude@) =~= default_excludes());
    ConfigWatch {
        path: None,
        includes: None,
        exclude: None,
        disable_default_exclude: None,
        default_exclude,
    }
}

/// Whether `p` is the project that a drawn-up configuration holds for `s`.
pub open spec fn drawn_up(
    p: ConfigProject,
    s: ProjectSource,
    listing: crate::json::JsonView,
    workspace: Seq<char>,
) -> bool {
    let deps = known_once(declared_deps(s.manifest@), listed_names(listing));
    &&& p.name@ == s.name@
    &&& is_stored_path(p.path@, s.path@, workspace)
    &&& match p.depends_on {
        OptionConfig::Absent(b) => !b && deps.len() == 0,
        OptionConfig::List(v) => text::texts(v@) == deps && deps.len() > 0,
    }
    &&& p.watches matches Some(w)
    &&& w@.len() == 1
    &&& w@[0].path is None
    &&& w@[0].includes is None
    &&& w@[0].exclude is None
    &&& w@[0].disable_default_exclude is None
    &&& text::texts(w@[0].default_exclude@) == default_excludes()
    &&& command_views(p.commands@) == script_commands(s.manifest@)
    &&& p.envs is None
}

/// Draws up a configuration: one project for each source, in order. `listing` is what the
/// package manager lists of the whole workspace, which lies at `workspace`.
pub fn init_default_config(
    listing: &Json,
    sources: &Vec<ProjectSource>,
    workspace: &str,
) -> (r: Config)
    ensures
        r.schema@ == "node_modules/plexus.schema.json"@,
        r.version@ == "1.0"@,
        r.envs is None,
        r.projects@.len() == sources@.len(),
        forall|i: int|
            0 <= i < sources@.len() ==> drawn_up(
                #[trigger] r.projects@[i],
                sources@[i],
                listing@,
                workspace@,
            ),
        forall|i: int| 0 <= i < r.projects@.len() ==> no_backslash((#[trigger] r.projects@[i]).path@),
{
    let known = names_of(listing);
    let mut projects: Vec<ConfigProject> = Vec::new();
    let mut i: usize = 0;
    while i < sources.len()
        invariant
            i <= sources@.len(),
            text::texts(known@) == listed_names(listing@),
            projects@.len() == i,
            forall|k: int|
                0 <= k < i ==> drawn_up(
                    #[trigger] projects@[k],
                    sources@[k],
                    listing@,
                    workspace@,
                ),
        decreases sources@.len() - i,
    {
        let s = &sources[i];
        let deps = workspace_deps(&s.manifest, &known);
        let depends_on: OptionConfig<String> = if deps.len() == 0 {
            OptionConfig::Absent(false)
        } else {
            OptionConfig::List(deps)
        };
        assert(text::texts(deps@).len() == deps@.len());
        let watches = vec![default_watch()];
        projects.push(
            ConfigProject {
                name: s.name.clone(),
                path: relative_path(s.path.as_str(), workspace),
                depends_on,
                watches: Some(watches),
                commands: commands_of(&s.manifest),
                envs: None,
            },
        );
        i += 1;
    }
    Config {
        schema: "node_modules/plexus.schema.json".to_owned(),
        version: "1.0".to_owned(),
        projects,
        envs: None,
    }
}

fn names_of(listing: &Json) -> (r: Vec<String>)
    ensures
        text::texts(r@) == listed_names(listing@),
{
    let mut out: Vec<String> = Vec::new();
    match listing {
        Json::Array(items) => {
            let ghost all = listing@->Array_0;
            let mut i: usize = 0;
            assert(text::texts(out@) =~= listed_names(listing@).take(0));
            while i < items.len()
                invariant
                    i <= items@.len(),
                    all.len() == items@.len(),
                    listing@ == crate::json::JsonView::Array(all),
                    forall|k: int| 0 <= k < all.len() ==> #[trigger] all[k] == items@[k]@,
                    text::texts(out@) == listed_names(listing@).take(i as int),
                decreases items@.len() - i,
            {
                let ghost before = out@;
                out.push(str_or_empty(items[i].field("name")));
                proof {
                    assert(listed_names(listing@)[i as int] == listed(all[i as int]).0);
                    assert(text::texts(out@) =~= text::texts(before).push(
                        listed_names(listing@)[i as int],
                    ));
                    assert(listed_names(listing@).take(i + 1) =~= listed_names(listing@).take(
                        i as int,
                    ).push(listed_names(listing@)[i as int]));
                }
                i += 1;
            }
            assert(listed_names(listing@).take(i as int) =~= listed_names(listing@));
        },
        _ => {
            assert(text::texts(out@) =~= listed_names(listing@));
        },
    }
    out
}

} // verus!
