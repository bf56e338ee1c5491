//! The projects of a pnpm workspace, as the package manager lists them, and the cache of what
//! was found.

use vstd::prelude::*;

use crate::json::Json;
use crate::json::JsonView;
use crate::json::field_of;
use crate::json::fields_of;
use crate::json::items_of;
use crate::json::parsed_json;
use crate::json::str_or_empty;
use crate::json::text_or_empty;
use crate::strmap::StrMap;
use crate::text;

verus! {

/// A project of the workspace.
pub struct Project {
    pub _name: String,
    pub _path: String,
    pub _scripts: Vec<String>,
    pub _deps: Vec<String>,
}

/// What a [`Project`] says.
#[verifier::ext_equal]
pub struct PnpmProjectView {
    pub name: Seq<char>,
    pub path: Seq<char>,
    pub scripts: Seq<Seq<char>>,
    pub deps: Seq<Seq<char>>,
}

impl View for Project {
    type V = PnpmProjectView;

    open spec fn view(&self) -> PnpmProjectView {
        PnpmProjectView {
            name: self._name@,
            path: self._path@,
            scripts: text::texts(self._scripts@),
            deps: text::texts(self._deps@),
        }
    }
}

impl Clone for Project {
    fn clone(&self) -> (r: Self)
        ensures
            r@ == self@,
    {
        Project {
            _name: self._name.clone(),
            _path: self._path.clone(),
            _scripts: text::clone_texts(&self._scripts),
            _deps: text::clone_texts(&self._deps),
        }
    }
}

impl Project {
    /// A project.
    pub fn new(name: String, path: String, deps: Vec<String>, scripts: Vec<String>) -> (r: Self)
        ensures
            r@ == (PnpmProjectView {
                name: name@,
                path: path@,
                scripts: text::texts(scripts@),
                deps: text::texts(deps@),
            }),
    {
        Project { _name: name, _path: path, _deps: deps, _scripts: scripts }
    }

    /// Its name.
    pub fn name(&self) -> (r: &str)
        ensures
            r@ == self@.name,
    {
        self._name.as_str()
    }

    /// Its path.
    pub fn path(&self) -> (r: &str)
        ensures
            r@ == self@.path,
    {
        self._path.as_str()
    }

    /// The projects that it depends on.
    pub fn deps(&self) -> (r: &[String])
        ensures
            text::texts(r@) == self@.deps,
    {
        self._deps.as_slice()
    }

    /// Its scripts.
    pub fn scripts(&self) -> (r: &[String])
        ensures
            text::texts(r@) == self@.scripts,
    {
        self._scripts.as_slice()
    }
}

/// How often the dependencies of dependencies are looked up.
pub const MAX_LOOKUPS: usize = 10;

/// The projects of the workspace that a listed dependency links to; packages that are not
/// linked, or are linked inside `node_modules`, are passed over.
pub open spec fn linked_in(deps: Seq<(Seq<char>, JsonView)>) -> Seq<Seq<char>>
    decreases deps.len(),
{
    if deps.len() == 0 {
        Seq::empty()
    } else {
        let before = linked_in(deps.drop_last());
        let dep = deps.last().1;
        let version = text_or_empty(field_of(dep, "version"@));
        if text::begins_with(version, "link:"@) && !text::occurs_in(version, "node_modules"@) {
            before.push(text_or_empty(field_of(dep, "from"@)))
        } else {
            before
        }
    }
}

/// The projects of the workspace that a listed project depends on.
pub open spec fn linked_deps(project: JsonView) -> Seq<Seq<char>> {
    linked_in(fields_of(field_of(project, "dependencies"@))) + linked_in(
        fields_of(field_of(project, "devDependencies"@)),
    )
}

/// The scripts of a `package.json`.
pub open spec fn script_names(manifest: JsonView) -> Seq<Seq<char>> {
    fields_of(field_of(manifest, "scripts"@)).map_values(|f: (Seq<char>, JsonView)| f.0)
}

/// A listed project with what its `package.json` says.
pub open spec fn listed_project(item: JsonView, manifest: JsonView) -> PnpmProjectView {
    PnpmProjectView {
        name: text_or_empty(field_of(item, "name"@)),
        path: text_or_empty(field_of(item, "path"@)),
        scripts: script_names(manifest),
        deps: linked_deps(item),
    }
}

fn add_deps(json: &Json, dep_name: &str, deps: &mut Vec<String>)
    ensures
        text::texts(final(deps)@) == text::texts(old(deps)@) + linked_in(
            fields_of(field_of(json@, dep_name@)),
        ),
{
    let ghost start = text::texts(deps@);
    let object = json.field(dep_name);
    let ghost all = fields_of(crate::json::opt_view(object));
    match object {
        Some(Json::Object(fields)) => {
            let mut i: usize = 0;
            assert(start + linked_in(all.take(0)) =~= start);
            while i < fields.len()
                invariant
                    i <= fields@.len(),
                    all.len() == fields@.len(),
                    forall|k: int|
                        0 <= k < all.len() ==> #[trigger] all[k] == (
                            fields@[k].0@,
                            fields@[k].1@,
                        ),
                    text::texts(deps@) == start + linked_in(all.take(i as int)),
                decreases fields@.len() - i,
            {
                let ghost before = text::texts(deps@);
                let dep = &fields[i].1;
                proof {
                    assert(all.take(i + 1).drop_last() =~= all.take(i as int));
                    assert(all.take(i + 1).last() == all[i as int]);
                }
                let version = str_or_empty(dep.field("version"));
                if text::starts_with(version.as_str(), "link:") && !text::contains(
                    version.as_str(),
                    "node_modules",
                ) {
                    let from = str_or_empty(dep.field("from"));
                    let ghost f = from@;
                    deps.push(from);
                    proof {
                        assert(text::texts(deps@) =~= before.push(f));
                        assert((start + linked_in(all.take(i as int))).push(f) =~= start
                            + linked_in(all.take(i as int)).push(f));
                    }
                }
                i += 1;
            }
            assert(all.take(i as int) =~= all);
        },
        _ => {
            assert(start + linked_in(all) =~= start);
        },
    }
}

fn scripts_of(manifest: &Json) -> (r: Vec<String>)
    ensures
        text::texts(r@) == script_names(manifest@),
{
    let mut out: Vec<String> = Vec::new();
    let scripts = manifest.field("scripts");
    let ghost want = script_names(manifest@);
    match scripts {
        Some(Json::Object(fields)) => {
            let ghost all = fields_of(crate::json::opt_view(scripts));
            let mut i: usize = 0;
            assert(text::texts(out@) =~= want.take(0));
            while i < fields.len()
                invariant
                    i <= fields@.len(),
                    all.len() == fields@.len(),
                    forall|k: int| 0 <= k < all.len() ==> (#[trigger] all[k]).0 == fields@[k].0@,
                    want == all.map_values(|f: (Seq<char>, JsonView)| f.0),
                    text::texts(out@) == want.take(i as int),
                decreases fields@.len() - i,
            {
                let ghost before = text::texts(out@);
                out.push(fields[i].0.clone());
                proof {
                    assert(all[i as int].0 == fields@[i as int].0@);
                    assert(text::texts(out@) =~= before.push(want[i as int]));
                    assert(want.take(i + 1) =~= want.take(i as int).push(want[i as int]));
                }
                i += 1;
            }
            assert(want.take(i as int) =~= want);
        },
        _ => {
            assert(text::texts(out@) =~= want);
        },
    }
    out
}

/// A listed project with what its `package.json` says.
pub fn read_project(item: &Json, manifest: &Json) -> (r: Project)
    ensures
        r@ == listed_project(item@, manifest@),
{
    let mut deps: Vec<String> = Vec::new();
    assert(text::texts(deps@) =~= Seq::<Seq<char>>::empty());
    add_deps(item, "dependencies", &mut deps);
    add_deps(item, "devDependencies", &mut deps);
    assert(text::texts(deps@) =~= linked_deps(item@));
    Project::new(
        str_or_empty(item.field("name")),
        str_or_empty(item.field("path")),
        deps,
        scripts_of(manifest),
    )
}

/// The projects that were found.
pub struct Pnpm {
    pub _projects: StrMap<Project>,
}

/// What the projects of a map say.
pub open spec fn projects_map(m: Map<Seq<char>, Project>) -> Map<Seq<char>, PnpmProjectView> {
    m.map_values(|p: Project| p@)
}

/// Whether each project is kept under its own name.
pub open spec fn under_own_names(m: Map<Seq<char>, PnpmProjectView>) -> bool {
    forall|name: Seq<char>| #[trigger] m.contains_key(name) ==> m[name].name == name
}

/// Those of `deps` that are no key of a map.
pub open spec fn unknown(deps: Seq<Seq<char>>, known: Set<Seq<char>>) -> Seq<Seq<char>>
    decreases deps.len(),
{
    if deps.len() == 0 {
        Seq::empty()
    } else {
        let before = unknown(deps.drop_last(), known);
        if known.contains(deps.last()) {
            before
        } else {
            before.push(deps.last())
        }
    }
}

impl Pnpm {
    /// No project is named twice, and each is kept under its own name.
    pub open spec fn wf(&self) -> bool {
        self._projects.wf() && under_own_names(self.found())
    }

    /// What was found.
    pub open spec fn found(&self) -> Map<Seq<char>, PnpmProjectView> {
        projects_map(self._projects@)
    }

    /// Nothing was found yet.
    pub fn new() -> (r: Self)
        ensures
            r.wf(),
            r.found() == Map::<Seq<char>, PnpmProjectView>::empty(),
    {
        let r = Pnpm { _projects: StrMap::new() };
        assert(r.found() =~= Map::<Seq<char>, PnpmProjectView>::empty());
        r
    }

    /// The projects that were found, by name.
    pub fn projects(&self) -> (r: &StrMap<Project>)
        ensures
            *r == self._projects,
            projects_map(r@) == self.found(),
            self.wf() ==> under_own_names(projects_map(r@)),
    {
        &self._projects
    }

    /// Remembers a project under its name.
    pub fn add_project(&mut self, project: Project)
        requires
            old(self).wf(),
        ensures
            final(self).wf(),
            final(self).found() == old(self).found().insert(project@.name, project@),
    {
        let ghost view = project@;
        let name = project._name.clone();
        self._projects.insert(name, project);
        assert(self.found() =~= old(self).found().insert(view.name, view));
    }

    /// Takes over projects that were remembered in a cache.
    pub fn add_cached(&mut self, projects: Vec<Project>)
        requires
            old(self).wf(),
        ensures
            final(self).wf(),
            final(self).found() == with_projects(
                old(self).found(),
                projects@.map_values(|p: Project| p@),
                projects@.len() as int,
            ),
    {
        let ghost all = projects@.map_values(|p: Project| p@);
        let mut i: usize = 0;
        while i < projects.len()
            invariant
                i <= projects@.len(),
                self.wf(),
                all == projects@.map_values(|p: Project| p@),
                self.found() == with_projects(old(self).found(), all, i as int),
            decreases projects@.len() - i,
        {
            assert(all[i as int] == projects@[i as int]@);
            self.add_project(projects[i].clone());
            i += 1;
        }
    }

    /// Those of the dependencies of a project that were not found yet.
    pub fn missing_deps(&self, project: &Project) -> (r: Vec<String>)
        requires
            self.wf(),
        ensures
            text::texts(r@) == unknown(project@.deps, self.found().dom()),
    {
        let ghost all = project@.deps;
        let mut out: Vec<String> = Vec::new();
        let mut i: usize = 0;
        assert(text::texts(out@) =~= unknown(all.take(0), self.found().dom()));
        while i < project._deps.len()
            invariant
                i <= project._deps@.len(),
                self.wf(),
                all == text::texts(project._deps@),
                text::texts(out@) == unknown(all.take(i as int), self.found().dom()),
            decreases project._deps@.len() - i,
        {
            let ghost before = text::texts(out@);
            let dep = &project._deps[i];
            proof {
                assert(all.take(i + 1).drop_last() =~= all.take(i as int));
                assert(all.take(i + 1).last() == dep@);
            }
            if !self._projects.contains_key(dep.as_str()) {
                out.push(dep.clone());
                assert(text::texts(out@) =~= before.push(dep@));
            }
            i += 1;
        }
        assert(all.take(i as int) =~= all);
        out
    }
}

impl Default for Pnpm {
    fn default() -> (r: Self)
        ensures
            r.wf(),
            r.found() == Map::<Seq<char>, PnpmProjectView>::empty(),
    {
        Pnpm::new()
    }
}

/// A map after the first `n` projects were added under their names.
pub open spec fn with_projects(
    m: Map<Seq<char>, PnpmProjectView>,
    projects: Seq<PnpmProjectView>,
    n: int,
) -> Map<Seq<char>, PnpmProjectView>
    decreases n,
{
    if n <= 0 {
        m
    } else {
        with_projects(m, projects, n - 1).insert(projects[n - 1].name, projects[n - 1])
    }
}

/// A listing whose projects are being read.
pub struct Lookup {
    /// The listed projects.
    pub items: Vec<Json>,
    /// How many of them were read.
    pub done: usize,
    /// How many lookups led to this one.
    pub depth: usize,
}

/// What the search for projects asks for next.
pub enum LoadStep {
    /// What the package manager lists for these projects.
    List(Vec<String>),
    /// The `package.json` in this directory.
    Read(String),
    /// Nothing: all projects were found.
    Done,
}

/// What a [`LoadStep`] says.
pub enum LoadStepView {
    List(Seq<Seq<char>>),
    Read(Seq<char>),
    Done,
}

impl View for LoadStep {
    type V = LoadStepView;

    open spec fn view(&self) -> LoadStepView {
        match *self {
            LoadStep::List(v) => LoadStepView::List(text::texts(v@)),
            LoadStep::Read(p) => LoadStepView::Read(p@),
            LoadStep::Done => LoadStepView::Done,
        }
    }
}

/// What a [`Lookup`] says.
#[verifier::ext_equal]
pub struct LookupView {
    pub items: Seq<JsonView>,
    pub done: nat,
    pub depth: nat,
}

impl View for Lookup {
    type V = LookupView;

    open spec fn view(&self) -> LookupView {
        LookupView {
            items: self.items@.map_values(|j: Json| j@),
            done: self.done as nat,
            depth: self.depth as nat,
        }
    }
}

/// The search for projects: the lookups that are under way, the innermost last.
pub struct Loader {
    pub lookups: Vec<Lookup>,
    pub found: Pnpm,
    /// Whether what the last project depends on was not looked up, since that is nested too
    /// deep. The projects may depend on each other in a circle.
    pub too_deep: bool,
}

/// The lookups without those that are done, the innermost first.
pub open spec fn open_lookups(l: Seq<LookupView>) -> Seq<LookupView>
    decreases l.len(),
{
    if l.len() > 0 && l.last().done >= l.last().items.len() {
        open_lookups(l.drop_last())
    } else {
        l
    }
}

/// What is asked for next: the `package.json` of the next project of the innermost lookup.
pub open spec fn next_step(l: Seq<LookupView>) -> LoadStepView {
    if l.len() == 0 {
        LoadStepView::Done
    } else {
        LoadStepView::Read(
            text_or_empty(field_of(l.last().items[l.last().done as int], "path"@)),
        )
    }
}

/// The lookups after a listing, whose projects are read next.
pub open spec fn after_listing(l: Seq<LookupView>, listing: JsonView) -> Seq<LookupView> {
    let depth = if l.len() > 0 {
        l.last().depth + 1
    } else {
        0
    };
    open_lookups(l.push(LookupView { items: items_of(listing), done: 0, depth: depth as nat }))
}

/// How a search goes on with the `package.json` that was asked for: its project is found, and
/// what it depends on is looked up next where that was not found yet.
pub open spec fn follows_manifest(
    before: Loader,
    after: Loader,
    manifest: JsonView,
    step: LoadStepView,
) -> bool {
    let top = before.stack().last();
    let project = listed_project(top.items[top.done as int], manifest);
    let found = before.found.found().insert(project.name, project);
    let next = before.stack().drop_last().push(LookupView { done: top.done + 1, ..top });
    let missing = unknown(project.deps, found.dom());
    &&& after.found.found() == found
    &&& after.too_deep == (missing.len() > 0 && top.depth >= MAX_LOOKUPS)
    &&& if missing.len() > 0 && top.depth < MAX_LOOKUPS {
        after.stack() == next && step == LoadStepView::List(missing)
    } else {
        after.stack() == open_lookups(next) && step == next_step(after.stack())
    }
}

impl Loader {
    /// The lookups that are under way.
    pub open spec fn stack(&self) -> Seq<LookupView> {
        self.lookups@.map_values(|l: Lookup| l@)
    }

    /// Each lookup came out of the one before, and none is too deep.
    pub open spec fn wf(&self) -> bool {
        &&& self.found.wf()
        &&& forall|i: int|
            0 <= i < self.stack().len() ==> (#[trigger] self.stack()[i]).depth <= MAX_LOOKUPS
    }

    /// A search that has not begun.
    pub fn new(found: Pnpm) -> (r: Self)
        requires
            found.wf(),
        ensures
            r.wf(),
            r.stack() == Seq::<LookupView>::empty(),
            r.found == found,
            !r.too_deep,
    {
        let r = Loader { lookups: Vec::new(), found, too_deep: false };
        assert(r.stack() =~= Seq::<LookupView>::empty());
        r
    }

    /// Leaves the lookups that are done, and tells what is asked for next.
    fn advance(&mut self) -> (r: LoadStep)
        requires
            old(self).wf(),
        ensures
            final(self).wf(),
            final(self).found == old(self).found,
            final(self).too_deep == old(self).too_deep,
            final(self).stack() == open_lookups(old(self).stack()),
            r@ == next_step(final(self).stack()),
    {
        loop
            invariant
                self.wf(),
                self.found == old(self).found,
                self.too_deep == old(self).too_deep,
                open_lookups(self.stack()) == open_lookups(old(self).stack()),
            decreases self.lookups@.len(),
        {
            let n: usize = self.lookups.len();
            if n == 0 {
                assert(self.stack() =~= open_lookups(self.stack()));
                return LoadStep::Done;
            }
            let top = &self.lookups[n - 1];
            assert(self.stack().last() == top@);
            assert(top@.items.len() == top.items@.len());
            if top.done < top.items.len() {
                let item = &top.items[top.done];
                assert(top@.items[top.done as int] == item@);
                return LoadStep::Read(str_or_empty(item.field("path")));
            }
            let ghost before = self.stack();
            self.lookups.pop();
            proof {
                assert(self.stack() =~= before.drop_last());
                assert forall|i: int| 0 <= i < self.stack().len() implies (
                #[trigger] self.stack()[i]).depth <= MAX_LOOKUPS by {
                    assert(self.stack()[i] == before[i]);
                }
            }
        }
    }

    /// What the package manager listed: its projects are read next, as a lookup inside the
    /// one under way. A listing that is no array lists nothing.
    pub fn listed(&mut self, listing: Json) -> (r: LoadStep)
        requires
            old(self).wf(),
            old(self).stack().len() > 0 ==> old(self).stack().last().depth < MAX_LOOKUPS,
        ensures
            final(self).wf(),
            final(self).found == old(self).found,
            final(self).too_deep == old(self).too_deep,
            final(self).stack() == after_listing(old(self).stack(), listing@),
            r@ == next_step(final(self).stack()),
    {
        let n: usize = self.lookups.len();
        let depth: usize = if n > 0 {
            assert(self.stack().last() == self.lookups@[n - 1]@);
            self.lookups[n - 1].depth + 1
        } else {
            0
        };
        let ghost items_view = items_of(listing@);
        let items = match listing {
            Json::Array(v) => v,
            _ => Vec::new(),
        };
        assert(items@.map_values(|j: Json| j@) =~= items_view);
        let ghost before = self.stack();
        let l = Lookup { items, done: 0, depth };
        let ghost lv = l@;
        self.lookups.push(l);
        proof {
            assert(self.stack() =~= before.push(lv));
            assert forall|i: int| 0 <= i < self.stack().len() implies (
            #[trigger] self.stack()[i]).depth <= MAX_LOOKUPS by {
                if i < before.len() {
                    assert(self.stack()[i] == before[i]);
                }
            }
        }
        self.advance()
    }

    /// What the package manager printed as a listing. Nothing changes where that is no JSON.
    pub fn listed_text(&mut self, printed: &str) -> (r: Option<LoadStep>)
        requires
            old(self).wf(),
            old(self).stack().len() > 0 ==> old(self).stack().last().depth < MAX_LOOKUPS,
        ensures
            final(self).wf(),
            match parsed_json(printed@) {
                Some(listing) => {
                    &&& r matches Some(step)
                    &&& step@ == next_step(final(self).stack())
                    &&& final(self).found == old(self).found
                    &&& final(self).too_deep == old(self).too_deep
                    &&& final(self).stack() == after_listing(old(self).stack(), listing)
                },
                None => r is None && *final(self) == *old(self),
            },
    {
        match crate::json::parse(printed) {
            Some(listing) => Some(self.listed(listing)),
            None => None,
        }
    }

    /// The text of the `package.json` that was asked for. Nothing changes where that is no JSON.
    pub fn load_projects_text(&mut self, contents: &str) -> (r: Option<LoadStep>)
        requires
            old(self).wf(),
            old(self).stack().len() > 0,
            old(self).stack().last().done < old(self).stack().last().items.len(),
        ensures
            final(self).wf(),
            match parsed_json(contents@) {
                Some(manifest) => {
                    &&& r matches Some(step)
                    &&& follows_manifest(*old(self), *final(self), manifest, step@)
                },
                None => r is None && *final(self) == *old(self),
            },
    {
        match crate::json::parse(contents) {
            Some(manifest) => Some(self.load_projects(&manifest)),
            None => None,
        }
    }

    /// The `package.json` of the project that was asked for: the project is found. Where it
    /// depends on projects that were not found yet these are looked up next, unless they
    /// are nested too deep, which is noted.
    pub fn load_projects(&mut self, manifest: &Json) -> (r: LoadStep)
        requires
            old(self).wf(),
            old(self).stack().len() > 0,
            old(self).stack().last().done < old(self).stack().last().items.len(),
        ensures
            final(self).wf(),
            follows_manifest(*old(self), *final(self), manifest@, r@),
    {
        let n: usize = self.lookups.len();
        let ghost before = self.stack();
        let ghost top = before.last();
        assert(before.len() == n);
        assert(top == self.lookups@[n - 1]@);
        let at: usize = self.lookups[n - 1].done;
        let depth: usize = self.lookups[n - 1].depth;
        let count: usize = self.lookups[n - 1].items.len();
        assert(top.items.len() == count);
        let project = read_project(&self.lookups[n - 1].items[at], manifest);
        assert(project@ == listed_project(top.items[top.done as int], manifest@));
        self.lookups[n - 1].done = at + 1;
        proof {
            assert(self.stack() =~= before.drop_last().push(
                LookupView { done: top.done + 1, ..top },
            ));
            assert forall|i: int| 0 <= i < self.stack().len() implies (
            #[trigger] self.stack()[i]).depth <= MAX_LOOKUPS by {
                assert(self.stack()[i].depth == before[i].depth);
            }
        }
        self.found.add_project(project.clone());
        let missing = self.found.missing_deps(&project);
        assert(text::texts(missing@).len() == missing@.len());
        self.too_deep = missing.len() > 0 && depth >= MAX_LOOKUPS;
        if missing.len() > 0 && depth < MAX_LOOKUPS {
            return LoadStep::List(missing);
        }
        self.advance()
    }
}

/// The SHA-256 digest of some bytes.
pub uninterp spec fn sha256_of(bytes: Seq<u8>) -> Seq<u8>;

/// `sha2::Sha256::digest`: the SHA-256 digest of some bytes, which are 32. The contract claims
/// that it depends on the bytes alone; which digest that is is not said here.
#[verifier::external_body]
fn sha256(bytes: &Vec<u8>) -> (r: Vec<u8>)
    ensures
        r@ == sha256_of(bytes@),
        r@.len() == 32,
{
    <sha2::Sha256 as sha2::Digest>::digest(bytes).to_vec()
}

/// A digit of a number to the base of sixteen.
pub open spec fn hex_digit(n: nat) -> char {
    if n < 10 {
        (48 + n) as char
    } else {
        (87 + n) as char
    }
}

/// Bytes to the base of sixteen, two lower-case digits each.
pub open spec fn hex_of(bytes: Seq<u8>) -> Seq<char>
    decreases bytes.len(),
{
    if bytes.len() == 0 {
        Seq::empty()
    } else {
        hex_of(bytes.drop_last()).push(hex_digit((bytes.last() / 16) as nat)).push(
            hex_digit((bytes.last() % 16) as nat),
        )
    }
}

/// `hex::encode`: bytes to the base of sixteen, two lower-case digits each.
#[verifier::external_body]
fn hex_text(bytes: &Vec<u8>) -> (r: String)
    ensures
        r@ == hex_of(bytes@),
{
    hex::encode(bytes)
}

/// The digest of the contents of a file, to the base of sixteen.
pub fn get_file_sha256(contents: &Vec<u8>) -> (r: String)
    ensures
        r@ == hex_of(sha256_of(contents@)),
{
    hex_text(&sha256(contents))
}

/// The bytes of several strings, one after the other.
pub open spec fn joined_bytes(strings: Seq<Seq<char>>) -> Seq<u8>
    decreases strings.len(),
{
    if strings.len() == 0 {
        Seq::empty()
    } else {
        joined_bytes(strings.drop_last()) + vstd::utf8::encode_utf8(strings.last())
    }
}

/// The digest of several strings, one after the other, to the base of sixteen.
pub fn hash_vec_strings(strings: &Vec<String>) -> (r: String)
    ensures
        r@ == hex_of(sha256_of(joined_bytes(text::texts(strings@)))),
{
    let ghost all = text::texts(strings@);
    let mut bytes: Vec<u8> = Vec::new();
    let mut i: usize = 0;
    assert(bytes@ =~= joined_bytes(all.take(0)));
    while i < strings.len()
        invariant
            i <= strings@.len(),
            all == text::texts(strings@),
            bytes@ == joined_bytes(all.take(i as int)),
        decreases strings@.len() - i,
    {
        proof {
            assert(all.take(i + 1).drop_last() =~= all.take(i as int));
            assert(all.take(i + 1).last() == strings@[i as int]@);
        }
        let more = strings[i].as_str().as_bytes();
        let ghost before = bytes@;
        bytes.extend_from_slice(more);
        assert(bytes@ =~= before + more@);
        i += 1;
    }
    assert(all.take(i as int) =~= all);
    hex_text(&sha256(&bytes))
}

/// The name of the file in which the projects found for some filters are remembered, for one
/// state of the lock file.
pub fn cache_name(projects: &Vec<String>, lock_hash: &str) -> (r: String)
    ensures
        r@ == hex_of(sha256_of(joined_bytes(text::texts(projects@).push(lock_hash@)))),
{
    let mut all = text::clone_texts(projects);
    all.push(lock_hash.to_owned());
    assert(text::texts(all@) =~= text::texts(projects@).push(lock_hash@));
    hash_vec_strings(&all)
}

proof fn lemma_encode_concat(a: Seq<char>, b: Seq<char>)
    ensures
        vstd::utf8::encode_utf8(a + b) == vstd::utf8::encode_utf8(a) + vstd::utf8::encode_utf8(b),
    decreases a.len(),
{
    if a.len() == 0 {
        assert(a + b =~= b);
        assert(vstd::utf8::encode_utf8(a) + vstd::utf8::encode_utf8(b)
            =~= vstd::utf8::encode_utf8(b));
    } else {
        assert((a + b).drop_first() =~= a.drop_first() + b);
        lemma_encode_concat(a.drop_first(), b);
        assert(vstd::utf8::encode_utf8(a + b) =~= vstd::utf8::encode_utf8(a)
            + vstd::utf8::encode_utf8(b));
    }
}

/// Only what the strings spell one after the other counts, not where one ends and the next
/// begins: two lists that spell the same share a digest.
pub proof fn lemma_hash_ignores_boundaries(a: Seq<char>, b: Seq<char>, rest: Seq<Seq<char>>)
    ensures
        joined_bytes(seq![a, b] + rest) == joined_bytes(seq![a + b] + rest),
    decreases rest.len(),
{
    if rest.len() == 0 {
        assert(seq![a, b] + rest =~= seq![a, b]);
        assert(seq![a + b] + rest =~= seq![a + b]);
        assert(seq![a, b].drop_last() =~= seq![a]);
        assert(seq![a].drop_last() =~= Seq::<Seq<char>>::empty());
        assert(seq![a + b].drop_last() =~= Seq::<Seq<char>>::empty());
        assert(joined_bytes(Seq::<Seq<char>>::empty()) =~= Seq::<u8>::empty());
        assert(joined_bytes(seq![a]) =~= vstd::utf8::encode_utf8(a));
        assert(joined_bytes(seq![a + b]) =~= vstd::utf8::encode_utf8(a + b));
        lemma_encode_concat(a, b);
    } else {
        assert((seq![a, b] + rest).drop_last() =~= seq![a, b] + rest.drop_last());
        assert((seq![a + b] + rest).drop_last() =~= seq![a + b] + rest.drop_last());
        lemma_hash_ignores_boundaries(a, b, rest.drop_last());
    }
}

/// A digest to the base of sixteen has twice as many digits as it has bytes.
pub proof fn lemma_hex_len(bytes: Seq<u8>)
    ensures
        hex_of(bytes).len() == 2 * bytes.len(),
    decreases bytes.len(),
{
    if bytes.len() > 0 {
        lemma_hex_len(bytes.drop_last());
    }
}

} // verus!
