//! How the projects of a workspace are found, and which of them a changed file concerns.

use vstd::prelude::*;

use crate::globs::path_tail;
use crate::globs::pattern_matches;
use crate::json::JsonView;
use crate::json::field_of;
use crate::json::fields_of;
use crate::json::text_or_empty;
use crate::laws::texts::lemma_begins_with;
use crate::laws::texts::lemma_occurs_in;
use crate::laws::texts::lemma_strip;
use crate::pnpm::LoadStepView;
use crate::pnpm::Loader;
use crate::pnpm::LookupView;
use crate::pnpm::PnpmProjectView;
use crate::pnpm::follows_manifest;
use crate::pnpm::linked_deps;
use crate::pnpm::linked_in;
use crate::pnpm::listed_project;
use crate::pnpm::open_lookups;
use crate::pnpm::unknown;
use crate::pnpm::with_projects;
use crate::text;
use crate::watch_manager::AppWatcher;
use crate::watch_manager::all_normalized;
use crate::watch_manager::concerned;
use crate::watch_manager::concerned_until;
use crate::watch_manager::listed_in_all;
use crate::watch_manager::listed_texts;
use crate::watch_manager::normalized;
use crate::watch_manager::paths_in;
use crate::watch_manager::texts_in;
use crate::watch_manager::walked;
use crate::watch_manager::watcher_of;

verus! {

/// Whether a dependency is a project of the workspace: it is linked, and not into
/// `node_modules`.
pub open spec fn is_linked(dep: JsonView, name: Seq<char>) -> bool {
    &&& field_of(dep, "from"@) == Some(JsonView::Str(name))
    &&& field_of(dep, "version"@) matches Some(JsonView::Str(version))
    &&& exists|rest: Seq<char>| #[trigger] ("link:"@ + rest) == version
    &&& !exists|before: Seq<char>, after: Seq<char>| #[trigger]
        (before + "node_modules"@ + after) == version
}

proof fn lemma_linked_in(deps: Seq<(Seq<char>, JsonView)>, name: Seq<char>)
    requires
        name.len() > 0,
    ensures
        linked_in(deps).contains(name) <==> exists|i: int|
            0 <= i < deps.len() && is_linked((#[trigger] deps[i]).1, name),
    decreases deps.len(),
{
    if deps.len() > 0 {
        let less = deps.drop_last();
        let dep = deps.last().1;
        lemma_linked_in(less, name);
        let before = linked_in(less);
        let all = linked_in(deps);
        let version = text_or_empty(field_of(dep, "version"@));
        let from = text_or_empty(field_of(dep, "from"@));
        assert(deps[deps.len() - 1] == deps.last());
        lemma_begins_with(version, "link:"@);
        lemma_occurs_in(version, "node_modules"@);
        reveal_strlit("link:");
        assert(is_linked(dep, name) <==> from == name && text::begins_with(version, "link:"@)
            && !text::occurs_in(version, "node_modules"@));
        if before.contains(name) {
            let i = choose|i: int| 0 <= i < before.len() && before[i] == name;
            assert(all[i] == name);
            let k = choose|k: int| 0 <= k < less.len() && is_linked((#[trigger] less[k]).1, name);
            assert(deps[k] == less[k]);
        }
        if all.contains(name) {
            let i = choose|i: int| 0 <= i < all.len() && all[i] == name;
            if i < before.len() {
                assert(before[i] == name);
            }
        }
        if exists|i: int| 0 <= i < deps.len() && is_linked((#[trigger] deps[i]).1, name) {
            let i = choose|i: int| 0 <= i < deps.len() && is_linked((#[trigger] deps[i]).1, name);
            if i < less.len() {
                assert(less[i] == deps[i]);
                assert(before.contains(name));
            } else {
                assert(all[before.len() as int] == name);
            }
        }
    }
}

/// Whether an object in the field `key` of a listed project has a dependency that is linked.
pub open spec fn links(item: JsonView, key: Seq<char>, name: Seq<char>) -> bool {
    &&& field_of(item, key) matches Some(JsonView::Object(deps))
    &&& exists|i: int| 0 <= i < deps.len() && is_linked((#[trigger] deps[i]).1, name)
}

/// A project depends on exactly the projects of the workspace that the package manager lists as
/// linked, among its dependencies or those for development.
pub proof fn lemma_linked_deps(item: JsonView, name: Seq<char>)
    requires
        name.len() > 0,
    ensures
        linked_deps(item).contains(name) <==> links(item, "dependencies"@, name) || links(
            item,
            "devDependencies"@,
            name,
        ),
{
    let a = fields_of(field_of(item, "dependencies"@));
    let b = fields_of(field_of(item, "devDependencies"@));
    lemma_linked_in(a, name);
    lemma_linked_in(b, name);
    let x = linked_in(a);
    let y = linked_in(b);
    let all = linked_deps(item);
    assert(all == x + y);
    if x.contains(name) {
        let i = choose|i: int| 0 <= i < x.len() && x[i] == name;
        assert(all[i] == name);
    }
    if y.contains(name) {
        let i = choose|i: int| 0 <= i < y.len() && y[i] == name;
        assert(all[x.len() + i] == name);
    }
    if all.contains(name) {
        let i = choose|i: int| 0 <= i < all.len() && all[i] == name;
        if i < x.len() {
            assert(x[i] == name);
        } else {
            assert(y[i - x.len()] == name);
        }
    }
}

/// A listed project has the name and the path that are listed, and the scripts that its
/// `package.json` names, in their order.
pub proof fn lemma_listed_project(item: JsonView, manifest: JsonView)
    ensures
        field_of(item, "name"@) matches Some(JsonView::Str(s)) ==> listed_project(
            item,
            manifest,
        ).name == s,
        field_of(item, "path"@) matches Some(JsonView::Str(s)) ==> listed_project(
            item,
            manifest,
        ).path == s,
        match field_of(manifest, "scripts"@) {
            Some(JsonView::Object(scripts)) => {
                let own = listed_project(item, manifest).scripts;
                &&& own.len() == scripts.len()
                &&& forall|i: int| 0 <= i < scripts.len() ==> #[trigger] own[i] == scripts[i].0
            },
            _ => listed_project(item, manifest).scripts.len() == 0,
        },
{
}

/// What is still to be looked up is exactly what was not found yet.
pub proof fn lemma_unknown(deps: Seq<Seq<char>>, known: Set<Seq<char>>, name: Seq<char>)
    ensures
        unknown(deps, known).contains(name) <==> !known.contains(name) && exists|i: int|
            0 <= i < deps.len() && #[trigger] deps[i] == name,
    decreases deps.len(),
{
    if deps.len() > 0 {
        let less = deps.drop_last();
        lemma_unknown(less, known, name);
        let before = unknown(less, known);
        let all = unknown(deps, known);
        assert(deps[deps.len() - 1] == deps.last());
        if before.contains(name) {
            let i = choose|i: int| 0 <= i < before.len() && before[i] == name;
            assert(all[i] == name);
            let k = choose|k: int| 0 <= k < less.len() && #[trigger] less[k] == name;
            assert(deps[k] == name);
        }
        if all.contains(name) {
            let i = choose|i: int| 0 <= i < all.len() && all[i] == name;
            if i < before.len() {
                assert(before[i] == name);
            }
        }
        if !known.contains(name) && exists|i: int| 0 <= i < deps.len() && #[trigger] deps[i] == name {
            let i = choose|i: int| 0 <= i < deps.len() && #[trigger] deps[i] == name;
            if i < less.len() {
                assert(less[i] == name);
                assert(before.contains(name));
            } else {
                assert(all[before.len() as int] == name);
            }
        }
    }
}

/// Of several projects of one name the last one counts; those that were there under other names
/// stay.
pub proof fn lemma_with_projects(
    m: Map<Seq<char>, PnpmProjectView>,
    projects: Seq<PnpmProjectView>,
    n: int,
    at: int,
    name: Seq<char>,
)
    requires
        -1 <= at < n <= projects.len(),
        at >= 0 ==> projects[at].name == name,
        forall|k: int| at < k < n ==> (#[trigger] projects[k]).name != name,
    ensures
        at >= 0 ==> with_projects(m, projects, n).contains_key(name) && with_projects(
            m,
            projects,
            n,
        )[name] == projects[at],
        at < 0 ==> with_projects(m, projects, n).contains_key(name) == m.contains_key(name) && (
        m.contains_key(name) ==> with_projects(m, projects, n)[name] == m[name]),
    decreases n,
{
    if n > 0 && n - 1 > at {
        lemma_with_projects(m, projects, n - 1, at, name);
    }
}

/// Of the lookups that are under way the innermost ones that are done are left out, and no
/// others: what is left ends with one that has something left to read.
pub proof fn lemma_open_lookups(l: Seq<LookupView>)
    ensures
        open_lookups(l).len() <= l.len(),
        open_lookups(l) == l.take(open_lookups(l).len() as int),
        open_lookups(l).len() > 0 ==> l[open_lookups(l).len() - 1].done < l[open_lookups(l).len()
            - 1].items.len(),
        forall|i: int|
            open_lookups(l).len() <= i < l.len() ==> (#[trigger] l[i]).done >= l[i].items.len(),
    decreases l.len(),
{
    if l.len() > 0 && l.last().done >= l.last().items.len() {
        let less = l.drop_last();
        lemma_open_lookups(less);
        assert(less.take(open_lookups(less).len() as int) =~= l.take(
            open_lookups(l).len() as int,
        ));
        assert forall|i: int| open_lookups(l).len() <= i < l.len() implies (#[trigger] l[i]).done
            >= l[i].items.len() by {
            if i < less.len() {
                assert(less[i] == l[i]);
            }
        }
        if open_lookups(l).len() > 0 {
            assert(less[open_lookups(l).len() - 1] == l[open_lookups(l).len() - 1]);
        }
    } else {
        assert(l.take(l.len() as int) =~= l);
    }
}

/// A search goes on with what a project depends on and was not found, unless that is nested
/// ten deep, then with the next project that was listed, and ends where none is left. It
/// forgets nothing that was found.
pub proof fn lemma_search_goes_on(
    before: Loader,
    after: Loader,
    manifest: JsonView,
    step: LoadStepView,
    name: Seq<char>,
)
    requires
        follows_manifest(before, after, manifest, step),
        before.stack().len() > 0,
        before.stack().last().done < before.stack().last().items.len(),
    ensures
        ({
            let top = before.stack().last();
            let item = top.items[top.done as int];
            let project = listed_project(item, manifest);
            let found = after.found.found();
            let open = exists|d: int|
                0 <= d < project.deps.len() && !found.contains_key(#[trigger] project.deps[d]);
            &&& found.contains_key(project.name) && found[project.name] == project
            &&& name != project.name ==> found.contains_key(name)
                == before.found.found().contains_key(name)
            &&& name != project.name && found.contains_key(name) ==> found[name]
                == before.found.found()[name]
            &&& open && top.depth < 10 ==> {
                &&& step matches LoadStepView::List(names)
                &&& names.contains(name) <==> !found.contains_key(name) && exists|d: int|
                    0 <= d < project.deps.len() && #[trigger] project.deps[d] == name
            }
            &&& !(open && top.depth < 10) ==> !(step is List)
            &&& after.too_deep <==> open && top.depth >= 10
            &&& step is Done ==> after.stack().len() == 0
            &&& step matches LoadStepView::Read(path) ==> after.stack().len() > 0 && ({
                let next = after.stack().last();
                next.done < next.items.len() && path == text_or_empty(
                    field_of(next.items[next.done as int], "path"@),
                )
            })
        }),
{
    let top = before.stack().last();
    let item = top.items[top.done as int];
    let project = listed_project(item, manifest);
    let found = after.found.found();
    let missing = unknown(project.deps, found.dom());
    lemma_unknown(project.deps, found.dom(), name);
    if missing.len() > 0 {
        assert(missing.contains(missing[0]));
        lemma_unknown(project.deps, found.dom(), missing[0]);
        let d = choose|d: int|
            0 <= d < project.deps.len() && #[trigger] project.deps[d] == missing[0];
        assert(!found.contains_key(project.deps[d]));
    }
    if exists|d: int|
        0 <= d < project.deps.len() && !found.contains_key(#[trigger] project.deps[d]) {
        let d = choose|d: int|
            0 <= d < project.deps.len() && !found.contains_key(#[trigger] project.deps[d]);
        lemma_unknown(project.deps, found.dom(), project.deps[d]);
        assert(missing.contains(project.deps[d]));
    }
    let next = before.stack().drop_last().push(LookupView { done: top.done + 1, ..top });
    lemma_open_lookups(next);
}

/// Of the members of a list those that are texts are taken, in their order.
pub proof fn lemma_texts_in(items: Seq<JsonView>, last: JsonView)
    ensures
        texts_in(Seq::empty()).len() == 0,
        last matches JsonView::Str(s) ==> texts_in(items.push(last)) == texts_in(items).push(s),
        !(last is Str) ==> texts_in(items.push(last)) == texts_in(items),
{
    assert(items.push(last).drop_last() =~= items);
}

/// Of the members of a list those are taken whose field `path` is a text, in their order.
pub proof fn lemma_paths_in(items: Seq<JsonView>, last: JsonView)
    ensures
        paths_in(Seq::empty()).len() == 0,
        field_of(last, "path"@) matches Some(JsonView::Str(s)) ==> paths_in(items.push(last))
            == paths_in(items).push(s),
        !(field_of(last, "path"@) matches Some(JsonView::Str(s))) ==> paths_in(items.push(last))
            == paths_in(items),
{
    assert(items.push(last).drop_last() =~= items);
}

/// What several documents list is what each of them lists.
pub proof fn lemma_listed_in_all(docs: Seq<JsonView>, key: Seq<char>, s: Seq<char>)
    ensures
        listed_in_all(docs, key).contains(s) <==> exists|i: int|
            0 <= i < docs.len() && listed_texts(#[trigger] docs[i], key).contains(s),
    decreases docs.len(),
{
    if docs.len() > 0 {
        let less = docs.drop_last();
        let last = docs.last();
        lemma_listed_in_all(less, key, s);
        let before = listed_in_all(less, key);
        let own = listed_texts(last, key);
        let all = listed_in_all(docs, key);
        assert(all == before + own);
        assert(docs[docs.len() - 1] == last);
        if before.contains(s) {
            let i = choose|i: int| 0 <= i < before.len() && before[i] == s;
            assert(all[i] == s);
            let k = choose|k: int|
                0 <= k < less.len() && listed_texts(#[trigger] less[k], key).contains(s);
            assert(docs[k] == less[k]);
        }
        if own.contains(s) {
            let i = choose|i: int| 0 <= i < own.len() && own[i] == s;
            assert(all[before.len() + i] == s);
        }
        if all.contains(s) {
            let i = choose|i: int| 0 <= i < all.len() && all[i] == s;
            if i < before.len() {
                assert(before[i] == s);
            } else {
                assert(own[i - before.len()] == s);
            }
        }
        if exists|i: int| 0 <= i < docs.len() && listed_texts(#[trigger] docs[i], key).contains(s) {
            let i = choose|i: int|
                0 <= i < docs.len() && listed_texts(#[trigger] docs[i], key).contains(s);
            if i < less.len() {
                assert(less[i] == docs[i]);
            }
        }
    }
}

/// A pattern without wildcards stands for everything below the directory that it names, with
/// however many slashes it ends. One with a wildcard stays as it is.
pub proof fn lemma_normalized(directory: Seq<char>, slashes: nat)
    ensures
        directory.contains('*') || directory.contains('?') ==> normalized(directory) == directory,
        !directory.contains('*') && !directory.contains('?') && (directory.len() == 0
            || directory[directory.len() - 1] != '/') ==> normalized(
            directory + Seq::new(slashes, |i: int| '/'),
        ) == directory + "/**"@,
{
    let more = Seq::new(slashes, |i: int| '/');
    lemma_strip(directory, '/', slashes);
    let all = directory + more;
    if !directory.contains('*') && !directory.contains('?') {
        assert forall|c: char| all.contains(c) implies c == '/' || #[trigger] directory.contains(
            c,
        ) by {
            let i = choose|i: int| 0 <= i < all.len() && all[i] == c;
            if i < directory.len() {
                assert(directory[i] == c);
            }
        }
        if all.contains('*') {
            assert(directory.contains('*'));
        }
        if all.contains('?') {
            assert(directory.contains('?'));
        }
    }
}

/// A walk is given every pattern to be included as it is, and every pattern to be excluded
/// behind an exclamation mark.
pub proof fn lemma_walked(includes: Seq<Seq<char>>, excludes: Seq<Seq<char>>)
    ensures
        walked(includes, excludes).len() == includes.len() + excludes.len(),
        forall|i: int|
            0 <= i < includes.len() ==> #[trigger] walked(includes, excludes)[i] == includes[i],
        forall|i: int|
            0 <= i < excludes.len() ==> walked(includes, excludes)[includes.len() + i] == "!"@
                + #[trigger] excludes[i],
{
}

/// Whether a path matches one of some patterns, each of which stands for a directory where it
/// has no wildcard.
pub open spec fn fits_one(pats: Seq<Seq<char>>, path: Seq<char>) -> bool {
    exists|i: int|
        0 <= i < pats.len() && pattern_matches(normalized(#[trigger] pats[i]), path)
}

/// A project without patterns is concerned by every change. Any other is concerned exactly where
/// a changed file lies below it and matches one of the patterns to be included and none of those
/// to be excluded.
pub proof fn lemma_concerned(
    w: AppWatcher,
    name: Seq<char>,
    path: Seq<char>,
    includes: Seq<Seq<char>>,
    excludes: Seq<Seq<char>>,
    paths: Seq<Seq<char>>,
)
    requires
        watcher_of(w, name, path, includes, excludes),
    ensures
        includes.len() == 0 && excludes.len() == 0 ==> concerned(w, paths),
        includes.len() > 0 || excludes.len() > 0 ==> (concerned(w, paths) <==> exists|i: int|
            0 <= i < paths.len() && (path_tail(#[trigger] paths[i], path) matches Some(rest)
                && fits_one(includes, rest) && !fits_one(excludes, rest))),
{
    if let Some(m) = w.glob_set {
        assert forall|i: int| 0 <= i < paths.len() implies (m.watches(#[trigger] paths[i]) <==> (
        path_tail(paths[i], path) matches Some(rest) && fits_one(includes, rest) && !fits_one(
            excludes,
            rest,
        ))) by {
            if let Some(rest) = path_tail(paths[i], path) {
                lemma_fits_one(includes, rest);
                lemma_fits_one(excludes, rest);
            }
        }
        if concerned(w, paths) {
            let i = choose|i: int| 0 <= i < paths.len() && m.watches(#[trigger] paths[i]);
            assert(path_tail(paths[i], path) is Some);
        }
        if exists|i: int|
            0 <= i < paths.len() && (path_tail(#[trigger] paths[i], path) matches Some(rest)
                && fits_one(includes, rest) && !fits_one(excludes, rest)) {
            let i = choose|i: int|
                0 <= i < paths.len() && (path_tail(#[trigger] paths[i], path) matches Some(rest)
                    && fits_one(includes, rest) && !fits_one(excludes, rest));
            assert(m.watches(paths[i]));
        }
    }
}

proof fn lemma_fits_one(pats: Seq<Seq<char>>, path: Seq<char>)
    ensures
        crate::globs::any_matches(all_normalized(pats), path) <==> fits_one(pats, path),
{
    let all = all_normalized(pats);
    assert(all.len() == pats.len());
    if crate::globs::any_matches(all, path) {
        let i = choose|i: int| 0 <= i < all.len() && pattern_matches(#[trigger] all[i], path);
        assert(pattern_matches(normalized(pats[i]), path));
    }
    if fits_one(pats, path) {
        let i = choose|i: int|
            0 <= i < pats.len() && pattern_matches(normalized(#[trigger] pats[i]), path);
        assert(all[i] == normalized(pats[i]));
        assert(pattern_matches(all[i], path));
    }
}

/// The projects that a change is reported of are exactly those of the watchers that it concerns,
/// each once.
pub proof fn lemma_reported(
    watchers: Seq<AppWatcher>,
    paths: Seq<Seq<char>>,
    n: int,
    name: Seq<char>,
)
    requires
        0 <= n <= watchers.len(),
    ensures
        concerned_until(watchers, paths, n).contains(name) <==> exists|i: int|
            0 <= i < n && (#[trigger] watchers[i]).name@ == name && concerned(watchers[i], paths),
        concerned_until(watchers, paths, n).no_duplicates(),
    decreases n,
{
    if n > 0 {
        lemma_reported(watchers, paths, n - 1, name);
        let before = concerned_until(watchers, paths, n - 1);
        let all = concerned_until(watchers, paths, n);
        let w = watchers[n - 1];
        if before.contains(name) {
            let i = choose|i: int| 0 <= i < before.len() && before[i] == name;
            assert(all[i] == name);
        }
        if concerned(w, paths) && !before.contains(w.name@) {
            assert(all[before.len() as int] == w.name@);
        }
        if all.contains(name) {
            let i = choose|i: int| 0 <= i < all.len() && all[i] == name;
            if i < before.len() {
                assert(before[i] == name);
            } else {
                assert(watchers[n - 1].name@ == name);
            }
        }
        if exists|i: int|
            0 <= i < n && (#[trigger] watchers[i]).name@ == name && concerned(watchers[i], paths) {
            let i = choose|i: int|
                0 <= i < n && (#[trigger] watchers[i]).name@ == name && concerned(
                    watchers[i],
                    paths,
                );
            if i < n - 1 {
                assert(watchers[i].name@ == name && concerned(watchers[i], paths));
                assert(before.contains(name));
            }
        }
    }
}

} // verus!
