//! What is watched for a task, and which changed files concern it.

use vstd::prelude::*;

use crate::config::ConfigWatchView;
use crate::config::ProjectView;
use crate::globs::any_matches;
use crate::globs::names_parent;
use crate::globs::no_meta;
use crate::globs::pattern_matches;
use crate::task_managerv2::WatchDataView;
use crate::task_managerv2::joined;
use crate::task_managerv2::watch_data_of;
use crate::text;
use crate::watch_managerv2::EntryView;
use crate::watch_managerv2::PlanView;
use crate::watch_managerv2::below;
use crate::watch_managerv2::concerns;
use crate::watch_managerv2::escaped;
use crate::watch_managerv2::glob_path;
use crate::watch_managerv2::lemma_below_matches;
use crate::watch_managerv2::lemma_escaped_matches;
use crate::watch_managerv2::watch_plan_of;
use crate::watch_managerv2::with_entries;

verus! {

/// A file concerns a task where one of the patterns to be included matches it and none of those
/// to be excluded does.
pub proof fn lemma_concerns(
    includes: Seq<Seq<char>>,
    excludes: Seq<Seq<char>>,
    path: Seq<char>,
)
    ensures
        concerns(includes, excludes, path) <==> (exists|i: int|
            0 <= i < includes.len() && pattern_matches(#[trigger] includes[i], glob_path(path)))
            && (forall|i: int|
            0 <= i < excludes.len() ==> !pattern_matches(#[trigger] excludes[i], glob_path(path))),
{
}

proof fn lemma_matches_concat(a: Seq<Seq<char>>, b: Seq<Seq<char>>, p: Seq<char>)
    ensures
        any_matches(a + b, p) <==> any_matches(a, p) || any_matches(b, p),
{
    let all = a + b;
    if any_matches(a, p) {
        let i = choose|i: int| 0 <= i < a.len() && pattern_matches(#[trigger] a[i], p);
        assert(all[i] == a[i]);
    }
    if any_matches(b, p) {
        let i = choose|i: int| 0 <= i < b.len() && pattern_matches(#[trigger] b[i], p);
        assert(all[a.len() + i] == b[i]);
    }
    if any_matches(all, p) {
        let i = choose|i: int| 0 <= i < all.len() && pattern_matches(#[trigger] all[i], p);
        if i < a.len() {
            assert(all[i] == a[i]);
        } else {
            assert(all[i] == b[i - a.len()]);
        }
    }
}

/// Whether a changed file is one of the entries of a directory, or lies below one.
pub open spec fn in_entries(entries: Seq<EntryView>, path: Seq<char>) -> bool {
    exists|i: int|
        0 <= i < entries.len() && ({
            let e = #[trigger] entries[i];
            if e.is_file {
                path == glob_path(e.path) && (no_meta(path) || !names_parent(path))
            } else {
                e.is_dir && text::begins_with(path, glob_path(e.path).push('/'))
            }
        })
}

proof fn lemma_entries(p: PlanView, entries: Seq<EntryView>, n: int, path: Seq<char>)
    requires
        0 <= n <= entries.len(),
    ensures
        any_matches(with_entries(p, entries, n).includes, path) <==> any_matches(p.includes, path)
            || in_entries(entries.take(n), path),
        with_entries(p, entries, n).excludes == p.excludes,
    decreases n,
{
    if n <= 0 {
        assert(entries.take(0) =~= Seq::<EntryView>::empty());
    } else {
        lemma_entries(p, entries, n - 1, path);
        let before = with_entries(p, entries, n - 1).includes;
        let after = with_entries(p, entries, n).includes;
        let e = entries[n - 1];
        let some = entries.take(n - 1);
        let more = entries.take(n);
        assert(more =~= some.push(e));
        lemma_escaped_matches(glob_path(e.path), path);
        lemma_below_matches(e.path, path);
        let own = if e.is_file {
            seq![escaped(glob_path(e.path))]
        } else if e.is_dir {
            seq![below(e.path)]
        } else {
            Seq::<Seq<char>>::empty()
        };
        assert(after =~= before + own);
        lemma_matches_concat(before, own, path);
        let hit = if e.is_file {
            path == glob_path(e.path) && (no_meta(path) || !names_parent(path))
        } else {
            e.is_dir && text::begins_with(path, glob_path(e.path).push('/'))
        };
        assert(any_matches(own, path) <==> hit) by {
            if hit {
                assert(pattern_matches(own[0], path));
            }
        }
        if in_entries(some, path) {
            let i = choose|i: int|
                0 <= i < some.len() && ({
                    let e = #[trigger] some[i];
                    if e.is_file {
                        path == glob_path(e.path) && (no_meta(path) || !names_parent(path))
                    } else {
                        e.is_dir && text::begins_with(path, glob_path(e.path).push('/'))
                    }
                });
            assert(more[i] == some[i]);
        }
        if hit {
            assert(more[n - 1] == e);
        }
        if in_entries(more, path) {
            let i = choose|i: int|
                0 <= i < more.len() && ({
                    let e = #[trigger] more[i];
                    if e.is_file {
                        path == glob_path(e.path) && (no_meta(path) || !names_parent(path))
                    } else {
                        e.is_dir && text::begins_with(path, glob_path(e.path).push('/'))
                    }
                });
            if i < n - 1 {
                assert(some[i] == more[i]);
            }
        }
    }
}

/// Which files concern a task, for every way in which its watches can be given. What one of its
/// own patterns to be excluded matches, or one of the ignores of the program, never does. Of the
/// rest, what one of its patterns to be included matches does; so does what lies in its
/// directory, file by file, where its watches say nothing; and so does all that lies below its
/// directory where they say neither what is included nor what is excluded. Nothing else does.
pub proof fn lemma_what_concerns_a_task(
    d: WatchDataView,
    ignores: Seq<Seq<char>>,
    entries: Seq<EntryView>,
    path: Seq<char>,
)
    ensures
        ({
            let plan = watch_plan_of(d, ignores, entries);
            let p = glob_path(path);
            let hit = concerns(plan.includes, plan.excludes, path);
            &&& any_matches(d.excludes, p) || any_matches(ignores, p) ==> !hit
            &&& !any_matches(d.excludes, p) && !any_matches(ignores, p) ==> {
                &&& any_matches(d.includes, p) ==> hit
                &&& d.use_default_watch_ignore ==> (hit <==> any_matches(d.includes, p)
                    || in_entries(entries, p))
                &&& !d.use_default_watch_ignore && (d.includes.len() > 0 || d.excludes.len() > 0)
                    ==> (hit <==> any_matches(d.includes, p))
                &&& !d.use_default_watch_ignore && d.includes.len() == 0 && d.excludes.len() == 0
                    ==> (hit <==> text::begins_with(p, glob_path(d.task_path).push('/')))
            }
        }),
{
    let plan = watch_plan_of(d, ignores, entries);
    let p = glob_path(path);
    lemma_matches_concat(ignores, d.excludes, p);
    let start = PlanView {
        watch: Seq::empty(),
        includes: d.includes,
        excludes: ignores + d.excludes,
    };
    lemma_entries(start, entries, entries.len() as int, p);
    assert(entries.take(entries.len() as int) =~= entries);
    lemma_below_matches(d.task_path, p);
    let own = seq![below(d.task_path)];
    assert(any_matches(own, p) <==> pattern_matches(below(d.task_path), p)) by {
        if pattern_matches(below(d.task_path), p) {
            assert(pattern_matches(own[0], p));
        }
    }
}

/// What is watched for a task: the whole of its directory where its watches say something, or
/// else each file and directory in it, the directories with all that lies in them.
pub proof fn lemma_what_is_watched(
    d: WatchDataView,
    ignores: Seq<Seq<char>>,
    entries: Seq<EntryView>,
    path: Seq<char>,
    recursive: bool,
)
    ensures
        !d.use_default_watch_ignore ==> (watch_plan_of(d, ignores, entries).watch.contains(
            (path, recursive),
        ) <==> path == d.task_path && recursive),
        d.use_default_watch_ignore ==> (watch_plan_of(d, ignores, entries).watch.contains(
            (path, recursive),
        ) <==> exists|i: int|
            0 <= i < entries.len() && (#[trigger] entries[i]).path == path && if recursive {
                entries[i].is_dir && !entries[i].is_file
            } else {
                entries[i].is_file
            }),
{
    if d.use_default_watch_ignore {
        let start = PlanView {
            watch: Seq::empty(),
            includes: d.includes,
            excludes: ignores + d.excludes,
        };
        lemma_watched(start, entries, entries.len() as int, path, recursive);
    } else {
        let w = seq![(d.task_path, true)];
        assert(w[0] == (d.task_path, true));
    }
}

proof fn lemma_watched(
    p: PlanView,
    entries: Seq<EntryView>,
    n: int,
    path: Seq<char>,
    recursive: bool,
)
    requires
        0 <= n <= entries.len(),
        p.watch.len() == 0,
    ensures
        with_entries(p, entries, n).watch.contains((path, recursive)) <==> exists|i: int|
            0 <= i < n && (#[trigger] entries[i]).path == path && if recursive {
                entries[i].is_dir && !entries[i].is_file
            } else {
                entries[i].is_file
            },
    decreases n,
{
    if n > 0 {
        lemma_watched(p, entries, n - 1, path, recursive);
        let before = with_entries(p, entries, n - 1).watch;
        let after = with_entries(p, entries, n).watch;
        let x = (path, recursive);
        if before.contains(x) {
            let k = choose|k: int| 0 <= k < before.len() && before[k] == x;
            assert(after[k] == x);
        }
        if after.contains(x) {
            let k = choose|k: int| 0 <= k < after.len() && after[k] == x;
            if k < before.len() {
                assert(before[k] == x);
            } else {
                assert(entries[n - 1].path == path);
            }
        }
        let e = entries[n - 1];
        if e.path == path && (if recursive {
            e.is_dir && !e.is_file
        } else {
            e.is_file
        }) {
            assert(after[before.len() as int] == x);
        }
    }
}

proof fn lemma_joined(lists: Seq<Option<Seq<Seq<char>>>>, pattern: Seq<char>)
    ensures
        joined(lists).contains(pattern) <==> exists|i: int|
            0 <= i < lists.len() && (#[trigger] lists[i]) is Some && lists[i]->0.contains(pattern),
    decreases lists.len(),
{
    if lists.len() > 0 {
        let less = lists.drop_last();
        lemma_joined(less, pattern);
        let before = joined(less);
        let all = joined(lists);
        let last = lists.last();
        assert(lists[lists.len() - 1] == last);
        if before.contains(pattern) {
            let k = choose|k: int| 0 <= k < before.len() && before[k] == pattern;
            assert(all[k] == pattern);
            let i = choose|i: int|
                0 <= i < less.len() && (#[trigger] less[i]) is Some && less[i]->0.contains(pattern);
            assert(lists[i] == less[i]);
        }
        if last is Some && last->0.contains(pattern) {
            let k = choose|k: int| 0 <= k < last->0.len() && last->0[k] == pattern;
            assert(all[before.len() + k] == pattern);
        }
        if all.contains(pattern) {
            let k = choose|k: int| 0 <= k < all.len() && all[k] == pattern;
            if k < before.len() {
                assert(before[k] == pattern);
            } else {
                assert(last->0[k - before.len()] == pattern);
            }
        }
        if exists|i: int|
            0 <= i < lists.len() && (#[trigger] lists[i]) is Some && lists[i]->0.contains(pattern) {
            let i = choose|i: int|
                0 <= i < lists.len() && (#[trigger] lists[i]) is Some && lists[i]->0.contains(
                    pattern,
                );
            if i < less.len() {
                assert(less[i] == lists[i]);
            }
        }
    }
}

/// What is watched for a project comes from its watches: a pattern is included, or excluded,
/// where one of them says so. Its directory is watched file by file where none of them says
/// anything.
pub proof fn lemma_watches_of_project(project: ProjectView, id: Seq<char>, pattern: Seq<char>)
    ensures
        ({
            let d = watch_data_of(project, id);
            &&& d.task_id == id
            &&& d.task_path == project.path
            &&& project.watches is None ==> d.use_default_watch_ignore && d.includes.len() == 0
                && d.excludes.len() == 0
            &&& project.watches matches Some(w) ==> {
                &&& d.includes.contains(pattern) <==> exists|i: int|
                    0 <= i < w.len() && (#[trigger] w[i]).includes is Some
                        && w[i].includes->0.contains(pattern)
                &&& d.excludes.contains(pattern) <==> exists|i: int|
                    0 <= i < w.len() && (#[trigger] w[i]).exclude is Some
                        && w[i].exclude->0.contains(pattern)
                &&& d.use_default_watch_ignore <==> !exists|i: int|
                    0 <= i < w.len() && ((#[trigger] w[i]).path is Some || w[i].includes is Some
                        || w[i].exclude is Some)
            }
        }),
{
    if project.watches is Some {
        let w = project.watches->0;
        let a = w.map_values(|x: ConfigWatchView| x.includes);
        let b = w.map_values(|x: ConfigWatchView| x.exclude);
        lemma_joined(a, pattern);
        lemma_joined(b, pattern);
        assert forall|i: int| 0 <= i < w.len() implies #[trigger] a[i] == w[i].includes by {}
        assert forall|i: int| 0 <= i < w.len() implies #[trigger] b[i] == w[i].exclude by {}
        if exists|i: int|
            0 <= i < w.len() && (#[trigger] w[i]).includes is Some && w[i].includes->0.contains(
                pattern,
            ) {
            let i = choose|i: int|
                0 <= i < w.len() && (#[trigger] w[i]).includes is Some && w[i].includes->0.contains(
                    pattern,
                );
            assert(a[i] is Some);
        }
        if exists|i: int|
            0 <= i < w.len() && (#[trigger] w[i]).exclude is Some && w[i].exclude->0.contains(
                pattern,
            ) {
            let i = choose|i: int|
                0 <= i < w.len() && (#[trigger] w[i]).exclude is Some && w[i].exclude->0.contains(
                    pattern,
                );
            assert(b[i] is Some);
        }
    }
}

} // verus!
