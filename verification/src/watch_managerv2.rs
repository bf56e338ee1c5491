//! Which changed files concern which task.

use vstd::prelude::*;

use crate::globs::GlobError;
use crate::globs::all_simple;
use crate::globs::always_built;
use crate::globs::any_matches;
use crate::globs::directory_of;
use crate::globs::glob_set;
use crate::globs::is_meta;
use crate::globs::is_simple;
use crate::globs::lemma_portable_sure;
use crate::globs::literal_of;
use crate::globs::may_match;
use crate::globs::names_parent;
use crate::globs::no_backslash;
use crate::globs::no_meta;
use crate::globs::pattern_matches;
use crate::globs::pattern_valid;
use crate::globs::portable;
use crate::globs::set_matches;
use crate::globs::set_patterns;
use crate::globs::surely_matches;
use crate::globs::valid_until;
use crate::strmap::StrMap;
use crate::task_managerv2::TaskManagerWatchData;
use crate::task_managerv2::WatchDataView;
use crate::text;

verus! {

/// A path in the form that patterns are built against: with `/` as the separator, and
/// without the prefix of a verbatim path.
pub open spec fn glob_path(path: Seq<char>) -> Seq<char> {
    let s = text::with_char(path, '\\', '/');
    if text::begins_with(s, "//?/"@) {
        s.skip(4)
    } else {
        s
    }
}

/// Turns a filesystem path into the form that patterns are built against, so that a path
/// that was made canonical and one out of an event can be compared.
pub fn normalize_for_glob(path: &str) -> (r: String)
    ensures
        r@ == glob_path(path@),
        no_backslash(r@),
{
    let s = text::replace_char(path, '\\', '/');
    proof {
        assert forall|i: int| 0 <= i < s@.len() implies #[trigger] s@[i] != '\\' by {}
        reveal_strlit("//?/");
    }
    if text::starts_with(s.as_str(), "//?/") {
        let cs = text::chars_of(s.as_str());
        let r = text::string_of(&cs, 4, cs.len());
        proof {
            assert(r@ =~= s@.skip(4));
            assert forall|i: int| 0 <= i < r@.len() implies #[trigger] r@[i] != '\\' by {
                assert(r@[i] == s@[i + 4]);
            }
        }
        r
    } else {
        s
    }
}

/// How a character is written in a pattern that stands for itself.
pub open spec fn escaped_char(c: char) -> Seq<char> {
    if is_meta(c) {
        seq!['[', c, ']']
    } else {
        seq![c]
    }
}

/// How a text is written in a pattern that stands for itself.
pub open spec fn escaped(s: Seq<char>) -> Seq<char>
    decreases s.len(),
{
    if s.len() == 0 {
        Seq::empty()
    } else {
        escaped(s.drop_last()) + escaped_char(s.last())
    }
}

/// Escapes the glob metacharacters in a literal directory name, so that a project living under
/// a path such as `packages/[locale]` still compiles into a usable pattern.
pub fn escape_glob_literal(s: &str) -> (out: String)
    ensures
        out@ == escaped(s@),
{
    let cs = text::chars_of(s);
    let mut out = String::new();
    let mut i: usize = 0;
    assert(out@ =~= escaped(cs@.take(0)));
    while i < cs.len()
        invariant
            i <= cs@.len(),
            cs@ == s@,
            out@ == escaped(cs@.take(i as int)),
        decreases cs@.len() - i,
    {
        let c = cs[i];
        let ghost before = out@;
        if c == '*' || c == '?' || c == '[' || c == ']' || c == '{' || c == '}' {
            out.push('[');
            out.push(c);
            out.push(']');
        } else {
            out.push(c);
        }
        proof {
            assert(cs@.take(i + 1).drop_last() =~= cs@.take(i as int));
            assert(out@ =~= before + escaped_char(c));
        }
        i += 1;
    }
    assert(cs@.take(i as int) =~= cs@);
    out
}

/// Escaping goes character by character: a path is escaped as its parts are.
pub proof fn lemma_escaped_concat(a: Seq<char>, b: Seq<char>)
    ensures
        escaped(a + b) == escaped(a) + escaped(b),
    decreases b.len(),
{
    if b.len() == 0 {
        assert(a + b =~= a);
        assert(escaped(a) + escaped(b) =~= escaped(a));
    } else {
        assert((a + b).drop_last() =~= a + b.drop_last());
        lemma_escaped_concat(a, b.drop_last());
        assert((escaped(a) + escaped(b.drop_last())) + escaped_char(b.last()) =~= escaped(a) + (
        escaped(b.drop_last()) + escaped_char(b.last())));
    }
}

proof fn lemma_escaped_longer(s: Seq<char>)
    ensures
        escaped(s).len() >= s.len(),
    decreases s.len(),
{
    if s.len() > 0 {
        lemma_escaped_longer(s.drop_last());
    }
}

/// A text without metacharacters is its own pattern, and no other text is.
pub proof fn lemma_escaped_plain(s: Seq<char>)
    ensures
        escaped(s) == s <==> no_meta(s),
    decreases s.len(),
{
    if s.len() > 0 {
        let less = s.drop_last();
        lemma_escaped_plain(less);
        lemma_escaped_longer(less);
        if no_meta(s) {
            assert forall|i: int| 0 <= i < less.len() implies !is_meta(#[trigger] less[i]) by {
                assert(less[i] == s[i]);
            }
            assert(!is_meta(s[s.len() - 1]));
            assert(less + seq![s.last()] =~= s);
        }
        if escaped(s) == s {
            assert(escaped(s).len() == escaped(less).len() + escaped_char(s.last()).len());
            assert(!is_meta(s.last()));
            assert(escaped(less) =~= escaped(s).drop_last());
            assert forall|i: int| 0 <= i < s.len() implies !is_meta(#[trigger] s[i]) by {
                if i < less.len() {
                    assert(s[i] == less[i]);
                }
            }
        }
    } else {
        assert(escaped(s) =~= s);
    }
}

/// Two texts that are written alike in a pattern are the same text.
pub proof fn lemma_escaped_injective(a: Seq<char>, b: Seq<char>)
    requires
        escaped(a) == escaped(b),
    ensures
        a == b,
    decreases a.len(),
{
    if a.len() == 0 || b.len() == 0 {
        if a.len() > 0 {
            assert(escaped(a).len() > 0);
        }
        if b.len() > 0 {
            assert(escaped(b).len() > 0);
        }
        assert(a =~= b);
    } else {
        let x = escaped(a.drop_last());
        let y = escaped(b.drop_last());
        let p = escaped_char(a.last());
        let q = escaped_char(b.last());
        let n = escaped(a).len() as int;
        assert(escaped(a)[n - 1] == p.last());
        assert(escaped(b)[n - 1] == q.last());
        if is_meta(a.last()) {
            assert(p.last() == ']');
            assert(q.last() == ']');
            assert(is_meta(b.last()));
            assert(escaped(a)[n - 2] == a.last());
            assert(escaped(b)[n - 2] == b.last());
        } else if is_meta(b.last()) {
            assert(q.last() == ']');
        }
        assert(a.last() == b.last());
        assert(x =~= escaped(a).take(n - p.len()));
        assert(y =~= escaped(b).take(n - q.len()));
        lemma_escaped_injective(a.drop_last(), b.drop_last());
        assert(a =~= a.drop_last().push(a.last()));
        assert(b =~= b.drop_last().push(b.last()));
    }
}

/// What lies in the directory of a task, by its canonical path.
pub struct WatchEntry {
    pub path: String,
    pub is_file: bool,
    pub is_dir: bool,
}

/// What a [`WatchEntry`] says.
pub struct EntryView {
    pub path: Seq<char>,
    pub is_file: bool,
    pub is_dir: bool,
}

impl View for WatchEntry {
    type V = EntryView;

    open spec fn view(&self) -> EntryView {
        EntryView { path: self.path@, is_file: self.is_file, is_dir: self.is_dir }
    }
}

/// A path that is to be watched.
pub struct WatchPath {
    pub path: String,
    pub recursive: bool,
}

/// What a [`WatchPath`] says.
pub open spec fn watch_path_view(w: WatchPath) -> (Seq<char>, bool) {
    (w.path@, w.recursive)
}

/// What is watched for a task, and which of the files concern it.
pub struct WatchPlan {
    pub watch: Vec<WatchPath>,
    pub includes: Vec<String>,
    pub excludes: Vec<String>,
}

/// What a [`WatchPlan`] says.
#[verifier::ext_equal]
pub struct PlanView {
    pub watch: Seq<(Seq<char>, bool)>,
    pub includes: Seq<Seq<char>>,
    pub excludes: Seq<Seq<char>>,
}

impl View for WatchPlan {
    type V = PlanView;

    open spec fn view(&self) -> PlanView {
        PlanView {
            watch: self.watch@.map_values(|w: WatchPath| watch_path_view(w)),
            includes: text::texts(self.includes@),
            excludes: text::texts(self.excludes@),
        }
    }
}

/// The pattern of everything below a directory.
pub open spec fn below(path: Seq<char>) -> Seq<char> {
    escaped(glob_path(path)) + "/**/*"@
}

/// The plan after one more entry of the directory of a task: files are watched themselves,
/// directories with all that is below them.
pub open spec fn with_entry(p: PlanView, e: EntryView) -> PlanView {
    if e.is_file {
        PlanView {
            watch: p.watch.push((e.path, false)),
            includes: p.includes.push(escaped(glob_path(e.path))),
            ..p
        }
    } else if e.is_dir {
        PlanView {
            watch: p.watch.push((e.path, true)),
            includes: p.includes.push(below(e.path)),
            ..p
        }
    } else {
        p
    }
}

/// The plan after the first `n` entries.
pub open spec fn with_entries(p: PlanView, entries: Seq<EntryView>, n: int) -> PlanView
    decreases n,
{
    if n <= 0 {
        p
    } else {
        with_entry(with_entries(p, entries, n - 1), entries[n - 1])
    }
}

/// What is watched for a task: what lies in its directory, as far as it is not ignored, or
/// the whole directory where the task says itself what concerns it.
pub open spec fn watch_plan_of(
    d: WatchDataView,
    ignores: Seq<Seq<char>>,
    entries: Seq<EntryView>,
) -> PlanView {
    let start = PlanView {
        watch: Seq::empty(),
        includes: d.includes,
        excludes: ignores + d.excludes,
    };
    if d.use_default_watch_ignore {
        with_entries(start, entries, entries.len() as int)
    } else {
        PlanView {
            watch: seq![(d.task_path, true)],
            includes: if d.includes.len() == 0 && d.excludes.len() == 0 {
                seq![below(d.task_path)]
            } else {
                d.includes
            },
            ..start
        }
    }
}

/// What entries of a directory say.
pub open spec fn entry_views(v: Seq<WatchEntry>) -> Seq<EntryView> {
    v.map_values(|e: WatchEntry| e@)
}

fn below_pattern(path: &str) -> (r: String)
    ensures
        r@ == below(path@),
{
    let p = normalize_for_glob(path);
    let e = escape_glob_literal(p.as_str());
    text::concat(e.as_str(), "/**/*")
}

/// What is watched for a task. `entries` is what lies in its directory, as far as it is not
/// ignored.
pub fn init_watch_state(
    d: &TaskManagerWatchData,
    ignores: &Vec<String>,
    entries: &Vec<WatchEntry>,
) -> (r: WatchPlan)
    ensures
        r@ == watch_plan_of(d@, text::texts(ignores@), entry_views(entries@)),
{
    let mut watch: Vec<WatchPath> = Vec::new();
    let mut includes = text::clone_texts(&d.includes);
    let mut excludes = text::clone_texts(ignores);
    text::append_texts(&mut excludes, &d.excludes);
    let ghost all = entry_views(entries@);
    if !d.use_default_watch_ignore {
        watch.push(WatchPath { path: d.task_path.clone(), recursive: true });
        assert(text::texts(d.includes@).len() == d.includes@.len());
        assert(text::texts(d.excludes@).len() == d.excludes@.len());
        if d.includes.len() == 0 && d.excludes.len() == 0 {
            includes.push(below_pattern(d.task_path.as_str()));
            assert(text::texts(includes@) =~= seq![below(d.task_path@)]);
        }
        let r = WatchPlan { watch, includes, excludes };
        assert(r@.watch =~= seq![(d.task_path@, true)]);
        return r;
    }
    let mut r = WatchPlan { watch, includes, excludes };
    let ghost start = r@;
    assert(start.watch =~= Seq::<(Seq<char>, bool)>::empty());
    let mut i: usize = 0;
    while i < entries.len()
        invariant
            i <= entries@.len(),
            all == entry_views(entries@),
            r@ == with_entries(start, all, i as int),
        decreases entries@.len() - i,
    {
        let e = &entries[i];
        let ghost before = r@;
        assert(all[i as int] == e@);
        if e.is_file {
            let p = normalize_for_glob(e.path.as_str());
            let pattern = escape_glob_literal(p.as_str());
            r.watch.push(WatchPath { path: e.path.clone(), recursive: false });
            r.includes.push(pattern);
            assert(r@.watch =~= before.watch.push((e.path@, false)));
            assert(r@.includes =~= before.includes.push(escaped(glob_path(e.path@))));
        } else if e.is_dir {
            r.watch.push(WatchPath { path: e.path.clone(), recursive: true });
            r.includes.push(below_pattern(e.path.as_str()));
            assert(r@.watch =~= before.watch.push((e.path@, true)));
            assert(r@.includes =~= before.includes.push(below(e.path@)));
        }
        i += 1;
    }
    assert(all.len() == entries@.len());
    r
}

/// The files that concern a task.
pub struct FileGlobSet {
    pub includes: globset::GlobSet,
    pub excludes: globset::GlobSet,
}

/// Whether a file concerns a task with the given patterns.
pub open spec fn concerns(
    includes: Seq<Seq<char>>,
    excludes: Seq<Seq<char>>,
    path: Seq<char>,
) -> bool {
    any_matches(includes, glob_path(path)) && !any_matches(excludes, glob_path(path))
}

/// Whether a file concerns a task with the given patterns on every system.
pub open spec fn surely_concerns(
    includes: Seq<Seq<char>>,
    excludes: Seq<Seq<char>>,
    path: Seq<char>,
) -> bool {
    surely_matches(includes, glob_path(path)) && !may_match(excludes, glob_path(path))
}

/// Whether a file concerns a task with the given patterns on one system or another.
pub open spec fn may_concern(
    includes: Seq<Seq<char>>,
    excludes: Seq<Seq<char>>,
    path: Seq<char>,
) -> bool {
    may_match(includes, glob_path(path)) && !surely_matches(excludes, glob_path(path))
}

impl FileGlobSet {
    /// The files that match a pattern of `includes` and none of `excludes`.
    pub fn new(includes: &Vec<String>, excludes: &Vec<String>) -> (r: Result<Self, GlobError>)
        ensures
            always_built(text::texts(includes@)) && always_built(text::texts(excludes@)) ==> r is Ok,
            r matches Ok(s) ==> set_patterns(s.includes) == text::texts(includes@)
                && set_patterns(s.excludes) == text::texts(excludes@),
            r matches Err(GlobError::InvalidPattern(p)) ==> text::texts(includes@).contains(p@)
                || text::texts(excludes@).contains(p@),
            portable(text::texts(includes@)) && portable(text::texts(excludes@)) ==> match r {
                Err(GlobError::InvalidPattern(p)) => !pattern_valid(p@),
                _ => valid_until(text::texts(includes@), includes@.len() as int) && (r is Ok
                    ==> valid_until(text::texts(excludes@), excludes@.len() as int)),
            },
    {
        let inc = match glob_set(includes) {
            Ok(s) => s,
            Err(e) => {
                return Err(e);
            },
        };
        match glob_set(excludes) {
            Ok(exc) => Ok(FileGlobSet { includes: inc, excludes: exc }),
            Err(e) => Err(e),
        }
    }

    /// Whether a file concerns the task. Where a pattern holds a backslash, what it matches
    /// depends on the system.
    pub fn is_match(&self, path: &str) -> (r: bool)
        ensures
            set_patterns(self.includes).len() == 0 ==> !r,
            surely_concerns(set_patterns(self.includes), set_patterns(self.excludes), path@) ==> r,
            r ==> may_concern(set_patterns(self.includes), set_patterns(self.excludes), path@),
            portable(set_patterns(self.includes)) && portable(set_patterns(self.excludes)) ==> r
                == concerns(
                set_patterns(self.includes),
                set_patterns(self.excludes),
                path@,
            ),
    {
        let candidate = normalize_for_glob(path);
        proof {
            if portable(set_patterns(self.includes)) && portable(set_patterns(self.excludes)) {
                lemma_portable_sure(set_patterns(self.includes), candidate@);
                lemma_portable_sure(set_patterns(self.excludes), candidate@);
            }
        }
        set_matches(&self.includes, candidate.as_str()) && !set_matches(
            &self.excludes,
            candidate.as_str(),
        )
    }

    /// Whether one of several files concerns the task on every system.
    pub open spec fn surely_matches_any(&self, paths: Seq<Seq<char>>) -> bool {
        exists|i: int|
            0 <= i < paths.len() && surely_concerns(
                set_patterns(self.includes),
                set_patterns(self.excludes),
                #[trigger] paths[i],
            )
    }

    /// Whether one of several files concerns the task on one system or another.
    pub open spec fn may_match_any(&self, paths: Seq<Seq<char>>) -> bool {
        exists|i: int|
            0 <= i < paths.len() && may_concern(
                set_patterns(self.includes),
                set_patterns(self.excludes),
                #[trigger] paths[i],
            )
    }

    /// Whether one of several files concerns the task.
    pub fn matches_any(&self, paths: &Vec<String>) -> (r: bool)
        ensures
            self.surely_matches_any(text::texts(paths@)) ==> r,
            r ==> self.may_match_any(text::texts(paths@)),
            portable(set_patterns(self.includes)) && portable(set_patterns(self.excludes)) ==> r
                == exists|i: int|
                0 <= i < paths@.len() && concerns(
                    set_patterns(self.includes),
                    set_patterns(self.excludes),
                    #[trigger] text::texts(paths@)[i],
                ),
    {
        let mut i: usize = 0;
        while i < paths.len()
            invariant
                i <= paths@.len(),
                forall|k: int|
                    0 <= k < i ==> !surely_concerns(
                        set_patterns(self.includes),
                        set_patterns(self.excludes),
                        #[trigger] text::texts(paths@)[k],
                    ),
                portable(set_patterns(self.includes)) && portable(set_patterns(self.excludes))
                    ==> forall|k: int|
                    0 <= k < i ==> !concerns(
                        set_patterns(self.includes),
                        set_patterns(self.excludes),
                        #[trigger] text::texts(paths@)[k],
                    ),
            decreases paths@.len() - i,
        {
            assert(text::texts(paths@)[i as int] == paths@[i as int]@);
            if self.is_match(paths[i].as_str()) {
                return true;
            }
            i += 1;
        }
        false
    }
}

/// A kind of change, as far as changes are told apart.
#[derive(Debug, Clone, Copy, PartialEq, Eq, Structural)]
pub enum ChangeKind {
    Create,
    Remove,
    ModifyData,
    ModifyName,
    ModifyOther,
    Other,
}

/// Whether a change is acted upon: a file came, went, was renamed or has another content.
pub fn is_relevant(kind: ChangeKind) -> (r: bool)
    ensures
        r == (kind is Create || kind is Remove || kind is ModifyData || kind is ModifyName),
{
    matches!(
        kind,
        ChangeKind::Create | ChangeKind::Remove | ChangeKind::ModifyData | ChangeKind::ModifyName
    )
}

/// The manager of watched files.
pub struct WatchManager {
    pub _ignores: Vec<String>,
    pub tasks_to_watch: StrMap<FileGlobSet>,
}

/// What the main loop of the manager does next.
#[derive(Debug, Clone, Copy, PartialEq, Eq, Structural)]
pub enum WatchStep {
    /// Ask again later.
    Wait,
    /// Files are to be watched from now on.
    Begin,
    /// End.
    Exit,
}

impl WatchManager {
    /// No task is named twice.
    pub open spec fn wf(&self) -> bool {
        self.tasks_to_watch.wf()
    }

    /// A manager that watches nothing yet.
    pub fn new(ignores: Vec<String>) -> (r: Self)
        ensures
            r.wf(),
            r._ignores@ == ignores@,
            r.tasks_to_watch@ == Map::<Seq<char>, FileGlobSet>::empty(),
    {
        WatchManager { _ignores: ignores, tasks_to_watch: StrMap::new() }
    }

    /// Whether to begin to watch: not before the manager of tasks acts on changes, and not at
    /// all where the program ends before that.
    pub fn main_loop(&self, is_watch_mode: bool, is_running: bool) -> (r: WatchStep)
        ensures
            r == (if is_watch_mode {
                WatchStep::Begin
            } else if !is_running {
                WatchStep::Exit
            } else {
                WatchStep::Wait
            }),
    {
        if is_watch_mode {
            WatchStep::Begin
        } else if !is_running {
            WatchStep::Exit
        } else {
            WatchStep::Wait
        }
    }

    /// Remembers which files concern a task.
    pub fn watch_task(&mut self, task_id: String, files: FileGlobSet)
        requires
            old(self).wf(),
        ensures
            final(self).wf(),
            final(self)._ignores == old(self)._ignores,
            final(self).tasks_to_watch@ == old(self).tasks_to_watch@.insert(task_id@, files),
    {
        self.tasks_to_watch.insert(task_id, files);
    }

    /// The tasks that one of several changed files concerns, each once.
    pub fn concerned_tasks(&self, paths: &Vec<String>) -> (r: Vec<String>)
        requires
            self.wf(),
        ensures
            text::texts(r@).no_duplicates(),
            forall|id: Seq<char>| #[trigger]
                text::texts(r@).contains(id) ==> self.tasks_to_watch@.contains_key(id)
                    && self.tasks_to_watch@[id].may_match_any(text::texts(paths@)),
            forall|id: Seq<char>| #[trigger]
                self.tasks_to_watch@.contains_key(id)
                    && self.tasks_to_watch@[id].surely_matches_any(text::texts(paths@))
                    ==> text::texts(r@).contains(id),
            forall|id: Seq<char>| #[trigger]
                self.tasks_to_watch@.contains_key(id) && portable(
                    set_patterns(self.tasks_to_watch@[id].includes),
                ) && portable(set_patterns(self.tasks_to_watch@[id].excludes)) ==> (text::texts(
                    r@,
                ).contains(id) <==> exists|i: int|
                    0 <= i < paths@.len() && concerns(
                        set_patterns(self.tasks_to_watch@[id].includes),
                        set_patterns(self.tasks_to_watch@[id].excludes),
                        #[trigger] text::texts(paths@)[i],
                    )),
    {
        let ghost keys = self.tasks_to_watch.keys();
        let ghost values = self.tasks_to_watch.values();
        let mut out: Vec<String> = Vec::new();
        let mut n: usize = 0;
        proof {
            self.tasks_to_watch.lemma_entries();
        }
        while n < self.tasks_to_watch.len()
            invariant
                n <= keys.len(),
                self.wf(),
                keys == self.tasks_to_watch.keys(),
                values == self.tasks_to_watch.values(),
                keys.len() == values.len(),
                keys.no_duplicates(),
                text::texts(out@).no_duplicates(),
                forall|k: int|
                    0 <= k < out@.len() ==> exists|j: int|
                        0 <= j < n && #[trigger] keys[j] == #[trigger] text::texts(out@)[k]
                            && values[j].may_match_any(text::texts(paths@)),
                forall|j: int|
                    0 <= j < n && (#[trigger] values[j]).surely_matches_any(text::texts(paths@))
                        ==> text::texts(out@).contains(keys[j]),
                forall|j: int|
                    0 <= j < n && portable(set_patterns((#[trigger] values[j]).includes))
                        && portable(set_patterns(values[j].excludes)) ==> (text::texts(
                        out@,
                    ).contains(keys[j]) <==> exists|i: int|
                        0 <= i < paths@.len() && concerns(
                            set_patterns(values[j].includes),
                            set_patterns(values[j].excludes),
                            #[trigger] text::texts(paths@)[i],
                        )),
            decreases keys.len() - n,
        {
            let ghost before = text::texts(out@);
            let hit = self.tasks_to_watch.value_at(n).matches_any(paths);
            proof {
                if before.contains(keys[n as int]) {
                    let k = choose|k: int| 0 <= k < before.len() && before[k] == keys[n as int];
                    let j = choose|j: int|
                        0 <= j < n && #[trigger] keys[j] == before[k] && values[j].may_match_any(
                            text::texts(paths@),
                        );
                    assert(keys[j] == keys[n as int]);
                }
            }
            if hit {
                out.push(self.tasks_to_watch.key_at(n).clone());
                proof {
                    let after = text::texts(out@);
                    assert(after =~= before.push(keys[n as int]));
                    assert(after[before.len() as int] == keys[n as int]);
                    assert forall|k: int| 0 <= k < out@.len() implies exists|j: int|
                        0 <= j < n + 1 && #[trigger] keys[j] == #[trigger] after[k]
                            && values[j].may_match_any(text::texts(paths@)) by {
                        if k < before.len() {
                            assert(after[k] == before[k]);
                            let j = choose|j: int|
                                0 <= j < n && #[trigger] keys[j] == before[k]
                                    && values[j].may_match_any(text::texts(paths@));
                            assert(keys[j] == after[k]);
                        } else {
                            assert(keys[n as int] == after[k]);
                        }
                    }
                    assert forall|j: int| 0 <= j < n implies (after.contains(keys[j])
                        == #[trigger] before.contains(keys[j])) by {
                        assert(keys[j] != keys[n as int]);
                        if before.contains(keys[j]) {
                            let k = choose|k: int| 0 <= k < before.len() && before[k] == keys[j];
                            assert(after[k] == keys[j]);
                        }
                        if after.contains(keys[j]) {
                            let k = choose|k: int| 0 <= k < after.len() && after[k] == keys[j];
                            assert(before[k] == keys[j]);
                        }
                    }
                }
            }
            assert forall|j: int|
                0 <= j < n + 1 && (#[trigger] values[j]).surely_matches_any(
                    text::texts(paths@),
                ) implies text::texts(out@).contains(keys[j]) by {
                if j < n {
                    assert(before.contains(keys[j]) == text::texts(out@).contains(keys[j]));
                }
            }
            assert forall|j: int|
                0 <= j < n + 1 && portable(set_patterns((#[trigger] values[j]).includes))
                    && portable(set_patterns(values[j].excludes)) implies (text::texts(
                out@,
            ).contains(keys[j]) <==> exists|i: int|
                0 <= i < paths@.len() && concerns(
                    set_patterns(values[j].includes),
                    set_patterns(values[j].excludes),
                    #[trigger] text::texts(paths@)[i],
                )) by {
                if j < n {
                    assert(before.contains(keys[j]) == text::texts(out@).contains(keys[j]));
                }
            }
            n += 1;
        }
        proof {
            self.tasks_to_watch.lemma_entries();
            let all = text::texts(out@);
            assert forall|id: Seq<char>| #[trigger] all.contains(id) implies
                self.tasks_to_watch@.contains_key(id)
                && self.tasks_to_watch@[id].may_match_any(text::texts(paths@)) by {
                let k = choose|k: int| 0 <= k < all.len() && all[k] == id;
                let j = choose|j: int|
                    0 <= j < n && #[trigger] keys[j] == all[k] && values[j].may_match_any(
                        text::texts(paths@),
                    );
                assert(self.tasks_to_watch@.contains_key(keys[j]));
                assert(self.tasks_to_watch@[id] == values[j]);
            }
            assert forall|id: Seq<char>| #[trigger]
                self.tasks_to_watch@.contains_key(id)
                    && self.tasks_to_watch@[id].surely_matches_any(text::texts(paths@)) implies
                all.contains(id) by {
                let j = choose|j: int| 0 <= j < keys.len() && #[trigger] keys[j] == id;
                assert(self.tasks_to_watch@.contains_key(keys[j]));
                assert(self.tasks_to_watch@[id] == values[j]);
            }
            assert forall|id: Seq<char>| #[trigger]
                self.tasks_to_watch@.contains_key(id) && portable(
                    set_patterns(self.tasks_to_watch@[id].includes),
                ) && portable(set_patterns(self.tasks_to_watch@[id].excludes)) implies (
            all.contains(id) <==> exists|i: int|
                0 <= i < paths@.len() && concerns(
                    set_patterns(self.tasks_to_watch@[id].includes),
                    set_patterns(self.tasks_to_watch@[id].excludes),
                    #[trigger] text::texts(paths@)[i],
                )) by {
                let j = choose|j: int| 0 <= j < keys.len() && #[trigger] keys[j] == id;
                assert(self.tasks_to_watch@.contains_key(keys[j]));
                assert(self.tasks_to_watch@[id] == values[j]);
            }
        }
        out
    }
}

proof fn lemma_literal_front(s: Seq<char>, t: Seq<char>)
    ensures
        literal_of(escaped(s) + t) == (match literal_of(t) {
            Some(rest) => Some(s + rest),
            None => None,
        }),
    decreases s.len(),
{
    if s.len() == 0 {
        assert(escaped(s) + t =~= t);
        if literal_of(t) is Some {
            assert(s + literal_of(t)->0 =~= literal_of(t)->0);
        }
    } else {
        let c = s[0];
        let rest = s.drop_first();
        assert(seq![c] + rest =~= s);
        lemma_escaped_concat(seq![c], rest);
        assert(seq![c].drop_last() =~= Seq::<char>::empty());
        assert(escaped(seq![c].drop_last()) =~= Seq::<char>::empty());
        assert(escaped(seq![c]) =~= escaped_char(c));
        let p = escaped(s) + t;
        let n = escaped_char(c).len() as int;
        assert(p.skip(n) =~= escaped(rest) + t);
        assert(p[0] == escaped_char(c)[0]);
        if is_meta(c) {
            assert(p[1] == c && p[2] == ']');
        }
        lemma_literal_front(rest, t);
        if literal_of(t) is Some {
            assert(seq![c] + (rest + literal_of(t)->0) =~= s + literal_of(t)->0);
        }
    }
}

/// A path is usable as a pattern once it is escaped, whatever its name: it is accepted, and it
/// matches that path and no other. The one path that it does not match either is one with
/// metacharacters whose last part is `..`.
pub proof fn lemma_escaped_matches(s: Seq<char>, path: Seq<char>)
    ensures
        pattern_valid(escaped(s)),
        pattern_matches(escaped(s), path) <==> path == s && (no_meta(s) || !names_parent(s)),
{
    lemma_escaped_plain(s);
    let none = Seq::<char>::empty();
    lemma_literal_front(s, none);
    assert(escaped(s) + none =~= escaped(s));
    assert(s + none =~= s);
}

/// The pattern of a directory is accepted, whatever the name of the directory, and matches all
/// that lies below it and nothing else.
pub proof fn lemma_below_matches(dir: Seq<char>, path: Seq<char>)
    ensures
        pattern_valid(below(dir)),
        pattern_matches(below(dir), path) <==> text::begins_with(path, glob_path(dir).push('/')),
{
    reveal_strlit("/**/*");
    let d = glob_path(dir);
    let tail = seq!['/', '*', '*', '/', '*'];
    assert("/**/*"@ =~= tail);
    assert(tail.skip(1)[0] == '*');
    assert(literal_of(tail.skip(1)) is None);
    assert(literal_of(tail) is None);
    lemma_literal_front(d, tail);
    let p = below(dir);
    assert(p == escaped(d) + tail);
    assert(p.skip(p.len() - 5) =~= tail);
    assert(p.take(p.len() - 5) =~= escaped(d));
    let none = Seq::<char>::empty();
    lemma_literal_front(d, none);
    assert(escaped(d) + none =~= escaped(d));
    assert(d + none =~= d);
    assert(directory_of(p) == Some(d));
}

/// A canonical path and one out of an event read the same, where only the first one has the
/// prefix of a verbatim path.
pub proof fn lemma_verbatim_prefix(path: Seq<char>)
    requires
        glob_path(path) == text::with_char(path, '\\', '/'),
    ensures
        glob_path("\\\\?\\"@ + path) == glob_path(path),
{
    reveal_strlit("\\\\?\\");
    reveal_strlit("//?/");
    let whole = text::with_char("\\\\?\\"@ + path, '\\', '/');
    assert(whole.take(4) =~= "//?/"@);
    assert(whole.skip(4) =~= text::with_char(path, '\\', '/'));
}

proof fn lemma_glob_path_portable(path: Seq<char>)
    ensures
        no_backslash(glob_path(path)),
{
    let s = text::with_char(path, '\\', '/');
    assert forall|i: int| 0 <= i < s.len() implies #[trigger] s[i] != '\\' by {}
    reveal_strlit("//?/");
    if text::begins_with(s, "//?/"@) {
        assert forall|i: int| 0 <= i < s.skip(4).len() implies #[trigger] s.skip(4)[i] != '\\' by {
            assert(s.skip(4)[i] == s[i + 4]);
        }
    }
}

proof fn lemma_escaped_portable(s: Seq<char>)
    requires
        no_backslash(s),
    ensures
        no_backslash(escaped(s)),
    decreases s.len(),
{
    if s.len() > 0 {
        let less = s.drop_last();
        assert forall|i: int| 0 <= i < less.len() implies #[trigger] less[i] != '\\' by {
            assert(less[i] == s[i]);
        }
        lemma_escaped_portable(less);
        assert(s[s.len() - 1] != '\\');
        let last = escaped_char(s.last());
        assert forall|i: int| 0 <= i < escaped(s).len() implies #[trigger] escaped(s)[i] != '\\' by {
            if i < escaped(less).len() {
                assert(escaped(s)[i] == escaped(less)[i]);
            } else {
                assert(escaped(s)[i] == last[i - escaped(less).len()]);
            }
        }
    }
}

/// The patterns that a file and a directory are turned into are simple, whatever their names.
pub proof fn lemma_own_patterns_simple(path: Seq<char>)
    ensures
        is_simple(escaped(glob_path(path))),
        is_simple(below(path)),
{
    let p = glob_path(path);
    lemma_glob_path_portable(path);
    lemma_escaped_portable(p);
    let none = Seq::<char>::empty();
    lemma_literal_front(p, none);
    assert(escaped(p) + none =~= escaped(p));
    reveal_strlit("/**/*");
    let tail = seq!['/', '*', '*', '/', '*'];
    assert("/**/*"@ =~= tail);
    let whole = below(path);
    assert(whole.skip(whole.len() - 5) =~= tail);
    assert(whole.take(whole.len() - 5) =~= escaped(p));
    assert forall|i: int| 0 <= i < whole.len() implies #[trigger] whole[i] != '\\' by {
        if i < escaped(p).len() {
            assert(whole[i] == escaped(p)[i]);
        } else {
            assert(whole[i] == tail[i - escaped(p).len()]);
        }
    }
}

proof fn lemma_entries_simple(p: PlanView, entries: Seq<EntryView>, n: int)
    requires
        all_simple(p.includes),
        n <= entries.len(),
    ensures
        all_simple(with_entries(p, entries, n).includes),
        with_entries(p, entries, n).excludes == p.excludes,
    decreases n,
{
    if n > 0 {
        lemma_entries_simple(p, entries, n - 1);
        lemma_own_patterns_simple(entries[n - 1].path);
    }
}

/// What is watched for a task can be made into sets, whatever the files and directories are
/// named: where the patterns that were given are simple, all of its patterns are.
pub proof fn lemma_plan_simple(
    d: WatchDataView,
    ignores: Seq<Seq<char>>,
    entries: Seq<EntryView>,
)
    requires
        all_simple(d.includes),
        all_simple(d.excludes),
        all_simple(ignores),
    ensures
        all_simple(watch_plan_of(d, ignores, entries).includes),
        all_simple(watch_plan_of(d, ignores, entries).excludes),
{
    let start = PlanView {
        watch: Seq::empty(),
        includes: d.includes,
        excludes: ignores + d.excludes,
    };
    let exc = start.excludes;
    assert forall|i: int| 0 <= i < exc.len() implies is_simple(#[trigger] exc[i]) by {
        if i < ignores.len() {
            assert(exc[i] == ignores[i]);
        } else {
            assert(exc[i] == d.excludes[i - ignores.len()]);
        }
    }
    lemma_entries_simple(start, entries, entries.len() as int);
    lemma_own_patterns_simple(d.task_path);
}

proof fn lemma_entry_included(p: PlanView, entries: Seq<EntryView>, i: int, n: int)
    requires
        0 <= i < n <= entries.len(),
        entries[i].is_file || entries[i].is_dir,
    ensures
        with_entries(p, entries, n).includes.contains(
            if entries[i].is_file {
                escaped(glob_path(entries[i].path))
            } else {
                below(entries[i].path)
            },
        ),
    decreases n,
{
    let before = with_entries(p, entries, n - 1).includes;
    let after = with_entries(p, entries, n).includes;
    let e = entries[i];
    let own = if e.is_file {
        escaped(glob_path(e.path))
    } else {
        below(e.path)
    };
    if i == n - 1 {
        assert(after == before.push(own));
        assert(after[before.len() as int] == own);
    } else {
        lemma_entry_included(p, entries, i, n - 1);
        let k = choose|k: int| 0 <= k < before.len() && before[k] == own;
        assert(after[k] == own);
    }
}

/// Where a task says nothing of what concerns it, what lies in its directory does: a file of it,
/// and all that is below a directory of it, unless a pattern leaves it out.
pub proof fn lemma_directory_concerns(
    d: WatchDataView,
    ignores: Seq<Seq<char>>,
    entries: Seq<EntryView>,
    i: int,
    path: Seq<char>,
)
    requires
        d.use_default_watch_ignore,
        0 <= i < entries.len(),
        if entries[i].is_file {
            glob_path(path) == glob_path(entries[i].path) && (no_meta(glob_path(path))
                || !names_parent(glob_path(path)))
        } else {
            entries[i].is_dir && text::begins_with(
                glob_path(path),
                glob_path(entries[i].path).push('/'),
            )
        },
    ensures
        ({
            let plan = watch_plan_of(d, ignores, entries);
            concerns(plan.includes, plan.excludes, path) <==> !any_matches(
                plan.excludes,
                glob_path(path),
            )
        }),
{
    let start = PlanView {
        watch: Seq::empty(),
        includes: d.includes,
        excludes: ignores + d.excludes,
    };
    let plan = watch_plan_of(d, ignores, entries);
    let n = entries.len() as int;
    lemma_entry_included(start, entries, i, n);
    let own = if entries[i].is_file {
        escaped(glob_path(entries[i].path))
    } else {
        below(entries[i].path)
    };
    if entries[i].is_file {
        lemma_escaped_matches(glob_path(entries[i].path), glob_path(path));
    } else {
        lemma_below_matches(entries[i].path, glob_path(path));
    }
    let k = choose|k: int| 0 <= k < plan.includes.len() && plan.includes[k] == own;
    assert(pattern_matches(plan.includes[k], glob_path(path)));
}

} // verus!
