//! Which files of a TypeScript project are watched, as its `tsconfig.json` says.

use vstd::prelude::*;

use crate::globs::GlobError;
use crate::globs::always_built;
use crate::globs::any_matches;
use crate::globs::directory_of;
use crate::globs::glob_set;
use crate::globs::is_meta;
use crate::globs::is_name;
use crate::globs::lemma_names_built;
use crate::globs::lemma_plain_front;
use crate::globs::lemma_portable_sure;
use crate::globs::literal_of;
use crate::globs::may_match;
use crate::globs::no_backslash;
use crate::globs::no_meta;
use crate::globs::path_tail;
use crate::globs::pattern_matches;
use crate::globs::pattern_valid;
use crate::globs::plain_text;
use crate::globs::portable;
use crate::globs::reads_alike;
use crate::globs::set_matches;
use crate::globs::set_patterns;
use crate::globs::strip_prefix;
use crate::globs::surely_matches;
use crate::globs::valid_until;
use crate::json::Json;
use crate::json::JsonView;
use crate::json::field_of;
use crate::json::items_of;
use crate::text;

verus! {

/// The texts among the members of a list; the others are passed over.
pub open spec fn texts_in(items: Seq<JsonView>) -> Seq<Seq<char>>
    decreases items.len(),
{
    if items.len() == 0 {
        Seq::empty()
    } else {
        match items.last() {
            JsonView::Str(s) => texts_in(items.drop_last()).push(s),
            _ => texts_in(items.drop_last()),
        }
    }
}

/// The texts in the list that a field of a document holds: none where it holds no list.
pub open spec fn listed_texts(j: JsonView, key: Seq<char>) -> Seq<Seq<char>> {
    match field_of(j, key) {
        Some(list) => texts_in(items_of(list)),
        None => Seq::empty(),
    }
}

/// The paths that the members of a list name; the others are passed over.
pub open spec fn paths_in(items: Seq<JsonView>) -> Seq<Seq<char>>
    decreases items.len(),
{
    if items.len() == 0 {
        Seq::empty()
    } else {
        match field_of(items.last(), "path"@) {
            Some(JsonView::Str(s)) => paths_in(items.drop_last()).push(s),
            _ => paths_in(items.drop_last()),
        }
    }
}

fn texts_of(json: &Json, key: &str) -> (r: Vec<String>)
    ensures
        text::texts(r@) == listed_texts(json@, key@),
{
    let mut out: Vec<String> = Vec::new();
    assert(text::texts(out@) =~= Seq::<Seq<char>>::empty());
    let list = json.field(key);
    match list {
        Some(Json::Array(items)) => {
            let ghost all = crate::json::opt_view(list)->0->Array_0;
            let mut i: usize = 0;
            assert(text::texts(out@) =~= texts_in(all.take(0)));
            while i < items.len()
                invariant
                    i <= items@.len(),
                    all.len() == items@.len(),
                    forall|k: int| 0 <= k < all.len() ==> #[trigger] all[k] == items@[k]@,
                    text::texts(out@) == texts_in(all.take(i as int)),
                decreases items@.len() - i,
            {
                let ghost before = out@;
                proof {
                    assert(all.take(i + 1).drop_last() =~= all.take(i as int));
                    assert(all.take(i + 1).last() == items@[i as int]@);
                }
                match &items[i] {
                    Json::Str(s) => {
                        out.push(s.clone());
                        assert(text::texts(out@) =~= text::texts(before).push(s@));
                    },
                    _ => {},
                }
                i += 1;
            }
            assert(all.take(i as int) =~= all);
        },
        _ => {},
    }
    out
}

/// The patterns of the files that a `tsconfig.json` includes.
pub fn get_includes(json: &Json) -> (r: Vec<String>)
    ensures
        text::texts(r@) == listed_texts(json@, "include"@),
{
    texts_of(json, "include")
}

/// The patterns of the files that a `tsconfig.json` excludes.
pub fn get_excludes(json: &Json) -> (r: Vec<String>)
    ensures
        text::texts(r@) == listed_texts(json@, "exclude"@),
{
    texts_of(json, "exclude")
}

/// The files that a `tsconfig.json` refers to.
pub fn get_refrences(json: &Json) -> (r: Vec<String>)
    ensures
        text::texts(r@) == (match field_of(json@, "references"@) {
            Some(list) => paths_in(items_of(list)),
            None => Seq::empty(),
        }),
{
    let mut out: Vec<String> = Vec::new();
    assert(text::texts(out@) =~= Seq::<Seq<char>>::empty());
    let list = json.field("references");
    match list {
        Some(Json::Array(items)) => {
            let ghost all = crate::json::opt_view(list)->0->Array_0;
            let mut i: usize = 0;
            assert(text::texts(out@) =~= paths_in(all.take(0)));
            while i < items.len()
                invariant
                    i <= items@.len(),
                    all.len() == items@.len(),
                    forall|k: int| 0 <= k < all.len() ==> #[trigger] all[k] == items@[k]@,
                    text::texts(out@) == paths_in(all.take(i as int)),
                decreases items@.len() - i,
            {
                let ghost before = out@;
                proof {
                    assert(all.take(i + 1).drop_last() =~= all.take(i as int));
                    assert(all.take(i + 1).last() == items@[i as int]@);
                }
                match items[i].field("path") {
                    Some(Json::Str(s)) => {
                        out.push(s.clone());
                        assert(text::texts(out@) =~= text::texts(before).push(s@));
                    },
                    _ => {},
                }
                i += 1;
            }
            assert(all.take(i as int) =~= all);
        },
        _ => {},
    }
    out
}

/// The document in the text of a `tsconfig.json`: an empty one where the text is no JSON.
pub fn read_tsconfig(contents: &str) -> (r: Json)
    ensures
        r@ == (match crate::json::parsed_json(contents@) {
            Some(j) => j,
            None => JsonView::Object(Seq::empty()),
        }),
{
    match crate::json::parse(contents) {
        Some(j) => j,
        None => {
            let r = Json::Object(Vec::new());
            assert(r@->Object_0 =~= Seq::<(Seq<char>, JsonView)>::empty());
            r
        },
    }
}

/// The texts that the same field of several documents lists, one document after the other.
pub open spec fn listed_in_all(docs: Seq<JsonView>, key: Seq<char>) -> Seq<Seq<char>>
    decreases docs.len(),
{
    if docs.len() == 0 {
        Seq::empty()
    } else {
        listed_in_all(docs.drop_last(), key) + listed_texts(docs.last(), key)
    }
}

/// What documents say.
pub open spec fn docs_view(v: Seq<Json>) -> Seq<JsonView> {
    v.map_values(|j: Json| j@)
}

/// The patterns that a project includes and those that it excludes: its own, then those of
/// the files that it refers to, as far as they are there. References are not followed
/// further.
pub fn get_project_info(own: &Json, references: &Vec<Json>) -> (r: (Vec<String>, Vec<String>))
    ensures
        text::texts(r.0@) == listed_texts(own@, "include"@) + listed_in_all(
            docs_view(references@),
            "include"@,
        ),
        text::texts(r.1@) == listed_texts(own@, "exclude"@) + listed_in_all(
            docs_view(references@),
            "exclude"@,
        ),
{
    let mut includes = get_includes(own);
    let mut excludes = get_excludes(own);
    let ghost a = text::texts(includes@);
    let ghost b = text::texts(excludes@);
    let ghost all = docs_view(references@);
    let mut i: usize = 0;
    proof {
        assert(a + listed_in_all(all.take(0), "include"@) =~= a);
        assert(b + listed_in_all(all.take(0), "exclude"@) =~= b);
    }
    while i < references.len()
        invariant
            i <= references@.len(),
            all == docs_view(references@),
            text::texts(includes@) == a + listed_in_all(all.take(i as int), "include"@),
            text::texts(excludes@) == b + listed_in_all(all.take(i as int), "exclude"@),
        decreases references@.len() - i,
    {
        proof {
            assert(all.take(i + 1).drop_last() =~= all.take(i as int));
            assert(all.take(i + 1).last() == references@[i as int]@);
        }
        let more_includes = get_includes(&references[i]);
        let more_excludes = get_excludes(&references[i]);
        let ghost x = listed_in_all(all.take(i as int), "include"@);
        let ghost y = listed_in_all(all.take(i as int), "exclude"@);
        text::append_texts(&mut includes, &more_includes);
        text::append_texts(&mut excludes, &more_excludes);
        proof {
            assert((a + x) + text::texts(more_includes@) =~= a + (x + text::texts(
                more_includes@,
            )));
            assert((b + y) + text::texts(more_excludes@) =~= b + (y + text::texts(
                more_excludes@,
            )));
        }
        i += 1;
    }
    assert(all.take(i as int) =~= all);
    (includes, excludes)
}

/// Whether a pattern has no wildcard.
pub open spec fn is_literal(pat: Seq<char>) -> bool {
    !pat.contains('*') && !pat.contains('?')
}

/// A pattern without wildcards stands for a directory and all that is in it.
pub open spec fn normalized(pat: Seq<char>) -> Seq<char> {
    if is_literal(pat) {
        text::strip_end(pat, '/') + "/**"@
    } else {
        pat
    }
}

/// Makes a pattern without wildcards stand for a directory and all that is in it.
pub fn normalize_pattern(pat: &str) -> (r: String)
    ensures
        r@ == normalized(pat@),
{
    let cs = text::chars_of(pat);
    let mut i: usize = 0;
    while i < cs.len()
        invariant
            i <= cs@.len(),
            cs@ == pat@,
            forall|k: int| 0 <= k < i ==> cs@[k] != '*' && cs@[k] != '?',
        decreases cs@.len() - i,
    {
        if cs[i] == '*' || cs[i] == '?' {
            assert(pat@.contains(cs@[i as int]));
            return pat.to_owned();
        }
        i += 1;
    }
    assert(is_literal(pat@));
    let bare = text::trim_end_matches(pat, '/');
    text::concat(bare.as_str(), "/**")
}

/// A pattern is normalised once and for all: doing it again changes nothing.
pub proof fn lemma_normalized_again(pat: Seq<char>)
    ensures
        normalized(normalized(pat)) == normalized(pat),
{
    if is_literal(pat) {
        reveal_strlit("/**");
        let n = normalized(pat);
        assert(n[n.len() - 1] == '*');
        assert(n.contains('*'));
    }
}

proof fn lemma_strip_end_prefix(s: Seq<char>, c: char)
    ensures
        text::strip_end(s, c).len() <= s.len(),
        forall|i: int|
            0 <= i < text::strip_end(s, c).len() ==> #[trigger] text::strip_end(s, c)[i] == s[i],
    decreases s.len(),
{
    if s.len() > 0 && s.last() == c {
        lemma_strip_end_prefix(s.drop_last(), c);
    }
}

/// The name of a directory stands for all that lies below that directory and for nothing else,
/// with or without a slash at its end.
pub proof fn lemma_directory_pattern(pat: Seq<char>, path: Seq<char>)
    requires
        no_meta(pat),
    ensures
        pattern_valid(normalized(pat)),
        pattern_matches(normalized(pat), path) <==> text::begins_with(
            path,
            text::strip_end(pat, '/').push('/'),
        ),
{
    reveal_strlit("/**");
    let d = text::strip_end(pat, '/');
    lemma_strip_end_prefix(pat, '/');
    assert forall|i: int| 0 <= i < d.len() implies !is_meta(#[trigger] d[i]) by {
        assert(d[i] == pat[i]);
    }
    let tail = seq!['/', '*', '*'];
    assert("/**"@ =~= tail);
    let p = normalized(pat);
    assert(p == d + tail);
    assert(literal_of(tail.skip(1)) is None);
    assert(literal_of(tail) is None);
    lemma_plain_front(d, tail);
    let none = Seq::<char>::empty();
    lemma_plain_front(d, none);
    assert(d + none =~= d);
    assert(p.skip(p.len() - 3) =~= tail);
    assert(p.take(p.len() - 3) =~= d);
    if p.len() >= 5 {
        assert(p.skip(p.len() - 5)[3] == p[p.len() - 2]);
    }
    assert(directory_of(p) == Some(d));
}

/// Every list of names of files and directories makes a matcher, however long it is: a plain
/// name is still one when it is normalised.
pub proof fn lemma_names_normalized(pats: Seq<Seq<char>>)
    requires
        forall|i: int| 0 <= i < pats.len() ==> plain_text(#[trigger] pats[i]),
    ensures
        always_built(all_normalized(pats)),
{
    reveal_strlit("/**");
    assert forall|i: int| 0 <= i < pats.len() implies is_name(
        #[trigger] all_normalized(pats)[i],
    ) by {
        let pat = pats[i];
        assert(plain_text(pat));
        let d = text::strip_end(pat, '/');
        lemma_strip_end_prefix(pat, '/');
        assert forall|k: int| 0 <= k < d.len() implies !is_meta(#[trigger] d[k]) by {
            assert(d[k] == pat[k]);
        }
        assert forall|k: int| 0 <= k < d.len() implies #[trigger] d[k] != '\\' by {
            assert(d[k] == pat[k]);
        }
        assert(is_literal(pat));
        let p = normalized(pat);
        assert(p.skip(p.len() - 3) =~= seq!['/', '*', '*']);
        assert(p.take(p.len() - 3) =~= d);
    }
    lemma_names_built(all_normalized(pats));
}

/// The patterns that a walk over the files of a project is given: those to be included, and
/// those to be excluded behind an exclamation mark.
pub open spec fn walked(includes: Seq<Seq<char>>, excludes: Seq<Seq<char>>) -> Seq<Seq<char>> {
    includes + excludes.map_values(|p: Seq<char>| "!"@ + p)
}

/// The patterns that a walk over the files of a project is given.
pub fn walk_patterns(includes: &Vec<String>, excludes: &Vec<String>) -> (r: Vec<String>)
    ensures
        text::texts(r@) == walked(text::texts(includes@), text::texts(excludes@)),
{
    let mut out = text::clone_texts(includes);
    let ghost start = text::texts(out@);
    let ghost marked = text::texts(excludes@).map_values(|p: Seq<char>| "!"@ + p);
    let mut i: usize = 0;
    assert(start + marked.take(0) =~= start);
    while i < excludes.len()
        invariant
            i <= excludes@.len(),
            marked == text::texts(excludes@).map_values(|p: Seq<char>| "!"@ + p),
            text::texts(out@) == start + marked.take(i as int),
        decreases excludes@.len() - i,
    {
        let ghost before = text::texts(out@);
        out.push(text::concat("!", excludes[i].as_str()));
        proof {
            assert(text::texts(out@) =~= before.push(marked[i as int]));
            assert(start + marked.take(i + 1) =~= (start + marked.take(i as int)).push(
                marked[i as int],
            ));
        }
        i += 1;
    }
    assert(marked.take(i as int) =~= marked);
    out
}

/// The files of a project that are watched.
pub struct FileMatcher {
    pub include_set: globset::GlobSet,
    pub exclude_set: globset::GlobSet,
    pub project_root: String,
    pub includes: Vec<String>,
    pub excludes: Vec<String>,
}

/// Normalised patterns.
pub open spec fn all_normalized(pats: Seq<Seq<char>>) -> Seq<Seq<char>> {
    pats.map_values(|p: Seq<char>| normalized(p))
}

fn normalize_all(pats: &Vec<String>) -> (r: Vec<String>)
    ensures
        text::texts(r@) == all_normalized(text::texts(pats@)),
{
    let ghost want = all_normalized(text::texts(pats@));
    let mut out: Vec<String> = Vec::new();
    let mut i: usize = 0;
    assert(text::texts(out@) =~= want.take(0));
    while i < pats.len()
        invariant
            i <= pats@.len(),
            want == all_normalized(text::texts(pats@)),
            text::texts(out@) == want.take(i as int),
        decreases pats@.len() - i,
    {
        let ghost before = text::texts(out@);
        out.push(normalize_pattern(pats[i].as_str()));
        proof {
            assert(text::texts(out@) =~= before.push(want[i as int]));
            assert(want.take(i + 1) =~= want.take(i as int).push(want[i as int]));
        }
        i += 1;
    }
    assert(want.take(i as int) =~= want);
    out
}

impl FileMatcher {
    /// Whether the patterns read the same on every system: none of them holds a backslash.
    pub open spec fn is_portable(&self) -> bool {
        &&& portable(set_patterns(self.include_set))
        &&& portable(set_patterns(self.exclude_set))
    }

    /// Whether a file is watched on every system.
    pub open spec fn surely_watches(&self, path: Seq<char>) -> bool {
        reads_alike(path, self.project_root@) && match path_tail(path, self.project_root@) {
            Some(rest) => surely_matches(set_patterns(self.include_set), rest) && !may_match(
                set_patterns(self.exclude_set),
                rest,
            ),
            None => false,
        }
    }

    /// Whether a file is watched on one system or another.
    pub open spec fn may_watch(&self, path: Seq<char>) -> bool {
        reads_alike(path, self.project_root@) ==> match path_tail(path, self.project_root@) {
            Some(rest) => may_match(set_patterns(self.include_set), rest) && !surely_matches(
                set_patterns(self.exclude_set),
                rest,
            ),
            None => false,
        }
    }

    /// Whether a file is watched: it lies below the project, and the rest of its path matches
    /// a pattern to be included and none to be excluded.
    pub open spec fn watches(&self, path: Seq<char>) -> bool {
        match path_tail(path, self.project_root@) {
            Some(rest) => any_matches(set_patterns(self.include_set), rest) && !any_matches(
                set_patterns(self.exclude_set),
                rest,
            ),
            None => false,
        }
    }

    /// The files below `project_root` that match one of `includes` and none of `excludes`.
    pub fn new(project_root: String, includes: &Vec<String>, excludes: &Vec<String>) -> (r: Result<
        Self,
        GlobError,
    >)
        ensures
            always_built(all_normalized(text::texts(includes@))) && always_built(
                all_normalized(text::texts(excludes@)),
            ) ==> r is Ok,
            r matches Ok(m) ==> {
                &&& m.project_root == project_root
                &&& text::texts(m.includes@) == text::texts(includes@)
                &&& text::texts(m.excludes@) == text::texts(excludes@)
                &&& set_patterns(m.include_set) == all_normalized(text::texts(includes@))
                &&& set_patterns(m.exclude_set) == all_normalized(text::texts(excludes@))
            },
            r matches Err(GlobError::InvalidPattern(p)) ==> all_normalized(
                text::texts(includes@),
            ).contains(p@) || all_normalized(text::texts(excludes@)).contains(p@),
            portable(all_normalized(text::texts(includes@))) && portable(
                all_normalized(text::texts(excludes@)),
            ) ==> match r {
                Err(GlobError::InvalidPattern(p)) => !pattern_valid(p@),
                _ => valid_until(
                    all_normalized(text::texts(includes@)),
                    includes@.len() as int,
                ) && (r is Ok ==> valid_until(
                    all_normalized(text::texts(excludes@)),
                    excludes@.len() as int,
                )),
            },
    {
        let a = normalize_all(includes);
        let b = normalize_all(excludes);
        proof {
            assert(text::texts(a@).len() == a@.len());
            assert(text::texts(b@).len() == b@.len());
        }
        let include_set = match glob_set(&a) {
            Ok(s) => s,
            Err(e) => {
                return Err(e);
            },
        };
        let exclude_set = match glob_set(&b) {
            Ok(s) => s,
            Err(e) => {
                return Err(e);
            },
        };
        Ok(
            FileMatcher {
                include_set,
                exclude_set,
                project_root,
                includes: text::clone_texts(includes),
                excludes: text::clone_texts(excludes),
            },
        )
    }

    /// Whether a file is watched.
    pub fn is_match(&self, path: &str) -> (r: bool)
        ensures
            set_patterns(self.include_set).len() == 0 ==> !r,
            self.surely_watches(path@) ==> r,
            r ==> self.may_watch(path@),
            self.is_portable() && reads_alike(path@, self.project_root@) ==> r == self.watches(
                path@,
            ),
    {
        match strip_prefix(path, self.project_root.as_str()) {
            Some(rest) => self.is_match_below(rest.as_str()),
            None => false,
        }
    }

    /// Whether a file is watched, by its path below the project.
    pub fn is_match_below(&self, rest: &str) -> (r: bool)
        ensures
            set_patterns(self.include_set).len() == 0 ==> !r,
            no_backslash(rest@) && surely_matches(set_patterns(self.include_set), rest@)
                && !may_match(set_patterns(self.exclude_set), rest@) ==> r,
            no_backslash(rest@) && r ==> may_match(set_patterns(self.include_set), rest@)
                && !surely_matches(set_patterns(self.exclude_set), rest@),
            portable(set_patterns(self.include_set)) && portable(set_patterns(self.exclude_set))
                && no_backslash(rest@) ==> r == (any_matches(
                set_patterns(self.include_set),
                rest@,
            ) && !any_matches(set_patterns(self.exclude_set), rest@)),
    {
        proof {
            if self.is_portable() {
                lemma_portable_sure(set_patterns(self.include_set), rest@);
                lemma_portable_sure(set_patterns(self.exclude_set), rest@);
            }
        }
        set_matches(&self.include_set, rest) && !set_matches(&self.exclude_set, rest)
    }
}

/// The part of the name of a task before its first colon: the name of its project.
pub open spec fn before_colon(name: Seq<char>) -> Seq<char>
    decreases name.len(),
{
    if name.len() == 0 || name[0] == ':' {
        Seq::empty()
    } else {
        seq![name[0]] + before_colon(name.drop_first())
    }
}

/// The name of the project of a task.
pub fn project_of_task(name: &str) -> (r: String)
    ensures
        r@ == before_colon(name@),
{
    let cs = text::chars_of(name);
    let mut out = String::new();
    let mut i: usize = 0;
    proof {
        assert(cs@.skip(0) =~= cs@);
        assert(Seq::<char>::empty() + before_colon(cs@) =~= before_colon(cs@));
        assert(out@ =~= Seq::<char>::empty());
    }
    while i < cs.len() && cs[i] != ':'
        invariant
            i <= cs@.len(),
            cs@ == name@,
            out@ + before_colon(cs@.skip(i as int)) == before_colon(name@),
        decreases cs@.len() - i,
    {
        let ghost before = out@;
        out.push(cs[i]);
        proof {
            let rest = cs@.skip(i as int);
            assert(rest.drop_first() =~= cs@.skip(i + 1));
            assert(out@ + before_colon(cs@.skip(i + 1)) =~= before + (seq![rest[0]] + before_colon(
                cs@.skip(i + 1),
            )));
        }
        i += 1;
    }
    assert(before_colon(cs@.skip(i as int)) =~= Seq::<char>::empty());
    assert(out@ + Seq::<char>::empty() =~= out@);
    out
}

/// A project whose files are watched. Without a matcher every file concerns it.
pub struct AppWatcher {
    pub name: String,
    pub path: String,
    pub glob_set: Option<FileMatcher>,
}

/// Whether what is left of each path behind a directory is the same on every system.
pub open spec fn all_alike(paths: Seq<Seq<char>>, base: Seq<char>) -> bool {
    forall|i: int| 0 <= i < paths.len() ==> reads_alike(#[trigger] paths[i], base)
}

/// Whether changed files concern a project on every system.
pub open spec fn surely_concerned(w: AppWatcher, paths: Seq<Seq<char>>) -> bool {
    match w.glob_set {
        None => true,
        Some(m) => exists|i: int| 0 <= i < paths.len() && m.surely_watches(#[trigger] paths[i]),
    }
}

/// Whether changed files concern a project on one system or another.
pub open spec fn may_be_concerned(w: AppWatcher, paths: Seq<Seq<char>>) -> bool {
    match w.glob_set {
        None => true,
        Some(m) => exists|i: int| 0 <= i < paths.len() && m.may_watch(#[trigger] paths[i]),
    }
}

impl AppWatcher {
    /// Whether one of several changed files concerns the project.
    pub fn concerns(&self, paths: &Vec<String>) -> (r: bool)
        ensures
            self.glob_set is None ==> r,
            surely_concerned(*self, text::texts(paths@)) ==> r,
            r ==> may_be_concerned(*self, text::texts(paths@)),
            self.glob_set matches Some(m) ==> (m.is_portable() && all_alike(
                text::texts(paths@),
                m.project_root@,
            ) ==> r == exists|i: int|
                0 <= i < paths@.len() && m.watches(#[trigger] text::texts(paths@)[i])),
    {
        match &self.glob_set {
            None => true,
            Some(m) => {
                let mut i: usize = 0;
                while i < paths.len()
                    invariant
                        i <= paths@.len(),
                        forall|k: int|
                            0 <= k < i ==> !m.surely_watches(#[trigger] text::texts(paths@)[k]),
                        m.is_portable() && all_alike(
                            text::texts(paths@),
                            m.project_root@,
                        ) ==> forall|k: int|
                            0 <= k < i ==> !m.watches(#[trigger] text::texts(paths@)[k]),
                        self.glob_set == Some(*m),
                    decreases paths@.len() - i,
                {
                    assert(text::texts(paths@)[i as int] == paths@[i as int]@);
                    if m.is_match(paths[i].as_str()) {
                        return true;
                    }
                    i += 1;
                }
                false
            },
        }
    }
}

/// What the watcher of a project is made of: the patterns to be excluded are its own, then
/// those that the user gave.
pub open spec fn watcher_of(
    w: AppWatcher,
    name: Seq<char>,
    path: Seq<char>,
    includes: Seq<Seq<char>>,
    excludes: Seq<Seq<char>>,
) -> bool {
    &&& w.name@ == name
    &&& w.path@ == path
    &&& match w.glob_set {
        None => includes.len() == 0 && excludes.len() == 0,
        Some(m) => {
            &&& includes.len() > 0 || excludes.len() > 0
            &&& m.project_root@ == path
            &&& text::texts(m.includes@) == includes
            &&& text::texts(m.excludes@) == excludes
            &&& set_patterns(m.include_set) == all_normalized(includes)
            &&& set_patterns(m.exclude_set) == all_normalized(excludes)
        },
    }
}

/// The watcher of a project, whose `tsconfig.json` names the files. Where no pattern is given
/// every file concerns it.
pub fn watch_step1(
    name: &str,
    path: &str,
    includes: &Vec<String>,
    excludes: &Vec<String>,
    watch_ignore: &Vec<String>,
) -> (r: Result<AppWatcher, GlobError>)
    ensures
        ({
            let inc = text::texts(includes@);
            let exc = text::texts(excludes@) + text::texts(watch_ignore@);
            &&& r matches Ok(w) ==> watcher_of(w, name@, path@, inc, exc)
            &&& always_built(all_normalized(inc)) && always_built(all_normalized(exc)) ==> r is Ok
            &&& portable(all_normalized(inc)) && portable(all_normalized(exc)) ==> match r {
                Err(GlobError::InvalidPattern(p)) => !pattern_valid(p@),
                _ => valid_until(all_normalized(inc), inc.len() as int) && (r is Ok
                    ==> valid_until(all_normalized(exc), exc.len() as int)),
            }
        }),
{
    let mut all_excludes = text::clone_texts(excludes);
    text::append_texts(&mut all_excludes, watch_ignore);
    proof {
        assert(text::texts(includes@).len() == includes@.len());
        assert(text::texts(all_excludes@).len() == all_excludes@.len());
    }
    let glob_set = if includes.len() > 0 || all_excludes.len() > 0 {
        match FileMatcher::new(path.to_owned(), includes, &all_excludes) {
            Ok(m) => Some(m),
            Err(e) => {
                return Err(e);
            },
        }
    } else {
        None
    };
    Ok(AppWatcher { name: name.to_owned(), path: path.to_owned(), glob_set })
}

/// What is watched of a project: the places that a walk over its files found, or else its
/// whole directory. With each place stands whether it is a directory, whose files are watched
/// however deep they lie.
pub fn watch_paths(watcher: &AppWatcher, found: Vec<(String, bool)>) -> (r: Vec<(String, bool)>)
    ensures
        r@.map_values(|p: (String, bool)| (p.0@, p.1)) == (if watcher.glob_set is Some {
            found@.map_values(|p: (String, bool)| (p.0@, p.1))
        } else {
            seq![(watcher.path@, true)]
        }),
{
    if watcher.glob_set.is_some() {
        found
    } else {
        let r = vec![(watcher.path.clone(), true)];
        assert(r@.map_values(|p: (String, bool)| (p.0@, p.1)) =~= seq![(watcher.path@, true)]);
        r
    }
}

/// Whether changed files concern a project.
pub open spec fn concerned(w: AppWatcher, paths: Seq<Seq<char>>) -> bool {
    match w.glob_set {
        None => true,
        Some(m) => exists|i: int| 0 <= i < paths.len() && m.watches(#[trigger] paths[i]),
    }
}

/// Whether what the watchers look for among some paths reads the same on every system.
pub open spec fn all_watch_alike(watchers: Seq<AppWatcher>, paths: Seq<Seq<char>>) -> bool {
    forall|i: int|
        0 <= i < watchers.len() ==> ((#[trigger] watchers[i]).glob_set matches Some(m)
            ==> m.is_portable() && all_alike(paths, m.project_root@))
}

/// The projects of the first `n` watchers that changed files concern, each once.
pub open spec fn concerned_until(
    watchers: Seq<AppWatcher>,
    paths: Seq<Seq<char>>,
    n: int,
) -> Seq<Seq<char>>
    decreases n,
{
    if n <= 0 {
        Seq::empty()
    } else {
        let before = concerned_until(watchers, paths, n - 1);
        let w = watchers[n - 1];
        if concerned(w, paths) && !before.contains(w.name@) {
            before.push(w.name@)
        } else {
            before
        }
    }
}

/// The projects that a change is reported of, once no other change has come for a while: all
/// that it concerns, each once.
pub fn watch(watchers: &Vec<AppWatcher>, paths: &Vec<String>) -> (r: Vec<String>)
    ensures
        all_watch_alike(watchers@, text::texts(paths@)) ==> text::texts(r@) == concerned_until(
            watchers@,
            text::texts(paths@),
            watchers@.len() as int,
        ),
        text::texts(r@).no_duplicates(),
        forall|i: int|
            0 <= i < watchers@.len() && surely_concerned(
                #[trigger] watchers@[i],
                text::texts(paths@),
            ) ==> text::texts(r@).contains(watchers@[i].name@),
        forall|k: int|
            0 <= k < r@.len() ==> exists|i: int|
                0 <= i < watchers@.len() && (#[trigger] watchers@[i]).name@ == (
                #[trigger] text::texts(r@)[k]) && may_be_concerned(
                    watchers@[i],
                    text::texts(paths@),
                ),
{
    let ghost all = text::texts(paths@);
    let mut out: Vec<String> = Vec::new();
    let mut n: usize = 0;
    assert(text::texts(out@) =~= Seq::<Seq<char>>::empty());
    while n < watchers.len()
        invariant
            n <= watchers@.len(),
            all == text::texts(paths@),
            all_watch_alike(watchers@, all) ==> text::texts(out@) == concerned_until(
                watchers@,
                all,
                n as int,
            ),
            text::texts(out@).no_duplicates(),
            forall|i: int|
                0 <= i < n && surely_concerned(#[trigger] watchers@[i], all) ==> text::texts(
                    out@,
                ).contains(watchers@[i].name@),
            forall|k: int|
                0 <= k < out@.len() ==> exists|i: int|
                    0 <= i < n && (#[trigger] watchers@[i]).name@ == (#[trigger] text::texts(
                        out@,
                    )[k]) && may_be_concerned(watchers@[i], all),
        decreases watchers@.len() - n,
    {
        let w = &watchers[n];
        let ghost before = text::texts(out@);
        let hit = w.concerns(paths);
        assert(all.len() == paths@.len());
        if hit && !text::contains_text(&out, w.name.as_str()) {
            out.push(w.name.clone());
        }
        proof {
            let after = text::texts(out@);
            if hit && !before.contains(w.name@) {
                assert(after =~= before.push(w.name@));
                assert(after[before.len() as int] == w.name@);
            } else {
                assert(after == before);
            }
            assert forall|i: int| 0 <= i < n + 1 && surely_concerned(
                #[trigger] watchers@[i],
                all,
            ) implies after.contains(watchers@[i].name@) by {
                if before.contains(watchers@[i].name@) {
                    let k = choose|k: int| 0 <= k < before.len() && before[k] == watchers@[i].name@;
                    assert(after[k] == before[k]);
                }
            }
            assert forall|k: int| 0 <= k < out@.len() implies exists|i: int|
                0 <= i < n + 1 && (#[trigger] watchers@[i]).name@ == (#[trigger] after[k])
                    && may_be_concerned(watchers@[i], all) by {
                if k < before.len() {
                    assert(after[k] == before[k]);
                    let i = choose|i: int|
                        0 <= i < n && (#[trigger] watchers@[i]).name@ == before[k]
                            && may_be_concerned(watchers@[i], all);
                    assert(watchers@[i].name@ == after[k]);
                } else {
                    assert(watchers@[n as int].name@ == after[k]);
                }
            }
        }
        n += 1;
    }
    out
}

/// What is noted in the output of a project when its files changed.
pub fn change_line(event: &str) -> (r: String)
    ensures
        r@ == "File change detected: "@ + event@,
{
    text::concat("File change detected: ", event)
}

/// Where no pattern is given every change concerns a project; where only patterns to be
/// excluded are given none does.
pub proof fn lemma_only_excludes(
    w: AppWatcher,
    name: Seq<char>,
    path: Seq<char>,
    excludes: Seq<Seq<char>>,
    paths: Seq<Seq<char>>,
)
    requires
        watcher_of(w, name, path, Seq::empty(), excludes),
    ensures
        concerned(w, paths) <==> excludes.len() == 0,
{
    if excludes.len() > 0 {
        let m = w.glob_set->0;
        assert(all_normalized(Seq::<Seq<char>>::empty()) =~= Seq::empty());
        assert forall|i: int| 0 <= i < paths.len() implies !m.watches(#[trigger] paths[i]) by {}
    }
}

} // verus!
