//! Sets of glob patterns and the paths that they match.

use vstd::prelude::*;

use crate::text;

verus! {

/// One pattern, compiled.
#[verifier::external_type_specification]
#[verifier::external_body]
pub struct ExGlob(globset::Glob);

/// Patterns that are being gathered.
#[verifier::external_type_specification]
#[verifier::external_body]
pub struct ExGlobSetBuilder(globset::GlobSetBuilder);

/// Patterns that are matched together.
#[verifier::external_type_specification]
#[verifier::external_body]
pub struct ExGlobSet(globset::GlobSet);

/// Why a pattern or a set of patterns was refused.
#[verifier::external_type_specification]
#[verifier::external_body]
pub struct ExGlobError(globset::Error);

/// The text that a pattern was compiled from.
pub uninterp spec fn glob_text(g: globset::Glob) -> Seq<char>;

/// The patterns that a builder holds, in the order in which they were added.
pub uninterp spec fn builder_patterns(b: globset::GlobSetBuilder) -> Seq<Seq<char>>;

/// The patterns that a set holds.
pub uninterp spec fn set_patterns(s: globset::GlobSet) -> Seq<Seq<char>>;

/// Whether `globset` accepts a pattern without backslashes.
pub uninterp spec fn glob_valid(pattern: Seq<char>) -> bool;

/// Whether a pattern matches a path, where neither holds a backslash.
pub uninterp spec fn glob_matches(pattern: Seq<char>, path: Seq<char>) -> bool;

/// Whether a character has a meaning of its own in a pattern.
pub open spec fn is_meta(c: char) -> bool {
    c == '*' || c == '?' || c == '[' || c == ']' || c == '{' || c == '}'
}

/// Whether no character of a text has a meaning of its own in a pattern.
pub open spec fn no_meta(s: Seq<char>) -> bool {
    forall|i: int| 0 <= i < s.len() ==> !is_meta(#[trigger] s[i])
}

/// The text that a pattern without wildcards stands for: characters with a meaning of their own
/// stand between brackets in it, all others as they are.
pub open spec fn literal_of(p: Seq<char>) -> Option<Seq<char>>
    decreases p.len(),
{
    if p.len() == 0 {
        Some(Seq::empty())
    } else if p.len() >= 3 && p[0] == '[' && is_meta(p[1]) && p[2] == ']' {
        match literal_of(p.skip(3)) {
            Some(rest) => Some(seq![p[1]] + rest),
            None => None,
        }
    } else if is_meta(p[0]) {
        None
    } else {
        match literal_of(p.skip(1)) {
            Some(rest) => Some(seq![p[0]] + rest),
            None => None,
        }
    }
}

/// Characters without a meaning of their own stand for themselves, whatever comes behind them.
pub proof fn lemma_plain_front(s: Seq<char>, t: Seq<char>)
    requires
        no_meta(s),
    ensures
        literal_of(s + t) == (match literal_of(t) {
            Some(rest) => Some(s + rest),
            None => None,
        }),
    decreases s.len(),
{
    if s.len() == 0 {
        assert(s + t =~= t);
        if literal_of(t) is Some {
            assert(s + literal_of(t)->0 =~= literal_of(t)->0);
        }
    } else {
        let rest = s.drop_first();
        assert forall|i: int| 0 <= i < rest.len() implies !is_meta(#[trigger] rest[i]) by {
            assert(rest[i] == s[i + 1]);
        }
        lemma_plain_front(rest, t);
        assert((s + t).skip(1) =~= rest + t);
        assert(!is_meta(s[0]));
        if literal_of(t) is Some {
            assert(seq![s[0]] + (rest + literal_of(t)->0) =~= s + literal_of(t)->0);
        }
    }
}

/// Whether a text ends with another one.
pub open spec fn ends_with(s: Seq<char>, end: Seq<char>) -> bool {
    s.len() >= end.len() && s.skip(s.len() - end.len()) == end
}

/// The directory of which a pattern stands for all that lies below it.
pub open spec fn directory_of(p: Seq<char>) -> Option<Seq<char>> {
    if ends_with(p, seq!['/', '*', '*', '/', '*']) {
        literal_of(p.take(p.len() - 5))
    } else if ends_with(p, seq!['/', '*', '*']) {
        literal_of(p.take(p.len() - 3))
    } else {
        None
    }
}

/// Whether a text holds no backslash, which is an escape on some systems and a separator on
/// others.
pub open spec fn no_backslash(s: Seq<char>) -> bool {
    forall|i: int| 0 <= i < s.len() ==> #[trigger] s[i] != '\\'
}

/// Whether a text holds neither a backslash nor a character with a meaning of its own in a
/// pattern.
pub open spec fn plain_text(s: Seq<char>) -> bool {
    no_meta(s) && no_backslash(s)
}

/// Whether a pattern stands for the files whose names end in a given way: a star, a dot and an
/// extension without further dots.
pub open spec fn is_extension(p: Seq<char>) -> bool {
    &&& p.len() > 2
    &&& p[0] == '*' && p[1] == '.'
    &&& plain_text(p.skip(2))
    &&& !p.skip(2).contains('.') && !p.skip(2).contains('/')
}

/// Whether a character opens or closes a group of characters or of choices, or escapes another
/// one.
pub open spec fn is_grouping(c: char) -> bool {
    c == '[' || c == '{' || c == '}' || c == '\\'
}

/// Whether a pattern consists of texts, stars and question marks alone.
pub open spec fn no_groups(p: Seq<char>) -> bool {
    forall|i: int| 0 <= i < p.len() ==> !is_grouping(#[trigger] p[i])
}

/// Whether a pattern without backslashes is accepted: those without groups, those without
/// wildcards and those of a directory are.
pub open spec fn pattern_valid(p: Seq<char>) -> bool {
    no_groups(p) || literal_of(p) is Some || directory_of(p) is Some || glob_valid(p)
}

/// Whether the last part of a path is `..`.
pub open spec fn names_parent(path: Seq<char>) -> bool {
    path == seq!['.', '.'] || ends_with(path, seq!['/', '.', '.'])
}

/// Whether a pattern matches a path, where neither holds a backslash: one without wildcards
/// matches the path that it stands for, that of a directory matches all that lies below it, that
/// of an extension all paths that end with it. A pattern with brackets does not match a path
/// whose last part is `..`.
pub open spec fn pattern_matches(p: Seq<char>, path: Seq<char>) -> bool {
    if literal_of(p) is Some {
        path == literal_of(p)->0 && (p == path || !names_parent(path))
    } else if directory_of(p) is Some {
        text::begins_with(path, directory_of(p)->0.push('/'))
    } else if is_extension(p) {
        ends_with(path, p.skip(1))
    } else {
        glob_matches(p, path)
    }
}

/// Whether none of the patterns holds a backslash.
pub open spec fn portable(patterns: Seq<Seq<char>>) -> bool {
    forall|i: int| 0 <= i < patterns.len() ==> no_backslash(#[trigger] patterns[i])
}

/// Whether a pattern is the plain name of a file, that of a directory with all that lies below
/// it, or that of an extension. Such patterns are compared as texts.
pub open spec fn is_name(p: Seq<char>) -> bool {
    ||| p.len() > 0 && plain_text(p)
    ||| ends_with(p, seq!['/', '*', '*']) && plain_text(p.take(p.len() - 3))
    ||| is_extension(p)
}

/// Whether a pattern is known to be accepted, and to take little room in a set: it has no
/// groups, or it stands for a path or for all that lies below a directory.
pub open spec fn is_simple(p: Seq<char>) -> bool {
    no_groups(p) || (no_backslash(p) && (literal_of(p) is Some || directory_of(p) is Some))
}

/// Whether all of some patterns are simple.
pub open spec fn all_simple(patterns: Seq<Seq<char>>) -> bool {
    forall|i: int| 0 <= i < patterns.len() ==> is_simple(#[trigger] patterns[i])
}

/// How long those of some patterns are that take a regular expression, with one more for each.
pub open spec fn room(patterns: Seq<Seq<char>>) -> nat
    decreases patterns.len(),
{
    if patterns.len() == 0 {
        0
    } else if is_name(patterns.last()) {
        room(patterns.drop_last())
    } else {
        room(patterns.drop_last()) + patterns.last().len() + 1
    }
}

/// How much room there is for patterns in every set, far within the limit of the regular
/// expressions.
pub const SET_ROOM: u64 = 10000;

/// Whether patterns can be made into a set on every machine: they are simple, and those that
/// take a regular expression are not too long together.
pub open spec fn always_built(patterns: Seq<Seq<char>>) -> bool {
    all_simple(patterns) && room(patterns) <= SET_ROOM
}

/// Plain names can be made into a set, however many they are.
pub proof fn lemma_names_built(patterns: Seq<Seq<char>>)
    requires
        forall|i: int| 0 <= i < patterns.len() ==> is_name(#[trigger] patterns[i]),
    ensures
        always_built(patterns),
    decreases patterns.len(),
{
    assert forall|i: int| 0 <= i < patterns.len() implies is_simple(#[trigger] patterns[i]) by {
        lemma_name_simple(patterns[i]);
    }
    if patterns.len() > 0 {
        let less = patterns.drop_last();
        assert forall|i: int| 0 <= i < less.len() implies is_name(#[trigger] less[i]) by {
            assert(less[i] == patterns[i]);
        }
        lemma_names_built(less);
        assert(is_name(patterns[patterns.len() - 1]));
    }
}

/// A simple pattern is accepted.
pub proof fn lemma_simple_valid(p: Seq<char>)
    requires
        is_simple(p),
    ensures
        no_backslash(p),
        pattern_valid(p),
{
    if no_groups(p) {
        assert forall|i: int| 0 <= i < p.len() implies #[trigger] p[i] != '\\' by {
            assert(!is_grouping(p[i]));
        }
    }
}

/// A plain name is a simple pattern.
pub proof fn lemma_name_simple(p: Seq<char>)
    requires
        is_name(p),
    ensures
        is_simple(p),
{
    if p.len() > 0 && plain_text(p) {
        assert forall|i: int| 0 <= i < p.len() implies !is_grouping(#[trigger] p[i]) by {
            assert(!is_meta(p[i]));
        }
    } else if is_extension(p) {
        let rest = p.skip(2);
        assert forall|i: int| 0 <= i < p.len() implies !is_grouping(#[trigger] p[i]) by {
            if i >= 2 {
                assert(!is_meta(rest[i - 2]) && rest[i - 2] != '\\');
            }
        }
    } else {
        let d = p.take(p.len() - 3);
        let tail = seq!['/', '*', '*'];
        assert(p =~= d + tail);
        assert forall|i: int| 0 <= i < p.len() implies !is_grouping(#[trigger] p[i]) by {
            if i < d.len() {
                assert(!is_meta(d[i]) && d[i] != '\\');
            } else {
                assert(p[i] == tail[i - d.len()]);
            }
        }
    }
}

/// Whether one of the patterns matches a path on every system.
pub open spec fn surely_matches(patterns: Seq<Seq<char>>, path: Seq<char>) -> bool {
    exists|i: int|
        0 <= i < patterns.len() && no_backslash(#[trigger] patterns[i]) && pattern_matches(
            patterns[i],
            path,
        )
}

/// Whether one of the patterns matches a path, or can match it on one system or another since
/// it holds a backslash.
pub open spec fn may_match(patterns: Seq<Seq<char>>, path: Seq<char>) -> bool {
    exists|i: int|
        0 <= i < patterns.len() && (!no_backslash(#[trigger] patterns[i]) || pattern_matches(
            patterns[i],
            path,
        ))
}

/// Where no pattern holds a backslash it is sure what matches.
pub proof fn lemma_portable_sure(patterns: Seq<Seq<char>>, path: Seq<char>)
    requires
        portable(patterns),
    ensures
        surely_matches(patterns, path) == any_matches(patterns, path),
        may_match(patterns, path) == any_matches(patterns, path),
{
    if any_matches(patterns, path) {
        let i = choose|i: int|
            0 <= i < patterns.len() && pattern_matches(#[trigger] patterns[i], path);
        assert(no_backslash(patterns[i]));
    }
    if may_match(patterns, path) {
        let i = choose|i: int|
            0 <= i < patterns.len() && (!no_backslash(#[trigger] patterns[i]) || pattern_matches(
                patterns[i],
                path,
            ));
        assert(no_backslash(patterns[i]));
    }
}

/// Whether one of the patterns matches a path.
pub open spec fn any_matches(patterns: Seq<Seq<char>>, path: Seq<char>) -> bool {
    exists|i: int| 0 <= i < patterns.len() && pattern_matches(#[trigger] patterns[i], path)
}

/// `globset::Glob::new`: compiles a pattern. Of a pattern without backslashes, whether it is
/// accepted depends on its text alone. One without groups is, and so are one without wildcards
/// and that of a directory; which others are is not said here.
#[verifier::external_body]
fn new_glob(pattern: &str) -> (r: Result<globset::Glob, globset::Error>)
    ensures
        r matches Ok(g) ==> glob_text(g) == pattern@,
        no_backslash(pattern@) ==> (r is Ok <==> no_groups(pattern@) || literal_of(pattern@) is Some
            || directory_of(pattern@) is Some || glob_valid(pattern@)),
{
    globset::Glob::new(pattern)
}

/// `globset::GlobSetBuilder::new`: a builder without patterns.
#[verifier::external_body]
fn new_builder() -> (r: globset::GlobSetBuilder)
    ensures
        builder_patterns(r) == Seq::<Seq<char>>::empty(),
{
    globset::GlobSetBuilder::new()
}

/// `globset::GlobSetBuilder::add`: adds a pattern at the end.
#[verifier::external_body]
fn add_glob(b: &mut globset::GlobSetBuilder, g: globset::Glob)
    ensures
        builder_patterns(*final(b)) == builder_patterns(*old(b)).push(glob_text(g)),
{
    b.add(g);
}

/// `globset::GlobSetBuilder::build`: the set of the patterns that were added. It is refused for
/// nothing but the size of its regular expressions, which is limited to ten mebibytes. Plain
/// names take none. Each character of another simple pattern takes at most four states of an
/// automaton, each pattern some more of its own, and a state at most forty bytes, so that simple
/// patterns within the given room stay far below the limit. Where exactly the limit is depends
/// on the machine and is not said here.
#[verifier::external_body]
fn build_set(b: &globset::GlobSetBuilder) -> (r: Result<globset::GlobSet, globset::Error>)
    ensures
        r matches Ok(s) ==> set_patterns(s) == builder_patterns(*b),
        always_built(builder_patterns(*b)) ==> r is Ok,
{
    b.build()
}

/// `globset::GlobSet::is_match`: whether any pattern of the set matches a path. An empty set
/// matches nothing. A pattern without wildcards matches the path that it stands for alone, and
/// none where it holds brackets and the last part of that path is `..`; that of a directory
/// matches all that lies below it, and that of an extension all paths that end with it. What a
/// pattern with a backslash matches depends on the system and is left unsaid, as is what
/// matches a path with one.
#[verifier::external_body]
pub(crate) fn set_matches(s: &globset::GlobSet, path: &str) -> (r: bool)
    ensures
        r ==> set_patterns(*s).len() > 0,
        no_backslash(path@) && r ==> may_match(set_patterns(*s), path@),
        no_backslash(path@) ==> forall|i: int|
            0 <= i < set_patterns(*s).len() && no_backslash(#[trigger] set_patterns(*s)[i]) && ({
                let p = set_patterns(*s)[i];
                if literal_of(p) is Some {
                    path@ == literal_of(p)->0 && (p == path@ || !names_parent(path@))
                } else if directory_of(p) is Some {
                    text::begins_with(path@, directory_of(p)->0.push('/'))
                } else if is_extension(p) {
                    ends_with(path@, p.skip(1))
                } else {
                    glob_matches(p, path@)
                }
            }) ==> r,
{
    s.is_match(path)
}

/// Why patterns could not be made into a set.
pub enum GlobError {
    /// This pattern is not accepted.
    InvalidPattern(String),
    /// The patterns could not be put together.
    InvalidSet,
}

/// Whether all of the first `n` patterns are accepted.
pub open spec fn valid_until(patterns: Seq<Seq<char>>, n: int) -> bool {
    forall|i: int| 0 <= i < n ==> pattern_valid(#[trigger] patterns[i])
}

/// Makes patterns into a set.
pub fn glob_set(patterns: &Vec<String>) -> (r: Result<globset::GlobSet, GlobError>)
    ensures
        always_built(text::texts(patterns@)) ==> r is Ok,
        match r {
            Ok(s) => set_patterns(s) == text::texts(patterns@) && (portable(text::texts(patterns@))
                ==> valid_until(text::texts(patterns@), patterns@.len() as int)),
            Err(GlobError::InvalidPattern(p)) => exists|i: int|
                0 <= i < patterns@.len() && #[trigger] text::texts(patterns@)[i] == p@ && (
                portable(text::texts(patterns@)) ==> !pattern_valid(p@) && valid_until(
                    text::texts(patterns@),
                    i,
                )),
            Err(GlobError::InvalidSet) => portable(text::texts(patterns@)) ==> valid_until(
                text::texts(patterns@),
                patterns@.len() as int,
            ),
        },
{
    let ghost all = text::texts(patterns@);
    let mut b = new_builder();
    let mut i: usize = 0;
    assert(builder_patterns(b) =~= all.take(0));
    while i < patterns.len()
        invariant
            i <= patterns@.len(),
            all == text::texts(patterns@),
            builder_patterns(b) == all.take(i as int),
            portable(all) ==> valid_until(all, i as int),
        decreases patterns@.len() - i,
    {
        assert(all[i as int] == patterns@[i as int]@);
        proof {
            if all_simple(all) {
                lemma_simple_valid(all[i as int]);
            }
        }
        match new_glob(patterns[i].as_str()) {
            Ok(g) => {
                add_glob(&mut b, g);
                assert(all.take(i + 1) =~= all.take(i as int).push(all[i as int]));
            },
            Err(_) => {
                return Err(GlobError::InvalidPattern(patterns[i].clone()));
            },
        }
        i += 1;
    }
    assert(all.take(i as int) =~= all);
    match build_set(&b) {
        Ok(s) => Ok(s),
        Err(_) => Err(GlobError::InvalidSet),
    }
}

/// What `std::path::Path::strip_prefix` leaves of a path behind a directory, where the two read
/// the same on every system.
pub uninterp spec fn path_tail(path: Seq<char>, base: Seq<char>) -> Option<Seq<char>>;

/// Whether a path begins with the letter of a drive.
pub open spec fn has_drive(s: Seq<char>) -> bool {
    s.len() >= 2 && text::is_letter(s[0]) && s[1] == ':'
}

/// Whether the parts of a path are told apart alike on every system: it holds no backslash, it
/// does not begin with two slashes, which lead to a server on some systems, and the letter of a
/// drive is followed by a slash, without which it is relative to that drive on some systems.
pub open spec fn parts_alike(s: Seq<char>) -> bool {
    &&& no_backslash(s)
    &&& !text::begins_with(s, seq!['/', '/'])
    &&& has_drive(s) ==> s.len() > 2 && s[2] == '/'
}

/// Whether two characters are the same letter in another case.
pub open spec fn other_case(a: char, b: char) -> bool {
    (a as int) - (b as int) == 32 || (b as int) - (a as int) == 32
}

/// Whether a path names a drive and nothing on it.
pub open spec fn bare_drive(s: Seq<char>) -> bool {
    has_drive(s) && forall|i: int| 2 <= i < s.len() ==> #[trigger] s[i] == '/' || s[i] == '.'
}

/// Whether it is the same on every system what is left of a path behind a directory. Besides the
/// paths whose parts are not told apart alike, two drives are left out whose letters differ in
/// case alone, and a bare drive where no directory is given, whose slash is kept on some
/// systems only.
pub open spec fn reads_alike(path: Seq<char>, base: Seq<char>) -> bool {
    &&& parts_alike(path)
    &&& parts_alike(base)
    &&& !(has_drive(path) && has_drive(base) && other_case(path[0], base[0]))
    &&& !(bare_drive(path) && base.len() == 0)
}

/// `std::path::Path::strip_prefix`: what is left of a path behind a directory, component by
/// component; nothing where the path does not lie below it. The contract claims that the
/// outcome depends on the two texts alone, where they read the same on every system, and that
/// what is left of a path without backslashes holds none, being a piece of it.
#[verifier::external_body]
pub(crate) fn strip_prefix(path: &str, base: &str) -> (r: Option<String>)
    ensures
        reads_alike(path@, base@) ==> text::opt_text(r) == path_tail(path@, base@),
        no_backslash(path@) ==> (r matches Some(t) ==> no_backslash(t@)),
{
    match std::path::Path::new(path).strip_prefix(base) {
        Ok(p) => Some(p.to_string_lossy().into_owned()),
        Err(_) => None,
    }
}

} // verus!
