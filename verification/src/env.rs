//! Environment files: where they are looked for and what they say.

use vstd::prelude::*;

use crate::strmap::StrMap;
use crate::task_runner::text_map;
use crate::text;

verus! {

/// A compiled pattern.
#[verifier::external_type_specification]
#[verifier::external_body]
pub struct ExRegex(regex::Regex);

/// Why a pattern was refused.
#[verifier::external_type_specification]
#[verifier::external_body]
pub struct ExRegexError(regex::Error);

/// The text that a pattern was compiled from.
pub uninterp spec fn regex_text(r: regex::Regex) -> Seq<char>;

/// `regex::Regex::new`: compiles a pattern. The contract claims that the one pattern that is
/// used here is accepted, which its syntax allows; which others are is not said.
#[verifier::external_body]
fn compile(pattern: &str) -> (r: Result<regex::Regex, regex::Error>)
    ensures
        r matches Ok(x) ==> regex_text(x) == pattern@,
        pattern@ == key_pattern() ==> r is Ok,
{
    regex::Regex::new(pattern)
}

/// Whether a character can begin the name of a variable.
pub open spec fn begins_name(c: char) -> bool {
    'A' <= c <= 'Z' || c == '_'
}

/// Whether a character can stand in the name of a variable.
pub open spec fn in_name(c: char) -> bool {
    begins_name(c) || '0' <= c <= '9'
}

/// How many characters at the beginning of `s` can stand in the name of a variable.
pub open spec fn name_len(s: Seq<char>) -> nat
    decreases s.len(),
{
    if s.len() > 0 && in_name(s[0]) {
        1 + name_len(s.drop_first())
    } else {
        0
    }
}

/// The name and the value that a line gives: the name stands at the beginning, an equals sign
/// behind it, and white space may stand before and behind the name. The value is the rest of
/// the line.
pub open spec fn assignment(line: Seq<char>) -> Option<(Seq<char>, Seq<char>)> {
    let s = text::trim_start(line);
    let n = name_len(s) as int;
    let rest = text::trim_start(s.skip(n));
    if s.len() > 0 && begins_name(s[0]) && rest.len() > 0 && rest[0] == '=' {
        Some((s.take(n), rest.skip(1)))
    } else {
        None
    }
}

/// The text of the pattern of a line that gives a variable a value.
pub open spec fn key_pattern() -> Seq<char> {
    "^\\s*([A-Z_][A-Z0-9_]*)\\s*=([^\\n]*)"@
}

/// What two captured texts say.
pub open spec fn pair_view(p: Option<(String, String)>) -> Option<(Seq<char>, Seq<char>)> {
    match p {
        Some(x) => Some((x.0@, x.1@)),
        None => None,
    }
}

/// `regex::Regex::captures` with the pattern `^\s*([A-Z_][A-Z0-9_]*)\s*=([^\n]*)`: the texts of
/// its two groups in a single line. The groups cannot fail to take part where the pattern
/// matches, and no repetition of it can give up a character to the next one, so that there is
/// one way to match.
#[verifier::external_body]
fn capture_assignment(r: &regex::Regex, line: &str) -> (c: Option<(String, String)>)
    requires
        regex_text(*r) == key_pattern(),
        !line@.contains('\n'),
    ensures
        pair_view(c) == assignment(line@),
{
    r.captures(line).map(|c| (c[1].to_owned(), c[2].to_owned()))
}

/// What one line of an environment file does to the variables: blank lines and comments
/// nothing, a line that gives a variable a value sets it, without the white space around it.
pub open spec fn with_line(
    envs: Map<Seq<char>, Seq<char>>,
    line: Seq<char>,
) -> Map<Seq<char>, Seq<char>> {
    let bare = text::trimmed(line);
    if bare.len() == 0 || text::begins_with(bare, "#"@) {
        envs
    } else {
        match assignment(line) {
            Some((k, v)) => envs.insert(k, text::trimmed(v)),
            None => envs,
        }
    }
}

/// What the first `n` lines of an environment file do.
pub open spec fn with_lines(
    envs: Map<Seq<char>, Seq<char>>,
    lines: Seq<Seq<char>>,
    n: int,
) -> Map<Seq<char>, Seq<char>>
    decreases n,
{
    if n <= 0 {
        envs
    } else {
        with_line(with_lines(envs, lines, n - 1), lines[n - 1])
    }
}

/// What an environment file does to the variables.
pub open spec fn with_file(
    envs: Map<Seq<char>, Seq<char>>,
    contents: Seq<char>,
) -> Map<Seq<char>, Seq<char>> {
    let lines = text::line_list(contents);
    with_lines(envs, lines, lines.len() as int)
}

/// What the first `n` environment files do, as far as they are there.
pub open spec fn with_files(
    envs: Map<Seq<char>, Seq<char>>,
    files: Seq<Option<Seq<char>>>,
    n: int,
) -> Map<Seq<char>, Seq<char>>
    decreases n,
{
    if n <= 0 {
        envs
    } else {
        let before = with_files(envs, files, n - 1);
        match files[n - 1] {
            Some(contents) => with_file(before, contents),
            None => before,
        }
    }
}

proof fn lemma_line_len_stops(s: Seq<char>)
    ensures
        forall|i: int| 0 <= i < text::line_len(s) ==> s[i] != '\n',
        text::line_len(s) <= s.len(),
    decreases s.len(),
{
    if s.len() > 0 && s[0] != '\n' {
        lemma_line_len_stops(s.drop_first());
        assert forall|i: int| 0 <= i < text::line_len(s) implies s[i] != '\n' by {
            if i > 0 {
                assert(s.drop_first()[i - 1] == s[i]);
            }
        }
    }
}

proof fn lemma_lines_single(s: Seq<char>)
    ensures
        forall|i: int|
            0 <= i < text::line_list(s).len() ==> !(#[trigger] text::line_list(s)[i]).contains(
                '\n',
            ),
    decreases s.len(),
{
    if s.len() > 0 {
        let n = text::line_len(s) as int;
        lemma_line_len_stops(s);
        let all = text::line_list(s);
        if n == s.len() {
            assert forall|i: int| 0 <= i < all.len() implies !(#[trigger] all[i]).contains(
                '\n',
            ) by {
                assert(all[i] == s);
            }
        } else {
            lemma_lines_single(s.skip(n + 1));
            let first = text::without_cr(s.take(n));
            assert forall|i: int| 0 <= i < all.len() implies !(#[trigger] all[i]).contains(
                '\n',
            ) by {
                if i == 0 {
                    assert(all[0] == first);
                    if first.contains('\n') {
                        let k = choose|k: int| 0 <= k < first.len() && first[k] == '\n';
                        assert(first[k] == s[k]);
                    }
                } else {
                    assert(all[i] == text::line_list(s.skip(n + 1))[i - 1]);
                }
            }
        }
    }
}

/// Where an environment file is looked for.
#[derive(Debug, Clone, Copy, PartialEq, Eq, Structural)]
pub enum EnvDir {
    /// The directory that the program was started in.
    Current,
    /// The directory of the task.
    Task,
}

/// An environment file.
pub struct EnvFile {
    pub dir: EnvDir,
    pub name: String,
}

/// What environment files say of where they are.
pub open spec fn files_view(v: Seq<EnvFile>) -> Seq<(EnvDir, Seq<char>)> {
    v.map_values(|f: EnvFile| (f.dir, f.name@))
}

/// The environment files of one directory, in the order in which they are read: those of a
/// command before the common ones, and of each the local one first, so that what stands later
/// is what counts.
pub open spec fn files_in(dir: EnvDir, specific: Option<Seq<char>>) -> Seq<(EnvDir, Seq<char>)> {
    let common = seq![(dir, ".env.local"@), (dir, ".env"@)];
    match specific {
        Some(s) => seq![(dir, ".env."@ + s + ".local"@), (dir, ".env."@ + s)] + common,
        None => common,
    }
}

/// All environment files of a command, in the order in which they are read.
pub open spec fn files_of(specific: Option<Seq<char>>) -> Seq<(EnvDir, Seq<char>)> {
    files_in(EnvDir::Current, specific) + files_in(EnvDir::Task, specific)
}

fn add_file(out: &mut Vec<EnvFile>, dir: EnvDir, name: String)
    ensures
        files_view(final(out)@) == files_view(old(out)@).push((dir, name@)),
{
    out.push(EnvFile { dir, name });
    assert(files_view(out@) =~= files_view(old(out)@).push((dir, name@)));
}

fn add_files(out: &mut Vec<EnvFile>, dir: EnvDir, specific: Option<&str>)
    ensures
        files_view(final(out)@) == files_view(old(out)@) + files_in(
            dir,
            match specific {
                Some(s) => Some(s@),
                None => None,
            },
        ),
{
    match specific {
        Some(s) => {
            add_file(out, dir, text::concat3(".env.", s, ".local"));
            add_file(out, dir, text::concat(".env.", s));
        },
        None => {},
    }
    add_file(out, dir, ".env.local".to_owned());
    add_file(out, dir, ".env".to_owned());
    assert(files_view(out@) =~= files_view(old(out)@) + files_in(
        dir,
        match specific {
            Some(s) => Some(s@),
            None => None,
        },
    ));
}

/// All environment files of a command, in the order in which they are read.
pub fn env_files(specific: Option<&str>) -> (r: Vec<EnvFile>)
    ensures
        files_view(r@) == files_of(
            match specific {
                Some(s) => Some(s@),
                None => None,
            },
        ),
{
    let mut out: Vec<EnvFile> = Vec::new();
    add_files(&mut out, EnvDir::Current, specific);
    add_files(&mut out, EnvDir::Task, specific);
    assert(files_view(out@) =~= files_of(
        match specific {
            Some(s) => Some(s@),
            None => None,
        },
    ));
    out
}

/// The contents of environment files, as far as they are there.
pub open spec fn contents_view(v: Seq<Option<String>>) -> Seq<Option<Seq<char>>> {
    v.map_values(|o: Option<String>| text::opt_text(o))
}

/// A reader of environment files.
pub struct Env {
    pub _env_key_matcher: regex::Regex,
}

impl Env {
    /// The reader holds the pattern of a line that gives a variable a value.
    pub open spec fn wf(&self) -> bool {
        regex_text(self._env_key_matcher) == key_pattern()
    }

    /// A reader.
    pub fn new() -> (r: Result<Self, regex::Error>)
        ensures
            r is Ok,
            r matches Ok(e) ==> e.wf(),
    {
        match compile("^\\s*([A-Z_][A-Z0-9_]*)\\s*=([^\\n]*)") {
            Ok(x) => Ok(Env { _env_key_matcher: x }),
            Err(e) => Err(e),
        }
    }

    /// Reads one environment file.
    pub fn get_env_from_file(&self, contents: &str, envs: &mut StrMap<String>)
        requires
            self.wf(),
            old(envs).wf(),
        ensures
            final(envs).wf(),
            text_map(final(envs)@) == with_file(text_map(old(envs)@), contents@),
    {
        let lines = text::lines(contents);
        let ghost all = text::line_list(contents@);
        let mut i: usize = 0;
        proof {
            lemma_lines_single(contents@);
            assert(all.len() == lines@.len());
        }
        while i < lines.len()
            invariant
                i <= lines@.len(),
                self.wf(),
                envs.wf(),
                all == text::texts(lines@),
                forall|k: int| 0 <= k < all.len() ==> !(#[trigger] all[k]).contains('\n'),
                text_map(envs@) == with_lines(text_map(old(envs)@), all, i as int),
            decreases lines@.len() - i,
        {
            let line = lines[i].as_str();
            let ghost before = text_map(envs@);
            assert(all[i as int] == line@);
            let bare = text::trim(line);
            if !bare.as_str().is_empty() && !text::starts_with(bare.as_str(), "#") {
                match capture_assignment(&self._env_key_matcher, line) {
                    Some((k, v)) => {
                        let value = text::trim(v.as_str());
                        let ghost (kv, vv) = (k@, value@);
                        envs.insert(k, value);
                        assert(text_map(envs@) =~= before.insert(kv, vv));
                    },
                    None => {},
                }
            }
            i += 1;
        }
    }

    /// Reads environment files, as far as they are there.
    pub fn read_files(&self, envs: &mut StrMap<String>, contents: &Vec<Option<String>>)
        requires
            self.wf(),
            old(envs).wf(),
        ensures
            final(envs).wf(),
            text_map(final(envs)@) == with_files(
                text_map(old(envs)@),
                contents_view(contents@),
                contents@.len() as int,
            ),
    {
        let ghost start = text_map(envs@);
        let mut i: usize = 0;
        while i < contents.len()
            invariant
                i <= contents@.len(),
                self.wf(),
                envs.wf(),
                text_map(envs@) == with_files(start, contents_view(contents@), i as int),
            decreases contents@.len() - i,
        {
            assert(contents_view(contents@)[i as int] == text::opt_text(contents@[i as int]));
            match &contents[i] {
                Some(c) => self.get_env_from_file(c.as_str(), envs),
                None => {},
            }
            i += 1;
        }
    }

    /// The variables that a command gets from environment files. `contents` is what the files
    /// of [`env_files`] hold, in that order.
    pub fn get_envs_with_specific(&self, contents: &Vec<Option<String>>) -> (r: StrMap<String>)
        requires
            self.wf(),
        ensures
            r.wf(),
            text_map(r@) == with_files(
                Map::<Seq<char>, Seq<char>>::empty().insert("PLEXUS"@, "1"@),
                contents_view(contents@),
                contents@.len() as int,
            ),
    {
        let mut envs: StrMap<String> = StrMap::new();
        envs.insert("PLEXUS".to_owned(), "1".to_owned());
        assert(text_map(envs@) =~= Map::<Seq<char>, Seq<char>>::empty().insert("PLEXUS"@, "1"@));
        self.read_files(&mut envs, contents);
        envs
    }
}

/// A line that gives a variable a value sets that variable, and leaves all others alone.
pub proof fn lemma_line_sets_one(
    envs: Map<Seq<char>, Seq<char>>,
    line: Seq<char>,
    other: Seq<char>,
)
    requires
        assignment(line) matches Some((k, v)) ==> other != k,
    ensures
        with_line(envs, line).contains_key(other) == envs.contains_key(other),
        envs.contains_key(other) ==> with_line(envs, line)[other] == envs[other],
{
}

proof fn lemma_lines_over(
    envs: Map<Seq<char>, Seq<char>>,
    lines: Seq<Seq<char>>,
    n: int,
    key: Seq<char>,
)
    requires
        0 <= n <= lines.len(),
    ensures
        ({
            let own = with_lines(Map::empty(), lines, n);
            let all = with_lines(envs, lines, n);
            &&& all.contains_key(key) <==> own.contains_key(key) || envs.contains_key(key)
            &&& all.contains_key(key) ==> all[key] == (if own.contains_key(key) {
                own[key]
            } else {
                envs[key]
            })
        }),
    decreases n,
{
    if n > 0 {
        lemma_lines_over(envs, lines, n - 1, key);
    }
}

/// The file that is read later wins: where it sets a variable the variable has that value, and
/// where it does not the variable stays as the files before left it.
pub proof fn lemma_later_file_wins(
    envs: Map<Seq<char>, Seq<char>>,
    contents: Seq<char>,
    key: Seq<char>,
)
    ensures
        ({
            let own = with_file(Map::empty(), contents);
            let all = with_file(envs, contents);
            &&& all.contains_key(key) <==> own.contains_key(key) || envs.contains_key(key)
            &&& all.contains_key(key) ==> all[key] == (if own.contains_key(key) {
                own[key]
            } else {
                envs[key]
            })
        }),
{
    let lines = text::line_list(contents);
    lemma_lines_over(envs, lines, lines.len() as int, key);
}

} // verus!
