//! Which pnpm is called.

use vstd::prelude::*;

use crate::text;

verus! {

/// Whether a character parts the components of a path, on one system or another.
pub open spec fn is_separator(c: char) -> bool {
    c == '/' || c == '\\'
}

/// Whether a path says where something is, whatever the current directory: it begins at a root,
/// or at the root of a drive.
pub open spec fn is_absolute(path: Seq<char>) -> bool {
    ||| path.len() > 0 && is_separator(path[0])
    ||| path.len() > 2 && text::is_letter(path[0]) && path[1] == ':' && is_separator(path[2])
}

/// A path as seen from a directory: an absolute one is taken as it is.
pub open spec fn full_path(path: Seq<char>, current: Seq<char>) -> Seq<char> {
    if is_absolute(path) {
        path
    } else {
        current + "/"@ + path
    }
}

/// Seen from an absolute directory every path is absolute.
pub proof fn lemma_full_path_absolute(path: Seq<char>, current: Seq<char>)
    requires
        is_absolute(current),
    ensures
        is_absolute(full_path(path, current)),
{
    let whole = current + "/"@ + path;
    assert forall|i: int| 0 <= i < current.len() implies #[trigger] whole[i] == current[i] by {}
}

fn make_absolute(path: &str, current: &str) -> (r: String)
    ensures
        r@ == full_path(path@, current@),
{
    let cs = text::chars_of(path);
    if cs.len() > 0 && (cs[0] == '/' || cs[0] == '\\') {
        return path.to_owned();
    }
    if cs.len() > 2 {
        let c = cs[0];
        let drive = ('a' <= c && c <= 'z') || ('A' <= c && c <= 'Z');
        if drive && cs[1] == ':' && (cs[2] == '/' || cs[2] == '\\') {
            return path.to_owned();
        }
    }
    text::concat3(current, "/", path)
}

/// Whether `r` is what a program was resolved to, or why there is none.
pub open spec fn is_resolved(
    r: Result<String, String>,
    custom: Option<(&str, &str, bool)>,
    found: Result<String, String>,
    current: Seq<char>,
) -> bool {
    match (custom, found) {
        (Some((path, shown, true)), _) => r is Ok && r->Ok_0@ == full_path(path@, current),
        (_, Ok(p)) => r is Ok && r->Ok_0@ == full_path(p@, current),
        (Some((path, shown, false)), Err(e)) => r is Err && r->Err_0@ == "PLEXUS_PNPM is set to "@
            + shown@ + " but it could not be used: "@ + e@,
        (None, Err(e)) => r is Err && r->Err_0@ == "could not find pnpm on PATH ("@ + e@
            + "). Install pnpm, or set PLEXUS_PNPM to the full path of the pnpm executable."@,
    }
}

/// The path of the program that is called, or why there is none. `custom` is the user's own
/// choice, where there is one: the path, how it is shown, and whether it is that of a file.
/// `found` is what looking that choice up led to, or looking up `pnpm` where there is none. A
/// path that is not absolute is taken from the directory `current`, so that it names the same
/// file from every directory in which a task runs.
pub fn resolve(
    custom: Option<(&str, &str, bool)>,
    found: &Result<String, String>,
    current: &str,
) -> (r: Result<String, String>)
    ensures
        is_resolved(r, custom, *found, current@),
        is_absolute(current@) ==> (r matches Ok(p) ==> is_absolute(p@)),
{
    proof {
        if is_absolute(current@) {
            if let Some((path, shown, is_file)) = custom {
                lemma_full_path_absolute(path@, current@);
            }
            if let Ok(p) = found {
                lemma_full_path_absolute(p@, current@);
            }
        }
    }
    match custom {
        Some((path, shown, is_file)) => {
            if is_file {
                return Ok(make_absolute(path, current));
            }
            match found {
                Ok(p) => Ok(make_absolute(p.as_str(), current)),
                Err(e) => {
                    let mut m = text::concat3(
                        "PLEXUS_PNPM is set to ",
                        shown,
                        " but it could not be used: ",
                    );
                    m.push_str(e.as_str());
                    Err(m)
                },
            }
        },
        None => match found {
            Ok(p) => Ok(make_absolute(p.as_str(), current)),
            Err(e) => Err(
                text::concat3(
                    "could not find pnpm on PATH (",
                    e.as_str(),
                    "). Install pnpm, or set PLEXUS_PNPM to the full path of the pnpm executable.",
                ),
            ),
        },
    }
}

/// The resolved path, or the message that explains why there is none. Where `resolved` was made
/// absolute, the path is.
pub fn pnpm(resolved: &Result<String, String>) -> (r: Result<&str, &str>)
    ensures
        match *resolved {
            Ok(p) => r is Ok && r->Ok_0@ == p@,
            Err(e) => r is Err && r->Err_0@ == e@,
        },
{
    match resolved {
        Ok(p) => Ok(p.as_str()),
        Err(e) => Err(e.as_str()),
    }
}

/// The program that was resolved first. It is resolved once: later lookups change nothing, and a
/// failure is remembered too.
pub struct PnpmBin {
    pub first: Option<Result<String, String>>,
}

impl PnpmBin {
    /// Nothing was looked up yet.
    pub fn new() -> (r: Self)
        ensures
            r.first is None,
    {
        PnpmBin { first: None }
    }

    /// What the program was resolved to: nothing where it still has to be looked up.
    pub fn known(&self) -> (r: Option<Result<&str, &str>>)
        ensures
            match self.first {
                Some(Ok(p)) => r matches Some(Ok(q)) && q@ == p@,
                Some(Err(e)) => r matches Some(Err(f)) && f@ == e@,
                None => r is None,
            },
    {
        match &self.first {
            Some(resolved) => Some(pnpm(resolved)),
            None => None,
        }
    }

    /// What a lookup led to. Only the first one counts.
    pub fn looked_up(
        &mut self,
        custom: Option<(&str, &str, bool)>,
        found: &Result<String, String>,
        current: &str,
    )
        ensures
            old(self).first is Some ==> *final(self) == *old(self),
            old(self).first is None ==> (final(self).first matches Some(r) && is_resolved(
                r,
                custom,
                *found,
                current@,
            ) && (is_absolute(current@) ==> (r matches Ok(p) ==> is_absolute(p@)))),
    {
        if self.first.is_none() {
            self.first = Some(resolve(custom, found, current));
        }
    }
}

/// What is printed before the program ends for want of pnpm.
pub fn missing_text(message: &str) -> (r: String)
    ensures
        r@ == "plexus: "@ + message@,
{
    text::concat("plexus: ", message)
}

} // verus!
