//! Which changed files of a project are told of.

use vstd::prelude::*;

use crate::classic::share::AppEvent;
use crate::classic::share::AppEventView;
use crate::classic::share::FileChangedEvent;
use crate::globs::GlobError;
use crate::globs::always_built;
use crate::globs::pattern_valid;
use crate::globs::portable;
use crate::globs::valid_until;
use crate::text;
use crate::watch_manager::AppWatcher;
use crate::watch_manager::all_alike;
use crate::watch_manager::all_normalized;
use crate::watch_manager::may_be_concerned;
use crate::watch_manager::surely_concerned;
use crate::watch_manager::watch_step1;
use crate::watch_manager::watcher_of;

pub use crate::watch_manager::FileMatcher;
pub use crate::watch_manager::get_excludes;
pub use crate::watch_manager::get_includes;
pub use crate::watch_manager::get_project_info;
pub use crate::watch_manager::get_refrences;
pub use crate::watch_manager::normalize_pattern;

verus! {

/// A project whose files are watched.
pub struct ProjectWatcher {
    pub watcher: AppWatcher,
}

/// What the watcher knows of how a file changed.
#[derive(Debug, Clone, Copy, PartialEq, Eq, Structural)]
pub enum FileEvent {
    Create,
    Modify,
    Remove,
    /// It was read, or it is not known what happened.
    Other,
}

impl ProjectWatcher {
    /// Watches a project. Where its `tsconfig.json` names no files, all of them concern it.
    pub fn new(name: &str, path: &str, includes: &Vec<String>, excludes: &Vec<String>) -> (r:
        Result<Self, GlobError>)
        ensures
            ({
                let inc = text::texts(includes@);
                let exc = text::texts(excludes@);
                &&& r matches Ok(p) ==> watcher_of(p.watcher, name@, path@, inc, exc)
                &&& always_built(all_normalized(inc)) && always_built(all_normalized(exc)) ==> r is Ok
                &&& portable(all_normalized(inc)) && portable(all_normalized(exc)) ==> match r {
                    Err(GlobError::InvalidPattern(p)) => !pattern_valid(p@),
                    _ => valid_until(all_normalized(inc), inc.len() as int) && (r is Ok
                        ==> valid_until(all_normalized(exc), exc.len() as int)),
                }
            }),
    {
        let none: Vec<String> = Vec::new();
        assert(text::texts(excludes@) + text::texts(none@) =~= text::texts(excludes@));
        match watch_step1(name, path, includes, excludes, &none) {
            Ok(watcher) => Ok(ProjectWatcher { watcher }),
            Err(e) => Err(e),
        }
    }

    /// What is sent of a change, once no other has come for a while: nothing where no file was
    /// made, changed or removed, and nothing where none of them concerns the project.
    pub fn start(&self, kind: FileEvent, paths: &Vec<String>) -> (r: Option<AppEvent>)
        ensures
            r matches Some(e) ==> e@ == (AppEventView::FileChanged {
                task_name: self.watcher.name@,
                paths: text::texts(paths@),
            }),
            kind is Other ==> r is None,
            !(kind is Other) && surely_concerned(self.watcher, text::texts(paths@)) ==> r is Some,
            r is Some ==> may_be_concerned(self.watcher, text::texts(paths@)),
            self.watcher.glob_set is None ==> (r is Some <==> !(kind is Other)),
            self.watcher.glob_set matches Some(m) ==> (m.is_portable() && all_alike(
                text::texts(paths@),
                m.project_root@,
            ) && !(kind is Other) ==> (r is Some <==> exists|i: int|
                0 <= i < paths@.len() && m.watches(#[trigger] text::texts(paths@)[i]))),
    {
        if kind == FileEvent::Other {
            return None;
        }
        if !self.watcher.concerns(paths) {
            return None;
        }
        Some(
            AppEvent::FileChanged(
                FileChangedEvent {
                    task_name: self.watcher.name.clone(),
                    paths: text::clone_texts(paths),
                },
            ),
        )
    }
}

} // verus!
