//! The program: its options, the projects it found and the tasks it runs.

use vstd::prelude::*;

use crate::app_state::AppState;
use crate::app_state::AppStateView;
use crate::cli::Cli;
use crate::pnpm::Pnpm;
use crate::pnpm::PnpmProjectView;
use crate::strmap::StrMap;

pub use crate::watch_manager::AppWatcher;
pub use crate::watch_manager::FileMatcher;

verus! {

/// A command of a project.
pub struct AppTask {
    /// The name of the project.
    pub name: String,
    pub command: String,
    /// Where the project is.
    pub path: String,
}

/// What an [`AppTask`] says.
#[verifier::ext_equal]
pub struct AppTaskView {
    pub name: Seq<char>,
    pub command: Seq<char>,
    pub path: Seq<char>,
}

impl View for AppTask {
    type V = AppTaskView;

    open spec fn view(&self) -> AppTaskView {
        AppTaskView { name: self.name@, command: self.command@, path: self.path@ }
    }
}

impl AppTask {
    /// A command of a project.
    pub fn new(name: String, command: String, path: String) -> (r: Self)
        ensures
            r@ == (AppTaskView { name: name@, command: command@, path: path@ }),
    {
        AppTask { name, command, path }
    }
}

/// What tasks say, by name.
pub open spec fn tasks_map(m: Map<Seq<char>, AppTask>) -> Map<Seq<char>, AppTaskView> {
    m.map_values(|t: AppTask| t@)
}

/// The program.
pub struct App {
    pub state: AppState,
    pub pnpm: Pnpm,
    pub cli: Cli,
    pub tasks: StrMap<AppTask>,
}

impl App {
    /// Nothing is told of twice, and of every task it is known how far it is and what it
    /// printed.
    pub open spec fn wf(&self) -> bool {
        &&& self.state.wf()
        &&& self.pnpm.wf()
        &&& self.tasks.wf()
        &&& forall|k: Seq<char>| #[trigger]
            self.tasks@.contains_key(k) ==> self.state@.statuses.contains_key(k)
                && self.state@.outputs.contains_key(k)
    }

    /// A program that has neither looked for projects nor taken in tasks. The terminal
    /// interface watches files and takes the place of the other interfaces.
    pub fn new(cli: Cli) -> (r: Self)
        ensures
            r.wf(),
            r.state@ == AppStateView::fresh(),
            r.pnpm.found() == Map::<Seq<char>, PnpmProjectView>::empty(),
            r.tasks@ == Map::<Seq<char>, AppTask>::empty(),
            r.cli == (if cli.tui {
                Cli { watch: true, console: false, web: false, log_console: false, ..cli }
            } else {
                cli
            }),
    {
        let mut cli = cli;
        cli.settle();
        App { state: AppState::new(), pnpm: Pnpm::new(), cli, tasks: StrMap::new() }
    }
}

} // verus!
