//! What the program can be told on the command line, and what it makes of it.

use vstd::prelude::*;

use crate::config::Config;
use crate::config::ConfigProject;
use crate::config::ConfigWatch;
use crate::config::ConfigWatchView;
use crate::config::ProjectView;
use crate::config::projects_view;

verus! {

/// The options of a plain call.
pub struct Cli {
    pub tui: bool,
    pub console: bool,
    pub web: bool,
    pub verbose: bool,
    pub log_file: Option<String>,
    pub log_console: bool,
    pub compact: bool,
    pub filter: Vec<String>,
    pub commands: Vec<String>,
    pub watch: bool,
    pub watch_ignore: Vec<String>,
    pub show_all_dependencies: bool,
}

/// A call with a subcommand.
pub struct NewCli {
    pub command: Commands,
}

/// The subcommands.
pub enum Commands {
    Run(RunArgs),
    Config(ConfigArgs),
    PrintSchema(PrintSchemaArgs),
}

/// What several subcommands can be told.
pub struct ShareArgs {
    pub cwd: Option<String>,
}

/// What `print-schema` can be told.
pub struct PrintSchemaArgs {
    pub output: Option<String>,
}

/// What `run` can be told.
pub struct RunArgs {
    pub run_share: ShareArgs,
    pub show_colors: bool,
    pub tui: bool,
    pub config_path: Option<String>,
    pub log_level: Option<String>,
    pub log_file: Option<String>,
    pub compact: bool,
    pub filter: Vec<String>,
    pub commands: Vec<String>,
    pub watch: bool,
    pub sequential: bool,
    pub watch_ignore: Vec<String>,
    pub build_depends_on: bool,
}

/// What `config` can be told.
pub struct ConfigArgs {
    pub config_file: Option<String>,
    pub share: ShareArgs,
    pub show: bool,
    pub generate: bool,
    pub add: bool,
}

impl Cli {
    /// The terminal interface watches files and takes the place of the other interfaces.
    pub fn settle(&mut self)
        ensures
            *final(self) == (if old(self).tui {
                Cli { watch: true, console: false, web: false, log_console: false, ..*old(self) }
            } else {
                *old(self)
            }),
    {
        if self.tui {
            self.watch = true;
            self.console = false;
            self.web = false;
            self.log_console = false;
        }
    }
}

impl RunArgs {
    /// The terminal interface watches files.
    pub fn settle(&mut self)
        ensures
            *final(self) == (RunArgs { watch: old(self).watch || old(self).tui, ..*old(self) }),
    {
        if self.tui {
            self.watch = true;
        }
    }
}

/// Up to which place commands are run one after the other: -1 where all run at once. The
/// number of commands is told as a signed byte, as it wraps round.
pub fn sequential_limit(args: &RunArgs) -> (r: i8)
    ensures
        r == (if args.sequential {
            (args.commands@.len() as usize) as i8
        } else {
            -1i8
        }),
{
    if args.sequential {
        args.commands.len() as i8
    } else {
        -1
    }
}

/// The file that the configuration is read from, where there is such a file: the one that was
/// given, or `plexus.json` where the program runs. Where there is none a configuration is drawn
/// up.
pub fn config_source(args: &RunArgs) -> (r: String)
    ensures
        r@ == (match args.config_path {
            Some(f) => f@,
            None => "plexus.json"@,
        }),
{
    match &args.config_path {
        Some(f) => f.clone(),
        None => "plexus.json".to_owned(),
    }
}

/// The file that a drawn-up configuration is written to.
pub fn config_target(args: &ConfigArgs) -> (r: String)
    ensures
        r@ == (match args.config_file {
            Some(f) => f@,
            None => "plexus.json"@,
        }),
{
    match &args.config_file {
        Some(f) => f.clone(),
        None => "plexus.json".to_owned(),
    }
}

/// Whether one of the watches says something.
pub open spec fn says_something(watches: Seq<ConfigWatchView>) -> bool {
    exists|i: int|
        0 <= i < watches.len() && ((#[trigger] watches[i]).path is Some || watches[i].includes
            is Some || watches[i].exclude is Some)
}

/// A project without watches that say nothing.
pub open spec fn without_empty_watches(p: ProjectView) -> ProjectView {
    match p.watches {
        Some(w) => if says_something(w) {
            p
        } else {
            ProjectView { watches: None, ..p }
        },
        None => p,
    }
}

/// Whether a project is another one but for its watches.
pub open spec fn only_watches_differ(a: ConfigProject, b: ConfigProject) -> bool {
    a == (ConfigProject { watches: a.watches, ..b })
}

fn any_says(watches: &Vec<ConfigWatch>) -> (r: bool)
    ensures
        r == says_something(watches@.map_values(|x: ConfigWatch| x@)),
{
    let ghost all = watches@.map_values(|x: ConfigWatch| x@);
    let mut i: usize = 0;
    while i < watches.len()
        invariant
            i <= watches@.len(),
            all == watches@.map_values(|x: ConfigWatch| x@),
            forall|k: int|
                0 <= k < i ==> !((#[trigger] all[k]).path is Some || all[k].includes is Some
                    || all[k].exclude is Some),
        decreases watches@.len() - i,
    {
        let w = &watches[i];
        assert(all[i as int] == w@);
        if w.path.is_some() || w.includes.is_some() || w.exclude.is_some() {
            return true;
        }
        i += 1;
    }
    false
}

/// Leaves watches that say nothing out of a configuration that is to be written.
pub fn prune_watches(config: &mut Config)
    ensures
        final(config).schema == old(config).schema,
        final(config).version == old(config).version,
        final(config).envs == old(config).envs,
        projects_view(final(config).projects@) == projects_view(
            old(config).projects@,
        ).map_values(|p: ProjectView| without_empty_watches(p)),
        forall|i: int|
            0 <= i < old(config).projects@.len() ==> only_watches_differ(
                #[trigger] final(config).projects@[i],
                old(config).projects@[i],
            ),
{
    let ghost before = projects_view(config.projects@);
    let ghost want = before.map_values(|p: ProjectView| without_empty_watches(p));
    let mut i: usize = 0;
    while i < config.projects.len()
        invariant
            i <= config.projects@.len(),
            before == projects_view(old(config).projects@),
            want == before.map_values(|p: ProjectView| without_empty_watches(p)),
            config.schema == old(config).schema,
            config.version == old(config).version,
            config.envs == old(config).envs,
            config.projects@.len() == before.len(),
            old(config).projects@.len() == before.len(),
            forall|k: int|
                0 <= k < before.len() ==> only_watches_differ(
                    #[trigger] config.projects@[k],
                    old(config).projects@[k],
                ),
            forall|k: int| 0 <= k < i ==> (#[trigger] config.projects@[k])@ == want[k],
            forall|k: int|
                i <= k < before.len() ==> (#[trigger] config.projects@[k])@ == before[k],
        decreases config.projects@.len() - i,
    {
        let keep = match &config.projects[i].watches {
            Some(w) => any_says(w),
            None => true,
        };
        assert(config.projects@[i as int]@ == before[i as int]);
        if !keep {
            config.projects[i].watches = None;
        }
        assert(config.projects@[i as int]@ == want[i as int]);
        i += 1;
    }
    assert(projects_view(config.projects@) =~= want);
}

} // verus!
