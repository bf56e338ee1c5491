//! The configuration, environment files and the projects of the workspace.

use plexus::cli::{
    config_source, config_target, prune_watches, sequential_limit, Cli, ConfigArgs, RunArgs,
    ShareArgs,
};
use plexus::config::{
    init_default_config, listed_projects, read_package_json, relative_path, Config, ConfigCommand,
    ConfigEnv, ConfigProject, ConfigWatch, OptionConfig, ProjectSource,
};
use plexus::env::{env_files, Env, EnvDir};
use plexus::json::parse;
use plexus::pnpm::{
    cache_name, get_file_sha256, hash_vec_strings, LoadStep, Loader, Pnpm, Project,
};
use plexus::pnpm_bin::{missing_text, pnpm, resolve, PnpmBin};
use plexus::strmap::StrMap;

fn strings(v: &[&str]) -> Vec<String> {
    v.iter().map(|s| s.to_string()).collect()
}

#[test]
fn variables_are_read_from_lines() {
    let env = Env::new().unwrap();
    let mut envs: StrMap<String> = StrMap::new();
    env.get_env_from_file(
        "# A=1\n  B = two words \nlower=3\n\nC=\nB2=x=y\r\n=z\nD\n1E=4\n_F=5",
        &mut envs,
    );
    assert_eq!(envs.get("B"), Some(&"two words".to_string()));
    assert_eq!(envs.get("C"), Some(&"".to_string()));
    assert_eq!(envs.get("B2"), Some(&"x=y".to_string()));
    assert_eq!(envs.get("_F"), Some(&"5".to_string()));
    assert_eq!(envs.len(), 4);
}

#[test]
fn the_file_that_is_read_later_wins() {
    let env = Env::new().unwrap();
    let envs = env.get_envs_with_specific(&vec![
        Some("A=1\nB=1".into()),
        None,
        Some("B=2".into()),
    ]);
    assert_eq!(envs.get("PLEXUS"), Some(&"1".to_string()));
    assert_eq!(envs.get("A"), Some(&"1".to_string()));
    assert_eq!(envs.get("B"), Some(&"2".to_string()));
}

#[test]
fn environment_files_have_an_order() {
    let names: Vec<(EnvDir, String)> =
        env_files(Some("dev")).into_iter().map(|f| (f.dir, f.name)).collect();
    let want = [".env.dev.local", ".env.dev", ".env.local", ".env"];
    for (i, w) in want.iter().enumerate() {
        assert_eq!(names[i], (EnvDir::Current, w.to_string()));
        assert_eq!(names[4 + i], (EnvDir::Task, w.to_string()));
    }
    assert_eq!(env_files(None).len(), 4);
}

#[test]
fn a_default_configuration_is_drawn_up() {
    let listing = parse(
        r#"[{"name":"root","path":"/w"},{"name":"web","path":"/w/web"},{"name":"lib","path":"/w/lib"}]"#,
    )
    .unwrap();
    let root = parse(r#"{"name":"root"}"#).unwrap();
    let listed = listed_projects(&root, &listing).unwrap();
    assert_eq!(listed.len(), 2);
    assert_eq!(listed[0].name, "web");
    assert_eq!(listed[0].path, "/w/web");
    assert!(listed_projects(&root, &root).is_none());
    let manifest = read_package_json(
        r#"{"scripts":{"build":"tsc","dev":"vite"},"dependencies":{"lib":"*","react":"1"},
            "devDependencies":{"lib":"*"}}"#,
    )
    .unwrap();
    let c = init_default_config(
        &listing,
        &vec![ProjectSource { name: "web".into(), path: "/w/web".into(), manifest }],
        "/w",
    );
    assert_eq!(c.projects[0].path, "web");
    assert_eq!(c.version, "1.0");
    assert_eq!(c.schema, "node_modules/plexus.schema.json");
    assert_eq!(c.projects.len(), 1);
    match &c.projects[0].depends_on {
        OptionConfig::List(v) => assert_eq!(v, &strings(&["lib"])),
        _ => panic!("no dependencies"),
    }
    let scripts: Vec<&String> = c.projects[0].commands.iter().map(|c| c.name()).collect();
    assert_eq!(scripts, vec!["build", "dev"]);
    assert!(read_package_json("{").is_none());
    assert_eq!(relative_path("/w/web", "/w"), "web");
    assert_eq!(relative_path("/x/web", "/w"), "/x/web");
}

#[test]
fn stored_paths_have_forward_slashes() {
    assert_eq!(relative_path("C:\\repo\\packages\\web", "C:\\repo"), "packages/web");
    assert_eq!(relative_path("C:/repo/packages/web", "C:\\repo"), "packages/web");
    assert_eq!(relative_path("C:/repo/web/", "C:/"), "repo/web");
    assert_eq!(relative_path("C:/repo", "C:/repo"), "");
    assert_eq!(relative_path("C:\\repo2\\web", "C:\\repo"), "C:/repo2/web");
    assert_eq!(relative_path("D:\\repo\\web", "C:\\repo"), "D:/repo/web");
    assert_eq!(relative_path("/home/a:b/web", "/home/a:b"), "web");
    let c = init_default_config(
        &parse("[]").unwrap(),
        &vec![ProjectSource {
            name: "web".into(),
            path: "C:\\repo\\packages\\web".into(),
            manifest: parse("{}").unwrap(),
        }],
        "C:\\repo",
    );
    assert_eq!(c.projects[0].path, "packages/web");
}

fn watch(path: Option<&str>) -> ConfigWatch {
    ConfigWatch {
        path: path.map(|p| p.to_string()),
        includes: None,
        exclude: None,
        disable_default_exclude: None,
        default_exclude: vec!["x".into()],
    }
}

fn project(name: &str, watches: Option<Vec<ConfigWatch>>) -> ConfigProject {
    ConfigProject {
        name: name.into(),
        path: name.into(),
        depends_on: OptionConfig::Absent(false),
        watches,
        commands: vec![ConfigCommand::Simple("x".into())],
        envs: None,
    }
}

#[test]
fn watches_that_say_nothing_are_left_out() {
    let mut c = Config {
        schema: "s".into(),
        version: "1.0".into(),
        projects: vec![
            project("a", Some(vec![watch(None)])),
            project("b", Some(vec![watch(None), watch(Some("p"))])),
            project("c", Some(vec![])),
            project("d", None),
        ],
        envs: None,
    };
    c.projects[0].envs = Some(ConfigEnv { key: "K".into(), value: "v".into() });
    c.projects[0].depends_on = OptionConfig::Absent(true);
    c.projects[2].depends_on = OptionConfig::List(strings(&["d"]));
    prune_watches(&mut c);
    assert!(matches!(&c.projects[0].envs, Some(e) if e.key == "K" && e.value == "v"));
    assert!(matches!(c.projects[0].depends_on, OptionConfig::Absent(true)));
    assert!(matches!(&c.projects[2].depends_on, OptionConfig::List(v) if v == &strings(&["d"])));
    assert!(c.projects[0].watches.is_none());
    assert_eq!(c.projects[1].watches.as_ref().unwrap().len(), 2);
    assert!(c.projects[2].watches.is_none());
    assert!(c.projects[3].watches.is_none());
}

fn run_args(sequential: bool, commands: &[&str], config_path: Option<&str>) -> RunArgs {
    RunArgs {
        run_share: ShareArgs { cwd: None },
        show_colors: false,
        tui: false,
        config_path: config_path.map(|s| s.to_string()),
        log_level: None,
        log_file: None,
        compact: false,
        filter: vec![],
        commands: strings(commands),
        watch: false,
        sequential,
        watch_ignore: vec![],
        build_depends_on: false,
    }
}

#[test]
fn options_are_made_use_of() {
    assert_eq!(sequential_limit(&run_args(false, &["a", "b"], None)), -1);
    assert_eq!(sequential_limit(&run_args(true, &["a", "b"], None)), 2);
    let many: Vec<&str> = vec!["a"; 200];
    assert_eq!(sequential_limit(&run_args(true, &many, None)), -56);
    assert_eq!(config_source(&run_args(false, &[], Some("p"))), "p");
    assert_eq!(config_source(&run_args(false, &[], None)), "plexus.json");
    let mut args = ConfigArgs {
        config_file: None,
        share: ShareArgs { cwd: None },
        show: false,
        generate: true,
        add: false,
    };
    assert_eq!(config_target(&args), "plexus.json");
    args.config_file = Some("x.json".into());
    assert_eq!(config_target(&args), "x.json");
}

#[test]
fn the_terminal_interface_takes_over() {
    let mut cli = Cli {
        tui: true,
        console: true,
        web: true,
        verbose: true,
        log_file: None,
        log_console: true,
        compact: true,
        filter: vec![],
        commands: vec![],
        watch: false,
        watch_ignore: vec![],
        show_all_dependencies: false,
    };
    cli.settle();
    assert!(cli.watch && !cli.console && !cli.web && !cli.log_console);
    assert!(cli.verbose && cli.compact);
    let mut args = run_args(false, &["a"], None);
    args.settle();
    assert!(!args.watch);
    args.tui = true;
    args.settle();
    assert!(args.watch && args.tui);
    let mut args = run_args(false, &["a"], None);
    args.watch = true;
    args.settle();
    assert!(args.watch && !args.tui);
}

#[test]
fn projects_are_found_with_what_they_need() {
    let mut l = Loader::new(Pnpm::new());
    let listing = parse(
        r#"[{"name":"web","path":"/w/web",
            "dependencies":{"lib":{"from":"lib","version":"link:../lib"},
                            "react":{"from":"react","version":"18.0.0"},
                            "odd":{"from":"odd","version":"link:../node_modules/odd"}},
            "devDependencies":{"tool":{"from":"tool","version":"link:../tool"}}}]"#,
    )
    .unwrap();
    match l.listed(listing) {
        LoadStep::Read(p) => assert_eq!(p, "/w/web"),
        _ => panic!("nothing to read"),
    }
    match l.load_projects(&parse(r#"{"scripts":{"dev":"x","build":"y"}}"#).unwrap()) {
        LoadStep::List(v) => assert_eq!(v, strings(&["lib", "tool"])),
        _ => panic!("nothing to list"),
    }
    let listing = parse(r#"[{"name":"lib","path":"/w/lib"},{"name":"tool","path":"/w/tool"}]"#);
    assert!(matches!(l.listed(listing.unwrap()), LoadStep::Read(p) if p == "/w/lib"));
    assert!(matches!(l.load_projects(&parse("{}").unwrap()), LoadStep::Read(p) if p == "/w/tool"));
    assert!(matches!(l.load_projects(&parse("{}").unwrap()), LoadStep::Done));
    let web = l.found.projects().get("web").unwrap();
    assert_eq!(web.name(), "web");
    assert_eq!(web.path(), "/w/web");
    assert_eq!(web.deps().to_vec(), strings(&["lib", "tool"]));
    let mut scripts = web.scripts().to_vec();
    scripts.sort();
    assert_eq!(scripts, strings(&["build", "dev"]));
    assert!(matches!(
        Loader::new(Pnpm::default()).listed(parse("{}").unwrap()),
        LoadStep::Done
    ));
}

#[test]
fn projects_are_read_from_what_is_printed() {
    let mut l = Loader::new(Pnpm::new());
    assert!(l.listed_text("not json").is_none());
    let listing = r#"[{"name":"web","path":"/w/web"}]"#;
    assert!(matches!(l.listed_text(listing), Some(LoadStep::Read(p)) if p == "/w/web"));
    assert!(l.load_projects_text("{").is_none());
    assert_eq!(l.found.projects().len(), 0);
    assert!(matches!(l.load_projects_text(r#"{"scripts":{"a":""}}"#), Some(LoadStep::Done)));
    assert_eq!(l.found.projects().get("web").unwrap().scripts().to_vec(), strings(&["a"]));
}

#[test]
fn lookups_do_not_nest_for_ever() {
    let mut l = Loader::new(Pnpm::new());
    let manifest = parse("{}").unwrap();
    for n in 0..11 {
        let listing = format!(
            r#"[{{"name":"p{}","path":"/w","dependencies":{{"p":{{"from":"p{}","version":"link:p"}}}}}}]"#,
            n,
            n + 1
        );
        assert!(matches!(l.listed(parse(&listing).unwrap()), LoadStep::Read(_)));
        assert!(!l.too_deep);
        let next = l.load_projects(&manifest);
        if n < 10 {
            assert!(matches!(next, LoadStep::List(v) if v == vec![format!("p{}", n + 1)]));
            assert!(!l.too_deep);
        } else {
            assert!(matches!(next, LoadStep::Done));
            assert!(l.too_deep);
        }
    }
    assert_eq!(l.found.projects().len(), 11);
}

#[test]
fn cached_projects_are_taken_over() {
    let mut p = Pnpm::new();
    p.add_cached(vec![
        Project::new("a".into(), "/a".into(), strings(&["b"]), vec![]),
        Project::new("a".into(), "/a2".into(), strings(&["b", "c"]), vec![]),
    ]);
    assert_eq!(p.projects().len(), 1);
    let a = p.projects().get("a").unwrap().clone();
    assert_eq!(a.path(), "/a2");
    p.add_project(Project::new("c".into(), "/c".into(), vec![], vec![]));
    assert_eq!(p.missing_deps(&a), strings(&["b"]));
    for name in ["a", "c"] {
        assert_eq!(p.projects().get(name).unwrap().name(), name);
    }
}

#[test]
fn digests_are_known() {
    assert_eq!(
        get_file_sha256(&b"abc".to_vec()),
        "ba7816bf8f01cfea414140de5dae2223b00361a396177a9cb410ff61f20015ad"
    );
    assert_eq!(hash_vec_strings(&strings(&["a", "bc"])), get_file_sha256(&b"abc".to_vec()));
    assert_eq!(hash_vec_strings(&strings(&["ab", "c"])), hash_vec_strings(&strings(&["a", "bc"])));
    assert_eq!(cache_name(&strings(&["a"]), "bc"), get_file_sha256(&b"abc".to_vec()));
    assert_eq!(
        get_file_sha256(&vec![]),
        "e3b0c44298fc1c149afbf4c8996fb92427ae41e4649b934ca495991b7852b855"
    );
}

#[test]
fn the_package_manager_is_found() {
    let found = Ok("/bin/pnpm".to_string());
    let missing = Err("no such file".to_string());
    assert_eq!(resolve(Some(("/x", "\"/x\"", true)), &missing, "/w"), Ok("/x".to_string()));
    assert_eq!(resolve(Some(("/x", "\"/x\"", false)), &found, "/w"), Ok("/bin/pnpm".to_string()));
    assert_eq!(resolve(None, &found, "/w"), Ok("/bin/pnpm".to_string()));
    assert_eq!(
        resolve(Some(("/x", "\"/x\"", false)), &missing, "/w"),
        Err("PLEXUS_PNPM is set to \"/x\" but it could not be used: no such file".to_string())
    );
    let e = resolve(None, &missing, "/w");
    assert_eq!(
        pnpm(&e),
        Err("could not find pnpm on PATH (no such file). Install pnpm, or set PLEXUS_PNPM to the full path of the pnpm executable.")
    );
    assert_eq!(pnpm(&found), Ok("/bin/pnpm"));
    assert_eq!(missing_text("x"), "plexus: x");
}

#[test]
fn the_package_manager_is_known_by_an_absolute_path() {
    let missing = Err("no such file".to_string());
    let of = |path: &str| resolve(Some((path, "", true)), &missing, "/w").unwrap();
    assert_eq!(of("tools/pnpm"), "/w/tools/pnpm");
    assert_eq!(of("./pnpm"), "/w/./pnpm");
    assert_eq!(of("/opt/pnpm"), "/opt/pnpm");
    assert_eq!(of("C:\\bin\\pnpm.cmd"), "C:\\bin\\pnpm.cmd");
    assert_eq!(of("c:pnpm"), "/w/c:pnpm");
    let mut bin = PnpmBin::new();
    assert_eq!(bin.known(), None);
    bin.looked_up(None, &missing, "/w");
    let first = bin.known().unwrap().unwrap_err().to_string();
    bin.looked_up(None, &Ok("/bin/pnpm".to_string()), "/w");
    assert_eq!(bin.known(), Some(Err(first.as_str())));
    let mut bin = PnpmBin::new();
    bin.looked_up(None, &Ok("/bin/pnpm".to_string()), "/w");
    bin.looked_up(None, &missing, "/w");
    assert_eq!(bin.known(), Some(Ok("/bin/pnpm")));
    let near = Ok("bin/pnpm".to_string());
    assert_eq!(pnpm(&resolve(None, &near, "/w")), Ok("/w/bin/pnpm"));
}
