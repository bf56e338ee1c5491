//! The task manager: loading, changed files, starting and stopping.

use plexus::config::{Config, ConfigCommand, ConfigProject, ConfigWatch, OptionConfig};
use plexus::strmap::StrMap;
use plexus::task_loading::{plan_tasks, LoadError};
use plexus::task_managerv2::{
    package_names, LoopStep, StopStep, TaskManager, TaskStatus, SETTLE_TIME, STOP_TIMEOUT,
};

fn project(name: &str, depends_on: &[&str], commands: &[&str]) -> ConfigProject {
    ConfigProject {
        name: name.into(),
        path: format!("/w/{}", name),
        depends_on: if depends_on.is_empty() {
            OptionConfig::Absent(false)
        } else {
            OptionConfig::List(depends_on.iter().map(|s| s.to_string()).collect())
        },
        watches: None,
        commands: commands.iter().map(|c| ConfigCommand::Simple(c.to_string())).collect(),
        envs: None,
    }
}

fn config(projects: Vec<ConfigProject>) -> Config {
    Config { schema: "s".into(), version: "1.0".into(), projects, envs: None }
}

fn strings(v: &[&str]) -> Vec<String> {
    v.iter().map(|s| s.to_string()).collect()
}

fn loaded(c: &Config, filters: &[&str], commands: &[&str], depends: bool) -> TaskManager {
    let mut m = TaskManager::new(false, depends, None);
    let packages: StrMap<Vec<String>> = StrMap::new();
    let r = m.load_tasks(c, &strings(filters), &strings(commands), &packages);
    assert!(r.is_ok());
    m
}

fn id_of(m: &TaskManager, name: &str) -> String {
    m.get_store().get_all_tasks().iter().find(|t| t._name == name).unwrap()._id.clone()
}

fn command_of(m: &TaskManager, name: &str) -> String {
    let tasks = m.get_store().get_all_tasks();
    tasks.iter().find(|t| t._name == name).unwrap()._commands[0]._id.clone()
}

#[test]
fn dependencies_are_loaded_before_what_needs_them() {
    let c = config(vec![
        project("web", &["ui", "lib"], &["build"]),
        project("ui", &["lib"], &["build"]),
        project("lib", &[], &["build"]),
        project("docs", &[], &["lint"]),
    ]);
    let m = loaded(&c, &["web", "docs"], &["build"], false);
    let names: Vec<String> =
        m.get_store().get_all_tasks().iter().map(|t| t._name.clone()).collect();
    assert_eq!(names, vec!["lib", "ui", "web"]);
    let web = m.get_store().get_task(&id_of(&m, "web"));
    let mut children = web._children_id.unwrap();
    children.sort();
    let mut want = vec![id_of(&m, "ui"), id_of(&m, "lib")];
    want.sort();
    assert_eq!(children, want);
    assert!(m.get_store().knows_all_children());
    assert!(!m.is_loading());
}

#[test]
fn circles_are_refused() {
    let c = config(vec![project("a", &["b"], &["x"]), project("b", &["a"], &["x"])]);
    let mut m = TaskManager::new(false, false, None);
    let packages: StrMap<Vec<String>> = StrMap::new();
    let r = m.load_tasks(&c, &strings(&["a"]), &strings(&["x"]), &packages);
    assert!(matches!(r, Err(LoadError::TooDeep)));
    assert!(m.get_store().get_all_tasks().is_empty());
    assert!(m.is_loading());
}

#[test]
fn unknown_filters_are_looked_up() {
    let c = config(vec![project("a", &[], &["x"])]);
    let mut m = TaskManager::new(false, false, None);
    let mut packages: StrMap<Vec<String>> = StrMap::new();
    let r = m.load_tasks(&c, &strings(&["./pkg"]), &strings(&["x"]), &packages);
    assert!(matches!(r, Err(LoadError::NeedPackages(f)) if f == "./pkg"));
    packages.insert("./pkg".into(), strings(&["a"]));
    assert!(m.load_tasks(&c, &strings(&["./pkg"]), &strings(&["x"]), &packages).is_ok());
    assert_eq!(m.get_store().get_all_tasks().len(), 1);
    packages.insert("./none".into(), strings(&["zzz"]));
    let r = plan_tasks(&c.projects, &strings(&["./none"]), &strings(&["x"]), &packages, &vec![]);
    assert!(matches!(r, Err(LoadError::UnknownProject(p)) if p == "zzz"));
}

#[test]
fn package_names_are_read_from_a_listing() {
    assert_eq!(package_names(r#"[{"name":"a"},{"path":"x"},{"name":"@s/b"}]"#), vec!["a", "@s/b"]);
    assert!(package_names("{}").is_empty());
    assert!(package_names("nothing").is_empty());
}

#[test]
fn watches_come_from_the_configuration() {
    let mut p = project("a", &[], &["x"]);
    p.watches = Some(vec![
        ConfigWatch {
            path: None,
            includes: Some(strings(&["src"])),
            exclude: None,
            disable_default_exclude: None,
            default_exclude: vec![],
        },
        ConfigWatch {
            path: None,
            includes: Some(strings(&["lib"])),
            exclude: Some(strings(&["dist"])),
            disable_default_exclude: None,
            default_exclude: vec![],
        },
    ]);
    let c = config(vec![p, project("b", &[], &["x"])]);
    let m = loaded(&c, &["a", "b"], &["x"], false);
    let data = m.get_watch_data();
    assert_eq!(data[0].includes, vec!["src", "lib"]);
    assert_eq!(data[0].excludes, vec!["dist"]);
    assert!(!data[0].use_default_watch_ignore);
    assert!(data[1].use_default_watch_ignore);
    assert_eq!(data[1].task_path, "/w/b");
}

#[test]
fn a_changed_file_resets_the_task_and_what_depends_on_it() {
    let c = config(vec![
        project("web", &["lib"], &["build"]),
        project("lib", &[], &["build"]),
        project("other", &[], &["build"]),
    ]);
    for depends in [false, true] {
        let mut m = loaded(&c, &["web", "other"], &["build"], depends);
        for name in ["web", "lib", "other"] {
            let id = command_of(&m, name);
            m._store.set_status(&id, TaskStatus::Successed);
        }
        let lib = id_of(&m, "lib");
        m.file_changed(&lib);
        let store = m.get_store();
        assert!(store.get_status(&command_of(&m, "lib")).is_init());
        assert_eq!(store.get_status(&command_of(&m, "web")).is_init(), depends);
        assert!(store.get_status(&command_of(&m, "other")).is_successed());
    }
}

#[test]
fn only_the_named_commands_are_reset() {
    let c = config(vec![project("lib", &[], &["build", "dev"])]);
    let mut m = TaskManager::new(false, true, Some(strings(&["build"])));
    let packages: StrMap<Vec<String>> = StrMap::new();
    assert!(m.load_tasks(&c, &strings(&["lib"]), &strings(&["build", "dev"]), &packages).is_ok());
    let task = m.get_store().get_all_tasks().remove(0);
    for cmd in &task._commands {
        m._store.set_status(&cmd._id, TaskStatus::Failed);
    }
    m.file_changed(&task._id);
    assert!(m.get_store().get_status(&task._commands[0]._id).is_init());
    assert!(m.get_store().get_status(&task._commands[1]._id).is_failed());
}

#[test]
fn a_running_command_is_not_reset() {
    let c = config(vec![project("lib", &[], &["build"])]);
    let mut m = loaded(&c, &["lib"], &["build"], false);
    let cmd = command_of(&m, "lib");
    m._store.set_status(&cmd, TaskStatus::Running);
    let id = id_of(&m, "lib");
    m.file_changed(&id);
    assert!(m.get_store().get_status(&cmd).is_running());
}

#[test]
fn stopping_waits_for_the_command() {
    let c = config(vec![project("lib", &[], &["build"])]);
    let mut m = loaded(&c, &["lib"], &["build"], false);
    let (task, cmd) = (id_of(&m, "lib"), command_of(&m, "lib"));
    assert!(matches!(m.stop_command(&task, &cmd, false), StopStep::Done(false)));
    m._store.set_status(&cmd, TaskStatus::Running);
    assert!(matches!(m.stop_command(&task, &cmd, false), StopStep::Wait));
    assert!(m.get_store().get_status(&cmd).is_stopping());
    assert!(matches!(m.stop_progress(&cmd, 10), StopStep::Wait));
    assert!(matches!(m.stop_progress(&cmd, STOP_TIMEOUT + 1), StopStep::Done(false)));
    m._store.set_status(&cmd, TaskStatus::Stopped);
    assert!(matches!(m.stop_progress(&cmd, 10), StopStep::Done(true)));
    assert!(!m.start_command(&task, &cmd, false));
    assert!(m.get_store().get_status(&cmd).is_init());
    m._store.set_status(&cmd, TaskStatus::Running);
    m.start_command(&task, &cmd, false);
    assert!(m.get_store().get_status(&cmd).is_running());
    m.start_command(&task, &cmd, true);
    assert!(m.get_store().get_status(&cmd).is_init());
    assert!(matches!(m.stop_command(&task, &cmd, true), StopStep::Wait));
}

#[test]
fn a_restart_stops_before_it_starts() {
    let c = config(vec![project("lib", &[], &["build"])]);
    let mut m = loaded(&c, &["lib"], &["build"], false);
    let (task, cmd) = (id_of(&m, "lib"), command_of(&m, "lib"));
    m._store.set_status(&cmd, TaskStatus::Successed);
    assert!(matches!(m.restart_command(&task, &cmd, false, None), StopStep::Done(false)));
    assert!(m.get_store().get_status(&cmd).is_init());
    m._store.set_status(&cmd, TaskStatus::Running);
    assert!(matches!(m.restart_command(&task, &cmd, false, None), StopStep::Wait));
    assert!(m.get_store().get_status(&cmd).is_stopping());
    assert!(matches!(m.restart_command(&task, &cmd, false, Some(10)), StopStep::Wait));
    assert!(m.get_store().get_status(&cmd).is_stopping());
    let late = Some(STOP_TIMEOUT + 1);
    assert!(matches!(m.restart_command(&task, &cmd, false, late), StopStep::Done(false)));
    assert!(m.get_store().get_status(&cmd).is_stopping());
    m._store.set_status(&cmd, TaskStatus::Stopped);
    assert!(matches!(m.restart_command(&task, &cmd, false, Some(10)), StopStep::Done(true)));
    assert!(m.get_store().get_status(&cmd).is_init());
}

#[test]
fn a_run_ends_when_all_is_done() {
    let c = config(vec![project("web", &["lib"], &["build"]), project("lib", &[], &["build"])]);
    let mut m = loaded(&c, &["web"], &["build"], false);
    let (lib, web) = (command_of(&m, "lib"), command_of(&m, "web"));
    match m.main_loop(false, -1, 0) {
        LoopStep::Run(v) => assert_eq!(v.iter().map(|c| &c._id).collect::<Vec<_>>(), vec![&lib]),
        _ => panic!("nothing to run"),
    }
    assert!(m.get_store().get_status(&lib).is_starting());
    assert!(matches!(m.main_loop(false, -1, 0), LoopStep::Run(v) if v.is_empty()));
    m._store.set_status(&lib, TaskStatus::Successed);
    assert!(matches!(m.main_loop(false, -1, 0), LoopStep::Run(v) if v[0]._id == web));
    m._store.set_status(&web, TaskStatus::Successed);
    assert!(matches!(m.main_loop(false, -1, 0), LoopStep::Exit(true)));
    assert!(!m._is_running);
}

#[test]
fn a_failure_ends_a_run_that_does_not_watch() {
    let c = config(vec![project("web", &["lib"], &["build"]), project("lib", &[], &["build"])]);
    let mut m = loaded(&c, &["web"], &["build"], false);
    let lib = command_of(&m, "lib");
    m._store.set_status(&lib, TaskStatus::Failed);
    assert!(matches!(m.main_loop(false, -1, 0), LoopStep::Exit(false)));
    let mut m = loaded(&c, &["web"], &["build"], false);
    let lib = command_of(&m, "lib");
    m._store.set_status(&lib, TaskStatus::Failed);
    assert!(matches!(m.main_loop(true, -1, 0), LoopStep::Run(_)));
    assert!(!m.is_watch_mode());
    assert!(matches!(m.main_loop(true, -1, SETTLE_TIME + 1), LoopStep::Run(_)));
    assert!(m.is_watch_mode());
}

#[test]
fn a_run_that_ends_looks_for_no_children() {
    let c = config(vec![project("lib", &[], &["dev"])]);
    let mut m = loaded(&c, &["lib"], &["dev"], false);
    let cmd = command_of(&m, "lib");
    m._store._tasks[0]._children_id = Some(strings(&["gone"]));
    assert!(!m.get_store().knows_all_children());
    assert_eq!(m.ends(false), None);
    m._store.set_status(&cmd, TaskStatus::Successed);
    assert_eq!(m.ends(true), None);
    assert_eq!(m.ends(false), Some(true));
    assert!(matches!(m.main_loop(false, -1, 0), LoopStep::Exit(true)));
    assert_eq!(m.ends(true), Some(true));
}

#[test]
fn loaded_tasks_have_ids_of_one_length() {
    let c = config(vec![project("web", &["lib"], &["dev"]), project("lib", &[], &["dev"])]);
    let m = loaded(&c, &["web"], &["dev"], false);
    assert_eq!(id_of(&m, "web").len(), 36);
    assert_eq!(id_of(&m, "lib").len(), 36);
    assert_ne!(id_of(&m, "web"), id_of(&m, "lib"));
    assert_eq!(command_of(&m, "web").len(), "web-".len() + 36);
}

#[test]
fn changes_count_once_all_tasks_run() {
    let c = config(vec![project("lib", &[], &["dev"])]);
    let mut m = loaded(&c, &["lib"], &["dev"], false);
    let cmd = command_of(&m, "lib");
    assert!(matches!(m.main_loop(true, -1, 0), LoopStep::Run(_)));
    assert!(!m.is_watch_mode());
    m._store.set_status(&cmd, TaskStatus::Running);
    assert!(matches!(m.main_loop(true, -1, 0), LoopStep::Run(_)));
    assert!(m.is_watch_mode());
    m._is_running = false;
    assert!(matches!(m.main_loop(true, -1, 0), LoopStep::Exit(true)));
}
