//! Tasks, their commands and the store that holds them.

use plexus::config::{ConfigCommand, PlexusCommand};
use plexus::strmap::StrMap;
use plexus::task::{
    sorted_commands, InternalTaskStatus, Task, TaskCommand, TaskCommandRunnable, TaskCommandType,
    TaskPlexusCommand, TaskStatus,
};
use plexus::task_runner::{
    command_args, command_envs, specific_env, start_failure_text, ExitOutcome, RunnerAction,
    RunnerEvent, TaskRunner,
};
use plexus::task_store::{TaskStore, DAY};

fn simple(id: &str, script: &str, status: TaskStatus) -> TaskCommand {
    TaskCommand {
        _id: id.into(),
        _command: TaskCommandType::Simple(script.into()),
        _status: status,
    }
}

fn task(id: &str, name: &str, commands: Vec<TaskCommand>, children: Option<Vec<&str>>) -> Task {
    Task {
        _id: id.into(),
        _name: name.into(),
        _path: format!("/w/{}", name),
        _commands: commands,
        _parent_id: None,
        _children_id: children.map(|v| v.iter().map(|s| s.to_string()).collect()),
    }
}

fn ids(v: &[TaskCommandRunnable]) -> Vec<String> {
    v.iter().map(|c| c._id.clone()).collect()
}

#[test]
fn statuses_tell_what_they_are() {
    assert!(TaskStatus::Failed.is_finished());
    assert!(TaskStatus::Successed.is_finished());
    assert!(TaskStatus::Stopped.is_finished());
    assert!(!TaskStatus::Stopping.is_finished());
    assert!(TaskStatus::Stopping.is_stopping());
    assert!(TaskStatus::Init.is_init() && !TaskStatus::Starting.is_init());
    assert_eq!(TaskStatus::Successed.to_text(), "TSSuccessed");
    assert_eq!(TaskStatus::Init.to_text(), "TSInit");
}

#[test]
fn commands_are_shown_in_one_order() {
    let a = simple("2", "build", TaskStatus::Init);
    let b = simple("1", "build", TaskStatus::Init);
    let c = simple("0", "dev", TaskStatus::Init);
    let shown: Vec<String> = sorted_commands(&vec![c.clone(), a.clone(), b.clone()])
        .iter()
        .map(|c| c._id.clone())
        .collect();
    assert_eq!(shown, vec!["1", "2", "0"]);
    let again: Vec<String> =
        sorted_commands(&vec![b, c, a]).iter().map(|c| c._id.clone()).collect();
    assert_eq!(again, shown);
}

#[test]
fn commands_are_told_apart_by_their_label() {
    let p = TaskCommand {
        _id: "x".into(),
        _command: TaskCommandType::Plexus(TaskPlexusCommand {
            name: "dev".into(),
            command: "dev:css".into(),
        }),
        _status: TaskStatus::Init,
    };
    assert!(p == simple("y", "dev", TaskStatus::Failed));
    assert!(p != simple("y", "dev:css", TaskStatus::Failed));
    assert!(p == *"dev");
    assert!(p == "dev".to_string());
    assert_eq!(p._command.label(), "dev");
    assert_eq!(p._command.script(), "dev:css");
}

#[test]
fn a_new_task_has_a_command_for_each_script() {
    let t = Task::with_uuids(
        "id".into(),
        "web".into(),
        "/w/web".into(),
        &vec![
            ConfigCommand::Simple("build".into()),
            ConfigCommand::Plexus(PlexusCommand {
                name: "dev".into(),
                actual_commands: vec!["dev:js".into(), "dev:css".into()],
            }),
            ConfigCommand::WithDependency { command: "test".into(), depends_on: None, envs: None },
        ],
        None,
        None,
        &vec!["u1".into(), "u2".into(), "u3".into(), "u4".into()],
    );
    let got: Vec<(String, String, String)> = t
        ._commands
        .iter()
        .map(|c| (c._id.clone(), c._command.label().clone(), c._command.script().clone()))
        .collect();
    let want = [
        ("web-u1", "build", "build"),
        ("web-dev-u2", "dev", "dev:js"),
        ("web-dev-u3", "dev", "dev:css"),
        ("web-u4", "test", "test"),
    ];
    let want: Vec<(String, String, String)> =
        want.iter().map(|w| (w.0.into(), w.1.into(), w.2.into())).collect();
    assert_eq!(got, want);
    assert!(t._commands.iter().all(|c| c._status.is_init()));
}

#[test]
fn fresh_ids_differ() {
    let t = Task::new(
        "id".into(),
        "web".into(),
        "/w/web".into(),
        vec![ConfigCommand::Simple("a".into()), ConfigCommand::Simple("b".into())],
        None,
        None,
    );
    assert_eq!(t._commands.len(), 2);
    assert!(t._commands[0]._id.starts_with("web-"));
    assert_eq!(t._commands[0]._id.len(), "web-".len() + 36);
    assert_ne!(t._commands[0]._id, t._commands[1]._id);
}

#[test]
fn a_command_waits_for_the_same_command_of_its_children() {
    let mut s = TaskStore::new(false);
    s.add_task(task("lib", "lib", vec![simple("l1", "build", TaskStatus::Init)], None));
    s.add_task(task("web", "web", vec![simple("w1", "build", TaskStatus::Init)], Some(vec!["lib"])));
    s.add_task(task("doc", "doc", vec![simple("d1", "lint", TaskStatus::Init)], Some(vec!["lib"])));
    assert!(s.knows_all_children());
    assert_eq!(ids(&s.get_runnable_commands(-1)), vec!["l1", "d1"]);
    s.set_status("l1", TaskStatus::Failed);
    assert_eq!(ids(&s.get_runnable_commands(-1)), vec!["d1"]);
    s.set_status("l1", TaskStatus::Successed);
    assert_eq!(ids(&s.get_runnable_commands(-1)), vec!["w1", "d1"]);
    let run = s.get_runnable_commands(-1);
    assert_eq!(run[0]._task_id, "web");
    assert_eq!(run[0]._name, "web");
    assert_eq!(run[0]._path, "/w/web");
}

#[test]
fn in_turn_only_the_lowest_place_runs() {
    let mut s = TaskStore::new(false);
    s.add_task(task(
        "a",
        "a",
        vec![simple("a0", "x", TaskStatus::Init), simple("a1", "y", TaskStatus::Init)],
        None,
    ));
    s.add_task(task("b", "b", vec![simple("b0", "x", TaskStatus::Init)], None));
    assert_eq!(ids(&s.get_runnable_commands(2)), vec!["a0", "b0"]);
    s.set_status("a0", TaskStatus::Successed);
    assert_eq!(ids(&s.get_runnable_commands(2)), vec!["b0"]);
    s.set_status("b0", TaskStatus::Successed);
    assert_eq!(ids(&s.get_runnable_commands(2)), vec!["a1"]);
    assert_eq!(ids(&s.get_runnable_commands(-1)), vec!["a1"]);
}

#[test]
fn a_status_is_told_of_the_command_and_of_its_id() {
    let mut s = TaskStore::default();
    s.add_task(task("a", "a", vec![simple("a0", "x", TaskStatus::Init)], None));
    assert!(s.get_status("a0").is_init());
    s.set_status("a0", TaskStatus::Running);
    assert!(s.get_status("a0").is_running());
    assert!(s.get_task_command("a", "a0")._status.is_running());
    assert!(s.is_any_running() && s.is_all_running_or_finished() && s.is_all_not_init());
    assert!(!s.is_all_finished() && !s.is_any_failed());
    s.set_status("a0", TaskStatus::Failed);
    assert!(s.is_all_finished() && s.is_any_failed());
}

#[test]
fn children_are_found_by_name() {
    let mut s = TaskStore::new(false);
    s.add_task(task("1", "lib", vec![], None));
    s.add_task(task("2", "web", vec![], None));
    s.update_task_childs("web", vec!["lib".into(), "gone".into()]);
    assert_eq!(s.get_task("2")._children_id, Some(vec!["1".to_string()]));
    assert!(s.has_task("1") && !s.has_task("web"));
    assert!(s.task_exists("web") && !s.task_exists("2"));
}

#[test]
fn running_tasks_are_listed_first() {
    let mut s = TaskStore::new(false);
    s.add_task(task("1", "old", vec![simple("o", "x", TaskStatus::Init)], None));
    s.add_task(task("2", "new", vec![simple("n", "x", TaskStatus::Init)], None));
    s.add_task(task("3", "zed", vec![simple("z", "x", TaskStatus::Init)], None));
    s.add_task(task("4", "amy", vec![simple("a", "x", TaskStatus::Init)], None));
    s.set_status("z", TaskStatus::Running);
    s.set_status("a", TaskStatus::Failed);
    let now = 10 * DAY;
    s.set_last_run_time("1", now - 2 * DAY);
    s.set_last_run_time("2", now - 5);
    let listed = s.get_all_tasks_with_details(now);
    let names: Vec<&str> = listed.iter().map(|t| t._name.as_str()).collect();
    assert_eq!(names, vec!["amy", "zed", "new", "old"]);
    assert_eq!(listed[0]._status, InternalTaskStatus::Running);
    assert_eq!(listed[2].last_run_time, Some(now - 5));
    assert_eq!(s.get_last_run_time("3"), None);
}

#[test]
fn a_task_that_never_ran_counts_as_run_a_day_ago() {
    let mut s = TaskStore::new(false);
    s.add_task(task("1", "never", vec![], None));
    s.add_task(task("2", "older", vec![], None));
    s.add_task(task("3", "newer", vec![], None));
    let now = 10 * DAY;
    s.set_last_run_time("2", now - DAY - 1);
    s.set_last_run_time("3", now - DAY + 1);
    let names: Vec<String> =
        s.get_all_tasks_with_details(now).iter().map(|t| t._name.clone()).collect();
    assert_eq!(names, vec!["newer", "never", "older"]);
}

#[test]
fn output_is_kept_in_order() {
    let mut s = TaskStore::new(false);
    let r = TaskRunner::new();
    assert_eq!(
        r.run_command(&mut s, "c", &RunnerEvent::Stdout(Some("one".into()))),
        RunnerAction::Continue
    );
    r.run_command(&mut s, "c", &RunnerEvent::Stdout(Some("   ".into())));
    r.run_command(&mut s, "c", &RunnerEvent::Stderr(Some("".into())));
    r.run_command(&mut s, "c", &RunnerEvent::Tick);
    assert_eq!(r.run_command(&mut s, "c", &RunnerEvent::Stdout(None)), RunnerAction::Break);
    assert_eq!(r.run_command(&mut s, "c", &RunnerEvent::Stderr(None)), RunnerAction::Continue);
    assert_eq!(r.run_command(&mut s, "c", &RunnerEvent::Interrupt), RunnerAction::Kill);
    assert_eq!(s.get_logs("c"), vec!["[OUT]: one", "[ERR]: "]);
    assert!(s.get_logs("other").is_empty());
}

#[test]
fn a_process_is_told_to_end_once() {
    let mut r = TaskRunner::new();
    assert_eq!(r.before_event(true, TaskStatus::Running), RunnerAction::Continue);
    assert_eq!(r.before_event(true, TaskStatus::Stopping), RunnerAction::StartKill);
    assert_eq!(r.before_event(true, TaskStatus::Stopping), RunnerAction::Continue);
    assert_eq!(r.before_event(false, TaskStatus::Stopping), RunnerAction::Kill);
    let mut s = TaskStore::new(false);
    assert_eq!(r.finished(&mut s, "c", ExitOutcome::Exited(true)), TaskStatus::Stopped);
}

#[test]
fn the_end_of_a_process_gives_the_status() {
    let mut s = TaskStore::new(false);
    let r = TaskRunner::new();
    r.started(&mut s, "c");
    assert!(s.get_status("c").is_running());
    assert_eq!(r.finished(&mut s, "c", ExitOutcome::Exited(true)), TaskStatus::Successed);
    assert_eq!(r.finished(&mut s, "c", ExitOutcome::Exited(false)), TaskStatus::Failed);
    assert_eq!(r.finished(&mut s, "c", ExitOutcome::WaitFailed), TaskStatus::Failed);
    assert_eq!(r.finished(&mut s, "c", ExitOutcome::TimedOut), TaskStatus::Successed);
    let message = start_failure_text("web", "/bin/pnpm", "denied");
    assert_eq!(message, "Failed to start task web via /bin/pnpm: denied");
    r.failed_to_start(&mut s, "c", &message);
    assert!(s.get_status("c").is_failed());
    assert_eq!(
        s.get_logs("c"),
        vec!["[ERR]: Failed to start task web via /bin/pnpm: denied"]
    );
}

#[test]
fn a_command_gets_its_arguments_and_variables() {
    let t = task("t", "web", vec![], None);
    let c = TaskCommand {
        _id: "c".into(),
        _command: TaskCommandType::Plexus(TaskPlexusCommand {
            name: "dev".into(),
            command: "dev:css".into(),
        }),
        _status: TaskStatus::Init,
    };
    let run = TaskCommandRunnable::new(&c, &t);
    assert_eq!(command_args(&run), vec!["--filter", "web", "dev:css"]);
    assert_eq!(specific_env(&run), Some("dev:css".to_string()));
    let plain = TaskCommandRunnable::new(&simple("s", "dev", TaskStatus::Init), &t);
    assert_eq!(specific_env(&plain), None);
    let mut envs: StrMap<String> = StrMap::new();
    envs.insert("PLEXUS_TASK_NAME".into(), "x".into());
    command_envs(&mut envs, &run, 8080, true);
    assert_eq!(envs.get("PLEXUS_TASK_NAME"), Some(&"web".to_string()));
    assert_eq!(envs.get("PLEXUS_TASK_PATH"), Some(&"/w/web".to_string()));
    assert_eq!(envs.get("PLEXUS_TASK_COMMAND"), Some(&"dev:css".to_string()));
    assert_eq!(envs.get("PLEXUS_PKG_NAME"), Some(&"web".to_string()));
    assert_eq!(envs.get("PLEXUS_WS_URL"), Some(&"ws://localhost:8080".to_string()));
    assert_eq!(envs.get("PLEXUS_SHOW_COLORS"), Some(&"1".to_string()));
    let mut dull: StrMap<String> = StrMap::new();
    command_envs(&mut dull, &run, 1, false);
    assert!(!dull.contains_key("PLEXUS_SHOW_COLORS"));
}

#[test]
fn a_command_waits_for_every_script_of_its_children() {
    let part = |id: &str, script: &str| TaskCommand {
        _id: id.into(),
        _command: TaskCommandType::Plexus(TaskPlexusCommand {
            name: "build".into(),
            command: script.into(),
        }),
        _status: TaskStatus::Init,
    };
    let mut s = TaskStore::new(false);
    s.add_task(task("lib", "lib", vec![part("l1", "build:js"), part("l2", "build:css")], None));
    s.add_task(task("web", "web", vec![simple("w1", "build", TaskStatus::Init)], Some(vec!["lib"])));
    assert_eq!(ids(&s.get_runnable_commands(-1)), vec!["l1", "l2"]);
    s.set_status("l1", TaskStatus::Running);
    s.set_status("l2", TaskStatus::Running);
    s.set_status("l1", TaskStatus::Successed);
    assert!(s.get_runnable_commands(-1).is_empty());
    s.set_status("l2", TaskStatus::Successed);
    assert_eq!(ids(&s.get_runnable_commands(-1)), vec!["w1"]);
}

#[test]
fn the_end_of_the_output_is_when_a_task_last_ran() {
    let mut s = TaskStore::new(false);
    let r = TaskRunner::new();
    r.started(&mut s, "c");
    assert_eq!(s.get_last_run_time("t"), None);
    r.reading_ended(&mut s, "t", 7);
    r.reading_ended(&mut s, "u", 8);
    r.reading_ended(&mut s, "t", 9);
    assert_eq!(s.get_last_run_time("t"), Some(9));
    assert_eq!(s.get_last_run_time("u"), Some(8));
    assert!(s.get_status("c").is_running());
}
