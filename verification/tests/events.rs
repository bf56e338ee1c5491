//! The edition that is driven by events.

use plexus::classic::app::{App, RunStep};
use plexus::classic::console::Console;
use plexus::classic::share::{
    AppEvent, FileChangedEvent, TaskOutputEvent, TaskStatus, TaskStatusEvent,
};
use plexus::classic::task::{OutputStep, Task};
use plexus::classic::tui::{ui_areas, LogEntry, TuiInner};
use plexus::classic::watcher::{FileEvent, ProjectWatcher};
use plexus::layout::Rect;
use plexus::log_pane::Color;
use plexus::pnpm::Project;
use plexus::strmap::StrMap;
use plexus::tui_managerv2::Key;

fn strings(v: &[&str]) -> Vec<String> {
    v.iter().map(|s| s.to_string()).collect()
}

fn project(name: &str, deps: &[&str], scripts: &[&str]) -> Project {
    Project::new(name.into(), format!("/w/{}", name), strings(deps), strings(scripts))
}

fn app(watch: bool) -> App {
    let mut projects: StrMap<Project> = StrMap::new();
    projects.insert("web".into(), project("web", &["lib"], &["build"]));
    projects.insert("lib".into(), project("lib", &["cfg"], &["build"]));
    projects.insert("cfg".into(), project("cfg", &[], &[]));
    projects.insert("odd".into(), project("odd", &["gone"], &["build"]));
    App::new(&projects, "build", watch)
}

fn told(out: &[AppEvent]) -> Vec<(String, TaskStatus)> {
    out.iter()
        .map(|e| match e {
            AppEvent::TaskStatus(s) => (s.name.clone(), s.status),
            _ => panic!("no status"),
        })
        .collect()
}

fn status(a: &App, name: &str) -> TaskStatus {
    *a.0._tasks.get(name).unwrap().status()
}

fn give(a: &mut App, name: &str, s: TaskStatus) {
    a.0._tasks.get_mut(name).unwrap().send_status(s, &mut vec![]);
}

fn changed(name: &str) -> AppEvent {
    AppEvent::FileChanged(FileChangedEvent { task_name: name.into(), paths: vec![] })
}

#[test]
fn tasks_start_when_their_dependencies_are_done() {
    let mut a = app(false);
    assert_eq!(status(&a, "cfg"), TaskStatus::NoCommand);
    assert_eq!(a.0.tasks(), strings(&["web", "lib", "odd"]));
    assert!(matches!(a.0.run_tasks(), RunStep::Quit));
    assert!(!a.0.run());
    assert!(a.0.running());
    assert!(matches!(a.0.run_tasks(), RunStep::Start(v) if v == strings(&["lib"])));
    give(&mut a, "lib", TaskStatus::Running);
    assert!(matches!(a.0.run_tasks(), RunStep::Idle));
    give(&mut a, "lib", TaskStatus::Finished);
    assert!(matches!(a.0.run_tasks(), RunStep::Start(v) if v == strings(&["web"])));
    give(&mut a, "web", TaskStatus::Finished);
    assert!(matches!(a.0.run_tasks(), RunStep::Idle));
    give(&mut a, "odd", TaskStatus::Finished);
    assert!(matches!(a.0.run_tasks(), RunStep::Quit));
    assert!(app(true).0.run());
}

#[test]
fn a_change_starts_a_task_and_what_depends_on_it_again() {
    let mut a = app(true);
    give(&mut a, "lib", TaskStatus::Finished);
    give(&mut a, "web", TaskStatus::Finished);
    give(&mut a, "odd", TaskStatus::Finished);
    let mut out = vec![];
    assert_eq!(a.0.run_watchers(&changed("lib"), &mut out), None);
    assert_eq!(
        told(&out),
        vec![
            ("lib".to_string(), TaskStatus::NotStarted),
            ("web".to_string(), TaskStatus::NotStarted)
        ]
    );
    assert_eq!(status(&a, "odd"), TaskStatus::Finished);
    let mut out = vec![];
    a.0.run_watchers(&changed("lib"), &mut out);
    a.0.run_watchers(&changed("nobody"), &mut out);
    assert!(out.is_empty());
}

#[test]
fn the_interface_starts_and_stops_tasks() {
    let mut a = app(true);
    let launch = a.0._tasks.get_mut("lib").unwrap().start(&mut vec![]).unwrap();
    assert_eq!(launch.args, strings(&["--filter", "lib", "build"]));
    assert_eq!(launch.path, "/w/lib");
    let mut out = vec![];
    assert_eq!(a.0.run_watchers(&AppEvent::TuiStart("lib".into()), &mut out), None);
    assert!(out.is_empty());
    let ended = a.0.run_watchers(&AppEvent::TuiStop("lib".into()), &mut out);
    assert_eq!(ended, Some("lib".to_string()));
    assert_eq!(
        told(&out),
        vec![
            ("lib".to_string(), TaskStatus::NotStarted),
            ("lib".to_string(), TaskStatus::Stoped)
        ]
    );
    assert_eq!(status(&a, "lib"), TaskStatus::Stoped);
    a.0.run_watchers(&AppEvent::TuiStart("lib".into()), &mut out);
    assert_eq!(status(&a, "lib"), TaskStatus::NotStarted);
    assert_eq!(a.0.run_watchers(&AppEvent::TuiRestart("lib".into()), &mut out), None);
    assert_eq!(a.0.run_watchers(&AppEvent::Quit, &mut out), None);
    a.0._tasks.get_mut("web").unwrap().start(&mut vec![]);
    let mut out = vec![];
    assert_eq!(a.0.stop(&mut out), strings(&["web"]));
    assert_eq!(out.len(), 4);
    assert!(!a.0.running());
}

#[test]
fn a_task_sends_what_it_does() {
    let mut t = Task::new("a".into(), "/a".into(), None, project("a", &[], &[]));
    let mut out = vec![];
    assert!(t.start(&mut out).is_none());
    assert_eq!(told(&out), vec![("a".to_string(), TaskStatus::NoCommand)]);
    let mut t = Task::new("a".into(), "/a".into(), Some("x".into()), project("a", &[], &[]));
    let mut out = vec![];
    assert!(t.start(&mut out).is_some());
    assert!(t.start(&mut out).is_none());
    assert_eq!(
        told(&out),
        vec![
            ("a".to_string(), TaskStatus::Starting),
            ("a".to_string(), TaskStatus::Running)
        ]
    );
    assert!(t.stop(&mut out));
    assert!(!t.stop(&mut out));
    assert_eq!(t.name(), "a");
    assert_eq!(t.cmd(), &Some("x".to_string()));
    assert_eq!(t.project().name(), "a");
    match Task::stdout_line("a", Some("l".into()), 7) {
        OutputStep::Send(AppEvent::TaskOutput(e)) => {
            assert_eq!((e.output.as_str(), e.timestamp, e.is_error), ("l", 7, false));
        },
        _ => panic!("not sent"),
    }
    assert!(matches!(Task::stdout_line("a", None, 7), OutputStep::Break));
    assert!(matches!(Task::stderr_line("a", None, 7), OutputStep::Continue));
    assert!(matches!(
        Task::stderr_line("a", Some("l".into()), 7),
        OutputStep::Send(AppEvent::TaskOutput(e)) if e.is_error
    ));
}

fn output(name: &str, line: &str) -> AppEvent {
    AppEvent::TaskOutput(TaskOutputEvent {
        name: name.into(),
        output: line.into(),
        timestamp: 0,
        is_error: false,
    })
}

#[test]
fn the_console_prints_events() {
    let quiet = Console::new(false);
    let loud = Console::new(true);
    let s = AppEvent::TaskStatus(TaskStatusEvent { name: "a".into(), status: TaskStatus::Stoped });
    assert_eq!(quiet.line(&s), None);
    assert_eq!(loud.line(&s), Some("[a]: Status being change to Stopped".to_string()));
    assert_eq!(quiet.line(&AppEvent::Log("m".into())), None);
    assert_eq!(loud.line(&AppEvent::Log("m".into())), Some("[LOG]: m".to_string()));
    assert_eq!(quiet.line(&output("a", "x")), Some("[a]: x".to_string()));
    assert_eq!(quiet.line(&changed("a")), Some("[a]: File changed".to_string()));
    assert_eq!(quiet.line(&AppEvent::Quit), None);
    assert!(quiet.wait(&s) && !quiet.wait(&AppEvent::Quit));
    assert_eq!(TaskStatus::NotStarted.to_text(), "Not Started");
}

#[test]
fn changed_files_are_sent() {
    let w = ProjectWatcher::new("a", "/w/a", &strings(&["src"]), &vec![]).ok().unwrap();
    let paths = strings(&["/w/a/src/x"]);
    assert!(matches!(
        w.start(FileEvent::Modify, &paths),
        Some(AppEvent::FileChanged(e)) if e.task_name == "a" && e.paths == paths
    ));
    assert!(w.start(FileEvent::Other, &paths).is_none());
    assert!(w.start(FileEvent::Create, &strings(&["/w/a/lib/x"])).is_none());
    let drive = ProjectWatcher::new("a", "C:/a", &strings(&["src"]), &vec![]).ok().unwrap();
    assert!(drive.start(FileEvent::Modify, &strings(&["C:/a/src/x"])).is_some());
    assert!(drive.start(FileEvent::Modify, &strings(&["C:/b/src/x"])).is_none());
    let all = ProjectWatcher::new("a", "/w/a", &vec![], &vec![]).ok().unwrap();
    assert!(all.start(FileEvent::Remove, &strings(&["/x"])).is_some());
}

#[test]
fn lines_follow_their_end() {
    let mut e = LogEntry::new();
    for i in 0..20 {
        e.add_log(i.to_string());
    }
    assert_eq!(e.scroll, 19);
    e.set_viewport_height(5);
    e.scroll_to_bottom();
    assert_eq!(e.scroll, 14);
    assert_eq!(e.state.content_length, 20);
    e.scroll_up(10);
    assert_eq!(e.scroll, 4);
    e.add_log("x".into());
    assert_eq!(e.scroll, 4);
    assert!(!e.follow);
    e.scroll_down(11);
    assert_eq!(e.scroll, 15);
    assert!(e.follow);
    e.scroll_down(100);
    assert_eq!(e.scroll, 20);
    assert_eq!(e.clamped_scroll(), 20);
    assert_eq!(e.output().len(), 21);
    e.clear();
    assert_eq!((e.scroll, e.state.content_length), (0, 0));
}

#[test]
fn places_are_counted_in_sixteen_bits() {
    let mut e = LogEntry::new();
    for _ in 0..65538 {
        e.add_log(String::new());
    }
    assert_eq!(e.scroll, 1);
}

#[test]
fn events_reach_the_interface() {
    let mut t = TuiInner::new(&strings(&["a", "b"]));
    assert!(!t.run_app(&output("b", "x")));
    assert!(!t.run_app(&output("c", "x")));
    t.run_app(&AppEvent::TaskStatus(TaskStatusEvent {
        name: "a".into(),
        status: TaskStatus::Running,
    }));
    t.run_app(&AppEvent::Log("last".into()));
    assert!(t.run_app(&AppEvent::Quit));
    let f = t.ui();
    assert_eq!(f.entries[0].content, "● RUNNING a");
    assert_eq!(f.entries[0].fg, Some(Color::Yellow));
    assert_eq!(f.entries[1].content, "○ STOPPED b");
    assert_eq!(f.status, "last");
    assert!(matches!(t.handle_key(Key::Char('s')), Some(AppEvent::TuiStop(n)) if n == "a"));
    t.handle_key(Key::Down);
    t.handle_key(Key::Down);
    assert!(matches!(t.handle_key(Key::Char('s')), Some(AppEvent::TuiStart(n)) if n == "b"));
    assert!(matches!(t.handle_key(Key::Enter), Some(AppEvent::TuiRestart(n)) if n == "b"));
    t.handle_key(Key::Char('f'));
    assert!(!t._tasks[1].output.follow);
    t.handle_key(Key::PageDown);
    assert!(t._tasks[1].output.follow);
    t.handle_key(Key::Char('l'));
    t.handle_key(Key::Home);
    assert!(!t._log.follow);
    t.handle_key(Key::Char('c'));
    assert_eq!(t.ui().status, "");
    t.handle_key(Key::Up);
    assert_eq!(t.state.selected, 0);
    assert!(matches!(t.handle_key(Key::Char('q')), Some(AppEvent::Quit)));
}

#[test]
fn the_terminal_is_shared_out() {
    let area = Rect { x: 0, y: 0, width: 100, height: 100 };
    let a = ui_areas(area, true);
    assert_eq!(a.tasks, Rect { x: 0, y: 0, width: 35, height: 70 });
    assert_eq!(a.log.width, 100);
    assert_eq!(a.status.width + a.commands.width, 100);
    assert_eq!(ui_areas(area, false).log.height, 0);
}
