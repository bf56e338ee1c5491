//! The program that starts commands by itself, and its interface with boxes.

use plexus::app::{App, AppTask};
use plexus::app_state::{StateEvent, StatusChangeEvent, TaskStatus};
use plexus::cli::Cli;
use plexus::env::Env;
use plexus::layout::Rect;
use plexus::log_pane::Color;
use plexus::logging::Level;
use plexus::pnpm::Project;
use plexus::task_manager::{
    get_envs, run_args, run_event, run_finished, run_started, without_colors, FinishStep,
    RunAction, RunEvent, StartLoop, StartStep,
};
use plexus::tui_manager::{
    help_text, list_areas, render_ui, ui_areas, BoxSelected, TuiCommand, TuiState,
};
use plexus::tui_managerv2::Key;

fn strings(v: &[&str]) -> Vec<String> {
    v.iter().map(|s| s.to_string()).collect()
}

fn cli(commands: &[&str], watch: bool) -> Cli {
    Cli {
        tui: false,
        console: true,
        web: false,
        verbose: false,
        log_file: None,
        log_console: false,
        compact: false,
        filter: vec![],
        commands: strings(commands),
        watch,
        watch_ignore: vec![],
        show_all_dependencies: false,
    }
}

fn app(watch: bool) -> App {
    let mut a = App::new(cli(&["build", "dev"], watch));
    a.pnpm.add_project(Project::new(
        "web".into(),
        "/w/web".into(),
        strings(&["lib", "react"]),
        strings(&["build"]),
    ));
    a.pnpm.add_project(Project::new(
        "lib".into(),
        "/w/lib".into(),
        vec![],
        strings(&["build", "dev"]),
    ));
    a.init_tasks();
    a
}

fn set(a: &mut App, name: &str, status: TaskStatus) {
    a.state.emit(StateEvent::Status { task_name: name.into(), status });
}

#[test]
fn tasks_are_made_of_projects_and_commands() {
    let a = app(false);
    assert_eq!(a.state.get_tasks(), strings(&["web:build", "lib:build", "lib:dev"]));
    assert_eq!(a.tasks.get("lib:dev").unwrap().path, "/w/lib");
    assert_eq!(
        run_args(&AppTask::new("lib".into(), "dev".into(), "/w/lib".into())),
        strings(&["--filter", "lib", "dev"])
    );
}

#[test]
fn a_task_starts_after_what_it_needs() {
    let mut a = app(false);
    assert!(!a.may_start("web:build"));
    assert!(a.may_start("lib:build"));
    let mut l = StartLoop::new(&a);
    assert_eq!(l.ready(&a), Some(strings(&["lib:build", "lib:dev"])));
    assert!(matches!(l.start(&a), StartStep::Sleep));
    set(&mut a, "lib:build", TaskStatus::Finished);
    assert!(a.may_start("web:build"));
    set(&mut a, "web:build", TaskStatus::Running);
    set(&mut a, "lib:dev", TaskStatus::Running);
    assert!(matches!(l.start(&a), StartStep::Finish));
    assert!(matches!(l.finish(&a), FinishStep::Again));
    set(&mut a, "web:build", TaskStatus::Finished);
    set(&mut a, "lib:dev", TaskStatus::Finished);
    assert!(matches!(l.finish(&a), FinishStep::Quit));
    set(&mut a, "lib:dev", TaskStatus::Failed);
    assert!(matches!(l.finish(&a), FinishStep::Failed(n) if n == "lib:dev"));
    a.state.emit(StateEvent::Quit);
    assert_eq!(l.ready(&a), None);
}

#[test]
fn a_failure_counts_unless_files_are_watched() {
    let mut a = app(false);
    set(&mut a, "lib:build", TaskStatus::Failed);
    assert!(matches!(StartLoop::new(&a).start(&a), StartStep::Failed(n) if n == "lib:build"));
    let mut a = app(true);
    for t in ["web:build", "lib:build", "lib:dev"] {
        set(&mut a, t, TaskStatus::Failed);
    }
    assert!(matches!(StartLoop::new(&a).start(&a), StartStep::Await));
    assert!(StartLoop::is_change(Some(StatusChangeEvent::StatusChanged)));
    assert!(!StartLoop::is_change(None));
}

#[test]
fn tasks_are_started_and_stopped_by_hand() {
    let mut a = app(false);
    let (task, _) = a.run_task("lib:dev");
    assert_eq!(task.command, "dev");
    assert_eq!(*a.state.get_task_state("lib:dev").status(), TaskStatus::Starting);
    a.stop_task("lib:dev");
    assert_eq!(*a.state.get_task_state("lib:dev").status(), TaskStatus::Stopped);
}

#[test]
fn what_a_task_prints_is_noted() {
    let mut a = app(false);
    let s = &mut a.state;
    run_started(s, "lib:dev");
    let out = RunEvent::Stdout(Some("x".into()));
    assert_eq!(run_event(s, "lib:dev", &out), RunAction::Continue);
    run_event(s, "lib:dev", &RunEvent::Stdout(Some(" ".into())));
    run_event(s, "lib:dev", &RunEvent::Stderr(Some("y".into())));
    assert_eq!(run_event(s, "lib:dev", &RunEvent::Tick), RunAction::Continue);
    assert_eq!(run_event(s, "lib:dev", &RunEvent::Stdout(None)), RunAction::Break);
    assert_eq!(run_event(s, "lib:dev", &RunEvent::Stderr(None)), RunAction::Continue);
    assert_eq!(run_event(s, "lib:dev", &RunEvent::Stop), RunAction::Kill);
    let t = s.get_task_state("lib:dev");
    assert_eq!(t.outputs(), &strings(&["[OUT]: x", "[ERR]: y"]));
    assert_eq!(run_finished(s, "lib:dev", Some(false)), TaskStatus::Failed);
    assert_eq!(run_finished(s, "lib:dev", Some(true)), TaskStatus::Finished);
    assert_eq!(run_finished(s, "lib:dev", None), TaskStatus::Finished);
}

#[test]
fn a_task_gets_plain_variables() {
    let mut envs = get_envs(&Env::new().unwrap(), &vec![Some("TERM=x\nA=1".into())]);
    assert_eq!(envs.get("PNPM_TASK_TUI"), Some(&"1".to_string()));
    assert_eq!(envs.get("TERM"), Some(&"x".to_string()));
    without_colors(&mut envs);
    assert_eq!(envs.get("TERM"), Some(&"dumb".to_string()));
    assert_eq!(envs.get("NO_COLOR"), Some(&"1".to_string()));
    assert_eq!(envs.get("FORCE_COLOR"), Some(&"0".to_string()));
    assert_eq!(envs.get("A"), Some(&"1".to_string()));
}

fn drawn() -> (App, TuiState) {
    let mut a = app(false);
    a.state.emit(StateEvent::Output { task_name: "web:build".into(), output: "[ERR]: z".into() });
    a.state.add_log(Level::Warn, "careful".into());
    set(&mut a, "lib:build", TaskStatus::Running);
    let mut t = TuiState::new();
    let names = a.state.get_tasks();
    assert!(t.render(&a.state, &names));
    (a, t)
}

#[test]
fn a_frame_shows_what_is_known() {
    let (_, mut t) = drawn();
    t.handle_key_event(Key::Char('l'));
    let area = Rect { x: 0, y: 0, width: 40, height: 6 };
    let f = render_ui(&mut t, area, area);
    assert_eq!(f.entries[0].content, " IDLE web:build");
    assert_eq!(f.entries[0].fg, Some(Color::Yellow));
    assert_eq!(f.entries[1].content, "⠙ RUNNING lib:build");
    assert!(f.entries[1].bold && !f.entries[1].dim);
    assert_eq!(f.output.title, "Output - web:build");
    assert_eq!(f.output.lines, vec![("[ERR]: z".to_string(), Color::Red)]);
    let logs = f.logs.unwrap();
    assert_eq!(logs.title, "Logs");
    assert_eq!(logs.lines, vec![("[WARN] careful".to_string(), Color::Yellow)]);
    assert!(f.tasks_selected);
    let mut empty = TuiState::new();
    assert_eq!(render_ui(&mut empty, area, area).output.title, "Output");
}

#[test]
fn keys_go_to_the_selected_box() {
    let (_, mut t) = drawn();
    t.handle_key_event(Key::Char('j'));
    t.handle_mouse_event(false);
    t.handle_mouse_event(false);
    assert_eq!(t.selected, 2);
    t.handle_key_event(Key::Up);
    assert_eq!(t.selected, 1);
    assert!(!t.handle_key_event(Key::PageUp).0);
    assert!(matches!(t.handle_key_event(Key::Char('s')).1, TuiCommand::Stop(n) if n == "lib:build"));
    assert!(matches!(t.handle_key_event(Key::Enter).1, TuiCommand::Restart(n) if n == "lib:build"));
    t.handle_key_event(Key::Up);
    assert!(matches!(t.handle_key_event(Key::Char('s')).1, TuiCommand::Run(n) if n == "web:build"));
    t.handle_key_event(Key::Tab);
    assert_eq!(t.box_selected, BoxSelected::Output);
    assert!(t.handle_key_event(Key::PageUp).0);
    t.handle_key_event(Key::Tab);
    assert_eq!(t.box_selected, BoxSelected::Tasks);
    t.handle_key_event(Key::Char('l'));
    t.handle_key_event(Key::Tab);
    t.handle_key_event(Key::Tab);
    assert_eq!(t.box_selected, BoxSelected::Logs);
    t.handle_mouse_event(true);
    assert!(!t.log_entry.follow);
    t.handle_key_event(Key::Char('l'));
    assert_eq!(t.box_selected, BoxSelected::Tasks);
    assert!(matches!(t.handle_key_event(Key::Char('c')).1, TuiCommand::ClearLogs));
    assert!(matches!(t.handle_key_event(Key::Char('q')), (false, TuiCommand::Quit)));
    assert!(matches!(t.handle_key_event(Key::Char('x')), (false, TuiCommand::Failed)));
    assert!(matches!(t.handle_key_event(Key::Char('z')), (false, TuiCommand::Nothing)));
}

#[test]
fn boxes_share_the_terminal() {
    let area = Rect { x: 0, y: 0, width: 100, height: 50 };
    let (left, right, bottom) = ui_areas(area, true);
    assert_eq!(left, Rect { x: 0, y: 0, width: 35, height: 35 });
    assert_eq!(right, Rect { x: 35, y: 0, width: 65, height: 35 });
    assert_eq!(bottom, Rect { x: 0, y: 35, width: 100, height: 15 });
    assert_eq!(ui_areas(area, false).0.height, 50);
    assert_eq!(list_areas(area).1.height, 9);
    assert_eq!(help_text().len(), 9);
}

#[test]
fn the_interface_begins_with_two_empty_logs() {
    let s = TuiState::new();
    assert!(!s.log_entry.debug && s.output_entry.debug);
    assert!(s.log_entry.logs.is_empty() && s.output_entry.logs.is_empty());
    assert_eq!(s.log_entry.state, s.output_entry.state);
    assert!(s.log_entry.follow && s.output_entry.follow);
}
