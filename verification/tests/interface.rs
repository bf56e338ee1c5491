//! The terminal interface of the task manager: keys, windows and what is drawn.

use plexus::layout::Rect;
use plexus::log_pane::{line_color, wrap_line, Color, LogPane};
use plexus::task::{InternalTaskStatus, TaskCommand, TaskCommandType, TaskStatus, TaskWithDetails};
use plexus::tui_managerv2::{
    tab_command, toggle_command, CmdAction, Focus, FrameState, FrameStep, Key, TuiManager,
};
use plexus::tui_view::{
    centring_constraints, draw_logs_dialog, draw_quit_dialog, exact_text_centered_rect,
    loading_area, loading_text, logs_dialog_areas, logs_title, main_areas, main_widget, quit_prompt,
    apply_terminal_padding, seconds_remaining, status_glyph, status_height, status_rows,
    task_widget, LogsDialog, Span,
};

const SECOND: i64 = 1_000_000_000;

fn command(id: &str, script: &str, status: TaskStatus) -> TaskCommand {
    TaskCommand {
        _id: id.into(),
        _command: TaskCommandType::Simple(script.into()),
        _status: status,
    }
}

fn details(name: &str, commands: Vec<TaskCommand>) -> TaskWithDetails {
    TaskWithDetails {
        _id: format!("id-{}", name),
        _name: name.into(),
        _path: "/w".into(),
        _commands: commands,
        _parent_id: None,
        _children_id: None,
        _status: InternalTaskStatus::Other,
        last_run_time: None,
    }
}

fn two_tasks() -> Vec<TaskWithDetails> {
    vec![
        details("a", vec![command("a1", "build", TaskStatus::Running)]),
        details("b", vec![command("b1", "build", TaskStatus::Successed)]),
    ]
}

fn texts(row: &[Span]) -> String {
    row.iter().map(|s| s.content.as_str()).collect()
}

#[test]
fn the_selection_goes_round() {
    let tasks = two_tasks();
    let mut t = TuiManager::new();
    t.handle_key(Key::Down, false, 0, &tasks);
    assert_eq!(t._state.selected_task_id.as_deref(), Some("id-a"));
    t.handle_key(Key::Down, false, 0, &tasks);
    assert_eq!(t._state.selected_task_id.as_deref(), Some("id-b"));
    t.handle_key(Key::Down, false, 0, &tasks);
    assert_eq!(t._state.selected_task_id.as_deref(), Some("id-a"));
    t.handle_key(Key::Up, false, 0, &tasks);
    assert_eq!(t._state.selected_task_id.as_deref(), Some("id-b"));
    t.handle_mouse(false, &tasks);
    assert_eq!(t._state.selected_task_id.as_deref(), Some("id-a"));
    t.move_selection(-5, &tasks);
    assert_eq!(t._state.selected_task_id.as_deref(), Some("id-b"));
    t._state.selected_task_id = Some("gone".into());
    t.move_selection(1, &tasks);
    assert_eq!(t._state.selected_task_id.as_deref(), Some("id-a"));
    t.move_selection(1, &vec![]);
    assert_eq!(t._state.selected_task_id.as_deref(), Some("id-a"));
}

#[test]
fn keys_ask_for_commands() {
    let tasks = two_tasks();
    let mut t = TuiManager::new();
    t._state.selected_task_id = Some("id-a".into());
    let asked = t.handle_main_key(Key::Char('S'), &tasks);
    assert_eq!(asked.len(), 1);
    assert_eq!(asked[0].command_id, "a1");
    assert!(asked[0].action == CmdAction::ForceStop);
    assert_eq!(t._state.last_key_log.as_deref(), Some("Force stopping a"));
    let (log, toggled) = toggle_command("id-a", &tasks[0]._commands[0]);
    assert!(toggled[0].action == CmdAction::Stop);
    assert!(log.len() > 0);
    let (_, toggled) = toggle_command("id-b", &tasks[1]._commands[0]);
    assert!(toggled[0].action == CmdAction::Start);
}

#[test]
fn a_window_opens_and_closes() {
    let tasks = two_tasks();
    let mut t = TuiManager::new();
    t._state.selected_task_id = Some("id-a".into());
    t.handle_key(Key::Enter, false, 0, &tasks);
    assert_eq!(t._state.focus(), Focus::Logs);
    assert_eq!(t._state.logs.as_ref().unwrap().task_id, "id-a");
    let shown = t.prepare_logs(&tasks);
    assert_eq!(shown, Some((0, Some("a1".to_string()))));
    let drawn = draw_logs_dialog(
        &mut t._state,
        Some(&tasks[0]),
        &vec!["[ERR]: x".into(), "y".into()],
        0,
        Rect { x: 0, y: 0, width: 12, height: 3 },
    );
    match drawn {
        LogsDialog::Output { rows, sb, .. } => {
            assert_eq!(rows, vec![("y".to_string(), Color::White)]);
            assert_eq!(sb.content_length, 2);
            assert_eq!(sb.position, 1);
        },
        _ => panic!("no output"),
    }
    t.handle_key(Key::Esc, false, 0, &tasks);
    assert_eq!(t._state.focus(), Focus::Tasks);
}

#[test]
fn a_tab_keeps_its_place() {
    let tasks = vec![details(
        "a",
        vec![
            command("a1", "build", TaskStatus::Running),
            command("a2", "test", TaskStatus::Running),
        ],
    )];
    let area = Rect { x: 0, y: 0, width: 12, height: 4 };
    let logs: Vec<String> = (0..9).map(|i| format!("line {}", i)).collect();
    let mut t = TuiManager::new();
    t._state.selected_task_id = Some("id-a".into());
    t.handle_key(Key::Enter, false, 0, &tasks);
    draw_logs_dialog(&mut t._state, Some(&tasks[0]), &logs, 0, area);
    t.handle_key(Key::Up, false, 0, &tasks);
    t.handle_key(Key::Right, false, 0, &tasks);
    assert_eq!(t._state.logs.as_ref().unwrap().tab, 1);
    draw_logs_dialog(&mut t._state, Some(&tasks[0]), &logs, 0, area);
    t.handle_key(Key::Home, false, 0, &tasks);
    t.handle_key(Key::Left, false, 0, &tasks);
    let window = t._state.logs.as_ref().unwrap();
    assert_eq!(window.tab, 0);
    assert_eq!(window.panes.get("a1").unwrap().scroll, 6);
    assert!(!window.panes.get("a1").unwrap().follow);
    assert_eq!(window.panes.get("a2").unwrap().scroll, 0);
}

#[test]
fn a_window_without_its_task_is_told() {
    let tasks = two_tasks();
    let mut t = TuiManager::new();
    let area = Rect { x: 0, y: 0, width: 10, height: 10 };
    assert!(matches!(
        draw_logs_dialog(&mut t._state, None, &vec![], 0, area),
        LogsDialog::Gone
    ));
    let empty = details("c", vec![]);
    assert!(matches!(
        draw_logs_dialog(&mut t._state, Some(&empty), &vec![], 0, area),
        LogsDialog::Empty { .. }
    ));
    assert!(matches!(
        draw_logs_dialog(&mut t._state, Some(&tasks[0]), &vec![], 0, area),
        LogsDialog::Closed
    ));
    assert!(tab_command(&empty, 0).is_none());
    assert_eq!(tab_command(&tasks[0], 0).unwrap()._id, "a1");
}

#[test]
fn quitting_is_confirmed_or_cancelled() {
    let tasks = two_tasks();
    let mut t = TuiManager::new();
    t.handle_key(Key::Char('q'), false, 5 * SECOND, &tasks);
    assert!(t._is_running);
    assert_eq!(t._state.focus(), Focus::QuitConfirm);
    t.handle_key(Key::Esc, false, 5 * SECOND, &tasks);
    assert_eq!(t._state.focus(), Focus::Tasks);
    assert_eq!(t._state.quit, None);
    t.handle_key(Key::Char('c'), true, 5 * SECOND, &tasks);
    t.handle_key(Key::Char('c'), true, 6 * SECOND, &tasks);
    assert!(!t._is_running);
}

#[test]
fn a_quit_that_is_not_confirmed_is_forgotten() {
    let tasks = two_tasks();
    let mut t = TuiManager::new();
    t.handle_key(Key::Char('q'), false, 0, &tasks);
    assert_eq!(t.check_quit(1 * SECOND), Some(0));
    assert_eq!(t.check_quit(60 * SECOND), None);
    assert_eq!(t._state.focus(), Focus::Tasks);
}

#[test]
fn frames_follow_the_loading() {
    let mut t = TuiManager::with_mouse(false);
    let mut f = FrameState { mouse_capture_on: false, loading: true, frame_count: usize::MAX };
    assert_eq!(t.main_loop(&mut f, true), FrameStep::Loading);
    assert_eq!(f.frame_count, 0);
    assert_eq!(t.main_loop(&mut f, false), FrameStep::Draw);
    assert!(!f.loading);
    assert_eq!(t.main_loop(&mut f, true), FrameStep::Draw);
    t._mouse_wanted = true;
    assert_eq!(t.main_loop(&mut f, false), FrameStep::SetMouse(true));
    t.mouse_changed(&mut f, true);
    assert!(f.mouse_capture_on);
    t._mouse_wanted = false;
    t.mouse_changed(&mut f, false);
    assert!(t._mouse_wanted);
    t._is_running = false;
    assert_eq!(t.main_loop(&mut f, false), FrameStep::Exit);
}

#[test]
fn windows_have_their_keys() {
    let keys: Vec<&str> = Focus::QuitConfirm.keymap().iter().map(|e| e.0).collect();
    assert!(keys.contains(&"Esc"));
    assert!(Focus::Tasks.keymap().len() > 3);
}

#[test]
fn carriage_returns_and_widths_are_measured() {
    assert_eq!(wrap_line("ab\r", 8), vec!["ab"]);
    assert_eq!(wrap_line("日a", 1), vec!["日", "a"]);
    assert_eq!(wrap_line("e\u{301}x", 1), vec!["e\u{301}", "x"]);
    assert_eq!(line_color("[WARN] x"), Color::Yellow);
    assert_eq!(line_color("[INFO] x"), Color::Green);
    assert_eq!(line_color("[ERR]: x"), Color::Red);
    assert_eq!(line_color("x"), Color::White);
}

#[test]
fn pages_move_by_the_height() {
    let logs: Vec<String> = (0..10).map(|i| i.to_string()).collect();
    let mut p = LogPane::new();
    p.sync(&logs, 5, 3);
    assert_eq!(p.scroll, 7);
    p.page_up();
    assert_eq!(p.scroll, 4);
    p.page_up();
    p.page_up();
    assert_eq!(p.scroll, 0);
    p.page_down();
    assert_eq!(p.scroll, 3);
    p.toggle_follow();
    assert!(p.follow);
    assert_eq!(p.scroll, 7);
}

#[test]
fn rows_tell_how_far_tasks_are() {
    let tasks = two_tasks();
    let row = task_widget(&tasks[0], "id-a", 0, 4);
    assert!(row.reversed);
    assert!(texts(&row.spans).contains("a   "));
    let row = task_widget(&tasks[0], "id-b", 0, 4);
    assert!(!row.reversed);
    assert_eq!(status_glyph(&TaskStatus::Failed, 0).0, Some(Color::Red));
    assert!(texts(&logs_title(&tasks[0], 0, 0)).contains("build"));
    assert!(loading_text(0).contains("⠋"));
    assert!(loading_text(11).contains("⠙"));
    let t = TuiManager::new();
    assert_eq!(main_widget(&tasks, &t._state, InternalTaskStatus::Other, 0).len(), 2);
    assert_eq!(main_widget(&tasks, &t._state, InternalTaskStatus::Running, 0).len(), 0);
}

#[test]
fn the_bar_hides_no_key() {
    let t = TuiManager::new();
    let wide = status_rows(&t._state, false, 500);
    let narrow = status_rows(&t._state, false, 10);
    assert_eq!(wide.len(), 1);
    assert!(narrow.len() > wide.len());
    for (key, _) in Focus::Tasks.keymap() {
        assert!(narrow.iter().any(|r| texts(r).contains(key)));
    }
    assert_eq!(status_height(&t._state, false, 500), 1);
    assert_eq!(status_height(&t._state, false, 10), 4);
}

#[test]
fn the_time_to_confirm_runs_down() {
    assert_eq!(seconds_remaining(0, 0) - seconds_remaining(0, 2 * SECOND), 2);
    assert_eq!(
        quit_prompt(3),
        "[q / Ctrl+C] Quit │ [Esc] Cancel (Auto-resume in 3s)"
    );
    let lines = draw_quit_dialog(3);
    assert_eq!(lines.len(), 3);
    assert!(texts(&lines[2]).ends_with("wait 3s to resume."));
}

#[test]
fn areas_are_cut_out_of_the_terminal() {
    let area = Rect { x: 0, y: 0, width: 100, height: 50 };
    let (top, rest, bar) = main_areas(area, 2);
    assert_eq!(top.height + rest.height + bar.height, 50);
    assert_eq!(bar, Rect { x: 0, y: 48, width: 100, height: 2 });
    let (strip, window) = logs_dialog_areas(area, 1);
    assert_eq!(strip.width, 10);
    assert_eq!(window, Rect { x: 10, y: 0, width: 90, height: 49 });
    assert_eq!(
        apply_terminal_padding(area, 2, 1),
        Rect { x: 2, y: 1, width: 96, height: 48 }
    );
    let (inner, around) = exact_text_centered_rect(18, area);
    assert_eq!(inner, Rect { x: 40, y: 22, width: 20, height: 5 });
    assert_eq!(around.len(), 4);
    assert_eq!(loading_area(area).height, 3);
    assert_eq!(centring_constraints(4, 10).len(), 3);
}
