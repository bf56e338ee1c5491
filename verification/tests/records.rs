//! Logs, filters, clients and the records of what tasks do.

use plexus::app_state::{AppState, StateEvent, StatusChangeEvent, TaskStatus};
use plexus::hmr_websocket::{
    client_name, Connection, HmrWebSocket, HmrWebSocketClient, HmrWebSocketClientManager, Incoming,
};
use plexus::json::parse;
use plexus::log_view::LogView;
use plexus::logging::{
    init_tracing, tag_color, ConsoleLayer, CustomConsoleFormatter, CustomFieldVisitor,
    DynamicFilter, Level, LogVisitor, TagColor,
};
use plexus::strmap::StrMap;
use plexus::state;

fn strings(v: &[&str]) -> Vec<String> {
    v.iter().map(|s| s.to_string()).collect()
}

fn filter(level: Option<&str>) -> DynamicFilter {
    DynamicFilter::new(&level.map(|s| s.to_string()))
}

#[test]
fn levels_are_read() {
    assert_eq!(filter(Some("WaRn")).cli_level, Some(Level::Warn));
    assert_eq!(filter(Some("1")).cli_level, Some(Level::Error));
    assert_eq!(filter(Some("+005")).cli_level, Some(Level::Trace));
    assert_eq!(filter(Some("0")).cli_level, None);
    assert_eq!(filter(Some("6")).cli_level, None);
    assert_eq!(filter(Some("warning")).cli_level, Some(Level::Warn));
    assert_eq!(filter(Some("WARNING")).cli_level, Some(Level::Warn));
    assert_eq!(filter(Some("warnings")).cli_level, None);
    assert_eq!(filter(Some("warnin")).cli_level, None);
    assert_eq!(filter(Some("loud")).cli_level, None);
    assert_eq!(filter(Some("")).cli_level, None);
    assert_eq!(filter(None).cli_level, None);
}

#[test]
fn messages_are_filtered() {
    let f = filter(Some("info"));
    assert!(f.enabled(Level::Info, &vec![]));
    assert!(!f.enabled(Level::Debug, &strings(&["stdout"])));
    assert!(!f.is_custom_mode());
    let f = filter(None);
    assert!(f.enabled(Level::Error, &vec![]));
    assert!(f.enabled(Level::Warn, &vec![]));
    assert!(!f.enabled(Level::Info, &strings(&["name"])));
    assert!(f.enabled(Level::Info, &strings(&["name", "stderr"])));
    assert!(!f.enabled(Level::Debug, &strings(&["stdout"])));
    assert!(f.is_custom_mode());
}

#[test]
fn the_console_picks_its_form() {
    assert_eq!(init_tracing(false, true, &filter(None)), ConsoleLayer::Off);
    assert_eq!(init_tracing(true, true, &filter(None)), ConsoleLayer::Custom);
    assert_eq!(init_tracing(true, true, &filter(Some("debug"))), ConsoleLayer::Compact);
    assert_eq!(init_tracing(true, false, &filter(Some("debug"))), ConsoleLayer::Full);
}

#[test]
fn output_is_shown_behind_its_task() {
    let mut v = CustomFieldVisitor::new();
    v.record_debug("name", "\"web\"");
    v.record_str("stdout", "hello");
    v.record_str("other", "x");
    let f = CustomConsoleFormatter { is_custom_mode: true };
    assert_eq!(tag_color(13), TagColor::Green);
    assert_eq!(tag_color(11), TagColor::BrightCyan);
    assert_eq!(f.format_event(&v, 13), Some("\u{1b}[32m[web]\u{1b}[39m: hello".to_string()));
    assert_eq!(f.format_event(&v, 6), Some("\u{1b}[91m[web]\u{1b}[39m: hello".to_string()));
    assert_eq!(CustomConsoleFormatter { is_custom_mode: false }.format_event(&v, 13), None);
    assert_eq!(f.format_event(&CustomFieldVisitor::new(), 13), None);
    assert_eq!(Level::Error.prefix(), "[ERROR] ");
    let mut l = LogVisitor::new();
    l.record_debug("x", "1");
    l.record_debug("message", "m");
    assert_eq!(l.message, "m");
}

#[test]
fn a_log_follows_until_one_scrolls_up() {
    let mut v = LogView::new(false);
    v.set_viewport_height(2);
    for i in 0..5 {
        v.add_log(i.to_string());
    }
    assert_eq!(v.scroll(), 3);
    assert_eq!(v.logs(), strings(&["3", "4"]));
    v.up();
    v.add_log("5".into());
    assert_eq!(v.visible_lines().to_vec(), strings(&["2", "3"]));
    v.down();
    v.down();
    assert!(!v.follow);
    v.down();
    assert!(v.follow);
    v.home();
    assert_eq!(v.scroll(), 0);
    v.page_down();
    assert_eq!(v.scroll(), 2);
    v.page_down();
    assert!(v.follow);
    v.page_up();
    assert_eq!(v.scroll(), 2);
    v.end();
    assert_eq!(v.scroll(), 4);
    assert_eq!(v.scrollbar_state().position, 4);
    v.clear();
    v.set_viewport_height(9);
    assert!(v.logs().is_empty());
    let v = LogView::default();
    assert!(v.follow && !v.debug && v.logs.is_empty());
    assert_eq!((v.scroll, v.viewport_height, v.state), (0, 0, LogView::new(false).state));
}

#[test]
fn clients_register_and_go() {
    let mut s = HmrWebSocket::new(0);
    s.listening_on(4321);
    assert_eq!(s.port, 4321);
    let hello = Incoming::Text(r#"{"name":"web"}"#.into());
    assert_eq!(s.main_loop("1.2.3.4:5", &hello), Connection::Registered);
    assert_eq!(s.main_loop("x", &Incoming::Text(r#"{"id":1}"#.into())), Connection::Kept);
    assert_eq!(s.main_loop("x", &Incoming::Text("hi".into())), Connection::Dropped);
    assert_eq!(s.main_loop("x", &Incoming::Other), Connection::Kept);
    assert_eq!(s.client_manager.send_message_to_all(), strings(&["1.2.3.4:5"]));
    assert_eq!(s.client_manager.clients.get("1.2.3.4:5").unwrap().name, "web");
    assert_eq!(s.client_manager.send_message("web"), None);
    for gone in [Incoming::Close, Incoming::Error, Incoming::End] {
        assert_eq!(s.main_loop("1.2.3.4:5", &gone), Connection::Dropped);
    }
    assert!(s.client_manager.send_message_to_all().is_empty());
    assert!(s.reads_from(1) && !s.reads_from(0));
    assert_eq!(client_name(&parse(r#"{"name":1}"#).unwrap()), None);
}

#[test]
fn a_message_goes_to_the_address_of_a_name() {
    let mut m = HmrWebSocketClientManager::new();
    m.add_client("a", "web");
    m.name_to_addr.insert("web".into(), "a".into());
    assert_eq!(m.send_message("web"), Some("a".to_string()));
    m.remove_client("a");
    assert_eq!(m.send_message("web"), None);
    assert_eq!(HmrWebSocketClient::new("a", "n").addr, "a");
}

fn with_tasks() -> AppState {
    let mut s = AppState::new();
    let mut tasks: StrMap<Vec<String>> = StrMap::new();
    tasks.insert("web:dev".into(), strings(&["lib:dev"]));
    tasks.insert("lib:dev".into(), vec![]);
    tasks.insert("doc:dev".into(), vec![]);
    s.add_tasks(&tasks);
    s
}

fn status(s: &mut AppState, name: &str, status: TaskStatus) {
    let told = s.emit(StateEvent::Status { task_name: name.into(), status });
    assert_eq!(told, Some(StatusChangeEvent::StatusChanged));
}

#[test]
fn events_change_what_is_known() {
    let mut s = with_tasks();
    assert_eq!(s.get_tasks(), strings(&["web:dev", "lib:dev", "doc:dev"]));
    assert!(!s.is_status_changed(false));
    let told = s.emit(StateEvent::Output { task_name: "web:dev".into(), output: "x".into() });
    assert_eq!(told, None);
    s.emit(StateEvent::Output { task_name: "gone".into(), output: "x".into() });
    assert!(s.is_status_changed(true));
    assert!(!s.is_status_changed(true));
    status(&mut s, "web:dev", TaskStatus::Running);
    let t = s.get_task_state("web:dev");
    assert_eq!(t.name(), "web:dev");
    assert_eq!(*t.status(), TaskStatus::Running);
    assert_eq!(t.outputs(), &strings(&["x"]));
    assert!(t.running());
    assert!(s.has_task("web:dev") && !s.has_task("gone"));
    s.add_log(Level::Info, "m".into());
    assert_eq!(s.get_logs().len(), 1);
    s.clear_logs();
    assert!(s.get_logs().is_empty());
    s.emit(StateEvent::Quit);
    assert!(!s.is_running() && !s._failed);
}

#[test]
fn a_changed_project_makes_finished_tasks_start_again() {
    let mut s = with_tasks();
    for t in ["web:dev", "lib:dev", "doc:dev"] {
        status(&mut s, t, TaskStatus::Finished);
    }
    s.emit(StateEvent::FileChanged { task_name: "lib".into() });
    assert_eq!(*s.get_task_state("lib:dev").status(), TaskStatus::Initialized);
    assert_eq!(*s.get_task_state("web:dev").status(), TaskStatus::Initialized);
    assert_eq!(*s.get_task_state("doc:dev").status(), TaskStatus::Finished);
    status(&mut s, "lib:dev", TaskStatus::Running);
    s.emit(StateEvent::FileChanged { task_name: "lib".into() });
    assert_eq!(*s.get_task_state("lib:dev").status(), TaskStatus::Running);
    s.emit(StateEvent::Failed);
    assert!(!s.is_running() && s._failed);
}

#[test]
fn the_plain_record_makes_room() {
    let mut s = state::AppState::new();
    s.add_tasks(&strings(&["a"]));
    s.emit(state::StateEvent::Output { task_name: "b".into(), output: "x".into() });
    assert_eq!(s.get_state().get_output("b"), strings(&["x"]));
    assert!(s.get_state().get_output("c").is_empty());
    assert_eq!(s.get_state().tasks(), &strings(&["a"]));
    assert!(s.get_task_state("b").is_none());
    let a = s.get_task_state("a").unwrap();
    assert_eq!(a.status, state::TaskStatus::Initialized);
    s.emit(state::StateEvent::Quit);
    assert!(!s.get_state().running());
}

#[test]
fn the_waiting_record_tells_of_its_end() {
    let mut s = plexus::test::AppState::new();
    s.add_tasks(&strings(&["a", "a"]));
    assert_eq!(s.get_tasks(), &strings(&["a", "a"]));
    assert!(!s.emit(plexus::test::StateEvent::Output { task_name: "b".into(), output: "x".into() }));
    assert!(!s.emit(plexus::test::StateEvent::Output { task_name: "a".into(), output: "x".into() }));
    assert!(!s.emit(plexus::test::StateEvent::Status {
        task_name: "a".into(),
        status: plexus::test::TaskStatus::Failed,
    }));
    let a = s.get_task_state("a");
    assert_eq!(*a.status(), plexus::test::TaskStatus::Failed);
    assert_eq!(a.outputs(), &strings(&["x"]));
    assert_eq!(a.name(), "a");
    assert!(!a.running());
    assert!(s.emit(plexus::test::StateEvent::Quit));
}
