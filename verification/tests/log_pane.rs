//! The log pane and the focus stack of the terminal interface.

use plexus::log_pane::{wrap_line, LogPane};
use plexus::tui_managerv2::{Focus, State};

fn pane_with(logs: &[&str], width: u16, height: u16) -> (LogPane, Vec<String>) {
    let logs: Vec<String> = logs.iter().map(|s| s.to_string()).collect();
    let mut pane = LogPane::new();
    pane.sync(&logs, width, height);
    (pane, logs)
}

#[test]
fn wraps_by_display_width() {
    assert_eq!(wrap_line("abcdef", 3), vec!["abc", "def"]);
    assert_eq!(wrap_line("abcd", 4), vec!["abcd"]);
    // An empty line still takes a row.
    assert_eq!(wrap_line("", 10), vec![""]);
    // Wide characters count as two columns.
    assert_eq!(wrap_line("日本語", 4), vec!["日本", "語"]);
}

#[test]
fn tabs_expand_before_measuring() {
    assert_eq!(wrap_line("\tx", 8), vec!["    x"]);
}

#[test]
fn follow_shows_the_real_last_row() {
    // Three source lines, each wrapping to two rows, in a viewport four rows tall: the view
    // starts at row 6 - 4 = 2.
    let (pane, _) = pane_with(&["aaaabbbb", "ccccdddd", "eeeeffff"], 4, 4);
    assert_eq!(pane.rows.len(), 6);
    assert_eq!(pane.scroll, 2);
    let visible: Vec<&str> = pane.visible().iter().map(|(r, _)| r.as_str()).collect();
    assert_eq!(visible, vec!["cccc", "dddd", "eeee", "ffff"]);
    // The last visible row really is the last row of the log.
    assert_eq!(visible.last(), Some(&pane.rows.last().unwrap().0.as_str()));
}

#[test]
fn visible_never_exceeds_the_viewport() {
    let (pane, _) = pane_with(&["aaaabbbbcccc", "dddd"], 4, 2);
    assert_eq!(pane.rows.len(), 4);
    assert_eq!(pane.visible().len(), 2);
}

#[test]
fn end_reaches_the_bottom_and_home_the_top() {
    let (mut pane, _) = pane_with(&["aaaabbbb", "ccccdddd"], 4, 2);
    pane.home();
    assert_eq!(pane.scroll, 0);
    assert!(!pane.follow);
    pane.end();
    assert_eq!(pane.scroll, pane.max_scroll());
    assert_eq!(pane.scroll, 2);
    assert!(pane.follow);
}

#[test]
fn a_paused_pane_keeps_its_offset_as_output_arrives() {
    let mut logs: Vec<String> = vec!["aaaa".into(), "bbbb".into(), "cccc".into(), "dddd".into()];
    let mut pane = LogPane::new();
    pane.sync(&logs, 4, 2);
    pane.up(1); // stop following
    let parked = pane.scroll;
    logs.push("eeee".into());
    pane.sync(&logs, 4, 2);
    assert_eq!(pane.scroll, parked, "new output must not yank a paused view");
    assert_eq!(pane.rows.len(), 5);
}

#[test]
fn scrolling_back_to_the_bottom_re_arms_follow() {
    let logs: Vec<String> = vec!["a".into(), "b".into(), "c".into(), "d".into()];
    let mut pane = LogPane::new();
    pane.sync(&logs, 10, 2);
    pane.up(2);
    assert!(!pane.follow);
    pane.down(2);
    assert!(pane.follow);
    assert_eq!(pane.scroll, pane.max_scroll());
}

#[test]
fn resizing_rewraps_and_keeps_the_view_valid() {
    let logs: Vec<String> = vec!["aaaabbbb".into(), "ccccdddd".into()];
    let mut pane = LogPane::new();
    pane.sync(&logs, 4, 4);
    assert_eq!(pane.rows.len(), 4);
    pane.sync(&logs, 8, 4);
    assert_eq!(pane.rows.len(), 2);
    assert!(pane.scroll <= pane.max_scroll());
}

#[test]
fn a_truncated_log_resets_the_pane() {
    let logs: Vec<String> = vec!["a".into(), "b".into(), "c".into()];
    let mut pane = LogPane::new();
    pane.sync(&logs, 10, 2);
    assert_eq!(pane.rows.len(), 3);
    pane.sync(&logs[..1].to_vec(), 10, 2);
    assert_eq!(pane.rows.len(), 1);
    assert_eq!(pane.scroll, 0);
}

#[test]
fn focus_stack_restores_the_previous_keymap() {
    let mut state = State::new();
    assert_eq!(state.focus(), Focus::Tasks);
    state.push_focus(Focus::Logs);
    assert_eq!(state.focus(), Focus::Logs);
    assert_ne!(Focus::Logs.keymap(), Focus::Tasks.keymap());
    state.pop_focus();
    assert_eq!(state.focus(), Focus::Tasks);
    // The base window can never be popped off.
    state.pop_focus();
    assert_eq!(state.focus(), Focus::Tasks);
}

#[test]
fn a_tab_is_no_wider_than_the_pane() {
    assert_eq!(wrap_line("\tx", 3), vec!["   ", " x"]);
    assert_eq!(wrap_line("\tx", 4), vec!["    ", "x"]);
    assert_eq!(wrap_line("\t", 1), vec![" ", " ", " ", " "]);
    assert_eq!(wrap_line("ab\tx", 8), vec!["ab  x"]);
    assert_eq!(wrap_line("ab\tx", 3), vec!["ab", "  x"]);
    assert_eq!(wrap_line("a\t\tb", 2), vec!["a", "  ", " ", "  ", " b"]);
}
