//! What paths stand for, which program is called, and where things are drawn.

use vstd::prelude::*;

use crate::classic::tui::TuiTaskView;
use crate::classic::tui::shares as classic_shares;
use crate::classic::tui::task_entry as classic_entry;
use crate::clock::seconds;
use crate::config::relative_path;
use crate::globs::path_tail;
use crate::globs::reads_alike;
use crate::json::JsonView;
use crate::json::field_of;
use crate::layout::Constraint;
use crate::log_pane::Color;
use crate::log_pane::color_of;
use crate::log_view::LogViewState;
use crate::pnpm::LoadStepView;
use crate::pnpm::LookupView;
use crate::pnpm::after_listing;
use crate::pnpm::next_step;
use crate::pnpm_bin::full_path;
use crate::pnpm_bin::resolve;
use crate::text;
use crate::tui_manager::boxed;
use crate::tui_manager::shares;
use crate::tui_view::centred;
use crate::tui_view::entry_spans;
use crate::tui_view::inside_border;
use crate::watch_managerv2::glob_path;

verus! {

/// A character of a path, as it is told everywhere.
pub open spec fn slashed(c: char) -> char {
    if c == '\\' {
        '/'
    } else {
        c
    }
}

/// Whether a path has the prefix of a verbatim path, with whichever separators.
pub open spec fn is_verbatim(path: Seq<char>) -> bool {
    path.len() >= 4 && slashed(path[0]) == '/' && slashed(path[1]) == '/' && path[2] == '?'
        && slashed(path[3]) == '/'
}

/// Paths are told with one separator, and without the prefix of a verbatim path. Nothing else of
/// them changes.
pub proof fn lemma_glob_path(path: Seq<char>, i: int)
    ensures
        is_verbatim(path) ==> glob_path(path).len() == path.len() - 4,
        !is_verbatim(path) ==> glob_path(path).len() == path.len(),
        is_verbatim(path) && 0 <= i < path.len() - 4 ==> glob_path(path)[i] == slashed(path[i + 4]),
        !is_verbatim(path) && 0 <= i < path.len() ==> glob_path(path)[i] == slashed(path[i]),
{
    reveal_strlit("//?/");
    let s = text::with_char(path, '\\', '/');
    let prefix = "//?/"@;
    assert(prefix.len() == 4);
    assert(prefix[0] == '/' && prefix[1] == '/' && prefix[2] == '?' && prefix[3] == '/');
    if path.len() >= 4 {
        assert(s[0] == slashed(path[0]) && s[1] == slashed(path[1]));
        assert(s[2] == slashed(path[2]) && s[3] == slashed(path[3]));
        if is_verbatim(path) {
            assert(s.take(4) =~= prefix);
        } else if s.take(4) == prefix {
            assert(s.take(4)[0] == s[0] && s.take(4)[1] == s[1]);
            assert(s.take(4)[2] == s[2] && s.take(4)[3] == s[3]);
        }
    }
}

/// A path that begins at a root, or at that of a drive, is taken as it is; any other is taken
/// from the directory that it is seen from.
pub proof fn lemma_full_path(path: Seq<char>, current: Seq<char>)
    ensures
        path.len() > 0 && (path[0] == '/' || path[0] == '\\') ==> full_path(path, current) == path,
        path.len() > 2 && ('a' <= path[0] <= 'z' || 'A' <= path[0] <= 'Z') && path[1] == ':' && (
        path[2] == '/' || path[2] == '\\') ==> full_path(path, current) == path,
        path.len() > 0 && path[0] != '/' && path[0] != '\\' && (path.len() == 1 || path[1] != ':')
            ==> full_path(path, current) == current + "/"@ + path,
        path.len() == 0 ==> full_path(path, current) == current + "/"@,
{
    if path.len() == 0 {
        assert(current + "/"@ + path =~= current + "/"@);
    }
}

/// The program that is called is the one that the user chose, where that is a file, and else the
/// one that was found. Where there is neither the reason is told.
pub proof fn lemma_resolve(
    custom: Option<(&str, &str, bool)>,
    found: &Result<String, String>,
    current: &str,
    r: Result<String, String>,
)
    requires
        call_ensures(resolve, (custom, found, current), r),
    ensures
        custom matches Some((path, shown, is_file)) ==> (is_file ==> r is Ok && r->Ok_0@
            == full_path(path@, current@)),
        !(custom matches Some((path, shown, is_file)) && is_file) ==> match *found {
            Ok(p) => r is Ok && r->Ok_0@ == full_path(p@, current@),
            Err(e) => r is Err && (custom is None ==> r->Err_0@ == "could not find pnpm on PATH ("@
                + e@
                + "). Install pnpm, or set PLEXUS_PNPM to the full path of the pnpm executable."@),
        },
        custom matches Some((path, shown, is_file)) ==> (!is_file && *found is Err ==> r->Err_0@
            == "PLEXUS_PNPM is set to "@ + shown@ + " but it could not be used: "@
            + found->Err_0@),
{
}

/// The path of a project is told with one separator: from the workspace on where it lies below
/// it, and else as it is.
pub proof fn lemma_relative_path(path: &str, workspace: &str, r: String)
    requires
        call_ensures(relative_path, (path, workspace), r),
    ensures
        ({
            let p = path@.map_values(|c: char| slashed(c));
            let w = workspace@.map_values(|c: char| slashed(c));
            &&& !r@.contains('\\')
            &&& reads_alike(p, w) && path_tail(p, w) is None ==> r@ == p
            &&& reads_alike(p, w) && path_tail(p, w) is Some ==> r@ == path_tail(p, w)->0
        }),
{
    let p = path@.map_values(|c: char| slashed(c));
    let w = workspace@.map_values(|c: char| slashed(c));
    assert(p =~= text::with_char(path@, '\\', '/'));
    assert(w =~= text::with_char(workspace@, '\\', '/'));
}

/// Whole seconds are counted from the earlier time on, without their fractions.
pub proof fn lemma_seconds(later: int, earlier: int)
    ensures
        later >= earlier ==> seconds(later, earlier) * 1_000_000_000 <= later - earlier < (seconds(
            later,
            earlier,
        ) + 1) * 1_000_000_000,
        seconds(earlier, later) == -seconds(later, earlier),
{
}

/// What a listing names is looked up next, one deeper than what led to it. Lookups that are done
/// are left behind.
pub proof fn lemma_after_listing(l: Seq<LookupView>, items: Seq<JsonView>)
    requires
        items.len() > 0,
    ensures
        ({
            let after = after_listing(l, JsonView::Array(items));
            &&& after.len() == l.len() + 1
            &&& after.take(l.len() as int) == l
            &&& after.last().items == items
            &&& after.last().done == 0
            &&& l.len() == 0 ==> after.last().depth == 0
            &&& l.len() > 0 ==> after.last().depth == l.last().depth + 1
            &&& field_of(items[0], "path"@) matches Some(JsonView::Str(path)) ==> next_step(after)
                == LoadStepView::Read(path)
        }),
        next_step(Seq::empty()) == LoadStepView::Done,
{
    let after = after_listing(l, JsonView::Array(items));
    assert(after.take(l.len() as int) =~= l);
}

/// A border takes one column, or row, at either end, where there is room for it.
pub proof fn lemma_inside_border(n: u16)
    ensures
        n >= 2 ==> inside_border(n) == n - 2,
        n < 2 ==> inside_border(n) == 0,
{
}

/// A box shows the lines of its window that fit inside its border, each in its colour, and tells
/// its keys where keys go to it.
pub proof fn lemma_boxed(
    v: LogViewState,
    height: u16,
    title: Seq<char>,
    selected: bool,
    i: int,
)
    requires
        height >= 2,
    ensures
        ({
            let (w, shown) = boxed(v, height, title, selected);
            &&& w.viewport_height == height - 2
            &&& w.logs == v.logs
            &&& w.follow == v.follow
            &&& shown.selected == selected
            &&& !selected ==> shown.title == title
            &&& selected ==> shown.title == title + " (f: follow, ↑/PgUp, ↓/PgDn, Home, End)"@
            &&& shown.lines.len() == w.window().len()
            &&& 0 <= i < w.window().len() ==> shown.lines[i].0 == w.window()[i]
                && shown.lines[i].1 == color_of(w.window()[i])
            &&& shown.state == w.state
        }),
{
}

/// The messages take three tenths of the height where they are shown, and nothing where they are
/// hidden.
pub proof fn lemma_shares()
    ensures
        shares(true) == seq![Constraint::Percentage(70), Constraint::Percentage(30)],
        shares(false) == seq![Constraint::Percentage(100), Constraint::Percentage(0)],
        classic_shares(true).0 == seq![Constraint::Percentage(70), Constraint::Percentage(30)],
        classic_shares(true).1 == seq![Constraint::Percentage(67), Constraint::Percentage(33)],
        classic_shares(false).0 == seq![Constraint::Percentage(90), Constraint::Percentage(10)],
        classic_shares(false).1 == seq![Constraint::Percentage(0), Constraint::Percentage(100)],
{
}

/// A box in the middle has as much room before it as behind it, give or take one, where there is
/// room for it.
pub proof fn lemma_centred(available: u16, size: u16)
    ensures
        centred(available, size).len() == 3,
        centred(available, size)[1] == Constraint::Length(size),
        centred(available, size)[2] == Constraint::Min(0),
        available <= size ==> centred(available, size)[0] == Constraint::Length(0),
        available > size ==> (centred(available, size)[0] matches Constraint::Length(before) && 2
            * before <= available - size <= 2 * before + 1),
{
}

/// A shortcut is yellow and bold before what it does; a message stands alone and is dark gray.
pub proof fn lemma_entry_spans(key: Seq<char>, does: Seq<char>)
    ensures
        key.len() > 0 ==> entry_spans((key, does)).len() == 3 && entry_spans((key, does))[0].content
            == key && entry_spans((key, does))[0].fg == Some(Color::Yellow) && entry_spans(
            (key, does),
        )[0].bold && entry_spans((key, does))[1].content == " "@ && entry_spans(
            (key, does),
        )[2].content == does,
        key.len() == 0 ==> entry_spans((key, does)).len() == 1 && entry_spans(
            (key, does),
        )[0].content == does && entry_spans((key, does))[0].fg == Some(Color::DarkGray),
{
}

/// In the list with one task for each project a task is shown as running exactly where it does,
/// and in yellow where it is selected.
pub proof fn lemma_classic_entry(task: TuiTaskView, selected: bool)
    ensures
        task.status is Running ==> classic_entry(task, selected).content == "● RUNNING"@ + " "@
            + task.name,
        !(task.status is Running) ==> classic_entry(task, selected).content == "○ STOPPED"@ + " "@
            + task.name,
        selected ==> classic_entry(task, selected).fg == Some(Color::Yellow) && classic_entry(
            task,
            selected,
        ).bold,
        !selected ==> classic_entry(task, selected).fg is None && !classic_entry(
            task,
            selected,
        ).bold,
{
}

} // verus!
