//! How output is cut into rows, coloured and moved through.

use vstd::prelude::*;

use crate::laws::texts::lemma_begins_with;
use crate::log_pane::PaneView;
use crate::log_pane::all_rows;
use crate::log_pane::color_of;
use crate::log_pane::columns_of;
use crate::log_pane::rows_of;
use crate::log_pane::tab_spaces;
use crate::log_pane::usable;
use crate::log_pane::wrapped;
use crate::log_pane::wrapping;
use crate::log_view::LogViewState;
use crate::log_view::empty_log;

verus! {

/// Whether a text is printable ASCII.
pub open spec fn is_ascii(s: Seq<char>) -> bool {
    forall|i: int| 0 <= i < s.len() ==> ' ' <= #[trigger] s[i] <= '~'
}

spec fn is_cut(line: Seq<char>, width: nat, row: Seq<char>, i: int) -> bool {
    &&& 0 <= i * width
    &&& (i + 1) * width <= line.len()
    &&& row == line.subrange(i * width, (i + 1) * width)
}

proof fn lemma_wrapping_ascii(line: Seq<char>, width: nat)
    requires
        is_ascii(line),
        width > 0,
    ensures
        ({
            let w = wrapping(line, width);
            let n = w.rows.len();
            &&& n * width <= line.len()
            &&& w.current == line.subrange((n * width) as int, line.len() as int)
            &&& w.width == w.current.len()
            &&& w.current.len() <= width
            &&& line.len() > 0 ==> w.current.len() > 0
            &&& forall|i: int| 0 <= i < n ==> is_cut(line, width, #[trigger] w.rows[i], i)
        }),
    decreases line.len(),
{
    let w = wrapping(line, width);
    if line.len() == 0 {
        assert(w.current =~= line.subrange(0, 0));
        assert(w.rows.len() * width == 0) by (nonlinear_arith)
            requires
                w.rows.len() == 0,
        ;
    } else {
        let less = line.drop_last();
        let c = line.last();
        assert forall|i: int| 0 <= i < less.len() implies ' ' <= #[trigger] less[i] <= '~' by {
            assert(less[i] == line[i]);
        }
        lemma_wrapping_ascii(less, width);
        let before = wrapping(less, width);
        let n = before.rows.len();
        assert(line[line.len() - 1] == c);
        assert(c != '\r' && c != '\t');
        assert(columns_of(c) == 1);
        assert forall|i: int| 0 <= i < n implies is_cut(
            line,
            width,
            #[trigger] before.rows[i],
            i,
        ) by {
            let row = before.rows[i];
            assert(is_cut(less, width, row, i));
            assert(i * width <= (i + 1) * width) by (nonlinear_arith);
            assert(row == less.subrange((i * width) as int, ((i + 1) * width) as int));
            assert(less.subrange((i * width) as int, ((i + 1) * width) as int) =~= line.subrange(
                (i * width) as int,
                ((i + 1) * width) as int,
            ));
        }
        if before.width + 1 > width && before.width > 0 {
            assert(before.current.len() == width);
            assert((n + 1) * width == n * width + width) by (nonlinear_arith);
            assert(w.rows == before.rows.push(before.current));
            assert(before.current =~= line.subrange(
                (n * width) as int,
                ((n + 1) * width) as int,
            ));
            assert(w.current =~= line.subrange(((n + 1) * width) as int, line.len() as int));
            assert forall|i: int| 0 <= i < w.rows.len() implies is_cut(
                line,
                width,
                #[trigger] w.rows[i],
                i,
            ) by {
                if i < n {
                    assert(w.rows[i] == before.rows[i]);
                } else {
                    assert(i == n);
                    assert((i + 1) * width == (n + 1) * width);
                }
            }
        } else {
            assert(w.rows == before.rows);
            assert forall|i: int| 0 <= i < w.rows.len() implies is_cut(
                line,
                width,
                #[trigger] w.rows[i],
                i,
            ) by {
                assert(w.rows[i] == before.rows[i]);
            }
            assert(w.current =~= line.subrange((n * width) as int, line.len() as int));
        }
    }
}

/// A line of printable ASCII is cut into rows that are as wide as there is room, the last one
/// excepted, which holds the rest.
pub proof fn lemma_cut_into_rows(line: Seq<char>, width: u16, i: int)
    requires
        is_ascii(line),
        width > 0,
        0 <= i < wrapped(line, width).len(),
    ensures
        ({
            let rows = wrapped(line, width);
            &&& 0 <= i * width <= line.len()
            &&& i < rows.len() - 1 ==> (i + 1) * width <= line.len() && rows[i] == line.subrange(
                i * width,
                (i + 1) * width,
            )
            &&& i == rows.len() - 1 ==> rows[i] == line.subrange(i * width, line.len() as int)
                && rows[i].len() <= width && (line.len() > 0 ==> rows[i].len() > 0)
        }),
{
    lemma_wrapping_ascii(line, usable(width));
    let w = wrapping(line, usable(width));
    if i < w.rows.len() {
        assert(w.rows[i] == wrapped(line, width)[i]);
        assert(is_cut(line, usable(width), w.rows[i], i));
        assert(i * width <= (i + 1) * width) by (nonlinear_arith);
    }
}

/// A tab reaches to the next stop, which are four columns apart, and is never without width.
pub proof fn lemma_tab_spaces(at: nat)
    ensures
        (at + tab_spaces(at)) % 4 == 0,
        1 <= tab_spaces(at) <= 4,
{
}

/// A line is red where it is marked as an error, yellow where it is marked as a warning, green
/// where it is marked as information and white else.
pub proof fn lemma_color_of(line: Seq<char>, rest: Seq<char>)
    ensures
        line == "[ERR]"@ + rest ==> color_of(line) is Red,
        line == "[WARN]"@ + rest ==> color_of(line) is Yellow,
        line == "[INFO]"@ + rest ==> color_of(line) is Green,
        line.len() == 0 || line[0] != '[' ==> color_of(line) is White,
        line.len() > 1 && line[1] != 'E' && line[1] != 'W' && line[1] != 'I' ==> color_of(line)
            is White,
{
    reveal_strlit("[ERR]");
    reveal_strlit("[WARN]");
    reveal_strlit("[INFO]");
    lemma_begins_with(line, "[ERR]"@);
    lemma_begins_with(line, "[WARN]"@);
    lemma_begins_with(line, "[INFO]"@);
    assert("[ERR]"@[1] == 'E' && "[WARN]"@[1] == 'W' && "[INFO]"@[1] == 'I');
    assert(line.len() >= 5 ==> line.take(5)[0] == line[0] && line.take(5)[1] == line[1]);
    assert(line.len() >= 6 ==> line.take(6)[0] == line[0] && line.take(6)[1] == line[1]);
}

/// Every row of a line has the colour of the line.
pub proof fn lemma_rows_of(line: Seq<char>, width: u16, i: int)
    requires
        0 <= i < wrapped(line, width).len(),
    ensures
        rows_of(line, width).len() == wrapped(line, width).len(),
        rows_of(line, width)[i].0 == wrapped(line, width)[i],
        rows_of(line, width)[i].1 == color_of(line),
{
}

/// The rows of several lines are those of each, in their order.
pub proof fn lemma_all_rows(lines: Seq<Seq<char>>, line: Seq<char>, width: u16)
    ensures
        all_rows(Seq::empty(), width).len() == 0,
        all_rows(lines.push(line), width) == all_rows(lines, width) + rows_of(line, width),
{
    assert(lines.push(line).drop_last() =~= lines);
}

/// What a pane shows are its rows from where it stands on, as many as it is high.
pub proof fn lemma_pane_shows(pane: PaneView, i: int)
    requires
        pane.scroll <= pane.rows.len(),
    ensures
        pane.shown().len() == (if pane.rows.len() - pane.scroll < pane.viewport_height {
            pane.rows.len() - pane.scroll
        } else {
            pane.viewport_height as int
        }),
        0 <= i < pane.shown().len() ==> pane.shown()[i] == pane.rows[pane.scroll + i],
{
}

/// A pane that is brought in line with a log takes the new size. One that follows stands at the
/// end, and any other where it stood, as far as that is not behind the end.
pub proof fn lemma_pane_synced(pane: PaneView, logs: Seq<Seq<char>>, width: u16, height: u16)
    ensures
        ({
            let after = pane.synced(logs, width, height);
            let most = if after.rows.len() > height {
                after.rows.len() - height
            } else {
                0
            };
            &&& after.raw_len == logs.len()
            &&& after.wrap_width == width
            &&& after.viewport_height == height
            &&& after.follow == pane.follow
            &&& pane.follow ==> after.scroll == most
            &&& !pane.follow && pane.scroll <= most ==> after.scroll == pane.scroll
            &&& !pane.follow && pane.scroll > most ==> after.scroll == most
            &&& width != pane.wrap_width || logs.len() < pane.raw_len ==> after.rows == all_rows(
                logs,
                width,
            )
        }),
{
}

/// How far a window of a log can move down.
pub open spec fn furthest(v: LogViewState) -> int {
    if v.logs.len() > v.viewport_height {
        v.logs.len() - v.viewport_height
    } else {
        0
    }
}

/// Moves of a window by a line or by its own height stop at either end. Those up let it no longer
/// follow; those that reach the end let it follow. They change neither the log nor the height.
pub proof fn lemma_window_moves(v: LogViewState)
    requires
        v.scroll <= furthest(v),
    ensures
        v.up().scroll == (if v.scroll > 0 {
            v.scroll - 1
        } else {
            0
        }),
        !v.up().follow,
        v.scroll < furthest(v) ==> v.down().scroll == v.scroll + 1 && v.down().follow == v.follow,
        v.scroll == furthest(v) ==> v.down().scroll == v.scroll && v.down().follow,
        v.page_up().scroll == (if v.scroll > v.viewport_height {
            v.scroll - v.viewport_height
        } else {
            0
        }),
        !v.page_up().follow,
        v.scroll + v.viewport_height < furthest(v) ==> v.page_down().scroll == v.scroll
            + v.viewport_height && v.page_down().follow == v.follow,
        v.scroll + v.viewport_height >= furthest(v) ==> v.page_down().scroll == furthest(v)
            && v.page_down().follow,
        v.home().scroll == 0 && !v.home().follow,
        v.end().scroll == furthest(v) && v.end().follow,
        v.up().logs == v.logs && v.up().viewport_height == v.viewport_height,
        v.down().logs == v.logs && v.down().viewport_height == v.viewport_height,
        v.page_up().logs == v.logs && v.page_up().viewport_height == v.viewport_height,
        v.page_down().logs == v.logs && v.page_down().viewport_height == v.viewport_height,
        v.home().logs == v.logs && v.home().viewport_height == v.viewport_height,
        v.end().logs == v.logs && v.end().viewport_height == v.viewport_height,
{
}

/// What a window shows are the lines from where it stands on, as many as it is high.
pub proof fn lemma_window_shows(v: LogViewState, i: int)
    requires
        v.scroll <= v.logs.len(),
    ensures
        v.window().len() == (if v.logs.len() - v.scroll < v.viewport_height {
            v.logs.len() - v.scroll
        } else {
            v.viewport_height as int
        }),
        0 <= i < v.window().len() ==> v.window()[i] == v.logs[v.scroll + i],
{
}

/// A line comes last. A window that follows moves to the end, any other stays. A log that is
/// cleared has no lines, and one of another height stays where it is unless that is behind the
/// end.
pub proof fn lemma_log_changes(v: LogViewState, line: Seq<char>, height: nat)
    ensures
        v.add_log(line).logs == v.logs.push(line),
        v.add_log(line).follow == v.follow,
        v.add_log(line).viewport_height == v.viewport_height,
        !v.follow ==> v.add_log(line).scroll == v.scroll,
        v.follow ==> v.add_log(line).scroll == furthest(v.add_log(line)),
        v.clear().logs.len() == 0,
        v.clear().follow == v.follow,
        v.clear().scroll == v.scroll,
        v.resize(height).viewport_height == height,
        v.resize(height).logs == v.logs,
        v.resize(height).follow == v.follow,
        v.scroll <= furthest(v.resize(height)) ==> v.resize(height).scroll == v.scroll,
        v.scroll > furthest(v.resize(height)) ==> v.resize(height).scroll == furthest(
            v.resize(height),
        ),
        empty_log().logs.len() == 0,
        empty_log().follow,
        empty_log().scroll == 0,
{
}

/// The scrollbar of a window tells how many lines there are, how many of them the window shows
/// and where it stands.
pub proof fn lemma_scrollbar(v: LogViewState)
    requires
        v.logs.len() <= usize::MAX,
        v.scroll <= furthest(v),
    ensures
        v.with_bar().state.content_length == v.logs.len(),
        v.with_bar().state.viewport_content_length == (if v.viewport_height <= v.logs.len() {
            v.viewport_height
        } else {
            v.logs.len()
        }),
        v.with_bar().state.position == v.scroll,
        v.with_bar().logs == v.logs,
        v.with_bar().scroll == v.scroll,
        v.with_bar().follow == v.follow,
{
}

} // verus!
