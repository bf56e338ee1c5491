//! One scrollable view of a log, counted in rendered rows rather than in source lines.

use vstd::prelude::*;

use crate::text;

verus! {

/// The colours that are used on the terminal.
#[derive(Debug, Clone, Copy, PartialEq, Eq, Structural)]
pub enum Color {
    Red,
    Yellow,
    Green,
    White,
    LightRed,
    Gray,
    DarkGray,
}

/// Columns a tab character expands to before wrapping measures the line.
pub const TAB_WIDTH: usize = 4;

/// How many columns a character takes that is neither ASCII nor a control character.
pub uninterp spec fn wide_char_width(c: char) -> usize;

/// How many columns a character takes: nothing is said of control characters.
pub open spec fn char_width(c: char) -> Option<usize> {
    if c <= '\u{1f}' || '\u{7f}' <= c <= '\u{9f}' {
        None
    } else if c <= '\u{7e}' {
        Some(1)
    } else {
        Some(wide_char_width(c))
    }
}

/// `unicode_width::UnicodeWidthChar::width`: how many columns a character takes. Printable
/// ASCII takes one, control characters have no width, and what the tables say of all others
/// depends on the character alone and is at most three.
#[verifier::external_body]
fn width_of(c: char) -> (r: Option<usize>)
    ensures
        r == char_width(c),
        c >= '\u{a0}' ==> r == Some(wide_char_width(c)),
        r matches Some(w) ==> w <= 3,
{
    unicode_width::UnicodeWidthChar::width(c)
}

/// How many columns a character is counted as.
pub open spec fn columns_of(c: char) -> nat {
    match char_width(c) {
        Some(w) => w as nat,
        None => 0,
    }
}

/// How many columns a text takes.
pub open spec fn columns(s: Seq<char>) -> nat
    decreases s.len(),
{
    if s.len() == 0 {
        0
    } else {
        columns(s.drop_last()) + columns_of(s.last())
    }
}

/// A line that is being wrapped: the rows that are full, the row under way and its width.
#[verifier::ext_equal]
pub struct Wrapping {
    pub rows: Seq<Seq<char>>,
    pub current: Seq<char>,
    pub width: nat,
}

/// One more character that takes `taken` columns: it starts a new row where it does not fit,
/// unless the row is still empty.
pub open spec fn put(w: Wrapping, c: char, taken: nat, width: nat) -> Wrapping {
    if w.width + taken > width && w.width > 0 {
        Wrapping { rows: w.rows.push(w.current), current: seq![c], width: taken }
    } else {
        Wrapping { rows: w.rows, current: w.current.push(c), width: w.width + taken }
    }
}

/// `n` spaces more.
pub open spec fn put_spaces(w: Wrapping, n: nat, width: nat) -> Wrapping
    decreases n,
{
    if n == 0 {
        w
    } else {
        put(put_spaces(w, (n - 1) as nat, width), ' ', 1, width)
    }
}

/// How many spaces a tab stands for in a row that is `at` columns wide: those up to the next
/// stop.
pub open spec fn tab_spaces(at: nat) -> nat {
    (TAB_WIDTH - at % (TAB_WIDTH as nat)) as nat
}

/// One more character. A tab becomes spaces; where these do not fit they start a new row, and
/// where a whole row is too narrow for them they go on in the next one. Carriage returns are
/// dropped.
pub open spec fn wrap_step(w: Wrapping, c: char, width: nat) -> Wrapping {
    if c == '\r' {
        w
    } else if c == '\t' {
        let n = tab_spaces(w.width);
        let start = if w.width + n > width && w.width > 0 {
            Wrapping { rows: w.rows.push(w.current), current: Seq::empty(), width: 0 }
        } else {
            w
        };
        put_spaces(start, n, width)
    } else {
        put(w, c, columns_of(c), width)
    }
}

/// The state of wrapping after all of `line`.
pub open spec fn wrapping(line: Seq<char>, width: nat) -> Wrapping
    decreases line.len(),
{
    if line.len() == 0 {
        Wrapping { rows: Seq::empty(), current: Seq::empty(), width: 0 }
    } else {
        wrap_step(wrapping(line.drop_last(), width), line.last(), width)
    }
}

/// The number of columns that rows may have: at least one.
pub open spec fn usable(width: u16) -> nat {
    if width == 0 {
        1
    } else {
        width as nat
    }
}

/// The rows of a line.
pub open spec fn wrapped(line: Seq<char>, width: u16) -> Seq<Seq<char>> {
    let w = wrapping(line, usable(width));
    w.rows.push(w.current)
}

/// How many columns the widest character of a text takes.
pub open spec fn widest(s: Seq<char>) -> nat
    decreases s.len(),
{
    if s.len() == 0 {
        0
    } else if columns_of(s.last()) > widest(s.drop_last()) {
        columns_of(s.last())
    } else {
        widest(s.drop_last())
    }
}

/// How wide a row can be: as wide as the pane, or as the widest character where that is wider.
pub open spec fn row_limit(line: Seq<char>, width: nat) -> nat {
    if widest(line) > width {
        widest(line)
    } else {
        width
    }
}

fn put_char(out: &mut Vec<String>, current: &mut String, at: usize, c: char, taken: usize, limit:
    usize) -> (r: usize)
    requires
        at + taken <= usize::MAX,
    ensures
        ({
            let w = Wrapping {
                rows: text::texts(old(out)@),
                current: old(current)@,
                width: at as nat,
            };
            let next = put(w, c, taken as nat, limit as nat);
            text::texts(final(out)@) == next.rows && final(current)@ == next.current && r
                == next.width
        }),
{
    if at + taken > limit && at > 0 {
        let ghost before = out@;
        let full = current.clone();
        out.push(full);
        assert(text::texts(out@) =~= text::texts(before).push(old(current)@));
        let mut row = String::new();
        row.push(c);
        *current = row;
        assert(current@ =~= seq![c]);
        taken
    } else {
        current.push(c);
        at + taken
    }
}

/// Hard-wraps one source line into rows no wider than `width` display columns. An empty line
/// still takes a row; a character that is wider than a whole row gets a row of its own.
pub fn wrap_line(line: &str, width: u16) -> (out: Vec<String>)
    ensures
        text::texts(out@) == wrapped(line@, width),
        forall|i: int|
            0 <= i < out@.len() ==> columns(#[trigger] out@[i]@) <= row_limit(
                line@,
                usable(width),
            ),
        widest(line@) <= 3,
{
    let limit: usize = if width == 0 {
        1
    } else {
        width as usize
    };
    let cs = text::chars_of(line);
    let mut out: Vec<String> = Vec::new();
    let mut current = String::new();
    let mut current_width: usize = 0;
    let mut i: usize = 0;
    assert(text::texts(out@) =~= wrapping(cs@.take(0), limit as nat).rows);
    while i < cs.len()
        invariant
            i <= cs@.len(),
            cs@ == line@,
            limit == usable(width),
            1 <= limit <= u16::MAX,
            current_width <= limit || current_width <= TAB_WIDTH,
            widest(cs@.take(i as int)) <= 3,
            text::texts(out@) == wrapping(cs@.take(i as int), limit as nat).rows,
            current@ == wrapping(cs@.take(i as int), limit as nat).current,
            current_width == wrapping(cs@.take(i as int), limit as nat).width,
        decreases cs@.len() - i,
    {
        let c = cs[i];
        let ghost w = wrapping(cs@.take(i as int), limit as nat);
        proof {
            assert(cs@.take(i + 1).drop_last() =~= cs@.take(i as int));
            assert(cs@.take(i + 1).last() == c);
        }
        if c == '\t' {
            let n: usize = TAB_WIDTH - current_width % TAB_WIDTH;
            if current_width + n > limit && current_width > 0 {
                let ghost before = out@;
                out.push(current);
                assert(text::texts(out@) =~= text::texts(before).push(w.current));
                current = String::new();
                current_width = 0;
            }
            let ghost start = Wrapping {
                rows: text::texts(out@),
                current: current@,
                width: current_width as nat,
            };
            let mut k: usize = 0;
            while k < n
                invariant
                    k <= n,
                    1 <= limit <= u16::MAX,
                    current_width <= limit || current_width <= TAB_WIDTH,
                    text::texts(out@) == put_spaces(start, k as nat, limit as nat).rows,
                    current@ == put_spaces(start, k as nat, limit as nat).current,
                    current_width == put_spaces(start, k as nat, limit as nat).width,
                decreases n - k,
            {
                current_width = put_char(&mut out, &mut current, current_width, ' ', 1, limit);
                k += 1;
            }
        } else if c != '\r' {
            let taken: usize = match width_of(c) {
                Some(n) => n,
                None => 0,
            };
            current_width = put_char(&mut out, &mut current, current_width, c, taken, limit);
        }
        i += 1;
    }
    assert(cs@.take(i as int) =~= cs@);
    let ghost before = out@;
    let ghost last = current@;
    out.push(current);
    proof {
        assert(text::texts(out@) =~= text::texts(before).push(last));
        lemma_rows_fit(line@, width);
        assert forall|k: int| 0 <= k < out@.len() implies columns(#[trigger] out@[k]@)
            <= row_limit(line@, usable(width)) by {
            assert(wrapped(line@, width)[k] == out@[k]@);
        }
    }
    out
}

/// The colour of a line of output, told by its mark.
pub open spec fn color_of(line: Seq<char>) -> Color {
    if text::begins_with(line, "[ERR]"@) {
        Color::Red
    } else if text::begins_with(line, "[WARN]"@) {
        Color::Yellow
    } else if text::begins_with(line, "[INFO]"@) {
        Color::Green
    } else {
        Color::White
    }
}

/// The colour of a line of output.
pub fn line_color(line: &str) -> (r: Color)
    ensures
        r == color_of(line@),
{
    if text::starts_with(line, "[ERR]") {
        Color::Red
    } else if text::starts_with(line, "[WARN]") {
        Color::Yellow
    } else if text::starts_with(line, "[INFO]") {
        Color::Green
    } else {
        Color::White
    }
}

/// What a scrollbar shows.
#[derive(Debug, Clone, Copy, PartialEq, Eq, Structural)]
pub struct ScrollbarState {
    pub content_length: usize,
    pub viewport_content_length: usize,
    pub position: usize,
}

impl ScrollbarState {
    /// A scrollbar of nothing.
    pub fn new() -> (r: Self)
        ensures
            r == (ScrollbarState { content_length: 0, viewport_content_length: 0, position: 0 }),
    {
        ScrollbarState { content_length: 0, viewport_content_length: 0, position: 0 }
    }
}

/// One scrollable log view.
pub struct LogPane {
    pub rows: Vec<(String, Color)>,
    /// How many source lines have already been wrapped into `rows`.
    pub raw_len: usize,
    pub wrap_width: u16,
    pub scroll: usize,
    pub viewport_height: usize,
    pub follow: bool,
    pub sb: ScrollbarState,
}

/// What a [`LogPane`] holds.
#[verifier::ext_equal]
pub struct PaneView {
    pub rows: Seq<(Seq<char>, Color)>,
    pub raw_len: nat,
    pub wrap_width: u16,
    pub scroll: nat,
    pub viewport_height: nat,
    pub follow: bool,
    pub sb: ScrollbarState,
}

/// Rows with their colours, as texts.
pub open spec fn rows_view(v: Seq<(String, Color)>) -> Seq<(Seq<char>, Color)> {
    v.map_values(|r: (String, Color)| (r.0@, r.1))
}

impl View for LogPane {
    type V = PaneView;

    open spec fn view(&self) -> PaneView {
        PaneView {
            rows: rows_view(self.rows@),
            raw_len: self.raw_len as nat,
            wrap_width: self.wrap_width,
            scroll: self.scroll as nat,
            viewport_height: self.viewport_height as nat,
            follow: self.follow,
            sb: self.sb,
        }
    }
}

/// The rows of one line of a log, in its colour.
pub open spec fn rows_of(line: Seq<char>, width: u16) -> Seq<(Seq<char>, Color)> {
    wrapped(line, width).map_values(|r: Seq<char>| (r, color_of(line)))
}

/// The rows of a whole log.
pub open spec fn all_rows(lines: Seq<Seq<char>>, width: u16) -> Seq<(Seq<char>, Color)>
    decreases lines.len(),
{
    if lines.len() == 0 {
        Seq::empty()
    } else {
        all_rows(lines.drop_last(), width) + rows_of(lines.last(), width)
    }
}

impl PaneView {
    /// The greatest offset: where the last row stands at the bottom.
    pub open spec fn max_scroll(self) -> nat {
        if self.rows.len() > self.viewport_height {
            (self.rows.len() - self.viewport_height) as nat
        } else {
            0
        }
    }

    /// The pane at another offset, with its scrollbar in line.
    pub open spec fn at(self, scroll: nat, follow: bool) -> PaneView {
        PaneView {
            scroll,
            follow,
            sb: ScrollbarState {
                content_length: self.rows.len() as usize,
                viewport_content_length: self.viewport_height as usize,
                position: scroll as usize,
            },
            ..self
        }
    }

    /// The pane after it was brought in line with a log and with its geometry. Only the lines
    /// that it has not wrapped yet are added, unless its width has changed or the log has
    /// become shorter.
    pub open spec fn synced(self, logs: Seq<Seq<char>>, width: u16, height: u16) -> PaneView {
        let afresh = width != self.wrap_width || logs.len() < self.raw_len;
        let rows = if afresh {
            all_rows(logs, width)
        } else {
            self.rows + all_rows(logs.skip(self.raw_len as int), width)
        };
        let next = PaneView {
            rows,
            raw_len: logs.len(),
            wrap_width: width,
            viewport_height: height as nat,
            ..self
        };
        if self.follow || self.scroll > next.max_scroll() {
            next.at(next.max_scroll(), self.follow)
        } else {
            next.at(self.scroll, self.follow)
        }
    }

    /// The rows that are shown.
    pub open spec fn shown(self) -> Seq<(Seq<char>, Color)> {
        let end = if self.scroll + self.viewport_height < self.rows.len() {
            (self.scroll + self.viewport_height) as int
        } else {
            self.rows.len() as int
        };
        self.rows.subrange(self.scroll as int, end)
    }

    /// The pane `n` rows further up. It does not follow new output any more.
    pub open spec fn moved_up(self, n: nat) -> PaneView {
        self.at(
            if n < self.scroll {
                (self.scroll - n) as nat
            } else {
                0
            },
            false,
        )
    }

    /// The pane `n` rows further down, which follows new output where it reached the end.
    pub open spec fn moved_down(self, n: nat) -> PaneView {
        let scroll = if self.scroll + n < self.max_scroll() {
            self.scroll + n
        } else {
            self.max_scroll()
        };
        self.at(scroll, scroll == self.max_scroll())
    }

    /// The rows of one page.
    pub open spec fn page(self) -> nat {
        if self.viewport_height == 0 {
            1
        } else {
            self.viewport_height
        }
    }

    /// The pane with its follow flag turned round.
    pub open spec fn toggled(self) -> PaneView {
        if self.follow {
            self.at(self.scroll, false)
        } else {
            self.at(self.max_scroll(), true)
        }
    }
}

impl LogPane {
    /// The offset never leaves empty rows below the last one, unless all rows fit.
    pub open spec fn wf(&self) -> bool {
        self@.scroll <= self@.max_scroll()
    }

    /// An empty pane that follows new output.
    pub fn new() -> (r: Self)
        ensures
            r.wf(),
            r@ == (PaneView {
                rows: Seq::empty(),
                raw_len: 0,
                wrap_width: 0,
                scroll: 0,
                viewport_height: 0,
                follow: true,
                sb: ScrollbarState { content_length: 0, viewport_content_length: 0, position: 0 },
            }),
    {
        let r = LogPane {
            rows: Vec::new(),
            raw_len: 0,
            wrap_width: 0,
            scroll: 0,
            viewport_height: 0,
            follow: true,
            sb: ScrollbarState::new(),
        };
        assert(r@.rows =~= Seq::<(Seq<char>, Color)>::empty());
        r
    }

    /// Brings the pane in line with the log and with its geometry.
    pub fn sync(&mut self, logs: &Vec<String>, inner_width: u16, viewport_height: u16)
        ensures
            final(self).wf(),
            final(self)@ == old(self)@.synced(
                text::texts(logs@),
                inner_width,
                viewport_height,
            ),
    {
        let ghost all = text::texts(logs@);
        if inner_width != self.wrap_width {
            self.wrap_width = inner_width;
            self.rows.clear();
            self.raw_len = 0;
        }
        if logs.len() < self.raw_len {
            self.rows.clear();
            self.raw_len = 0;
        }
        let ghost start = self.raw_len as int;
        let ghost had = self@.rows;
        let mut i: usize = self.raw_len;
        proof {
            if had.len() == 0 {
                assert(had =~= Seq::<(Seq<char>, Color)>::empty());
            }
            assert(had + all_rows(all.subrange(start, start), inner_width) =~= had);
        }
        while i < logs.len()
            invariant
                start <= i <= logs@.len(),
                all == text::texts(logs@),
                self.wrap_width == inner_width,
                self.scroll == old(self).scroll,
                self.follow == old(self).follow,
                0 <= start,
                self@.rows == had + all_rows(all.subrange(start, i as int), inner_width),
            decreases logs@.len() - i,
        {
            let line = logs[i].as_str();
            let color = line_color(line);
            let rows = wrap_line(line, inner_width);
            let ghost before = self@.rows;
            let ghost new = rows_of(line@, inner_width);
            let mut k: usize = 0;
            assert(before + new.take(0) =~= before);
            while k < rows.len()
                invariant
                    k <= rows@.len(),
                    new == rows_of(line@, inner_width),
                    text::texts(rows@) == wrapped(line@, inner_width),
                    color == color_of(line@),
                    self.wrap_width == inner_width,
                    self.scroll == old(self).scroll,
                    self.follow == old(self).follow,
                    self@.rows == before + new.take(k as int),
                decreases rows@.len() - k,
            {
                let ghost mid = self@.rows;
                self.rows.push((rows[k].clone(), color));
                proof {
                    assert(text::texts(rows@)[k as int] == rows@[k as int]@);
                    assert(self@.rows =~= mid.push(new[k as int]));
                    assert(before + new.take(k + 1) =~= (before + new.take(k as int)).push(
                        new[k as int],
                    ));
                }
                k += 1;
            }
            proof {
                assert(new.take(k as int) =~= new);
                let part = all.subrange(start, i + 1);
                assert(part.drop_last() =~= all.subrange(start, i as int));
                assert(part.last() == line@);
                assert(had + (all_rows(all.subrange(start, i as int), inner_width) + new) =~= (had
                    + all_rows(all.subrange(start, i as int), inner_width)) + new);
            }
            i += 1;
        }
        proof {
            assert(all.subrange(start, i as int) =~= all.skip(start));
            if start == 0 {
                assert(all.skip(0) =~= all);
                assert(Seq::<(Seq<char>, Color)>::empty() + all_rows(all, inner_width) =~= all_rows(
                    all,
                    inner_width,
                ));
            }
        }
        self.raw_len = logs.len();
        self.viewport_height = viewport_height as usize;
        if self.follow {
            self.scroll = self.max_scroll();
        } else {
            self.clamp();
        }
        self.update_scrollbar();
    }

    /// The greatest offset: where the last row stands at the bottom.
    pub fn max_scroll(&self) -> (r: usize)
        ensures
            r == self@.max_scroll(),
    {
        self.rows.len().saturating_sub(self.viewport_height)
    }

    fn clamp(&mut self)
        ensures
            *final(self) == (LogPane { scroll: final(self).scroll, ..*old(self) }),
            final(self)@.scroll == (if old(self)@.scroll > old(self)@.max_scroll() {
                old(self)@.max_scroll()
            } else {
                old(self)@.scroll
            }),
    {
        let max: usize = self.max_scroll();
        if self.scroll > max {
            self.scroll = max;
        }
    }

    fn update_scrollbar(&mut self)
        ensures
            *final(self) == (LogPane { sb: final(self).sb, ..*old(self) }),
            final(self)@ == old(self)@.at(old(self)@.scroll, old(self)@.follow),
    {
        self.sb = ScrollbarState {
            content_length: self.rows.len(),
            viewport_content_length: self.viewport_height,
            position: self.scroll,
        };
    }

    /// The rows that are shown.
    pub fn visible(&self) -> (r: &[(String, Color)])
        requires
            self.wf(),
        ensures
            rows_view(r@) == self@.shown(),
            r@.len() <= self@.viewport_height,
    {
        let end: usize = if self.rows.len() - self.scroll > self.viewport_height {
            self.scroll + self.viewport_height
        } else {
            self.rows.len()
        };
        let r = vstd::slice::slice_subrange(self.rows.as_slice(), self.scroll, end);
        assert(rows_view(r@) =~= self@.shown());
        r
    }

    /// Moves `n` rows up, and stops following new output.
    pub fn up(&mut self, n: usize)
        requires
            old(self).wf(),
        ensures
            final(self).wf(),
            final(self)@ == old(self)@.moved_up(n as nat),
    {
        self.follow = false;
        self.scroll = self.scroll.saturating_sub(n);
        self.update_scrollbar();
    }

    /// Moves `n` rows down. Reaching the bottom re-arms follow.
    pub fn down(&mut self, n: usize)
        requires
            old(self).wf(),
        ensures
            final(self).wf(),
            final(self)@ == old(self)@.moved_down(n as nat),
    {
        let max: usize = self.max_scroll();
        if n < max - self.scroll {
            self.scroll = self.scroll + n;
        } else {
            self.scroll = max;
        }
        self.follow = self.scroll == max;
        self.update_scrollbar();
    }

    fn page(&self) -> (r: usize)
        ensures
            r == self@.page(),
    {
        if self.viewport_height == 0 {
            1
        } else {
            self.viewport_height
        }
    }

    /// Moves one page up.
    pub fn page_up(&mut self)
        requires
            old(self).wf(),
        ensures
            final(self).wf(),
            final(self)@ == old(self)@.moved_up(old(self)@.page()),
    {
        let step: usize = self.page();
        self.up(step);
    }

    /// Moves one page down.
    pub fn page_down(&mut self)
        requires
            old(self).wf(),
        ensures
            final(self).wf(),
            final(self)@ == old(self)@.moved_down(old(self)@.page()),
    {
        let step: usize = self.page();
        self.down(step);
    }

    /// Moves to the first row, and stops following new output.
    pub fn home(&mut self)
        ensures
            final(self).wf(),
            final(self)@ == old(self)@.at(0, false),
    {
        self.follow = false;
        self.scroll = 0;
        self.update_scrollbar();
    }

    /// Moves to the last row, and follows new output.
    pub fn end(&mut self)
        ensures
            final(self).wf(),
            final(self)@ == old(self)@.at(old(self)@.max_scroll(), true),
    {
        self.follow = true;
        self.scroll = self.max_scroll();
        self.update_scrollbar();
    }

    /// Turns following new output on, which moves to the last row, or off.
    pub fn toggle_follow(&mut self)
        requires
            old(self).wf(),
        ensures
            final(self).wf(),
            final(self)@ == old(self)@.toggled(),
    {
        self.follow = !self.follow;
        if self.follow {
            self.scroll = self.max_scroll();
        }
        self.update_scrollbar();
    }
}

/// Whether no row is wider than `most` columns, and the row under way is as wide as it is said
/// to be.
pub open spec fn fits(w: Wrapping, most: nat) -> bool {
    &&& columns(w.current) == w.width
    &&& w.width <= most
    &&& forall|i: int| 0 <= i < w.rows.len() ==> columns(#[trigger] w.rows[i]) <= most
}

proof fn lemma_put_fits(w: Wrapping, c: char, width: nat, most: nat)
    requires
        fits(w, most),
        columns_of(c) <= most,
        width <= most,
    ensures
        fits(put(w, c, columns_of(c), width), most),
{
    assert(w.current.push(c).drop_last() =~= w.current);
    assert(seq![c].drop_last() =~= Seq::<char>::empty());
    assert(columns(seq![c].drop_last()) == 0);
}

proof fn lemma_put_spaces_fits(w: Wrapping, n: nat, width: nat, most: nat)
    requires
        fits(w, most),
        1 <= width <= most,
    ensures
        fits(put_spaces(w, n, width), most),
    decreases n,
{
    if n > 0 {
        lemma_put_spaces_fits(w, (n - 1) as nat, width, most);
        lemma_put_fits(put_spaces(w, (n - 1) as nat, width), ' ', width, most);
    }
}

proof fn lemma_wrapping_fits(line: Seq<char>, width: nat, most: nat)
    requires
        1 <= width <= most,
        widest(line) <= most,
    ensures
        fits(wrapping(line, width), most),
    decreases line.len(),
{
    if line.len() > 0 {
        lemma_wrapping_fits(line.drop_last(), width, most);
        let w = wrapping(line.drop_last(), width);
        let c = line.last();
        if c == '\t' {
            let n = tab_spaces(w.width);
            let fresh = Wrapping { rows: w.rows.push(w.current), current: Seq::empty(), width: 0 };
            assert(fits(fresh, most));
            lemma_put_spaces_fits(fresh, n, width, most);
            lemma_put_spaces_fits(w, n, width, most);
        } else {
            lemma_put_fits(w, c, width, most);
        }
    }
}

/// No row is wider than the pane, or than the widest character where that is wider.
pub proof fn lemma_rows_fit(line: Seq<char>, width: u16)
    ensures
        forall|i: int|
            0 <= i < wrapped(line, width).len() ==> columns(#[trigger] wrapped(line, width)[i])
                <= row_limit(line, usable(width)),
{
    lemma_wrapping_fits(line, usable(width), row_limit(line, usable(width)));
}

/// The rows one after the other.
pub open spec fn joined(rows: Seq<Seq<char>>) -> Seq<char>
    decreases rows.len(),
{
    if rows.len() == 0 {
        Seq::empty()
    } else {
        joined(rows.drop_last()) + rows.last()
    }
}

/// A line without its carriage returns.
pub open spec fn printable(line: Seq<char>) -> Seq<char>
    decreases line.len(),
{
    if line.len() == 0 {
        Seq::empty()
    } else if line.last() == '\r' {
        printable(line.drop_last())
    } else {
        printable(line.drop_last()).push(line.last())
    }
}

/// Wrapping loses nothing and adds nothing: the rows of a line without tabs, one after the
/// other, are the line without its carriage returns.
pub proof fn lemma_rows_keep_text(line: Seq<char>, width: u16)
    requires
        !line.contains('\t'),
    ensures
        joined(wrapped(line, width)) == printable(line),
{
    lemma_wrapping_keeps(line, usable(width));
    let w = wrapping(line, usable(width));
    assert(wrapped(line, width).drop_last() =~= w.rows);
}

proof fn lemma_wrapping_keeps(line: Seq<char>, width: nat)
    requires
        !line.contains('\t'),
    ensures
        joined(wrapping(line, width).rows) + wrapping(line, width).current == printable(line),
    decreases line.len(),
{
    let w = wrapping(line, width);
    if line.len() == 0 {
        assert(joined(w.rows) + w.current =~= Seq::<char>::empty());
    } else {
        let less = line.drop_last();
        let c = line.last();
        if less.contains('\t') {
            let i = choose|i: int| 0 <= i < less.len() && less[i] == '\t';
            assert(line[i] == '\t');
        }
        assert(line[line.len() - 1] == c);
        lemma_wrapping_keeps(less, width);
        let v = wrapping(less, width);
        let all = joined(v.rows) + v.current;
        assert(all + seq![c] =~= all.push(c));
        assert(joined(v.rows) + v.current.push(c) =~= all.push(c));
        assert(v.rows.push(v.current).drop_last() =~= v.rows);
        assert(joined(v.rows.push(v.current)) == joined(v.rows) + v.current);
    }
}

/// A line takes at least one row, whatever it holds.
pub proof fn lemma_at_least_one_row(line: Seq<char>, width: u16)
    ensures
        wrapped(line, width).len() >= 1,
{
}

/// The rows of a log that has grown are those that it had and those of the new lines.
pub proof fn lemma_all_rows_concat(a: Seq<Seq<char>>, b: Seq<Seq<char>>, width: u16)
    ensures
        all_rows(a + b, width) == all_rows(a, width) + all_rows(b, width),
    decreases b.len(),
{
    if b.len() == 0 {
        assert(a + b =~= a);
        assert(all_rows(a, width) + all_rows(b, width) =~= all_rows(a, width));
    } else {
        assert((a + b).drop_last() =~= a + b.drop_last());
        lemma_all_rows_concat(a, b.drop_last(), width);
        let last = rows_of(b.last(), width);
        assert((all_rows(a, width) + all_rows(b.drop_last(), width)) + last =~= all_rows(a, width)
            + (all_rows(b.drop_last(), width) + last));
    }
}

/// Wrapping only the new lines shows what wrapping the whole log would: a pane that held the
/// rows of a log holds, after it was brought in line, the rows of the log as it is now,
/// provided that the log has only grown.
pub proof fn lemma_sync_is_whole(
    pane: PaneView,
    before: Seq<Seq<char>>,
    now: Seq<Seq<char>>,
    width: u16,
    height: u16,
)
    requires
        pane.rows == all_rows(before, pane.wrap_width),
        pane.raw_len == before.len(),
        before.is_prefix_of(now),
    ensures
        pane.synced(now, width, height).rows == all_rows(now, width),
        pane.synced(now, width, height).raw_len == now.len(),
        pane.synced(now, width, height).wrap_width == width,
{
    if width == pane.wrap_width {
        let rest = now.skip(before.len() as int);
        assert(now =~= before + rest);
        lemma_all_rows_concat(before, rest, width);
    }
}

/// A pane that follows shows the last row of the log at the bottom.
pub proof fn lemma_follow_shows_last_row(
    pane: PaneView,
    logs: Seq<Seq<char>>,
    width: u16,
    height: u16,
)
    requires
        pane.follow,
        height > 0,
        pane.synced(logs, width, height).rows.len() > 0,
    ensures
        ({
            let next = pane.synced(logs, width, height);
            next.shown().len() > 0 && next.shown().last() == next.rows.last()
        }),
{
}

/// New output does not move a pane that does not follow.
pub proof fn lemma_paused_keeps_offset(pane: PaneView, logs: Seq<Seq<char>>)
    requires
        !pane.follow,
        pane.scroll <= pane.max_scroll(),
        pane.viewport_height <= u16::MAX,
        logs.len() >= pane.raw_len,
    ensures
        pane.synced(logs, pane.wrap_width, pane.viewport_height as u16).scroll == pane.scroll,
        !pane.synced(logs, pane.wrap_width, pane.viewport_height as u16).follow,
{
}

/// Going down as far as one went up leads back to where one was.
pub proof fn lemma_up_then_down(pane: PaneView, n: nat)
    requires
        n <= pane.scroll <= pane.max_scroll(),
    ensures
        pane.moved_up(n).moved_down(n).scroll == pane.scroll,
        pane.moved_up(n).moved_down(n).rows == pane.rows,
{
}

} // verus!
