//! A log of unwrapped lines with a window that can be moved over it.

use vstd::prelude::*;

use crate::log_pane::ScrollbarState;
use crate::text;

verus! {

/// A log and the window over it.
pub struct LogView {
    /// The first line in the window.
    pub scroll: usize,
    pub logs: Vec<String>,
    pub viewport_height: usize,
    /// Whether the window moves to the end with every line.
    pub follow: bool,
    pub state: ScrollbarState,
    pub debug: bool,
}

/// What a [`LogView`] holds.
#[verifier::ext_equal]
pub struct LogViewState {
    pub scroll: nat,
    pub logs: Seq<Seq<char>>,
    pub viewport_height: nat,
    pub follow: bool,
    pub state: ScrollbarState,
}

impl View for LogView {
    type V = LogViewState;

    open spec fn view(&self) -> LogViewState {
        LogViewState {
            scroll: self.scroll as nat,
            logs: text::texts(self.logs@),
            viewport_height: self.viewport_height as nat,
            follow: self.follow,
            state: self.state,
        }
    }
}

/// A log without lines whose window follows.
pub open spec fn empty_log() -> LogViewState {
    LogViewState {
        scroll: 0,
        logs: Seq::empty(),
        viewport_height: 0,
        follow: true,
        state: ScrollbarState { content_length: 0, viewport_content_length: 0, position: 0 },
    }
}

/// The larger of two numbers' difference and zero.
pub open spec fn less(a: nat, b: nat) -> nat {
    if a > b {
        (a - b) as nat
    } else {
        0
    }
}

impl LogViewState {
    /// How far the window can move: then its last line is the last one of the log.
    pub open spec fn max_scroll(self) -> nat {
        less(self.logs.len(), self.viewport_height)
    }

    /// With the scrollbar that fits: it stands where the window does, but no further than the
    /// window can move.
    pub open spec fn with_bar(self) -> LogViewState {
        let len = self.logs.len();
        let max = self.max_scroll();
        LogViewState {
            state: ScrollbarState {
                content_length: len as usize,
                viewport_content_length: if self.viewport_height <= len {
                    self.viewport_height as usize
                } else {
                    len as usize
                },
                position: if self.scroll <= max {
                    self.scroll as usize
                } else {
                    max as usize
                },
            },
            ..self
        }
    }

    /// The lines in the window.
    pub open spec fn window(self) -> Seq<Seq<char>> {
        let end = if self.scroll + self.viewport_height <= self.logs.len() {
            self.scroll + self.viewport_height
        } else {
            self.logs.len()
        };
        self.logs.subrange(self.scroll as int, end as int)
    }

    /// One line up: the window no longer follows.
    pub open spec fn up(self) -> LogViewState {
        LogViewState { follow: false, scroll: less(self.scroll, 1), ..self }.with_bar()
    }

    /// One line down, where the window is not at the end. At the end it follows, and it never
    /// stands behind the end.
    pub open spec fn down(self) -> LogViewState {
        let max = self.max_scroll();
        if self.scroll >= max {
            LogViewState { follow: true, scroll: max, ..self }.with_bar()
        } else {
            LogViewState { scroll: self.scroll + 1, ..self }.with_bar()
        }
    }

    /// One window up: the window no longer follows.
    pub open spec fn page_up(self) -> LogViewState {
        LogViewState {
            follow: false,
            scroll: less(self.scroll, self.viewport_height),
            ..self
        }.with_bar()
    }

    /// One window down, but not behind the end. A window at the end follows.
    pub open spec fn page_down(self) -> LogViewState {
        let max = self.max_scroll();
        let to = self.scroll + self.viewport_height;
        if to >= max {
            LogViewState { follow: true, scroll: max, ..self }.with_bar()
        } else {
            LogViewState { scroll: to, ..self }.with_bar()
        }
    }

    /// At the beginning, where the window does not follow.
    pub open spec fn home(self) -> LogViewState {
        LogViewState { follow: false, scroll: 0, ..self }.with_bar()
    }

    /// At the end, where the window follows.
    pub open spec fn end(self) -> LogViewState {
        LogViewState { follow: true, scroll: self.max_scroll(), ..self }.with_bar()
    }

    /// With one more line. A window that follows stands at the end.
    pub open spec fn add_log(self, line: Seq<char>) -> LogViewState {
        let more = LogViewState { logs: self.logs.push(line), ..self };
        if self.follow {
            LogViewState { scroll: more.max_scroll(), ..more }.with_bar()
        } else {
            more.with_bar()
        }
    }

    /// Without lines. The window and its scrollbar stay where they were.
    pub open spec fn clear(self) -> LogViewState {
        LogViewState { logs: Seq::empty(), ..self }
    }

    /// With a window of another height, which does not stand behind the end.
    pub open spec fn resize(self, height: nat) -> LogViewState {
        let other = LogViewState { viewport_height: height, ..self };
        let max = other.max_scroll();
        LogViewState {
            scroll: if self.scroll <= max {
                self.scroll
            } else {
                max
            },
            ..other
        }.with_bar()
    }
}

impl LogView {
    /// Takes all lines away.
    pub fn clear(&mut self)
        ensures
            final(self)@ == old(self)@.clear(),
            final(self).debug == old(self).debug,
    {
        self.logs.clear();
        assert(self@ =~= old(self)@.clear());
    }

    /// The first line in the window.
    pub fn scroll(&self) -> (r: usize)
        ensures
            r == self@.scroll,
    {
        self.scroll
    }

    fn window_end(&self) -> (r: usize)
        requires
            self.scroll <= self.logs@.len(),
        ensures
            self.scroll <= r <= self.logs@.len(),
            r == (if self.scroll + self.viewport_height <= self.logs@.len() {
                self.scroll + self.viewport_height
            } else {
                self.logs@.len() as int
            }),
    {
        if self.viewport_height <= self.logs.len() - self.scroll {
            self.scroll + self.viewport_height
        } else {
            self.logs.len()
        }
    }

    /// The lines in the window.
    pub fn logs(&self) -> (r: Vec<String>)
        requires
            self.scroll <= self.logs@.len(),
        ensures
            text::texts(r@) == self@.window(),
    {
        let end = self.window_end();
        let mut out: Vec<String> = Vec::new();
        let mut i: usize = self.scroll;
        let ghost want = self@.window();
        assert(text::texts(out@) =~= want.take(0));
        while i < end
            invariant
                self.scroll <= i <= end <= self.logs@.len(),
                want == self@.window(),
                want.len() == end - self.scroll,
                text::texts(out@) == want.take(i - self.scroll),
            decreases end - i,
        {
            let ghost before = text::texts(out@);
            out.push(self.logs[i].clone());
            proof {
                assert(want[i - self.scroll] == self.logs@[i as int]@);
                assert(text::texts(out@) =~= before.push(want[i - self.scroll]));
                assert(want.take(i - self.scroll + 1) =~= want.take(i - self.scroll).push(
                    want[i - self.scroll],
                ));
            }
            i += 1;
        }
        assert(want.take(i - self.scroll) =~= want);
        out
    }

    /// An empty log whose window follows.
    pub fn new(debug: bool) -> (r: Self)
        ensures
            r@ == empty_log(),
            r.debug == debug,
    {
        let r = LogView {
            scroll: 0,
            logs: Vec::new(),
            viewport_height: 0,
            follow: true,
            state: ScrollbarState::new(),
            debug,
        };
        assert(r@.logs =~= Seq::empty());
        r
    }

    fn max_scroll(&self) -> (r: usize)
        ensures
            r == self@.max_scroll(),
    {
        self.logs.len().saturating_sub(self.viewport_height)
    }

    fn clamp_scroll(&mut self)
        ensures
            final(self)@ == (LogViewState {
                scroll: if old(self)@.scroll <= old(self)@.max_scroll() {
                    old(self)@.scroll
                } else {
                    old(self)@.max_scroll()
                },
                ..old(self)@
            }),
            final(self).debug == old(self).debug,
    {
        let max = self.max_scroll();
        if self.scroll > max {
            self.scroll = max;
        }
    }

    fn update_state(&mut self)
        ensures
            final(self)@ == old(self)@.with_bar(),
            final(self).debug == old(self).debug,
    {
        let content_len = self.logs.len();
        assert(self@.logs.len() == content_len);
        let viewport = if self.viewport_height <= content_len {
            self.viewport_height
        } else {
            content_len
        };
        let last = content_len.saturating_sub(viewport);
        let position = if self.scroll <= last {
            self.scroll
        } else {
            last
        };
        self.state = ScrollbarState {
            content_length: content_len,
            viewport_content_length: viewport,
            position,
        };
        if self.scroll == self.max_scroll() {
            self.state.position = self.logs.len().saturating_sub(self.viewport_height);
        }
        assert(self@ =~= old(self)@.with_bar());
    }

    /// Gives the window another height.
    pub fn set_viewport_height(&mut self, height: u16)
        ensures
            final(self)@ == old(self)@.resize(height as nat),
            final(self).debug == old(self).debug,
    {
        self.viewport_height = height as usize;
        self.clamp_scroll();
        self.update_state();
    }

    /// Adds a line.
    pub fn add_log(&mut self, line: String)
        ensures
            final(self)@ == old(self)@.add_log(line@),
            final(self).debug == old(self).debug,
    {
        self.logs.push(line);
        assert(text::texts(self.logs@) =~= old(self)@.logs.push(line@));
        if self.follow {
            self.scroll = self.max_scroll();
        }
        self.update_state();
    }

    /// Moves the window one line up.
    pub fn up(&mut self)
        ensures
            final(self)@ == old(self)@.up(),
            final(self).debug == old(self).debug,
    {
        self.follow = false;
        self.scroll = self.scroll.saturating_sub(1);
        self.update_state();
    }

    /// Moves the window one line down.
    pub fn down(&mut self)
        ensures
            final(self)@ == old(self)@.down(),
            final(self).debug == old(self).debug,
    {
        if self.scroll >= self.max_scroll() {
            self.follow = true;
        } else {
            self.scroll += 1;
        }
        self.clamp_scroll();
        self.update_state();
    }

    /// Moves the window up by its height.
    pub fn page_up(&mut self)
        ensures
            final(self)@ == old(self)@.page_up(),
            final(self).debug == old(self).debug,
    {
        self.follow = false;
        self.scroll = self.scroll.saturating_sub(self.viewport_height);
        self.update_state();
    }

    /// Moves the window down by its height.
    pub fn page_down(&mut self)
        ensures
            final(self)@ == old(self)@.page_down(),
            final(self).debug == old(self).debug,
    {
        let max = self.max_scroll();
        if self.scroll < max && self.viewport_height < max - self.scroll {
            self.scroll = self.scroll + self.viewport_height;
        } else {
            self.scroll = max;
        }
        if self.scroll == self.max_scroll() {
            self.follow = true;
        }
        self.update_state();
    }

    /// Moves the window to the beginning.
    pub fn home(&mut self)
        ensures
            final(self)@ == old(self)@.home(),
            final(self).debug == old(self).debug,
    {
        self.follow = false;
        self.scroll = 0;
        self.update_state();
    }

    /// Moves the window to the end.
    pub fn end(&mut self)
        ensures
            final(self)@ == old(self)@.end(),
            final(self).debug == old(self).debug,
    {
        self.follow = true;
        self.scroll = self.max_scroll();
        self.update_state();
    }

    /// The lines in the window.
    pub fn visible_lines(&self) -> (r: &[String])
        requires
            self.scroll <= self.logs@.len(),
        ensures
            text::texts(r@) == self@.window(),
    {
        let end = self.window_end();
        let r = vstd::slice::slice_subrange(self.logs.as_slice(), self.scroll, end);
        assert(text::texts(r@) =~= self@.window());
        r
    }

    /// The scrollbar, to be drawn.
    pub fn scrollbar_state(&mut self) -> (r: &mut ScrollbarState)
        ensures
            *r == old(self).state,
            final(self)@ == (LogViewState { state: *final(r), ..old(self)@ }),
            final(self).debug == old(self).debug,
    {
        &mut self.state
    }
}

impl Default for LogView {
    fn default() -> (r: Self)
        ensures
            r@ == empty_log(),
            !r.debug,
    {
        Self::new(false)
    }
}

/// A window that follows shows the line that came last.
pub proof fn lemma_follow_shows_last(v: LogViewState, line: Seq<char>)
    requires
        v.follow,
        v.viewport_height > 0,
    ensures
        v.add_log(line).follow,
        v.add_log(line).window().len() > 0,
        v.add_log(line).window().last() == line,
{
}

/// A window that does not follow stays where it is, whatever lines come.
pub proof fn lemma_paused_stays(v: LogViewState, line: Seq<char>)
    requires
        !v.follow,
    ensures
        v.add_log(line).scroll == v.scroll,
        !v.add_log(line).follow,
{
}

/// No move leaves the window behind the end of the log, and no move changes the log.
pub proof fn lemma_moves_stay_inside(v: LogViewState, height: nat)
    requires
        v.scroll <= v.max_scroll(),
    ensures
        v.up().scroll <= v.max_scroll() && v.up().logs == v.logs,
        v.down().scroll <= v.max_scroll() && v.down().logs == v.logs,
        v.page_up().scroll <= v.max_scroll() && v.page_up().logs == v.logs,
        v.page_down().scroll <= v.max_scroll() && v.page_down().logs == v.logs,
        v.home().scroll <= v.max_scroll() && v.home().logs == v.logs,
        v.end().scroll <= v.max_scroll() && v.end().logs == v.logs,
        v.resize(height).scroll <= v.resize(height).max_scroll() && v.resize(height).logs == v.logs,
{
}

/// A move up is taken back by a move down, unless the window was at the beginning. The window
/// follows again only after one more.
pub proof fn lemma_up_then_down(v: LogViewState)
    requires
        0 < v.scroll <= v.max_scroll(),
    ensures
        v.up().down().scroll == v.scroll,
        !v.up().down().follow,
        v.scroll == v.max_scroll() ==> v.up().down().down().follow,
{
}

} // verus!
