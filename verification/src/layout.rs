//! Areas of the terminal and how they are divided.

use ratatui::layout as tui;
use vstd::prelude::*;

verus! {

/// An area of the terminal.
#[derive(Debug, Clone, Copy, PartialEq, Eq, Structural)]
pub struct Rect {
    pub x: u16,
    pub y: u16,
    pub width: u16,
    pub height: u16,
}

/// How much of an area a part takes.
#[derive(Debug, Clone, Copy, PartialEq, Eq, Structural)]
pub enum Constraint {
    Percentage(u16),
    Length(u16),
    Min(u16),
}

/// In which direction the parts of an area follow each other.
#[derive(Debug, Clone, Copy, PartialEq, Eq, Structural)]
pub enum Direction {
    Horizontal,
    Vertical,
}

/// Whether `part` lies across the whole of `area`, for parts that follow each other in a
/// direction.
pub open spec fn spans(direction: Direction, area: Rect, part: Rect) -> bool {
    match direction {
        Direction::Horizontal => part.y == area.y && part.height == area.height,
        Direction::Vertical => part.x == area.x && part.width == area.width,
    }
}

/// Whether the layout solver may divide an area into these parts. It need not always choose
/// the same ones: where constraints compete its documentation calls the result indeterminate.
pub uninterp spec fn may_split(
    direction: Direction,
    constraints: Seq<Constraint>,
    area: Rect,
    parts: Seq<Rect>,
) -> bool;

/// `area` is divided into `parts`, one for each constraint: the solver chose them, and each
/// lies across the whole of the area.
pub open spec fn divided(
    direction: Direction,
    constraints: Seq<Constraint>,
    area: Rect,
    parts: Seq<Rect>,
) -> bool {
    &&& may_split(direction, constraints, area, parts)
    &&& parts.len() == constraints.len()
    &&& forall|i: int| 0 <= i < parts.len() ==> spans(direction, area, #[trigger] parts[i])
}

/// `ratatui::layout::Layout::split`: divides an area, without margins. There is one part for
/// each constraint, and each lies across the whole of the area. Where a part begins and how
/// far it reaches along the direction is left to [`may_split`]: two calls with the same
/// arguments may differ.
#[verifier::external_body]
pub(crate) fn split(direction: Direction, constraints: &Vec<Constraint>, area: Rect) -> (r: Vec<
    Rect,
>)
    ensures
        may_split(direction, constraints@, area, r@),
        r@.len() == constraints@.len(),
        forall|i: int| 0 <= i < r@.len() ==> spans(direction, area, #[trigger] r@[i]),
{
    let way = match direction {
        Direction::Horizontal => tui::Direction::Horizontal,
        Direction::Vertical => tui::Direction::Vertical,
    };
    let parts = constraints.iter().map(|c| match c {
        Constraint::Percentage(n) => tui::Constraint::Percentage(*n),
        Constraint::Length(n) => tui::Constraint::Length(*n),
        Constraint::Min(n) => tui::Constraint::Min(*n),
    });
    let Rect { x, y, width, height } = area;
    let whole = tui::Rect { x, y, width, height };
    let cut = tui::Layout::default().direction(way).constraints(parts).split(whole);
    cut.iter().map(|p| Rect { x: p.x, y: p.y, width: p.width, height: p.height }).collect()
}

} // verus!
