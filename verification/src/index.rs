//! Grid coordinates.

use vstd::prelude::*;

verus! {

/// A line coordinate; negative lines are in history above the screen.
#[derive(Debug, Clone, Copy, Default, PartialEq, Eq, PartialOrd, Ord, Hash, Structural)]
pub struct Line(pub i32);

/// A column coordinate.
#[derive(Debug, Clone, Copy, Default, PartialEq, Eq, PartialOrd, Ord, Hash, Structural)]
pub struct Column(pub usize);

/// A position in the grid.
#[derive(Debug, Clone, Copy, Default, PartialEq, Eq, PartialOrd, Ord, Hash, Structural)]
pub struct Point<L = Line> {
    pub line: L,
    pub column: Column,
}

impl<L> Point<L> {
    /// A point at `line` and `column`.
    pub fn new(line: L, column: Column) -> (point: Self)
        ensures
            point == (Point { line, column }),
    {
        Point { line, column }
    }
}

/// Direction of a search or movement along the grid.
#[derive(Debug, Clone, Copy, PartialEq, Eq, Structural)]
pub enum Direction {
    Left,
    Right,
}

/// Which half of a cell a pointer is over.
#[derive(Debug, Clone, Copy, PartialEq, Eq, Structural)]
pub enum Side {
    Left,
    Right,
}

/// Viewport position of a terminal point, scrolled back by `display_offset`
/// lines; points above the viewport have none.
pub open spec fn viewport_of(display_offset: int, point: Point) -> Option<Point<usize>> {
    if point.line.0 + display_offset >= 0 {
        Some(Point { line: (point.line.0 + display_offset) as usize, column: point.column })
    } else {
        None
    }
}

/// Terminal point of a viewport position, scrolled back by `display_offset`
/// lines.
pub open spec fn point_of(display_offset: int, point: Point<usize>) -> Point {
    Point { line: Line((point.line - display_offset) as i32), column: point.column }
}

/// The two conversions undo each other: a viewport position maps to a
/// terminal point that maps back to it, and a terminal point on or below
/// the viewport's top maps to a position that maps back to it.
pub proof fn lemma_viewport_roundtrip(display_offset: int, viewport: Point<usize>, point: Point)
    requires
        0 <= display_offset <= i32::MAX,
        viewport.line <= i32::MAX,
        point.line.0 + display_offset <= i32::MAX,
    ensures
        viewport_of(display_offset, point_of(display_offset, viewport)) == Some(viewport),
        viewport_of(display_offset, point) matches Some(v) ==> point_of(display_offset, v) == point,
{
}

/// Kind of selection a pointer press starts.
#[derive(Debug, Clone, Copy, PartialEq, Eq, Structural)]
pub enum SelectionType {
    /// Character by character.
    Simple,
    /// A rectangle of cells.
    Block,
    /// Whole words.
    Semantic,
    /// Whole lines.
    Lines,
}

/// Convert a terminal point to a viewport-relative point; points above the
/// viewport have none.
pub fn point_to_viewport(display_offset: usize, point: Point) -> (viewport: Option<Point<usize>>)
    requires
        display_offset <= i32::MAX,
        point.line.0 + display_offset <= i32::MAX,
    ensures
        viewport == viewport_of(display_offset as int, point),
{
    let viewport_line = point.line.0 + display_offset as i32;
    if viewport_line >= 0 {
        Some(Point::new(viewport_line as usize, point.column))
    } else {
        None
    }
}

/// Convert a viewport-relative point to a terminal point.
pub fn viewport_to_point(display_offset: usize, point: Point<usize>) -> (result: Point)
    requires
        point.line <= i32::MAX,
        display_offset <= i32::MAX,
    ensures
        result == point_of(display_offset as int, point),
{
    let line = Line(point.line as i32 - display_offset as i32);
    Point::new(line, point.column)
}

} // verus!
