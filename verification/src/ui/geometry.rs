//! Integer part of mapping pointer positions onto the terminal grid.

use vstd::prelude::*;

use crate::index::{Column, Line, Point};

verus! {

/// Grid point under a pointer that lies `column` cells right of and `row`
/// cells below the content origin, clamped to a grid of `columns` by `rows`
/// cells and shifted up by the scrollback display offset.
pub fn clamp_to_grid(
    column: usize,
    row: usize,
    columns: u16,
    rows: u16,
    display_offset: usize,
) -> (point: Point)
    requires
        columns >= 1,
        rows >= 1,
        display_offset <= i32::MAX,
    ensures
        point.column.0 == if column < columns { column } else { (columns - 1) as usize },
        point.line.0 == (if row < rows { row as int } else { rows - 1 }) - display_offset,
{
    let last_column = (columns - 1) as usize;
    let last_row = (rows - 1) as usize;
    let column = if column < last_column { column } else { last_column };
    let row = if row < last_row { row } else { last_row };
    Point::new(Line(row as i32 - display_offset as i32), Column(column))
}

} // verus!
