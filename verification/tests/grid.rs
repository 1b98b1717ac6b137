use otty_surface::cell::{Cell, CellAttributes};
use otty_surface::grid::{Grid, GridRow, ScrollDirection};

#[test]
fn ring_buffer_rotation() {
    let attrs = CellAttributes::default();
    let mut grid = Grid::new(3, 5, 100, &attrs);

    // Write distinct chars to each row.
    for i in 0..3 {
        grid.row_mut(i).cells[0] = Cell::with_char(
            char::from_digit(i as u32, 10).unwrap(),
            &attrs,
        );
    }

    // Scroll up (should rotate buffer).
    grid.scroll_up(0, 2, 1, &attrs);

    // Row 0 should now show what was row 1.
    assert_eq!(grid.row(0).cells[0].ch, '1');
    assert_eq!(grid.row(1).cells[0].ch, '2');
    // Row 2 should be cleared.
    assert_eq!(grid.row(2).cells[0].ch, ' ');
}

#[test]
fn history_accumulation() {
    let attrs = CellAttributes::default();
    let mut grid = Grid::new(3, 5, 100, &attrs);

    // Initially no history.
    assert_eq!(grid.history_size(), 0);

    // Scroll up from top should add to history.
    grid.scroll_up(0, 2, 1, &attrs);
    assert_eq!(grid.history_size(), 1);

    grid.scroll_up(0, 2, 2, &attrs);
    assert_eq!(grid.history_size(), 3);
}

#[test]
fn display_offset_scrolling() {
    let attrs = CellAttributes::default();
    let mut grid = Grid::new(3, 5, 100, &attrs);

    // Add some history.
    grid.scroll_up(0, 2, 5, &attrs);
    assert_eq!(grid.history_size(), 5);

    // Scroll display up.
    grid.scroll_display(ScrollDirection::Delta(2));
    assert_eq!(grid.display_offset(), 2);

    // Scroll to top.
    grid.scroll_display(ScrollDirection::Top);
    assert_eq!(grid.display_offset(), 5);

    // Scroll to bottom.
    grid.scroll_display(ScrollDirection::Bottom);
    assert_eq!(grid.display_offset(), 0);
}

#[test]
fn history_overflow_drops_oldest_lines() {
    let attrs = CellAttributes::default();
    let mut grid = Grid::new(2, 1, 3, &attrs);

    grid.row_mut(0).cells[0] = Cell::with_char('0', &attrs);
    grid.row_mut(1).cells[0] = Cell::with_char('1', &attrs);
    let bottom = grid.height().saturating_sub(1);

    for ch in ['2', '3', '4', '5'] {
        grid.scroll_up(0, bottom, 1, &attrs);
        grid.row_mut(bottom).cells[0] = Cell::with_char(ch, &attrs);
    }

    assert_eq!(grid.history_size(), 3);
    let rows: Vec<char> =
        grid.rows().iter().map(|row| row.cells[0].ch).collect();
    assert_eq!(rows, vec!['1', '2', '3', '4', '5']);
}

#[test]
fn row_resize_preserves_truncated_cells() {
    let attrs = CellAttributes::default();
    let mut row = GridRow::new(4, &attrs);
    for (idx, ch) in ['A', 'B', 'C', 'D'].into_iter().enumerate() {
        row.cells[idx] = Cell::with_char(ch, &attrs);
    }

    row.resize(2, &attrs);
    assert_eq!(row.cells.len(), 2);
    assert_eq!(row.cells[0].ch, 'A');
    assert_eq!(row.cells[1].ch, 'B');

    row.resize(4, &attrs);
    let chars: Vec<char> = row.cells.iter().map(|cell| cell.ch).collect();
    assert_eq!(chars, vec!['A', 'B', 'C', 'D']);
}

#[test]
fn resize_reflows_when_columns_shrink() {
    let attrs = CellAttributes::default();
    let mut grid = Grid::new(3, 10, 100, &attrs);
    let text: Vec<char> = "HELLOWORLD".chars().collect();
    for (idx, ch) in text.iter().enumerate() {
        grid.row_mut(0).cells[idx] = Cell::with_char(*ch, &attrs);
    }

    grid.resize(4, 3, &attrs);

    let rows: Vec<String> = grid
        .rows()
        .iter()
        .map(|row| row.cells.iter().map(|c| c.ch).collect::<String>())
        .collect();
    assert!(rows.len() >= 3);
    assert_eq!(&rows[0][..4], "HELL");
    assert_eq!(&rows[1][..4], "OWOR");
    assert_eq!(&rows[2][..2], "LD");
}

#[test]
fn resize_reflows_when_columns_expand() {
    let attrs = CellAttributes::default();
    let mut grid = Grid::new(3, 4, 100, &attrs);
    let segments = ["HELL", "OWOR", "LD  "];
    for (idx, segment) in segments.iter().enumerate() {
        for (col, ch) in segment.chars().enumerate() {
            grid.row_mut(idx).cells[col] = Cell::with_char(ch, &attrs);
        }
        if idx < segments.len() - 1 {
            grid.row_mut(idx).set_soft_wrap(true);
        }
    }

    grid.resize(10, 3, &attrs);

    let rows: Vec<String> = grid
        .rows()
        .iter()
        .map(|row| row.cells.iter().map(|c| c.ch).collect::<String>())
        .collect();
    assert!(!rows.is_empty());
    assert_eq!(&rows[0][..10], "HELLOWORLD");
}

#[test]
fn resize_preserves_explicit_trailing_spaces() {
    let attrs = CellAttributes::default();
    let mut grid = Grid::new(2, 6, 100, &attrs);

    grid.row_mut(0).cells[0] = Cell::with_char('A', &attrs);
    grid.row_mut(0).cells[1] = Cell::with_char(' ', &attrs);
    grid.row_mut(0).cells[2] = Cell::with_char(' ', &attrs);

    grid.resize(4, 2, &attrs);
    grid.resize(6, 2, &attrs);

    let row = grid.row(0);
    let snapshot: Vec<char> =
        row.cells.iter().take(3).map(|cell| cell.ch).collect();
    assert_eq!(snapshot, vec!['A', ' ', ' ']);
}

#[test]
fn shrinking_visible_lines_moves_rows_into_history() {
    let attrs = CellAttributes::default();
    let mut grid = Grid::new(4, 2, 10, &attrs);

    for row in 0..4 {
        let ch = char::from(b'0' + row as u8);
        grid.row_mut(row).cells[0] = Cell::with_char(ch, &attrs);
    }

    grid.resize(2, 2, &attrs);

    assert_eq!(grid.height(), 2);
    assert_eq!(grid.history_size(), 2);
    assert_eq!(grid.row(0).cells[0].ch, '2');
    assert_eq!(grid.row(1).cells[0].ch, '3');

    let rows: Vec<char> =
        grid.rows().iter().map(|row| row.cells[0].ch).collect();
    assert_eq!(rows, vec!['0', '1', '2', '3']);
}

#[test]
fn resize_expands_view_using_history_before_adding_blanks() {
    let attrs = CellAttributes::default();
    let mut grid = Grid::new(2, 1, 10, &attrs);
    let bottom = grid.height().saturating_sub(1);

    for ch in ['0', '1', '2', '3', '4'] {
        grid.scroll_up(0, bottom, 1, &attrs);
        grid.row_mut(bottom).cells[0] = Cell::with_char(ch, &attrs);
    }

    grid.resize(1, 4, &attrs);

    let visible: Vec<char> = (0..grid.height())
        .map(|row| grid.row(row).cells[0].ch)
        .collect();
    assert_eq!(visible, vec!['1', '2', '3', '4']);
}


#[test]
fn unlimited_history_grids_resize() {
    let attrs = CellAttributes::default();
    let mut grid = Grid::new(3, 4, usize::MAX, &attrs);
    grid.resize(4, 5, &attrs);
    assert_eq!(grid.height(), 5);
    assert_eq!(grid.total_lines(), 5);
    grid.resize(6, 2, &attrs);
    assert_eq!(grid.width(), 6);
    assert_eq!(grid.height(), 2);
}
