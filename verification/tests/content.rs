use otty_surface::block::content::{extract_range, surface_text, BlockContent};
use otty_surface::cell::{Cell, CellAttributes, Flags};
use otty_surface::grid::Grid;
use otty_surface::index::{Column, Line, Point};

fn write(grid: &mut Grid, row: usize, text: &str) {
    for (column, ch) in text.chars().enumerate() {
        grid.row_mut(row).cells[column] = Cell { ch, ..Cell::default() };
    }
}

fn point(line: i32, column: usize) -> Point {
    Point::new(Line(line), Column(column))
}

#[test]
fn surface_text_trims_rows_and_drops_trailing_blank_rows() {
    let attrs = CellAttributes::default();
    let mut grid = Grid::new(3, 5, 10, &attrs);
    write(&mut grid, 0, "ab");
    write(&mut grid, 1, "cd e");

    assert_eq!(surface_text(&grid), Some("ab\ncd e".to_string()));
}

#[test]
fn surface_text_includes_history_and_skips_wide_spacers() {
    let attrs = CellAttributes::default();
    let mut grid = Grid::new(2, 4, 10, &attrs);
    write(&mut grid, 0, "old");
    grid.scroll_up(0, 1, 1, &attrs);
    grid.row_mut(1).cells[0] = Cell { ch: '漢', ..Cell::default() };
    let mut spacer = Cell { ch: ' ', ..Cell::default() };
    spacer.flags.insert(Flags::WIDE_CHAR_SPACER);
    grid.row_mut(1).cells[1] = spacer;
    grid.row_mut(1).cells[2] = Cell { ch: 'x', ..Cell::default() };

    assert_eq!(surface_text(&grid), Some("old\n\n漢x".to_string()));
}

#[test]
fn empty_grids_have_no_surface_text() {
    let attrs = CellAttributes::default();
    assert_eq!(surface_text(&Grid::new(3, 5, 10, &attrs)), None);
    assert_eq!(surface_text(&Grid::new(3, 0, 10, &attrs)), None);
}

#[test]
fn extract_range_keeps_the_last_line_untrimmed() {
    let attrs = CellAttributes::default();
    let mut grid = Grid::new(3, 5, 10, &attrs);
    write(&mut grid, 0, "ab");
    write(&mut grid, 1, "cd e");

    assert_eq!(extract_range(&grid, point(0, 1), point(1, 3)), Some("b\ncd ".to_string()));
    assert_eq!(extract_range(&grid, point(1, 0), point(1, 0)), None);
    assert_eq!(extract_range(&grid, point(1, 2), point(0, 4)), None);
    assert_eq!(extract_range(&grid, point(2, 0), point(2, 5)), Some("     ".to_string()));
}

#[test]
fn prompt_and_header_sections_come_from_the_grid() {
    let attrs = CellAttributes::default();
    let mut grid = Grid::new(2, 6, 10, &attrs);
    write(&mut grid, 0, "$ ls");

    let mut content = BlockContent::default();
    content.mark_prompt_end(&grid, point(0, 4));
    assert_eq!(content.prompt_text(), None);

    content.mark_prompt_start(point(0, 0));
    content.mark_prompt_end(&grid, point(0, 2));
    assert_eq!(content.prompt_text(), Some("$ ".to_string()));

    content.capture_header(&grid, 0, Some("ls"));
    let whole = "$ ls\nfile".to_string();
    content.freeze(Some(&whole));
    assert_eq!(content.output_text(), Some("file".to_string()));
}

#[test]
fn reversed_ranges_outside_the_grid_have_no_text() {
    let attrs = CellAttributes::default();
    let grid = Grid::new(3, 5, 10, &attrs);
    assert_eq!(extract_range(&grid, point(50, 0), point(40, 9)), None);
}
