use std::sync::Arc;

use cursor_icon::CursorIcon;
use otty_surface::grid::{Grid, ScrollDirection};
use otty_surface::state::{LineDamage, SurfaceDamage, SurfaceSnapshot};
use otty_surface::snapshot::SnapshotDamage as SurfaceSnapshotDamage;
use otty_surface::escape::{CharacterAttribute, Color, CursorShape, CursorStyle, Mode, NamedMode, Rgb};
use otty_surface::cell::{Cell, CellAttributes, CellBlink, CellUnderline, Flags};
use otty_surface::index::{point_to_viewport, viewport_to_point, Column, Direction, Line, Point};
use otty_surface::surface::{version_number, Surface, SurfaceConfig, SurfaceCursor, TabStops, SEMANTIC_ESCAPE_CHARS};

#[test]
fn parse_cargo_version() {
    assert_eq!(version_number("0.0.1-dev"), 1);
    assert_eq!(version_number("0.1.2-dev"), 1_02);
    assert_eq!(version_number("1.2.3-dev"), 1_02_03);
    assert_eq!(version_number("999.99.99"), 9_99_99_99);
}

#[test]
fn version_components_that_are_not_numbers_count_as_zero() {
    assert_eq!(version_number("1.x.3"), 1_00_03);
    assert_eq!(version_number("1.+2.3"), 1_02_03);
    assert_eq!(version_number("1.-2.3"), 1_00);
    assert_eq!(version_number(""), 0);
    assert_eq!(version_number("2..1"), 2_00_01);
    assert_eq!(version_number("1.2-rc-1"), 1_00);
}

#[test]
fn tab_stops_start_every_eight_columns() {
    let stops = TabStops::new(20);

    assert_eq!(stops.len(), 20);
    for column in 0..20 {
        assert_eq!(stops.get(Column(column)), column % 8 == 0);
    }
}

#[test]
fn resizing_tab_stops_keeps_existing_columns() {
    let mut stops = TabStops::new(10);
    stops.set(Column(3), true);
    stops.set(Column(8), false);

    stops.resize(20);
    assert!(stops.get(Column(3)));
    assert!(!stops.get(Column(8)));
    assert!(stops.get(Column(16)));
    assert!(!stops.get(Column(17)));

    stops.resize(4);
    assert_eq!(stops.len(), 4);
    assert!(stops.get(Column(3)));

    stops.clear_all();
    assert!((0..4).all(|column| !stops.get(Column(column))));
}

#[test]
fn default_surface_config() {
    let config = SurfaceConfig::default();

    assert_eq!(config.scrolling_history, 10000);
    assert_eq!(config.semantic_escape_chars, SEMANTIC_ESCAPE_CHARS);
    assert_eq!(
        config.default_cursor_style,
        CursorStyle { shape: CursorShape::Block, blinking: false }
    );
    assert!(!config.kitty_keyboard);
}

#[test]
fn surface_snapshot_keeps_its_parts() {
    let grid = Arc::new(Grid::new(3, 4, 10, &otty_surface::cell::CellAttributes::default()));
    let snapshot = SurfaceSnapshot::new(
        Arc::clone(&grid),
        4,
        3,
        1,
        2,
        0,
        Some(CursorIcon::Text),
        Some(CursorShape::Beam),
        None,
        SurfaceDamage::Full,
    );

    assert_eq!(snapshot.columns, 4);
    assert_eq!(snapshot.rows, 3);
    assert_eq!((snapshot.cursor_row, snapshot.cursor_col), (1, 2));
    assert_eq!(snapshot.cursor_icon, Some(CursorIcon::Text));
    assert_eq!(snapshot.cursor_shape, Some(CursorShape::Beam));
    assert!(Arc::ptr_eq(&snapshot.grid, &grid));
    assert!(!snapshot.damage.is_none());
}

#[test]
fn higher_versions_report_higher_numbers() {
    assert!(version_number("1.2.3") < version_number("1.3.0"));
    assert!(version_number("0.9.99-dev") < version_number("1.0.0"));
    assert!(version_number("2.0.0-rc") > version_number("1.99.99"));
}

#[test]
fn line_damage_spans_the_covered_columns() {
    let mut damage = LineDamage::undamaged(0, 10);
    assert!(!damage.is_damaged());
    damage.cover(4, 6);
    damage.cover(2, 3);
    damage.cover(8, 7);
    assert_eq!((damage.left, damage.right), (2, 7));
    assert!(damage.is_damaged());
}

fn put(surface: &mut Surface, row: usize, text: &str) {
    for (column, ch) in text.chars().enumerate() {
        surface.grid_mut().row_mut(row).cells[column] = Cell { ch, ..Cell::default() };
    }
}

#[test]
fn line_to_string_reads_the_occupied_part_and_ends_unwrapped_lines() {
    let mut surface = Surface::new(SurfaceConfig::default(), 5, 3);
    put(&mut surface, 0, "ab");
    put(&mut surface, 1, "cd e");

    assert_eq!(surface.line_to_string(Line(0), Column(0)..Column(4), false), "ab\n");
    assert_eq!(surface.line_to_string(Line(1), Column(1)..Column(2), false), "d ");
    assert_eq!(surface.line_to_string(Line(2), Column(0)..Column(4), false), "\n");
    assert_eq!(surface.bounds_to_string(Point::new(Line(0), Column(1)), Point::new(Line(1), Column(4))), "b\ncd e");
}

#[test]
fn line_to_string_collapses_tabs_and_skips_wide_spacers() {
    let mut surface = Surface::new(SurfaceConfig::default(), 12, 2);
    put(&mut surface, 0, "a\t      b");
    assert_eq!(surface.line_to_string(Line(0), Column(0)..Column(11), false), "a\tb\n");

    put(&mut surface, 1, "xW_y");
    let mut wide = Flags::empty();
    wide.insert(Flags::WIDE_CHAR);
    let mut spacer = Flags::empty();
    spacer.insert(Flags::WIDE_CHAR_SPACER);
    surface.grid_mut().row_mut(1).cells[1].flags = wide;
    surface.grid_mut().row_mut(1).cells[2].flags = spacer;
    assert_eq!(surface.line_to_string(Line(1), Column(2)..Column(3), false), "Wy");
}

#[test]
fn wrapped_lines_join_without_newline() {
    let mut surface = Surface::new(SurfaceConfig::default(), 3, 2);
    put(&mut surface, 0, "abc");
    put(&mut surface, 1, "de");
    let mut wrap = Flags::empty();
    wrap.insert(Flags::WRAPLINE);
    surface.grid_mut().row_mut(0).cells[2].flags = wrap;
    assert_eq!(surface.bounds_to_string(Point::new(Line(0), Column(0)), Point::new(Line(1), Column(2))), "abcde");
}

#[test]
fn line_searches_follow_wrapped_lines() {
    let mut surface = Surface::new(SurfaceConfig::default(), 3, 4);
    let mut wrap = Flags::empty();
    wrap.insert(Flags::WRAPLINE);
    surface.grid_mut().row_mut(0).cells[2].flags = wrap;
    surface.grid_mut().row_mut(1).cells[2].flags = wrap;

    assert_eq!(surface.line_search_left(Point::new(Line(2), Column(1))), Point::new(Line(0), Column(0)));
    assert_eq!(surface.line_search_right(Point::new(Line(0), Column(1))), Point::new(Line(2), Column(2)));
    assert_eq!(surface.line_search_left(Point::new(Line(3), Column(2))), Point::new(Line(3), Column(0)));
    assert_eq!(surface.line_search_right(Point::new(Line(3), Column(0))), Point::new(Line(3), Column(2)));
}

#[test]
fn viewport_conversions_undo_each_other() {
    let point = Point::new(Line(-2), Column(3));
    let viewport = point_to_viewport(5, point).expect("on screen");
    assert_eq!(viewport, Point::new(3usize, Column(3)));
    assert_eq!(viewport_to_point(5, viewport), point);
    assert_eq!(point_to_viewport(1, point), None);
}

#[test]
fn surfaces_accept_unlimited_history() {
    let config = SurfaceConfig { scrolling_history: usize::MAX, ..SurfaceConfig::default() };
    let surface = Surface::new(config, 4, 2);
    assert_eq!(surface.columns(), 4);
    assert_eq!(surface.screen_lines(), 2);
}

#[test]
fn graphic_renditions_update_the_template() {
    let mut surface = Surface::new(SurfaceConfig::default(), 4, 2);
    surface.sgr(CharacterAttribute::Bold);
    surface.sgr(CharacterAttribute::Undercurl);
    surface.sgr(CharacterAttribute::Foreground(Color::Indexed(3)));
    surface.sgr(CharacterAttribute::BlinkSlow);
    let template = surface.template();
    assert!(template.bold);
    assert_eq!(template.underline, CellUnderline::Curl);
    assert_eq!(template.foreground, Color::Indexed(3));
    assert_eq!(template.blink, CellBlink::Off);

    surface.sgr(CharacterAttribute::DoubleUnderline);
    surface.sgr(CharacterAttribute::CancelBoldDim);
    assert_eq!(surface.template().underline, CellUnderline::Double);
    assert!(!surface.template().bold);

    surface.sgr(CharacterAttribute::Reset);
    assert_eq!(*surface.template(), CellAttributes::default());
}

fn row_text(surface: &Surface, index: usize) -> String {
    surface.grid().rows()[index].cells.iter().map(|cell| cell.ch).collect()
}

fn row_flags(surface: &Surface, index: usize, column: usize) -> Flags {
    surface.grid().rows()[index].cells[column].flags
}

fn flag(bits: u16) -> Flags {
    let mut flags = Flags::empty();
    flags.insert(bits);
    flags
}

#[test]
fn printing_writes_at_the_cursor_and_wraps() {
    let mut surface = Surface::new(SurfaceConfig::default(), 3, 2);
    for c in "abcd".chars() {
        surface.print(c);
    }
    assert_eq!(row_text(&surface, 0), "abc");
    assert_eq!(row_text(&surface, 1), "d  ");
    assert_eq!(row_flags(&surface, 0, 2), flag(Flags::WRAPLINE));
    assert_eq!(surface.cursor(), SurfaceCursor { line: 1, column: 1, input_needs_wrap: false });
    assert_eq!(surface.bounds_to_string(Point::new(Line(0), Column(0)), Point::new(Line(1), Column(2))), "abcd");

    surface.print('\n');
    assert_eq!(surface.cursor(), SurfaceCursor { line: 1, column: 1, input_needs_wrap: false });
}

#[test]
fn printed_cells_take_the_template() {
    let mut surface = Surface::new(SurfaceConfig::default(), 4, 1);
    surface.sgr(CharacterAttribute::Bold);
    surface.print('x');
    let cell = &surface.grid().rows()[0].cells[0];
    assert!(cell.attributes.bold);
    assert!(cell.touched);
}

#[test]
fn wide_characters_take_two_cells() {
    let mut surface = Surface::new(SurfaceConfig::default(), 4, 2);
    surface.print('中');
    assert_eq!(row_flags(&surface, 0, 0), flag(Flags::WIDE_CHAR));
    assert_eq!(row_flags(&surface, 0, 1), flag(Flags::WIDE_CHAR_SPACER));
    assert_eq!(surface.cursor().column, 2);

    let mut narrow = Surface::new(SurfaceConfig::default(), 3, 2);
    for c in "ab中".chars() {
        narrow.print(c);
    }
    assert_eq!(row_flags(&narrow, 0, 2), flag(Flags::LEADING_WIDE_CHAR_SPACER | Flags::WRAPLINE));
    assert_eq!(narrow.grid().rows()[1].cells[0].ch, '中');
    assert_eq!(row_flags(&narrow, 1, 1), flag(Flags::WIDE_CHAR_SPACER));
    assert_eq!(narrow.cursor(), SurfaceCursor { line: 1, column: 2, input_needs_wrap: false });
}

#[test]
fn overwriting_half_a_wide_character_clears_the_other_half() {
    let mut surface = Surface::new(SurfaceConfig::default(), 4, 1);
    surface.print('中');
    surface.carriage_return();
    surface.print('x');
    assert_eq!(row_text(&surface, 0), "x   ");
    assert_eq!(row_flags(&surface, 0, 1), Flags::empty());
}

#[test]
fn printing_at_the_bottom_scrolls_into_history() {
    let mut surface = Surface::new(SurfaceConfig::default(), 2, 2);
    for c in "abcde".chars() {
        surface.print(c);
    }
    assert_eq!(surface.grid().total_lines(), 3);
    assert_eq!(row_text(&surface, 0), "ab");
    assert_eq!(row_text(&surface, 1), "cd");
    assert_eq!(row_text(&surface, 2), "e ");
    assert_eq!(surface.cursor(), SurfaceCursor { line: 1, column: 1, input_needs_wrap: false });
}

#[test]
fn insert_mode_pushes_the_line_right() {
    let mut surface = Surface::new(SurfaceConfig::default(), 4, 1);
    for c in "abc".chars() {
        surface.print(c);
    }
    surface.carriage_return();
    surface.set_mode(Mode::Named(NamedMode::Insert));
    surface.print('x');
    assert_eq!(row_text(&surface, 0), "xabc");
    surface.unset_mode(Mode::Named(NamedMode::Insert));
    surface.print('y');
    assert_eq!(row_text(&surface, 0), "xybc");
}

#[test]
fn new_line_moves_down_and_returns_in_line_feed_mode() {
    let mut surface = Surface::new(SurfaceConfig::default(), 4, 3);
    surface.print('a');
    surface.new_line();
    assert_eq!(surface.cursor(), SurfaceCursor { line: 1, column: 1, input_needs_wrap: false });
    surface.set_mode(Mode::Named(NamedMode::LineFeedNewLine));
    surface.new_line();
    assert_eq!(surface.cursor(), SurfaceCursor { line: 2, column: 0, input_needs_wrap: false });
}

#[test]
fn wide_characters_do_not_fit_a_single_column() {
    let mut surface = Surface::new(SurfaceConfig::default(), 1, 2);
    assert!(!surface.try_print('中'));
    assert_eq!(surface.cursor(), SurfaceCursor { line: 0, column: 0, input_needs_wrap: false });
    assert!(surface.try_print('a'));
    assert_eq!(row_text(&surface, 0), "a");
}

#[test]
fn expanding_wide_cells_reaches_their_other_end() {
    let mut surface = Surface::new(SurfaceConfig::default(), 3, 2);
    for c in "ab中".chars() {
        surface.print(c);
    }
    let point = |line: i32, column: usize| Point::new(Line(line), Column(column));
    assert_eq!(surface.expand_wide(point(0, 2), Direction::Right), point(1, 1));
    assert_eq!(surface.expand_wide(point(1, 0), Direction::Right), point(1, 1));
    assert_eq!(surface.expand_wide(point(1, 1), Direction::Left), point(0, 2));
    assert_eq!(surface.expand_wide(point(0, 0), Direction::Right), point(0, 0));
}

#[test]
fn inline_and_semantic_searches_stop_at_delimiters() {
    let mut surface = Surface::new(SurfaceConfig::default(), 10, 2);
    for c in "foo bar".chars() {
        surface.print(c);
    }
    let point = |line: i32, column: usize| Point::new(Line(line), Column(column));
    assert_eq!(surface.inline_search_right(point(0, 0), " "), Ok(point(0, 3)));
    assert_eq!(surface.inline_search_left(point(0, 6), " "), Ok(point(0, 3)));
    assert_eq!(surface.inline_search_right(point(1, 0), "x"), Err(point(1, 9)));
    assert_eq!(surface.inline_search_left(point(0, 2), "z"), Err(point(0, 0)));
    assert_eq!(surface.semantic_search_right(point(0, 4)), point(0, 6));
    assert_eq!(surface.semantic_search_left(point(0, 5)), point(0, 4));
    assert_eq!(surface.semantic_search_left(point(0, 1)), point(0, 0));
}

#[test]
fn brackets_find_their_partners() {
    let mut surface = Surface::new(SurfaceConfig::default(), 10, 2);
    for c in "(a(b)c) (x".chars() {
        surface.print(c);
    }
    let point = |line: i32, column: usize| Point::new(Line(line), Column(column));
    assert_eq!(surface.bracket_search(point(0, 0)), Some(point(0, 6)));
    assert_eq!(surface.bracket_search(point(0, 2)), Some(point(0, 4)));
    assert_eq!(surface.bracket_search(point(0, 6)), Some(point(0, 0)));
    assert_eq!(surface.bracket_search(point(0, 1)), None);
    assert_eq!(surface.bracket_search(point(0, 8)), None);
}

#[test]
fn scrolling_brings_points_into_view() {
    let mut surface = Surface::new(SurfaceConfig::default(), 4, 2);
    for _ in 0..5 {
        surface.print('a');
        surface.carriage_return();
        surface.line_feed();
    }
    assert_eq!(surface.grid().history_size(), 4);
    surface.scroll_to_point(Point::new(Line(-3), Column(0)));
    assert_eq!(surface.grid().display_offset(), 3);
    surface.scroll_to_point(Point::new(Line(1), Column(0)));
    assert_eq!(surface.grid().display_offset(), 0);
    surface.scroll_display(ScrollDirection::Top);
    assert_eq!(surface.grid().display_offset(), 4);
}

#[test]
fn goto_clamps_to_the_screen_and_the_last_column() {
    let mut surface = Surface::new(SurfaceConfig::default(), 5, 3);
    surface.goto(1, 2);
    assert_eq!(surface.cursor(), SurfaceCursor { line: 1, column: 2, input_needs_wrap: false });
    surface.goto(10, 10);
    assert_eq!(surface.cursor(), SurfaceCursor { line: 2, column: 4, input_needs_wrap: false });
    surface.goto(-4, 0);
    assert_eq!(surface.cursor(), SurfaceCursor { line: 0, column: 0, input_needs_wrap: false });
}

#[test]
fn cursor_style_and_colors_follow_the_application() {
    let mut surface = Surface::new(SurfaceConfig::default(), 5, 3);
    assert_eq!(surface.cursor_style(), CursorStyle::default());
    surface.set_cursor_shape(CursorShape::Beam);
    assert_eq!(surface.cursor_style(), CursorStyle { shape: CursorShape::Beam, blinking: false });
    surface.set_cursor_style(None);
    assert_eq!(surface.cursor_style(), CursorStyle::default());

    let red = Rgb { r: 255, g: 0, b: 0 };
    surface.set_color(1, red);
    assert_eq!(surface.colors().get(1), Some(red));
    surface.reset_color(1);
    assert_eq!(surface.colors().get(1), None);
}

#[test]
fn snapshots_capture_the_viewport_and_cursor() {
    let mut surface = Surface::new(SurfaceConfig::default(), 3, 2);
    for c in "ab中".chars() {
        surface.print(c);
    }
    let snapshot = surface.snapshot_owned();
    let view = snapshot.view();
    assert_eq!(view.cells.len(), 6);
    assert_eq!(view.cells[0].point, Point::new(Line(0), Column(0)));
    assert_eq!(view.cells[0].cell.ch, 'a');
    assert_eq!(view.cells[3].point, Point::new(Line(1), Column(0)));
    assert_eq!(view.cells[3].cell.ch, '中');
    assert_eq!(view.cursor.point, Point::new(Line(1), Column(2)));
    assert_eq!(view.cursor.shape, CursorShape::Block);
    assert_eq!(view.visible_cell_count, 6);
    assert!(matches!(view.damage, SurfaceSnapshotDamage::Full));

    let mut hidden = Surface::new(SurfaceConfig::default(), 2, 1);
    hidden.print('x');
    assert_eq!(hidden.snapshot_owned().view().cursor.point, Point::new(Line(0), Column(1)));
}

#[test]
fn snapshots_follow_the_display_offset() {
    let mut surface = Surface::new(SurfaceConfig::default(), 2, 2);
    for c in "abcde".chars() {
        surface.print(c);
    }
    surface.scroll_display(ScrollDirection::Top);
    let snapshot = surface.snapshot_owned();
    let view = snapshot.view();
    assert_eq!(view.cells[0].point, Point::new(Line(-1), Column(0)));
    assert_eq!(view.cells[0].cell.ch, 'a');
    assert_eq!(view.cells[2].cell.ch, 'c');
}
