use otty_surface::cell::{Cell, CellAttributes, Flags};
use otty_surface::escape::Hyperlink;
use otty_surface::hyperlink::{HyperlinkMap, LogicalLine};
use otty_surface::index::{Column, Line, Point};
use otty_surface::snapshot::{SnapshotCell, SnapshotSize};

fn cells_from_rows(rows: &[&str], columns: usize) -> Vec<SnapshotCell> {
    let mut result = Vec::new();
    for (line_index, row) in rows.iter().enumerate() {
        let mut chars = row.chars();
        for column in 0..columns {
            let cell = Cell { ch: chars.next().unwrap_or(' '), ..Cell::default() };
            result.push(SnapshotCell {
                point: Point::new(Line(line_index as i32), Column(column)),
                cell,
            });
        }
    }
    result
}

fn size(columns: usize, lines: usize) -> SnapshotSize {
    SnapshotSize { columns, screen_lines: lines, total_lines: lines }
}

#[test]
fn build_detects_plain_url() {
    let columns = 40;
    let cells = cells_from_rows(&["visit https://otty.sh now"], columns);
    let map = HyperlinkMap::build(&cells, size(columns, 1), 0);

    let span = map.span_for_point(0, Point::new(Line(0), Column(8))).expect("url span");
    assert_eq!(span.link.uri(), "https://otty.sh");
    assert!(map.span_for_point(0, Point::new(Line(0), Column(22))).is_none());
}

#[test]
fn build_detects_wrapped_url() {
    let columns = 12;
    let mut cells = cells_from_rows(&["https://otty", ".sh and more"], columns);
    cells[columns - 1].cell.flags.insert(Flags::WRAPLINE);
    let map = HyperlinkMap::build(&cells, size(columns, 2), 0);

    let first = map.span_for_point(0, Point::new(Line(0), Column(0))).expect("first row span");
    let second = map.span_for_point(0, Point::new(Line(1), Column(0))).expect("second row span");

    assert_eq!(first.link.uri(), "https://otty.sh");
    assert_eq!(second.link.uri(), "https://otty.sh");
}

#[test]
fn osc_hyperlink_is_exposed_in_snapshot() {
    let columns = 10;
    let mut cells = cells_from_rows(&["hi"], columns);
    let link = Hyperlink::new(None, "https://example.com".to_string());
    cells[0].cell.attributes.set_hyperlink(Some(link.clone()));
    cells[1].cell.attributes.set_hyperlink(Some(link.clone()));
    let map = HyperlinkMap::build(&cells, size(columns, 1), 0);

    let span = map.span_for_point(0, Point::new(Line(0), Column(0))).expect("span expected");

    assert_eq!(span.link, link);
    assert!(span.contains(Point::new(Line(0), Column(1))));
    assert_eq!(
        map.span_id_for_point(0, Point::new(Line(0), Column(0))),
        map.span_id_for_point(0, Point::new(Line(0), Column(1)))
    );
}

#[test]
fn regex_detects_plain_url() {
    let cells = cells_from_rows(&["visit https://otty.sh now"], 40);
    let map = HyperlinkMap::build(&cells, size(40, 2), 0);

    let span = map.span_for_point(0, Point::new(Line(0), Column(8))).expect("url span");
    assert_eq!(span.link.uri(), "https://otty.sh");
    assert!(map.span_for_point(0, Point::new(Line(0), Column(22))).is_none());
}

#[test]
fn unsupported_scheme_is_ignored() {
    let cells = cells_from_rows(&["custom://example is not supported"], 40);
    let map = HyperlinkMap::build(&cells, size(40, 2), 0);

    assert!(map.span_for_point(0, Point::new(Line(0), Column(0))).is_none());
    assert!(map.span_for_point(0, Point::new(Line(0), Column(15))).is_none());
}

#[test]
fn explicit_links_keep_their_cells_and_split_on_gaps() {
    let columns = 6;
    let mut cells = cells_from_rows(&["ab cd"], columns);
    let link = Hyperlink::new(Some("id".to_string()), "https://a.example".to_string());
    let mut attributes = CellAttributes::default();
    attributes.hyperlink = Some(link.clone());
    cells[0].cell.attributes = attributes.clone();
    cells[1].cell.attributes = attributes.clone();
    cells[3].cell.attributes = attributes.clone();
    let map = HyperlinkMap::build(&cells, size(columns, 1), 0);

    let first = map.span_id_for_point(0, Point::new(Line(0), Column(0)));
    let second = map.span_id_for_point(0, Point::new(Line(0), Column(3)));
    assert!(first.is_some() && second.is_some());
    assert_ne!(first, second);
    assert_eq!(map.span_id_for_point(0, Point::new(Line(0), Column(1))), first);
    assert_eq!(map.span_id_for_point(0, Point::new(Line(0), Column(2))), None);
    let span = map.span_for_point(0, Point::new(Line(0), Column(3))).expect("second span");
    assert_eq!(span.link, link);
}

#[test]
fn empty_inputs_build_an_empty_map() {
    let map = HyperlinkMap::build(&[], size(10, 2), 0);
    assert_eq!(map.span_id_for_point(0, Point::new(Line(0), Column(0))), None);

    let cells = cells_from_rows(&["https://x.y"], 12);
    let map = HyperlinkMap::build(&cells, size(0, 0), 0);
    assert_eq!(map.span_id_for_point(0, Point::new(Line(0), Column(0))), None);
}

#[test]
fn points_outside_the_viewport_have_no_span() {
    let cells = cells_from_rows(&["https://otty.sh"], 20);
    let map = HyperlinkMap::build(&cells, size(20, 1), 0);

    assert!(map.span_for_point(0, Point::new(Line(0), Column(0))).is_some());
    assert!(map.span_for_point(0, Point::new(Line(-1), Column(0))).is_none());
    assert!(map.span_for_point(0, Point::new(Line(1), Column(0))).is_none());
}

#[test]
fn given_matches_become_detected_spans() {
    let columns = 10;
    let cells = cells_from_rows(&["abcdefgh"], columns);
    let mut map = HyperlinkMap::build(&cells, size(columns, 1), 0);
    assert!(map.span_for_point(0, Point::new(Line(0), Column(3))).is_none());

    let mut line = LogicalLine::new();
    line.push_row(&cells, 0, columns, columns, 0);
    map.ingest_url_matches(&line, &[(2, 5)]);

    let span = map.span_for_point(0, Point::new(Line(0), Column(3))).expect("given span");
    assert_eq!(span.link.uri(), "cde");
    assert!(map.span_for_point(0, Point::new(Line(0), Column(5))).is_none());
    assert!(map.span_for_point(0, Point::new(Line(0), Column(1))).is_none());
}
