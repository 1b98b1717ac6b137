use otty_surface::block::model::{BlockKind, BlockMeta, BlockSnapshot};
use otty_surface::block_text::{collect_block_prompt, collect_block_text};
use otty_surface::cell::{Cell, Flags};
use otty_surface::color::Colors;
use otty_surface::hyperlink::HyperlinkMap;
use otty_surface::index::{Column, Line, Point};
use otty_surface::mode::SurfaceMode;
use otty_surface::snapshot::{
    CursorSnapshot, SnapshotCell, SnapshotDamage, SnapshotOwned, SnapshotSize,
};

fn block_snapshot(id: &str, kind: BlockKind, start_line: i32, line_count: usize) -> BlockSnapshot {
    BlockSnapshot {
        meta: BlockMeta { id: id.into(), kind, ..BlockMeta::default() },
        start_line,
        line_count,
        cached_text: None,
        prompt_text: None,
        output_text: None,
        is_alt_screen: false,
    }
}

fn cell(line: i32, column: usize, ch: char) -> SnapshotCell {
    SnapshotCell { point: Point::new(Line(line), Column(column)), cell: Cell { ch, ..Cell::default() } }
}

fn build_snapshot(cells: Vec<SnapshotCell>, blocks: Vec<BlockSnapshot>) -> SnapshotOwned {
    SnapshotOwned::from_parts(
        cells,
        HyperlinkMap::default(),
        CursorSnapshot::default(),
        0,
        Colors::default(),
        SurfaceMode::default(),
        SnapshotSize { columns: 80, screen_lines: 2, total_lines: 2 },
        SnapshotDamage::Full,
        160,
        blocks,
    )
}

#[test]
fn collects_multiple_lines_for_command_block() {
    let block = block_snapshot("block-1", BlockKind::Command, 0, 2);
    let cells = vec![
        cell(0, 0, 'e'),
        cell(0, 1, 'c'),
        cell(0, 2, 'h'),
        cell(0, 3, 'o'),
        cell(0, 4, ' '),
        cell(0, 5, ' '),
        cell(0, 6, 'h'),
        cell(0, 7, 'i'),
        cell(1, 0, 'o'),
        cell(1, 1, 'k'),
    ];

    let content = collect_block_text(&block, &cells);

    assert_eq!(content.as_deref(), Some("echo  hi\nok"));
}

#[test]
fn returns_none_for_prompt_block() {
    let block = block_snapshot("prompt", BlockKind::Prompt, 0, 1);
    let cells = vec![cell(0, 0, '$')];

    assert!(collect_block_text(&block, &cells).is_none());
}

#[test]
fn returns_none_for_empty_block() {
    let block = block_snapshot("empty", BlockKind::Command, 0, 0);
    let cells = vec![cell(0, 0, 'a')];

    assert!(collect_block_text(&block, &cells).is_none());
}

#[test]
fn keeps_fullscreen_blocks() {
    let block = block_snapshot("fs", BlockKind::FullScreen, 0, 1);
    let cells = vec![cell(0, 0, 'Z')];

    assert_eq!(collect_block_text(&block, &cells), Some("Z".into()));
}

#[test]
fn skips_wide_char_spacers() {
    let mut wide_cell = Cell { ch: '漢', ..Cell::default() };
    wide_cell.flags.insert(Flags::WIDE_CHAR);

    let mut spacer = Cell { ch: ' ', ..Cell::default() };
    spacer.flags.insert(Flags::WIDE_CHAR_SPACER);

    let block = block_snapshot("wide", BlockKind::Command, 0, 1);
    let cells = vec![
        SnapshotCell { point: Point::new(Line(0), Column(0)), cell: wide_cell },
        SnapshotCell { point: Point::new(Line(0), Column(1)), cell: spacer },
    ];

    assert_eq!(collect_block_text(&block, &cells), Some("漢".to_string()));
}

#[test]
fn snapshot_view_exposes_block_text_lookup() {
    let block = block_snapshot("block-1", BlockKind::Command, 0, 1);
    let snapshot = build_snapshot(vec![cell(0, 0, 'x')], vec![block]);
    let view = snapshot.view();

    assert_eq!(view.block_text("block-1"), Some("x".into()));
}

#[test]
fn snapshot_owned_proxies_block_text_lookup() {
    let block = block_snapshot("block-2", BlockKind::Command, 0, 1);
    let snapshot = build_snapshot(vec![cell(0, 0, 'y')], vec![block]);

    assert_eq!(snapshot.block_text("block-2"), Some("y".into()));
}

#[test]
fn block_prompt_text_returns_first_line_for_command_block() {
    let block = block_snapshot("block-1", BlockKind::Command, 0, 2);
    let cells = vec![
        cell(0, 0, 'p'),
        cell(0, 1, 's'),
        cell(0, 2, '1'),
        cell(0, 3, ' '),
        cell(0, 4, 'c'),
        cell(0, 5, 'm'),
        cell(1, 0, 'o'),
        cell(1, 1, 'k'),
    ];

    let snapshot = build_snapshot(cells, vec![block]);
    let view = snapshot.view();

    assert_eq!(view.block_prompt_text("block-1").as_deref(), Some("ps1 cm"));
}

#[test]
fn block_prompt_text_returns_none_for_non_command_block() {
    let block = block_snapshot("prompt", BlockKind::Prompt, 0, 1);
    let snapshot = build_snapshot(vec![cell(0, 0, '$')], vec![block]);
    let view = snapshot.view();

    assert!(view.block_prompt_text("prompt").is_none());
}

#[test]
fn cached_text_wins_over_cells() {
    let mut block = block_snapshot("cached", BlockKind::Command, 0, 1);
    block.cached_text = Some("first\r\nsecond".to_string());
    let cells = vec![cell(0, 0, 'x')];

    assert_eq!(collect_block_text(&block, &cells), Some("first\r\nsecond".to_string()));
    assert_eq!(collect_block_prompt(&block, &cells), Some("first".to_string()));

    block.cached_text = Some(String::new());
    assert_eq!(collect_block_text(&block, &cells), None);
    assert_eq!(collect_block_prompt(&block, &cells), None);

    block.meta.kind = BlockKind::FullScreen;
    block.cached_text = Some("top".to_string());
    assert_eq!(collect_block_prompt(&block, &cells), None);
}

#[test]
fn block_text_ignores_cells_outside_the_block_and_trims_lines() {
    let block = block_snapshot("mid", BlockKind::Command, 1, 2);
    let cells = vec![
        cell(0, 0, 'a'),
        cell(1, 0, 'b'),
        cell(1, 1, ' '),
        cell(2, 0, ' '),
        cell(3, 0, 'z'),
    ];

    assert_eq!(collect_block_text(&block, &cells), Some("b\n".to_string()));
    assert_eq!(collect_block_prompt(&block, &cells), Some("b".to_string()));
}

#[test]
fn unknown_block_ids_have_no_text() {
    let block = block_snapshot("known", BlockKind::Command, 0, 1);
    let snapshot = build_snapshot(vec![cell(0, 0, 'k')], vec![block]);

    assert_eq!(snapshot.block_text("unknown"), None);
    assert_eq!(snapshot.block_prompt_text("unknown"), None);
    assert_eq!(snapshot.block_prompt_text("known"), Some("k".to_string()));
}

#[test]
fn cached_prompt_line_drops_trailing_spaces() {
    let mut block = block_snapshot("cached", BlockKind::Command, 0, 1);
    block.cached_text = Some("ab  \ncd".to_string());
    let cells = vec![cell(0, 0, 'x')];
    assert_eq!(collect_block_prompt(&block, &cells), Some("ab".to_string()));

    block.cached_text = Some("   \nout".to_string());
    assert_eq!(collect_block_prompt(&block, &cells), Some(String::new()));

    block.cached_text = Some("\nout".to_string());
    assert_eq!(collect_block_prompt(&block, &cells), None);
}

#[test]
fn cached_blocks_answer_without_reading_lines() {
    let mut block = block_snapshot("far", BlockKind::Command, i32::MAX, 5);
    block.cached_text = Some("ls  \nout".to_string());
    let cells = vec![cell(0, 0, 'x')];
    assert_eq!(collect_block_text(&block, &cells), Some("ls  \nout".to_string()));
    assert_eq!(collect_block_prompt(&block, &cells), Some("ls".to_string()));
}
