//! Owned, renderable snapshot data.

use vstd::prelude::*;

use crate::block::model::BlockSnapshot;
use crate::block_text::{
    block_lines_fit, block_prompt_of, block_text_of, collect_block_prompt, collect_block_text,
};
use crate::cell::Cell;
use crate::color::Colors;
use crate::escape::CursorShape;
use crate::hyperlink::{viewport_slot, HyperlinkMap, HyperlinkSpan};
use crate::index::Point;
use crate::mode::SurfaceMode;
use crate::state::LineDamage;

verus! {

/// Cell paired with its grid location in an owned snapshot.
#[derive(Debug, PartialEq, Eq)]
pub struct SnapshotCell {
    /// Grid location of the cell.
    pub point: Point,
    /// The cell content.
    pub cell: Cell,
}

impl Clone for SnapshotCell {
    fn clone(&self) -> (copy: Self)
        ensures
            copy == *self,
    {
        SnapshotCell { point: self.point, cell: self.cell.clone() }
    }
}

/// Geometry captured alongside an owned snapshot.
#[derive(Clone, Copy, Debug, PartialEq, Eq, Structural)]
pub struct SnapshotSize {
    /// Number of columns.
    pub columns: usize,
    /// Number of visible lines.
    pub screen_lines: usize,
    /// Number of lines including history.
    pub total_lines: usize,
}

impl Default for SnapshotSize {
    fn default() -> (size: Self)
        ensures
            size == (SnapshotSize { columns: 0, screen_lines: 0, total_lines: 0 }),
    {
        SnapshotSize { columns: 0, screen_lines: 0, total_lines: 0 }
    }
}

/// Owned view of damage accumulated on the surface.
#[derive(Clone, Debug, PartialEq, Eq)]
pub enum SnapshotDamage {
    /// Everything must be redrawn.
    Full,
    /// Only the listed lines changed.
    Partial(Vec<LineDamage>),
}

impl Default for SnapshotDamage {
    fn default() -> (damage: Self)
        ensures
            damage is Full,
    {
        SnapshotDamage::Full
    }
}

/// Terminal cursor rendering information.
#[derive(Debug, PartialEq, Eq)]
pub struct CursorSnapshot {
    /// Shape to draw.
    pub shape: CursorShape,
    /// Template cell under the cursor.
    pub cell: Cell,
    /// Cursor position.
    pub point: Point,
}

impl Clone for CursorSnapshot {
    fn clone(&self) -> (copy: Self)
        ensures
            copy == *self,
    {
        CursorSnapshot { shape: self.shape, cell: self.cell.clone(), point: self.point }
    }
}

impl Default for CursorSnapshot {
    fn default() -> (cursor: Self)
        ensures
            cursor.shape == CursorShape::Block,
            cursor.point == (Point { line: crate::index::Line(0), column: crate::index::Column(0) }),
    {
        CursorSnapshot {
            shape: CursorShape::Block,
            cell: Cell::default(),
            point: Point::new(crate::index::Line(0), crate::index::Column(0)),
        }
    }
}

/// Index of the first block whose identifier is `id`.
pub open spec fn find_block(blocks: Seq<BlockSnapshot>, id: Seq<char>) -> Option<int>
    decreases blocks.len(),
{
    if blocks.len() == 0 {
        None
    } else if blocks[0].meta.id@ == id {
        Some(0)
    } else {
        match find_block(blocks.drop_first(), id) {
            Some(index) => Some(index + 1),
            None => None,
        }
    }
}

/// Whether every block's lines can be addressed without overflow.
pub open spec fn blocks_fit(blocks: Seq<BlockSnapshot>) -> bool {
    forall|i: int| 0 <= i < blocks.len() ==> block_lines_fit(#[trigger] blocks[i])
}

/// Position of the first block named `block_id`.
fn position_of(blocks: &[BlockSnapshot], block_id: &str) -> (index: Option<usize>)
    ensures
        match index {
            Some(index) => find_block(blocks@, block_id@) == Some(index as int),
            None => find_block(blocks@, block_id@) is None,
        },
{
    let wanted = block_id.to_string();
    let mut i: usize = 0;
    proof {
        assert(blocks@.skip(0) =~= blocks@);
    }
    while i < blocks.len()
        invariant
            i <= blocks@.len(),
            wanted@ == block_id@,
            find_block(blocks@, block_id@) == match find_block(blocks@.skip(i as int), block_id@) {
                Some(index) => Some(index + i),
                None => None,
            },
        decreases blocks@.len() - i,
    {
        proof {
            assert(blocks@.skip(i as int).drop_first() =~= blocks@.skip(i + 1));
        }
        if blocks[i].meta.id == wanted {
            return Some(i);
        }
        i = i + 1;
    }
    None
}

/// View over an owned snapshot suitable for rendering.
pub struct SnapshotView<'a> {
    /// Owned cells with grid positions.
    pub cells: &'a [SnapshotCell],
    /// Blocks visible in the snapshot.
    pub blocks: &'a [BlockSnapshot],
    /// Hyperlink mapping for the visible viewport.
    pub hyperlinks: &'a HyperlinkMap,
    /// Cursor state suitable for rendering.
    pub cursor: &'a CursorSnapshot,
    /// Current scrollback display offset.
    pub display_offset: usize,
    /// Effective color palette.
    pub colors: &'a Colors,
    /// Active surface modes.
    pub mode: SurfaceMode,
    /// Grid geometry at capture time.
    pub size: SnapshotSize,
    /// Damage collected since last reset.
    pub damage: &'a SnapshotDamage,
    /// Total number of cells across the visible viewport (columns x rows).
    pub visible_cell_count: usize,
}

impl<'a> SnapshotView<'a> {
    /// Return the concatenated text for a block identified by its id.
    pub fn block_text(&self, block_id: &str) -> (text: Option<String>)
        requires
            blocks_fit(self.blocks@),
        ensures
            match find_block(self.blocks@, block_id@) {
                Some(index) => match text {
                    Some(text) => block_text_of(self.blocks@[index], self.cells@) == Some(text@),
                    None => block_text_of(self.blocks@[index], self.cells@) is None,
                },
                None => text is None,
            },
    {
        match position_of(self.blocks, block_id) {
            Some(index) => {
                proof {
                    lemma_found_in_range(self.blocks@, block_id@);
                }
                self.block_text_from_snapshot(&self.blocks[index])
            },
            None => None,
        }
    }

    /// Return the concatenated text for the provided block snapshot.
    pub fn block_text_from_snapshot(&self, block: &BlockSnapshot) -> (text: Option<String>)
        requires
            block_lines_fit(*block),
        ensures
            match text {
                Some(text) => block_text_of(*block, self.cells@) == Some(text@),
                None => block_text_of(*block, self.cells@) is None,
            },
    {
        collect_block_text(block, self.cells)
    }

    /// Return only the prompt/input line for the provided block id.
    pub fn block_prompt_text(&self, block_id: &str) -> (text: Option<String>)
        requires
            blocks_fit(self.blocks@),
        ensures
            match find_block(self.blocks@, block_id@) {
                Some(index) => match text {
                    Some(text) => block_prompt_of(self.blocks@[index], self.cells@) == Some(text@),
                    None => block_prompt_of(self.blocks@[index], self.cells@) is None,
                },
                None => text is None,
            },
    {
        match position_of(self.blocks, block_id) {
            Some(index) => {
                proof {
                    lemma_found_in_range(self.blocks@, block_id@);
                }
                self.block_prompt_text_from_snapshot(&self.blocks[index])
            },
            None => None,
        }
    }

    /// Return only the prompt/input line for the provided block snapshot.
    pub fn block_prompt_text_from_snapshot(&self, block: &BlockSnapshot) -> (text: Option<String>)
        requires
            block_lines_fit(*block),
        ensures
            match text {
                Some(text) => block_prompt_of(*block, self.cells@) == Some(text@),
                None => block_prompt_of(*block, self.cells@) is None,
            },
    {
        collect_block_prompt(block, self.cells)
    }

    /// Hyperlink span at the given grid point (visible viewport only).
    pub fn hyperlink_span_at(&self, point: Point) -> (span: Option<&HyperlinkSpan>)
        requires
            self.display_offset <= i32::MAX,
            point.line.0 + self.display_offset <= i32::MAX,
            (point.line.0 + self.display_offset) * self.hyperlinks@.columns + point.column.0
                <= usize::MAX,
        ensures
            span == (match viewport_slot(self.hyperlinks@, self.display_offset as int, point) {
                Some(slot) => match self.hyperlinks@.slots[slot] {
                    Some(id) => if id < self.hyperlinks@.spans.len() {
                        Some(&self.hyperlinks@.spans[id as int])
                    } else {
                        None
                    },
                    None => None,
                },
                None => None,
            }),
    {
        self.hyperlinks.span_for_point(self.display_offset, point)
    }

    /// Hyperlink span id at the given grid point (visible viewport only).
    pub fn hyperlink_span_id_at(&self, point: Point) -> (id: Option<u32>)
        requires
            self.display_offset <= i32::MAX,
            point.line.0 + self.display_offset <= i32::MAX,
            (point.line.0 + self.display_offset) * self.hyperlinks@.columns + point.column.0
                <= usize::MAX,
        ensures
            id == (match viewport_slot(self.hyperlinks@, self.display_offset as int, point) {
                Some(slot) => self.hyperlinks@.slots[slot],
                None => None,
            }),
    {
        self.hyperlinks.span_id_for_point(self.display_offset, point)
    }
}

/// A block found by `find_block` lies within the blocks.
proof fn lemma_found_in_range(blocks: Seq<BlockSnapshot>, id: Seq<char>)
    ensures
        find_block(blocks, id) matches Some(index) ==> 0 <= index < blocks.len(),
    decreases blocks.len(),
{
    if blocks.len() > 0 {
        lemma_found_in_range(blocks.drop_first(), id);
    }
}

/// Owned snapshot capturing all renderable surface state.
pub struct SnapshotOwned {
    cells: Vec<SnapshotCell>,
    hyperlinks: HyperlinkMap,
    cursor: CursorSnapshot,
    display_offset: usize,
    colors: Colors,
    mode: SurfaceMode,
    size: SnapshotSize,
    damage: SnapshotDamage,
    visible_cell_count: usize,
    blocks: Vec<BlockSnapshot>,
}

impl SnapshotOwned {
    #[verifier::type_invariant]
    spec fn addressable(self) -> bool {
        blocks_fit(self.blocks@)
    }

    /// The captured cells.
    pub closed spec fn spec_cells(&self) -> Seq<SnapshotCell> {
        self.cells@
    }

    /// The captured blocks.
    pub closed spec fn spec_blocks(&self) -> Seq<BlockSnapshot> {
        self.blocks@
    }

    /// Assemble a snapshot from its captured parts.
    pub fn from_parts(
        cells: Vec<SnapshotCell>,
        hyperlinks: HyperlinkMap,
        cursor: CursorSnapshot,
        display_offset: usize,
        colors: Colors,
        mode: SurfaceMode,
        size: SnapshotSize,
        damage: SnapshotDamage,
        visible_cell_count: usize,
        blocks: Vec<BlockSnapshot>,
    ) -> (snapshot: Self)
        requires
            blocks_fit(blocks@),
        ensures
            snapshot.spec_cells() == cells@,
            snapshot.spec_blocks() == blocks@,
    {
        SnapshotOwned {
            cells,
            hyperlinks,
            cursor,
            display_offset,
            colors,
            mode,
            size,
            damage,
            visible_cell_count,
            blocks,
        }
    }

    /// Borrow this owned snapshot as a lightweight view.
    pub fn view(&self) -> (view: SnapshotView<'_>)
        ensures
            view.cells@ == self.spec_cells(),
            view.blocks@ == self.spec_blocks(),
            blocks_fit(view.blocks@),
    {
        proof {
            use_type_invariant(self);
        }
        SnapshotView {
            cells: self.cells.as_slice(),
            blocks: self.blocks.as_slice(),
            hyperlinks: &self.hyperlinks,
            cursor: &self.cursor,
            display_offset: self.display_offset,
            colors: &self.colors,
            mode: self.mode,
            size: self.size,
            damage: &self.damage,
            visible_cell_count: self.visible_cell_count,
        }
    }

    /// Return the concatenated text for a block identified by its id.
    pub fn block_text(&self, block_id: &str) -> (text: Option<String>)
        ensures
            match find_block(self.spec_blocks(), block_id@) {
                Some(index) => match text {
                    Some(text) => block_text_of(self.spec_blocks()[index], self.spec_cells())
                        == Some(text@),
                    None => block_text_of(self.spec_blocks()[index], self.spec_cells()) is None,
                },
                None => text is None,
            },
    {
        self.view().block_text(block_id)
    }

    /// Return the concatenated text for the provided block snapshot.
    pub fn block_text_from_snapshot(&self, block: &BlockSnapshot) -> (text: Option<String>)
        requires
            block_lines_fit(*block),
        ensures
            match text {
                Some(text) => block_text_of(*block, self.spec_cells()) == Some(text@),
                None => block_text_of(*block, self.spec_cells()) is None,
            },
    {
        self.view().block_text_from_snapshot(block)
    }

    /// Return only the prompt/input line for the provided block id.
    pub fn block_prompt_text(&self, block_id: &str) -> (text: Option<String>)
        ensures
            match find_block(self.spec_blocks(), block_id@) {
                Some(index) => match text {
                    Some(text) => block_prompt_of(self.spec_blocks()[index], self.spec_cells())
                        == Some(text@),
                    None => block_prompt_of(self.spec_blocks()[index], self.spec_cells()) is None,
                },
                None => text is None,
            },
    {
        self.view().block_prompt_text(block_id)
    }

    /// Return only the prompt/input line for the provided block snapshot.
    pub fn block_prompt_text_from_snapshot(&self, block: &BlockSnapshot) -> (text: Option<String>)
        requires
            block_lines_fit(*block),
        ensures
            match text {
                Some(text) => block_prompt_of(*block, self.spec_cells()) == Some(text@),
                None => block_prompt_of(*block, self.spec_cells()) is None,
            },
    {
        self.view().block_prompt_text_from_snapshot(block)
    }
}

} // verus!
