//! Host-facing identifiers and copy targets of the terminal widget.

use vstd::prelude::*;

use crate::index::SelectionType;
use crate::mode::{modes_intersect, SurfaceMode};

verus! {

/// Stable block identifier reported by the terminal protocol.
#[derive(Debug, PartialEq, Eq, Hash)]
pub struct BlockId(String);

impl View for BlockId {
    type V = Seq<char>;

    closed spec fn view(&self) -> Seq<char> {
        self.0@
    }
}

impl Clone for BlockId {
    fn clone(&self) -> (copy: Self)
        ensures
            copy@ == self@,
    {
        BlockId(self.0.clone())
    }
}

impl BlockId {
    /// Borrow the protocol identifier.
    pub fn as_str(&self) -> (text: &str)
        ensures
            text@ == self@,
    {
        self.0.as_str()
    }

    /// Create an identifier from owned text.
    pub fn new(value: String) -> (id: Self)
        ensures
            id@ == value@,
    {
        BlockId(value)
    }

    /// Whether two identifiers name the same block.
    pub fn same_as(&self, other: &BlockId) -> (same: bool)
        ensures
            same == (self@ == other@),
    {
        self.0 == other.0
    }
}

/// Portion of a block copied from the terminal.
#[derive(Clone, Copy, Debug, PartialEq, Eq, Structural)]
pub enum BlockTextPart {
    /// Prompt/input line followed by command output.
    All,
    /// Full block contents.
    Content,
    /// Prompt/input line only.
    Prompt,
    /// Parsed command metadata only.
    Command,
}

/// Origin of text written to the native clipboard.
#[derive(Clone, Debug, PartialEq, Eq)]
pub enum CopySource {
    /// Current grid selection.
    Selection,
    /// A named block and requested part.
    Block {
        /// Copied block.
        block_id: BlockId,
        /// Copied portion.
        part: BlockTextPart,
    },
}

/// Semantic item under a context-menu or pointer request.
#[derive(Clone, Debug, PartialEq, Eq)]
pub enum HitTarget {
    /// Ordinary terminal grid content.
    Terminal,
    /// Clickable hyperlink URI.
    Link(String),
    /// Terminal block metadata or content.
    Block(BlockId),
}

/// Whether a pointer press is reported to the application: some mouse
/// reporting mode is on and Shift is not held.
pub fn reports_mouse(mode: SurfaceMode, shift: bool) -> (reported: bool)
    ensures
        reported == (modes_intersect(mode@, SurfaceMode::MOUSE_MODE) && !shift),
{
    mode.intersects(SurfaceMode::new(SurfaceMode::MOUSE_MODE)) && !shift
}

/// Kind of selection a left press starts: Alt gives a block selection,
/// otherwise a double click selects words and three or more clicks lines.
pub fn selection_type_for_press(alt: bool, click_count: usize) -> (kind: SelectionType)
    ensures
        kind == if alt {
            SelectionType::Block
        } else if click_count == 2 {
            SelectionType::Semantic
        } else if click_count >= 3 {
            SelectionType::Lines
        } else {
            SelectionType::Simple
        },
{
    if alt {
        SelectionType::Block
    } else if click_count == 2 {
        SelectionType::Semantic
    } else if click_count >= 3 {
        SelectionType::Lines
    } else {
        SelectionType::Simple
    }
}

} // verus!
