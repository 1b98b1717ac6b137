//! Damage bookkeeping and palette overrides of a surface.

use std::collections::HashMap;
use std::sync::Arc;

use cursor_icon::CursorIcon;
use vstd::prelude::*;

use crate::cell::CellAttributes;
use crate::escape::{Charset, CharsetIndex, CursorShape, CursorStyle, Rgb};
use crate::grid::Grid;

verus! {

broadcast use vstd::std_specs::hash::group_hash_axioms;

/// Damaged column span of one line; `left > right` means undamaged.
#[derive(Debug, Clone, Copy, PartialEq, Eq, Structural)]
pub struct LineDamage {
    pub row: usize,
    pub left: usize,
    pub right: usize,
}

impl LineDamage {
    /// An undamaged line of a surface `width` columns wide.
    pub fn undamaged(row: usize, width: usize) -> (damage: Self)
        ensures
            damage == (LineDamage { row, left: width, right: 0 }),
            damage == undamaged_line(row, width),
    {
        LineDamage { row, left: width, right: 0 }
    }

    /// Mark the line undamaged again.
    pub fn reset(&mut self, width: usize)
        ensures
            *final(self) == (LineDamage { left: width, right: 0, ..*old(self) }),
    {
        self.left = width;
        self.right = 0;
    }

    /// Extend the damaged span to cover `left..=right`.
    pub fn cover(&mut self, left: usize, right: usize)
        ensures
            final(self).row == old(self).row,
            final(self).left == if left < old(self).left { left } else { old(self).left },
            final(self).right == if right > old(self).right { right } else { old(self).right },
            *final(self) == cover_all(*old(self), seq![(left, right)]),
    {
        let ghost before = *self;
        self.left = if left < self.left { left } else { self.left };
        self.right = if right > self.right { right } else { self.right };
        proof {
            let spans = seq![(left, right)];
            assert(spans.drop_last() =~= Seq::<(usize, usize)>::empty());
            assert(cover_all(before, spans.drop_last()) == before);
            assert(spans.last() == (left, right));
        }
    }

    /// Whether any column of the line is damaged.
    pub fn is_damaged(&self) -> (damaged: bool)
        ensures
            damaged == (self.left <= self.right),
    {
        self.left <= self.right
    }
}

/// The damage after covering each span of `spans` in turn, as `cover` does.
pub open spec fn cover_all(damage: LineDamage, spans: Seq<(usize, usize)>) -> LineDamage
    decreases spans.len(),
{
    if spans.len() == 0 {
        damage
    } else {
        let before = cover_all(damage, spans.drop_last());
        let (left, right) = spans.last();
        LineDamage {
            row: before.row,
            left: if left < before.left { left } else { before.left },
            right: if right > before.right { right } else { before.right },
        }
    }
}

/// Covering the spans of `first` and then those of `second` is covering
/// the spans of both in turn, so successive `cover` calls chain.
pub proof fn lemma_cover_all_concat(damage: LineDamage, first: Seq<(usize, usize)>, second: Seq<(usize, usize)>)
    ensures
        cover_all(cover_all(damage, first), second) == cover_all(damage, first + second),
    decreases second.len(),
{
    if second.len() == 0 {
        assert(first + second =~= first);
    } else {
        lemma_cover_all_concat(damage, first, second.drop_last());
        assert((first + second).drop_last() =~= first + second.drop_last());
        assert((first + second).last() == second.last());
    }
}

/// An undamaged line of width `width`.
pub open spec fn undamaged_line(row: usize, width: usize) -> LineDamage {
    LineDamage { row, left: width, right: 0 }
}

/// `d` spans from the least of `width` and the left ends of `spans` to the
/// greatest of 0 and their right ends, on line `row`; it is damaged when one
/// span is nonempty, and undamaged for a nonzero width with no span.
pub open spec fn cover_bounds(row: usize, width: usize, spans: Seq<(usize, usize)>, d: LineDamage) -> bool {
    &&& d.row == row
    &&& d.left <= width
    &&& forall|i: int| 0 <= i < spans.len() ==> d.left <= (#[trigger] spans[i]).0 && spans[i].1 <= d.right
    &&& d.left == width || exists|i: int| 0 <= i < spans.len() && d.left == (#[trigger] spans[i]).0
    &&& d.right == 0 || exists|i: int| 0 <= i < spans.len() && d.right == (#[trigger] spans[i]).1
    &&& (exists|i: int| 0 <= i < spans.len() && (#[trigger] spans[i]).0 <= spans[i].1) ==> d.left <= d.right
    &&& spans.len() == 0 && width > 0 ==> !(d.left <= d.right)
}

/// Covering spans of an undamaged line of width `width` leaves the damaged
/// span from the least of `width` and the spans' left ends to the greatest of
/// 0 and their right ends; the line is damaged as soon as one span is
/// nonempty, and stays undamaged (for a nonzero width) with no span.
pub proof fn lemma_cover_all_bounds(row: usize, width: usize, spans: Seq<(usize, usize)>)
    ensures
        cover_bounds(row, width, spans, cover_all(undamaged_line(row, width), spans)),
    decreases spans.len(),
{
    let start = undamaged_line(row, width);
    if spans.len() > 0 {
        let init = spans.drop_last();
        lemma_cover_all_bounds(row, width, init);
        let before = cover_all(start, init);
        let d = cover_all(start, spans);
        let n = spans.len() - 1;
        assert forall|i: int| 0 <= i < spans.len() implies d.left <= (#[trigger] spans[i]).0
            && spans[i].1 <= d.right by {
            if i < n {
                assert(spans[i] == init[i]);
            }
        }
        if !(d.left == width) {
            if d.left == spans[n].0 {
            } else {
                let j = choose|j: int| 0 <= j < init.len() && before.left == (#[trigger] init[j]).0;
                assert(spans[j] == init[j]);
            }
        }
        if !(d.right == 0) {
            if d.right == spans[n].1 {
            } else {
                let j = choose|j: int| 0 <= j < init.len() && before.right == (#[trigger] init[j]).1;
                assert(spans[j] == init[j]);
            }
        }
        if exists|i: int| 0 <= i < spans.len() && (#[trigger] spans[i]).0 <= spans[i].1 {
            let i = choose|i: int| 0 <= i < spans.len() && (#[trigger] spans[i]).0 <= spans[i].1;
            assert(d.left <= spans[i].0 && spans[i].1 <= d.right);
        }
    }
}

/// Damage accumulated since the last frame.
#[derive(Debug, Clone, PartialEq, Eq)]
pub enum SurfaceDamage {
    /// Nothing changed.
    Clean,
    /// Everything must be redrawn.
    Full,
    /// Only the listed lines changed.
    Partial(Vec<LineDamage>),
}

impl SurfaceDamage {
    /// Whether nothing changed.
    pub fn is_none(&self) -> (clean: bool)
        ensures
            clean == (*self is Clean),
    {
        match self {
            SurfaceDamage::Clean => true,
            _ => false,
        }
    }
}

/// Colors set by the application for palette slots, by slot index.
#[derive(Debug, Clone, Default)]
pub struct SurfacePalette {
    overrides: HashMap<usize, Rgb>,
}

impl View for SurfacePalette {
    type V = Map<usize, Rgb>;

    closed spec fn view(&self) -> Map<usize, Rgb> {
        self.overrides@
    }
}

impl SurfacePalette {
    /// Set the color of slot `index`.
    pub fn set(&mut self, index: usize, color: Rgb)
        ensures
            final(self)@ == old(self)@.insert(index, color),
    {
        self.overrides.insert(index, color);
    }

    /// Return slot `index` to its default color.
    pub fn reset(&mut self, index: usize)
        ensures
            final(self)@ == old(self)@.remove(index),
    {
        self.overrides.remove(&index);
    }

    /// The color set for slot `index`, if any.
    pub fn get(&self, index: usize) -> (color: Option<Rgb>)
        ensures
            color == if self@.contains_key(index) { Some(self@[index]) } else { None },
    {
        match self.overrides.get(&index) {
            Some(color) => Some(*color),
            None => None,
        }
    }
}

/// Declaration of `cursor_icon::CursorIcon`, carried as an opaque value.
#[verifier::external_type_specification]
#[verifier::external_body]
pub struct ExCursorIcon(CursorIcon);

/// Everything a renderer needs from a surface at one moment.
#[derive(Debug, Clone)]
pub struct SurfaceSnapshot {
    /// Shared grid content.
    pub grid: Arc<Grid>,
    /// Number of columns.
    pub columns: usize,
    /// Number of visible rows.
    pub rows: usize,
    /// Cursor row.
    pub cursor_row: usize,
    /// Cursor column.
    pub cursor_col: usize,
    /// Scrollback display offset.
    pub display_offset: usize,
    /// Pointer icon requested by the application, if any.
    pub cursor_icon: Option<CursorIcon>,
    /// Cursor shape requested by the application, if any.
    pub cursor_shape: Option<CursorShape>,
    /// Cursor style requested by the application, if any.
    pub cursor_style: Option<CursorStyle>,
    /// Damage accumulated since the last frame.
    pub damage: SurfaceDamage,
}

impl SurfaceSnapshot {
    /// Assemble a snapshot from its parts.
    pub fn new(
        grid: Arc<Grid>,
        columns: usize,
        rows: usize,
        cursor_row: usize,
        cursor_col: usize,
        display_offset: usize,
        cursor_icon: Option<CursorIcon>,
        cursor_shape: Option<CursorShape>,
        cursor_style: Option<CursorStyle>,
        damage: SurfaceDamage,
    ) -> (snapshot: Self)
        ensures
            snapshot == (SurfaceSnapshot {
                grid,
                columns,
                rows,
                cursor_row,
                cursor_col,
                display_offset,
                cursor_icon,
                cursor_shape,
                cursor_style,
                damage,
            }),
    {
        SurfaceSnapshot {
            grid,
            columns,
            rows,
            cursor_row,
            cursor_col,
            display_offset,
            cursor_icon,
            cursor_shape,
            cursor_style,
            damage,
        }
    }
}

/// Saved cursor state: position, attributes and character sets.
#[derive(Debug, Clone)]
pub struct CursorSnapshot {
    /// Cursor row.
    pub row: usize,
    /// Cursor column.
    pub col: usize,
    /// Attributes of newly written cells.
    pub attributes: CellAttributes,
    /// Character sets designated to G0 to G3.
    pub charsets: [Charset; 4],
    /// Active character-set slot.
    pub active_charset: CharsetIndex,
}

impl CursorSnapshot {
    /// Assemble a saved cursor state from its parts.
    pub fn new(
        row: usize,
        col: usize,
        attributes: CellAttributes,
        charsets: [Charset; 4],
        active_charset: CharsetIndex,
    ) -> (snapshot: Self)
        ensures
            snapshot == (CursorSnapshot { row, col, attributes, charsets, active_charset }),
    {
        CursorSnapshot { row, col, attributes, charsets, active_charset }
    }
}

} // verus!
