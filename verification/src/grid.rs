//! Terminal grid with scrollback history, stored in a ring buffer of rows.
//!
//! The state of a [`Grid`] is modelled by [`GridView`]: the physical rows of
//! the ring, the ring's starting slot, the number of live rows and the
//! dimensions. Logical row `i` (0 = oldest history line) lives in physical
//! slot `(zero + i) % inner.len()`.

use vstd::prelude::*;

use crate::cell::{blank_cell, Cell, CellAttributes, Flags};

verus! {

/// `count` cleared cells carrying `template`.
pub open spec fn blank_cells(count: nat, template: CellAttributes) -> Seq<Cell> {
    Seq::new(count, |_i: int| blank_cell(template))
}

/// Abstract content of a [`GridRow`].
pub ghost struct RowView {
    /// Visible cells.
    pub cells: Seq<Cell>,
    /// Cells cut off by narrowing, most recently cut last.
    pub overflow: Seq<Cell>,
    /// Whether the row continues on the next one.
    pub soft_wrap: bool,
}

impl RowView {
    /// A row of `width` cleared cells.
    pub open spec fn fresh(width: nat, template: CellAttributes) -> RowView {
        RowView { cells: blank_cells(width, template), overflow: Seq::empty(), soft_wrap: false }
    }

    /// The row with every cell cleared, its overflow dropped and not wrapped.
    pub open spec fn cleared(self, template: CellAttributes) -> RowView {
        RowView::fresh(self.cells.len(), template)
    }

    /// The row resized to `width`: narrowing moves cut cells to the overflow,
    /// widening restores them first and pads with cleared cells.
    pub open spec fn resized(self, width: nat, template: CellAttributes) -> RowView {
        if width > self.cells.len() {
            let deficit = width - self.cells.len();
            let start = if self.overflow.len() >= deficit {
                self.overflow.len() - deficit
            } else {
                0
            };
            let restored = self.overflow.subrange(start, self.overflow.len() as int).reverse();
            RowView {
                cells: self.cells + restored + blank_cells(
                    (width - self.cells.len() - restored.len()) as nat,
                    template,
                ),
                overflow: self.overflow.subrange(0, start),
                soft_wrap: self.soft_wrap,
            }
        } else {
            RowView {
                cells: self.cells.subrange(0, width as int),
                overflow: self.overflow + self.cells.subrange(
                    width as int,
                    self.cells.len() as int,
                ).reverse(),
                soft_wrap: self.soft_wrap,
            }
        }
    }
}

/// `cells` with the positions `start..=end` cleared.
pub open spec fn range_cleared(cells: Seq<Cell>, start: int, end: int, template: CellAttributes) -> Seq<
    Cell,
> {
    Seq::new(cells.len(), |j: int| if start <= j <= end { blank_cell(template) } else { cells[j] })
}

/// `cells` with `count` cleared cells inserted at `col`; content within the
/// first `columns` positions shifts right and what passes `columns` is lost.
pub open spec fn blanks_inserted(
    cells: Seq<Cell>,
    col: int,
    count: int,
    columns: int,
    template: CellAttributes,
) -> Seq<Cell> {
    Seq::new(
        cells.len(),
        |j: int|
            if col <= j < col + count && j < columns {
                blank_cell(template)
            } else if col + count <= j < columns {
                cells[j - count]
            } else {
                cells[j]
            },
    )
}

/// `cells` with `count` cells deleted at `col`; content within the first
/// `columns` positions shifts left and cleared cells fill the end.
pub open spec fn cells_deleted(
    cells: Seq<Cell>,
    col: int,
    count: int,
    columns: int,
    template: CellAttributes,
) -> Seq<Cell> {
    Seq::new(
        cells.len(),
        |j: int|
            if col <= j < columns {
                if j + count < cells.len() {
                    cells[j + count]
                } else {
                    blank_cell(template)
                }
            } else {
                cells[j]
            },
    )
}

/// A single row in the terminal grid.
#[derive(Debug, PartialEq, Eq)]
pub struct GridRow {
    /// Visible cells of the row.
    pub cells: Vec<Cell>,
    overflow: Vec<Cell>,
    soft_wrap: bool,
}

impl View for GridRow {
    type V = RowView;

    closed spec fn view(&self) -> RowView {
        RowView { cells: self.cells@, overflow: self.overflow@, soft_wrap: self.soft_wrap }
    }
}

/// Copy a run of cells.
pub fn clone_cells(cells: &Vec<Cell>) -> (copy: Vec<Cell>)
    ensures
        copy@ == cells@,
{
    let mut copy: Vec<Cell> = Vec::new();
    let mut i: usize = 0;
    while i < cells.len()
        invariant
            i <= cells@.len(),
            copy@ == cells@.subrange(0, i as int),
        decreases cells@.len() - i,
    {
        copy.push(cells[i].clone());
        i = i + 1;
        proof {
            assert(copy@ =~= cells@.subrange(0, i as int));
        }
    }
    proof {
        assert(copy@ =~= cells@);
    }
    copy
}

fn push_blanks(cells: &mut Vec<Cell>, count: usize, template: &CellAttributes)
    ensures
        final(cells)@ == old(cells)@ + blank_cells(count as nat, *template),
{
    let mut i: usize = 0;
    while i < count
        invariant
            i <= count,
            cells@ == old(cells)@ + blank_cells(i as nat, *template),
        decreases count - i,
    {
        cells.push(Cell::blank(template));
        i = i + 1;
        proof {
            assert(cells@ =~= old(cells)@ + blank_cells(i as nat, *template));
        }
    }
}

impl Clone for GridRow {
    fn clone(&self) -> (copy: Self)
        ensures
            copy@ == self@,
    {
        GridRow {
            cells: clone_cells(&self.cells),
            overflow: clone_cells(&self.overflow),
            soft_wrap: self.soft_wrap,
        }
    }
}

impl GridRow {
    /// A row of `width` cleared cells.
    pub fn new(width: usize, template: &CellAttributes) -> (row: Self)
        ensures
            row@ == RowView::fresh(width as nat, *template),
    {
        let mut cells = Vec::new();
        push_blanks(&mut cells, width, template);
        proof {
            assert(cells@ =~= blank_cells(width as nat, *template));
        }
        GridRow { cells, overflow: Vec::new(), soft_wrap: false }
    }

    /// Resize to `width`, keeping cut cells so that widening restores them.
    pub fn resize(&mut self, width: usize, template: &CellAttributes)
        ensures
            final(self)@ == old(self)@.resized(width as nat, *template),
    {
        if width > self.cells.len() {
            let deficit = width - self.cells.len();
            let start = if self.overflow.len() >= deficit {
                self.overflow.len() - deficit
            } else {
                0
            };
            let mut restored = self.overflow.split_off(start);
            let ghost restored_all = restored@;
            let ghost cells_before = self.cells@;
            while restored.len() > 0
                invariant
                    restored@ == restored_all.subrange(0, restored@.len() as int),
                    restored@.len() <= restored_all.len(),
                    self.cells@ == cells_before + restored_all.subrange(
                        restored@.len() as int,
                        restored_all.len() as int,
                    ).reverse(),
                    self.overflow@ == old(self).overflow@.subrange(0, start as int),
                    self.soft_wrap == old(self).soft_wrap,
                decreases restored@.len(),
            {
                let cell = restored.pop().unwrap();
                let ghost k = restored@.len();
                proof {
                    assert(restored_all.subrange(k as int, restored_all.len() as int).reverse() =~= 
                        restored_all.subrange(k as int + 1, restored_all.len() as int).reverse().push(cell));
                    assert(restored@ =~= restored_all.subrange(0, k as int));
                }
                self.cells.push(cell);
            }
            proof {
                assert(restored_all.subrange(0, restored_all.len() as int) =~= restored_all);
            }
            if self.cells.len() < width {
                let missing = width - self.cells.len();
                push_blanks(&mut self.cells, missing, template);
            }
            proof {
                let v = old(self)@.resized(width as nat, *template);
                assert(restored_all =~= old(self).overflow@.subrange(start as int, old(self).overflow@.len() as int));
                assert(self.cells@ =~= v.cells);
                assert(self.overflow@ =~= v.overflow);
            }
        } else {
            let ghost cells_before = self.cells@;
            while self.cells.len() > width
                invariant
                    width <= self.cells@.len() <= cells_before.len(),
                    self.cells@ == cells_before.subrange(0, self.cells@.len() as int),
                    self.overflow@ == old(self).overflow@ + cells_before.subrange(
                        self.cells@.len() as int,
                        cells_before.len() as int,
                    ).reverse(),
                    self.soft_wrap == old(self).soft_wrap,
                    cells_before == old(self).cells@,
                decreases self.cells@.len(),
            {
                let cell = self.cells.pop().unwrap();
                let ghost k = self.cells@.len();
                proof {
                    assert(cells_before.subrange(k as int, cells_before.len() as int).reverse() =~= 
                        cells_before.subrange(k as int + 1, cells_before.len() as int).reverse().push(cell));
                    assert(self.cells@ =~= cells_before.subrange(0, k as int));
                }
                self.overflow.push(cell);
            }
            proof {
                let v = old(self)@.resized(width as nat, *template);
                assert(self.cells@ =~= v.cells);
                assert(self.overflow@ =~= v.overflow);
            }
        }
    }

    /// Clear every cell, drop the overflow and the soft-wrap mark.
    pub fn clear(&mut self, template: &CellAttributes)
        ensures
            final(self)@ == old(self)@.cleared(*template),
    {
        let mut i: usize = 0;
        while i < self.cells.len()
            invariant
                i <= self.cells@.len(),
                self.cells@.len() == old(self).cells@.len(),
                forall|j: int| 0 <= j < i ==> self.cells@[j] == blank_cell(*template),
            decreases self.cells@.len() - i,
        {
            self.cells.set(i, Cell::blank(template));
            i = i + 1;
        }
        self.overflow.clear();
        self.soft_wrap = false;
        proof {
            assert(self.cells@ =~= blank_cells(old(self).cells@.len(), *template));
            assert(self.overflow@ =~= Seq::<Cell>::empty());
        }
    }

    /// Number of visible cells.
    pub fn len(&self) -> (len: usize)
        ensures
            len == self@.cells.len(),
    {
        self.cells.len()
    }

    /// The visible cell at `column`.
    pub fn cell(&self, column: usize) -> (cell: &Cell)
        requires
            column < self@.cells.len(),
        ensures
            *cell == self@.cells[column as int],
    {
        &self.cells[column]
    }

    /// Whether the row has no visible cell.
    pub fn is_empty(&self) -> (empty: bool)
        ensures
            empty == (self@.cells.len() == 0),
    {
        self.cells.len() == 0
    }

    /// Mark (or unmark) the row as continuing on the next one.
    pub fn set_soft_wrap(&mut self, value: bool)
        ensures
            final(self)@ == (RowView { soft_wrap: value, ..old(self)@ }),
    {
        self.soft_wrap = value;
    }

    /// Whether the row continues on the next one.
    pub fn is_soft_wrap(&self) -> (wrapped: bool)
        ensures
            wrapped == self@.soft_wrap,
    {
        self.soft_wrap
    }

    /// Replace the visible cell at `column`.
    pub fn set_cell(&mut self, column: usize, cell: Cell)
        requires
            column < old(self)@.cells.len(),
        ensures
            final(self)@ == (RowView { cells: old(self)@.cells.update(column as int, cell), ..old(self)@ }),
    {
        self.cells.set(column, cell);
    }

    /// Exchange the visible cells at `a` and `b`.
    pub fn swap_cells(&mut self, a: usize, b: usize)
        requires
            a < old(self)@.cells.len(),
            b < old(self)@.cells.len(),
        ensures
            final(self)@ == (RowView {
                cells: old(self)@.cells.update(a as int, old(self)@.cells[b as int]).update(
                    b as int,
                    old(self)@.cells[a as int],
                ),
                ..old(self)@
            }),
    {
        let first = self.cells[a].clone();
        let second = self.cells[b].clone();
        self.cells.set(a, second);
        self.cells.set(b, first);
    }
}


/// Direction for scrolling through history.
#[derive(Debug, Clone, Copy, PartialEq, Eq, Structural)]
pub enum ScrollDirection {
    /// Move by a number of lines; positive values go back into history.
    Delta(i32),
    /// One screen back into history.
    PageUp,
    /// One screen towards the newest content.
    PageDown,
    /// The oldest history line.
    Top,
    /// The newest content.
    Bottom,
}

/// Abstract content of a [`Grid`].
pub ghost struct GridView {
    /// Physical rows of the ring buffer.
    pub inner: Seq<RowView>,
    /// Physical slot of the oldest live row.
    pub zero: nat,
    /// Number of live rows (history and screen).
    pub len: nat,
    /// Number of columns.
    pub columns: nat,
    /// Number of screen lines.
    pub visible_lines: nat,
    /// Maximum number of history lines.
    pub max_scroll_limit: nat,
    /// How far the display is scrolled back into history.
    pub display_offset: nat,
}

impl GridView {
    /// Physical slot of logical row `i`.
    pub open spec fn slot(self, i: int) -> int {
        (self.zero + i) % (self.inner.len() as int)
    }

    /// Logical row `i`; row 0 is the oldest history line.
    pub open spec fn row(self, i: int) -> RowView {
        self.inner[self.slot(i)]
    }

    /// All live rows, oldest first.
    pub open spec fn rows(self) -> Seq<RowView> {
        Seq::new(self.len, |i: int| self.row(i))
    }

    /// Number of history lines above the screen.
    pub open spec fn history_size(self) -> nat {
        if self.len >= self.visible_lines {
            (self.len - self.visible_lines) as nat
        } else {
            0
        }
    }

    /// Logical index of the first displayed row.
    pub open spec fn first_displayed(self) -> nat {
        if self.history_size() >= self.display_offset {
            (self.history_size() - self.display_offset) as nat
        } else {
            0
        }
    }

    /// The grid after scrolling the screen region `top..=bottom` up by
    /// `count` lines: nothing happens for an empty or out-of-screen region or
    /// a zero count; from the top the lines leaving the screen move into
    /// history; otherwise the region's rows move up within it.
    pub open spec fn scrolled_up(self, top: int, bottom: int, count: nat, template: CellAttributes) -> GridView {
        if top > bottom || bottom >= self.visible_lines || count == 0 {
            self
        } else if top == 0 {
            self.scrolled_into_history(count, template)
        } else {
            self.region_scrolled_up(top, bottom, count, template)
        }
    }

    /// Replace the row in physical slot `slot`.
    pub open spec fn with_slot(self, slot: int, row: RowView) -> GridView {
        GridView { inner: self.inner.update(slot, row), ..self }
    }

    /// Add `additional` live rows, allocating fresh physical rows at the end
    /// of the buffer when it is too small.
    pub open spec fn grown(self, additional: nat, columns: nat, template: CellAttributes) -> GridView {
        let new_len = self.len + additional;
        GridView {
            inner: if self.inner.len() < new_len {
                self.inner + Seq::new(
                    (new_len - self.inner.len()) as nat,
                    |_i: int| RowView::fresh(columns, template),
                )
            } else {
                self.inner
            },
            len: new_len,
            ..self
        }
    }

    /// Advance the ring start by `count` slots.
    pub open spec fn rotated(self, count: nat) -> GridView {
        GridView { zero: ((self.zero + count) as int % (self.inner.len() as int)) as nat, ..self }
    }

    /// Drop up to `count` live rows, keeping at least the screen.
    pub open spec fn shrunk(self, count: nat) -> GridView {
        let reduced: nat = if self.len >= count { (self.len - count) as nat } else { 0 };
        GridView {
            len: if reduced < self.visible_lines { self.visible_lines } else { reduced },
            ..self
        }
    }

    /// Clear logical row `i` when it is live.
    pub open spec fn cleared_row(self, i: int, template: CellAttributes) -> GridView {
        if 0 <= i < self.len {
            self.with_slot(self.slot(i), self.row(i).cleared(template))
        } else {
            self
        }
    }

    /// Clear the logical rows `from..from + count` that are live.
    pub open spec fn cleared_rows(self, from: int, count: nat, template: CellAttributes) -> GridView
        decreases count,
    {
        if count == 0 {
            self
        } else {
            self.cleared_rows(from, (count - 1) as nat, template).cleared_row(
                from + count - 1,
                template,
            )
        }
    }

    /// Move logical row `history + top` down to `history + top + count`
    /// by successive exchanges of neighbours.
    pub open spec fn swaps_up(self, history: int, top: int, count: nat) -> GridView
        decreases count,
    {
        if count == 0 {
            self
        } else {
            self.swaps_up(history, top, (count - 1) as nat).swapped(
                history + top + count - 1,
                history + top + count,
            )
        }
    }

    /// Move logical row `history + bottom` up to `history + bottom - count`
    /// by successive exchanges of neighbours.
    pub open spec fn swaps_down(self, history: int, bottom: int, count: nat) -> GridView
        decreases count,
    {
        if count == 0 {
            self
        } else {
            self.swaps_down(history, bottom, (count - 1) as nat).swapped(
                history + bottom - count + 1,
                history + bottom - count,
            )
        }
    }

    /// Scroll the screen region `top..=bottom` up `count` times without
    /// touching history; each time the row leaving the top reappears cleared at
    /// the bottom.
    pub open spec fn region_scrolled_up(
        self,
        top: int,
        bottom: int,
        count: nat,
        template: CellAttributes,
    ) -> GridView
        decreases count,
    {
        if count == 0 {
            self
        } else {
            let history = self.history_size() as int;
            self.region_scrolled_up(top, bottom, (count - 1) as nat, template).swaps_up(
                history,
                top,
                (bottom - top) as nat,
            ).cleared_row(history + bottom, template)
        }
    }

    /// Scroll the screen region `top..=bottom` down `count` times; each time
    /// the row leaving the bottom reappears cleared at the top.
    pub open spec fn region_scrolled_down(
        self,
        top: int,
        bottom: int,
        count: nat,
        template: CellAttributes,
    ) -> GridView
        decreases count,
    {
        if count == 0 {
            self
        } else {
            let history = self.history_size() as int;
            self.region_scrolled_down(top, bottom, (count - 1) as nat, template).swaps_down(
                history,
                bottom,
                (bottom - top) as nat,
            ).cleared_row(history + top, template)
        }
    }

    /// Scroll the whole screen up by `count` lines, moving the top lines into
    /// history while there is room and recycling the oldest lines otherwise.
    pub open spec fn scrolled_into_history(self, count: nat, template: CellAttributes) -> GridView {
        let history = self.history_size();
        let can_grow: nat = if self.max_scroll_limit >= history {
            (self.max_scroll_limit - history) as nat
        } else {
            0
        };
        let grow_by: nat = if count < can_grow { count } else { can_grow };
        let overflow: nat = (count - grow_by) as nat;
        let grown = if grow_by > 0 {
            let g = self.grown(grow_by, self.columns, template);
            g.cleared_rows(g.len - grow_by, grow_by, template)
        } else {
            self
        };
        let recycled = if overflow > 0 && grown.len > 0 {
            let r = grown.rotated(overflow);
            let from: nat = if r.len >= overflow { (r.len - overflow) as nat } else { 0 };
            r.cleared_rows(from as int, overflow, template)
        } else {
            grown
        };
        GridView { display_offset: 0, ..recycled }
    }

    /// Replace the cells of logical row `i`.
    pub open spec fn with_row_cells(self, i: int, cells: Seq<Cell>) -> GridView {
        self.with_slot(self.slot(i), RowView { cells, ..self.row(i) })
    }

    /// Display offset after scrolling the display in `direction`.
    pub open spec fn scrolled_offset(self, direction: ScrollDirection) -> nat {
        let history = self.history_size();
        match direction {
            ScrollDirection::Delta(count) => {
                let moved = self.display_offset + count;
                let clamped: nat = if moved < 0 { 0 } else { moved as nat };
                if clamped < history { clamped } else { history }
            },
            ScrollDirection::PageUp => {
                let moved = self.display_offset + self.visible_lines;
                if moved < history { moved } else { history }
            },
            ScrollDirection::PageDown => if self.display_offset >= self.visible_lines {
                (self.display_offset - self.visible_lines) as nat
            } else {
                0
            },
            ScrollDirection::Top => history,
            ScrollDirection::Bottom => 0,
        }
    }

    /// Exchange the physical rows holding logical rows `a` and `b`.
    pub open spec fn swapped(self, a: int, b: int) -> GridView {
        let sa = self.slot(a);
        let sb = self.slot(b);
        GridView { inner: self.inner.update(sa, self.inner[sb]).update(sb, self.inner[sa]), ..self }
    }
}

/// Ring buffer storage for grid rows with scrollback history.
#[derive(Debug)]
struct Storage {
    inner: Vec<GridRow>,
    zero: usize,
    visible_lines: usize,
    len: usize,
}

/// Physical rows of a buffer.
spec fn row_views(rows: Seq<GridRow>) -> Seq<RowView> {
    Seq::new(rows.len(), |i: int| rows[i]@)
}

broadcast proof fn lemma_row_views_update(rows: Seq<GridRow>, i: int, row: GridRow)
    requires
        0 <= i < rows.len(),
    ensures
        #[trigger] row_views(rows.update(i, row)) == row_views(rows).update(i, row@),
{
    assert(row_views(rows.update(i, row)) =~= row_views(rows).update(i, row@));
}

proof fn lemma_ring_slot(zero: int, index: int, n: int)
    requires
        0 <= zero < n,
        0 <= index < n,
    ensures
        (zero + index) % n == if index < n - zero { zero + index } else { index - (n - zero) },
{
    if index < n - zero {
        vstd::arithmetic::div_mod::lemma_small_mod((zero + index) as nat, n as nat);
    } else {
        vstd::arithmetic::div_mod::lemma_mod_add_multiples_vanish(index - (n - zero), n);
        vstd::arithmetic::div_mod::lemma_small_mod((index - (n - zero)) as nat, n as nat);
    }
}

/// Terminal grid with scrollback history support.
#[derive(Debug)]
pub struct Grid {
    storage: Storage,
    columns: usize,
    visible_lines: usize,
    max_scroll_limit: usize,
    display_offset: usize,
}

impl View for Grid {
    type V = GridView;

    closed spec fn view(&self) -> GridView {
        GridView {
            inner: row_views(self.storage.inner@),
            zero: self.storage.zero as nat,
            len: self.storage.len as nat,
            columns: self.columns as nat,
            visible_lines: self.visible_lines as nat,
            max_scroll_limit: self.max_scroll_limit as nat,
            display_offset: self.display_offset as nat,
        }
    }
}

/// Structural invariant of a grid model.
pub open spec fn grid_wf(v: GridView) -> bool {
    &&& v.len <= v.inner.len()
    &&& (v.zero < v.inner.len() || (v.inner.len() == 0 && v.zero == 0))
    &&& v.visible_lines <= v.len
    &&& v.history_size() <= v.max_scroll_limit
}

impl Grid {
    /// The grid's storage agrees with its model and the model is well formed.
    pub closed spec fn wf(&self) -> bool {
        &&& self.storage.visible_lines == self.visible_lines
        &&& grid_wf(self@)
    }

    /// A well-formed grid has a well-formed model.
    pub proof fn lemma_wf_model(&self)
        requires
            self.wf(),
        ensures
            grid_wf(self@),
    {
    }

    /// Create a grid with `visible_lines` blank rows of `columns` cells.
    pub fn new(
        visible_lines: usize,
        columns: usize,
        max_scroll_limit: usize,
        template: &CellAttributes,
    ) -> (grid: Self)
        ensures
            grid.wf(),
            grid@ == (GridView {
                inner: Seq::new(visible_lines as nat, |_i: int| RowView::fresh(columns as nat, *template)),
                zero: 0,
                len: visible_lines as nat,
                columns: columns as nat,
                visible_lines: visible_lines as nat,
                max_scroll_limit: max_scroll_limit as nat,
                display_offset: 0,
            }),
    {
        let mut inner: Vec<GridRow> = Vec::new();
        while inner.len() < visible_lines
            invariant
                inner@.len() <= visible_lines,
                forall|i: int| 0 <= i < inner@.len() ==> inner@[i]@ == RowView::fresh(columns as nat, *template),
            decreases visible_lines - inner@.len(),
        {
            inner.push(GridRow::new(columns, template));
        }
        let grid = Grid {
            storage: Storage { inner, zero: 0, visible_lines, len: visible_lines },
            columns,
            visible_lines,
            max_scroll_limit,
            display_offset: 0,
        };
        proof {
            assert(grid@.inner =~= Seq::new(visible_lines as nat, |_i: int| RowView::fresh(columns as nat, *template)));
        }
        grid
    }

    /// Number of columns.
    pub fn width(&self) -> (width: usize)
        ensures
            width == self@.columns,
    {
        self.columns
    }

    /// Number of screen lines.
    pub fn height(&self) -> (height: usize)
        ensures
            height == self@.visible_lines,
    {
        self.visible_lines
    }

    /// Number of lines in scrollback history.
    pub fn history_size(&self) -> (size: usize)
        ensures
            size == self@.history_size(),
    {
        self.storage.len.saturating_sub(self.visible_lines)
    }

    /// Number of live lines (history and screen).
    pub fn total_lines(&self) -> (total: usize)
        ensures
            total == self@.len,
    {
        self.storage.len
    }

    /// How far the display is scrolled back into history.
    pub fn display_offset(&self) -> (offset: usize)
        ensures
            offset == self@.display_offset,
    {
        self.display_offset
    }

    fn compute_index(&self, index: usize) -> (slot: usize)
        requires
            self.wf(),
            index < self@.len,
        ensures
            slot == self@.slot(index as int),
            slot < self@.inner.len(),
    {
        let n = self.storage.inner.len();
        let zero = self.storage.zero;
        proof {
            lemma_ring_slot(zero as int, index as int, n as int);
        }
        if index < n - zero {
            zero + index
        } else {
            index - (n - zero)
        }
    }

    /// All live rows, oldest first.
    pub fn rows(&self) -> (rows: Vec<&GridRow>)
        requires
            self.wf(),
        ensures
            rows@.len() == self@.len,
            forall|i: int| 0 <= i < self@.len ==> rows@[i]@ == self@.row(i),
    {
        let mut rows: Vec<&GridRow> = Vec::new();
        let mut i: usize = 0;
        while i < self.storage.len
            invariant
                self.wf(),
                i <= self@.len,
                rows@.len() == i,
                forall|j: int| 0 <= j < i ==> rows@[j]@ == self@.row(j),
            decreases self@.len - i,
        {
            let slot = self.compute_index(i);
            rows.push(&self.storage.inner[slot]);
            i = i + 1;
        }
        rows
    }

    /// Screen row `idx` of the display (0 = top displayed row).
    pub fn row(&self, idx: usize) -> (row: &GridRow)
        requires
            self.wf(),
            self@.first_displayed() + idx < self@.len,
        ensures
            row@ == self@.row(self@.first_displayed() + idx),
    {
        let history = self.history_size();
        let logical = history.saturating_sub(self.display_offset) + idx;
        let slot = self.compute_index(logical);
        &self.storage.inner[slot]
    }

    /// Logical row `index` (0 = oldest history line).
    pub fn logical_row(&self, index: usize) -> (row: &GridRow)
        requires
            self.wf(),
            index < self@.len,
        ensures
            row@ == self@.row(index as int),
    {
        let slot = self.compute_index(index);
        &self.storage.inner[slot]
    }

    /// Mutable access to logical row `index` (0 = oldest history line).
    pub fn logical_row_mut(&mut self, index: usize) -> (row: &mut GridRow)
        requires
            old(self).wf(),
            index < old(self)@.len,
        ensures
            (*row)@ == old(self)@.row(index as int),
            final(self).wf(),
            final(self)@ == old(self)@.with_slot(old(self)@.slot(index as int), (*final(row))@),
    {
        let slot = self.compute_index(index);
        proof {
            broadcast use lemma_row_views_update;
        }
        &mut self.storage.inner[slot]
    }

    /// Mutable access to screen row `idx` of the display.
    pub fn row_mut(&mut self, idx: usize) -> (row: &mut GridRow)
        requires
            old(self).wf(),
            old(self)@.first_displayed() + idx < old(self)@.len,
        ensures
            (*row)@ == old(self)@.row(old(self)@.first_displayed() + idx),
            final(self).wf(),
            final(self)@ == old(self)@.with_slot(
                old(self)@.slot(old(self)@.first_displayed() + idx),
                (*final(row))@,
            ),
    {
        let history = self.history_size();
        let logical = history.saturating_sub(self.display_offset) + idx;
        let slot = self.compute_index(logical);
        proof {
            broadcast use lemma_row_views_update;
        }
        &mut self.storage.inner[slot]
    }
}


/// Every physical row of `g` has `width` visible cells.
pub open spec fn row_widths(g: GridView, width: nat) -> bool {
    forall|k: int| 0 <= k < g.inner.len() ==> (#[trigger] g.inner[k]).cells.len() == width
}

/// A slot of a nonempty ring lies in the buffer.
pub proof fn lemma_slot_in_range(g: GridView, i: int)
    requires
        g.inner.len() > 0,
    ensures
        0 <= g.slot(i) < g.inner.len(),
{
    vstd::arithmetic::div_mod::lemma_mod_bound(g.zero + i, g.inner.len() as int);
}

/// Every logical row of a grid whose physical rows have `width` cells has
/// `width` cells.
pub proof fn lemma_row_width(g: GridView, width: nat, i: int)
    requires
        row_widths(g, width),
        g.inner.len() > 0,
    ensures
        g.row(i).cells.len() == width,
{
    lemma_slot_in_range(g, i);
}

/// Replacing a live row by one of the same width keeps the widths.
pub proof fn lemma_replaced_widths(g: GridView, r: int, row: RowView, width: nat)
    requires
        row_widths(g, width),
        g.inner.len() > 0,
        row.cells.len() == width,
    ensures
        row_widths(g.with_slot(g.slot(r), row), width),
        g.with_slot(g.slot(r), row).inner.len() == g.inner.len(),
{
    lemma_slot_in_range(g, r);
}

proof fn lemma_cleared_rows_widths(g: GridView, from: int, count: nat, template: CellAttributes, width: nat)
    requires
        row_widths(g, width),
        g.inner.len() > 0,
    ensures
        row_widths(g.cleared_rows(from, count, template), width),
        g.cleared_rows(from, count, template).inner.len() == g.inner.len(),
        g.cleared_rows(from, count, template).len == g.len,
        g.cleared_rows(from, count, template).zero == g.zero,
        g.cleared_rows(from, count, template).columns == g.columns,
        g.cleared_rows(from, count, template).visible_lines == g.visible_lines,
    decreases count,
{
    if count > 0 {
        lemma_cleared_rows_widths(g, from, (count - 1) as nat, template, width);
        let h = g.cleared_rows(from, (count - 1) as nat, template);
        let i = from + count - 1;
        if 0 <= i < h.len {
            lemma_slot_in_range(h, i);
        }
    }
}

proof fn lemma_swaps_up_widths(g: GridView, history: int, top: int, count: nat, width: nat)
    requires
        row_widths(g, width),
        g.inner.len() > 0,
    ensures
        row_widths(g.swaps_up(history, top, count), width),
        g.swaps_up(history, top, count).inner.len() == g.inner.len(),
        g.swaps_up(history, top, count).len == g.len,
        g.swaps_up(history, top, count).zero == g.zero,
        g.swaps_up(history, top, count).columns == g.columns,
        g.swaps_up(history, top, count).visible_lines == g.visible_lines,
    decreases count,
{
    if count > 0 {
        lemma_swaps_up_widths(g, history, top, (count - 1) as nat, width);
        let h = g.swaps_up(history, top, (count - 1) as nat);
        lemma_slot_in_range(h, history + top + count - 1);
        lemma_slot_in_range(h, history + top + count);
    }
}

proof fn lemma_region_up_widths(g: GridView, top: int, bottom: int, count: nat, template: CellAttributes, width: nat)
    requires
        row_widths(g, width),
        g.inner.len() > 0,
    ensures
        row_widths(g.region_scrolled_up(top, bottom, count, template), width),
        g.region_scrolled_up(top, bottom, count, template).inner.len() == g.inner.len(),
        g.region_scrolled_up(top, bottom, count, template).len == g.len,
        g.region_scrolled_up(top, bottom, count, template).columns == g.columns,
        g.region_scrolled_up(top, bottom, count, template).visible_lines == g.visible_lines,
    decreases count,
{
    if count > 0 {
        lemma_region_up_widths(g, top, bottom, (count - 1) as nat, template, width);
        let h = g.region_scrolled_up(top, bottom, (count - 1) as nat, template);
        let history = h.history_size() as int;
        lemma_swaps_up_widths(h, history, top, (bottom - top) as nat, width);
        let k = h.swaps_up(history, top, (bottom - top) as nat);
        if 0 <= history + bottom < k.len {
            lemma_slot_in_range(k, history + bottom);
        }
    }
}

/// Scrolling keeps the width of every physical row, the buffer nonempty
/// and the grid's dimensions.
pub proof fn lemma_scrolled_up_widths(g: GridView, top: int, bottom: int, count: nat, template: CellAttributes)
    requires
        row_widths(g, g.columns),
        g.inner.len() > 0,
    ensures
        row_widths(g.scrolled_up(top, bottom, count, template), g.columns),
        g.scrolled_up(top, bottom, count, template).inner.len() > 0,
        g.scrolled_up(top, bottom, count, template).columns == g.columns,
        g.scrolled_up(top, bottom, count, template).visible_lines == g.visible_lines,
        g.scrolled_up(top, bottom, count, template).len <= g.len + count,
{
    if !(top > bottom || bottom >= g.visible_lines || count == 0) {
        if top == 0 {
            let history = g.history_size();
            let can_grow: nat = if g.max_scroll_limit >= history {
                (g.max_scroll_limit - history) as nat
            } else {
                0
            };
            let grow_by: nat = if count < can_grow { count } else { can_grow };
            let overflow: nat = (count - grow_by) as nat;
            let grown = if grow_by > 0 {
                let h = g.grown(grow_by, g.columns, template);
                assert(row_widths(h, g.columns));
                lemma_cleared_rows_widths(h, h.len - grow_by, grow_by, template, g.columns);
                h.cleared_rows(h.len - grow_by, grow_by, template)
            } else {
                g
            };
            if overflow > 0 && grown.len > 0 {
                let r = grown.rotated(overflow);
                let from: nat = if r.len >= overflow { (r.len - overflow) as nat } else { 0 };
                lemma_cleared_rows_widths(r, from as int, overflow, template, g.columns);
            }
        } else {
            lemma_region_up_widths(g, top, bottom, count, template, g.columns);
        }
    }
}

/// Replacing the row in the slot of logical row `r` changes that row only,
/// and keeps the grid's shape and well-formedness.
pub proof fn lemma_row_replaced(g: GridView, r: int, row: RowView)
    requires
        grid_wf(g),
        0 <= r < g.len,
    ensures
        grid_wf(g.with_slot(g.slot(r), row)),
        g.with_slot(g.slot(r), row).len == g.len,
        g.with_slot(g.slot(r), row).columns == g.columns,
        g.with_slot(g.slot(r), row).visible_lines == g.visible_lines,
        g.with_slot(g.slot(r), row).history_size() == g.history_size(),
        g.with_slot(g.slot(r), row).display_offset == g.display_offset,
        g.with_slot(g.slot(r), row).max_scroll_limit == g.max_scroll_limit,
        forall|i: int|
            0 <= i < g.len ==> #[trigger] g.with_slot(g.slot(r), row).row(i) == if i == r {
                row
            } else {
                g.row(i)
            },
{
    let n = g.inner.len() as int;
    assert forall|i: int| 0 <= i < g.len implies #[trigger] g.with_slot(g.slot(r), row).row(i) == if i
        == r {
        row
    } else {
        g.row(i)
    } by {
        lemma_ring_slot(g.zero as int, i, n);
        lemma_ring_slot(g.zero as int, r, n);
    }
}

/// Clearing rows keeps the shape of the grid.
pub proof fn lemma_cleared_rows_shape(v: GridView, from: int, count: nat, template: CellAttributes)
    requires
        ring_ok(v),
    ensures
        v.cleared_rows(from, count, template).inner.len() == v.inner.len(),
        v.cleared_rows(from, count, template).zero == v.zero,
        v.cleared_rows(from, count, template).len == v.len,
        v.cleared_rows(from, count, template).columns == v.columns,
        v.cleared_rows(from, count, template).visible_lines == v.visible_lines,
        v.cleared_rows(from, count, template).max_scroll_limit == v.max_scroll_limit,
        v.cleared_rows(from, count, template).display_offset == v.display_offset,
    decreases count,
{
    if count > 0 {
        lemma_cleared_rows_shape(v, from, (count - 1) as nat, template);
        let w = v.cleared_rows(from, (count - 1) as nat, template);
        let i = from + count - 1;
        if 0 <= i < w.len {
            vstd::arithmetic::div_mod::lemma_mod_bound(w.zero + i, w.inner.len() as int);
        }
    }
}

/// Ring bookkeeping of a grid model: live rows fit the buffer and the start
/// slot lies inside it.
pub open spec fn ring_ok(v: GridView) -> bool {
    &&& v.len <= v.inner.len()
    &&& (v.zero < v.inner.len() || (v.inner.len() == 0 && v.zero == 0))
}

impl Grid {
    closed spec fn storage_ok(&self) -> bool {
        &&& self.storage.visible_lines == self.visible_lines
        &&& ring_ok(self@)
    }

    fn slot_of(&self, index: usize) -> (slot: usize)
        requires
            self.storage_ok(),
            index < self@.len,
        ensures
            slot == self@.slot(index as int),
            slot < self@.inner.len(),
    {
        let n = self.storage.inner.len();
        let zero = self.storage.zero;
        proof {
            lemma_ring_slot(zero as int, index as int, n as int);
        }
        if index < n - zero {
            zero + index
        } else {
            index - (n - zero)
        }
    }

    fn grow_lines(&mut self, additional: usize, columns: usize, template: &CellAttributes)
        requires
            old(self).storage_ok(),
            old(self)@.len + additional <= usize::MAX,
        ensures
            final(self).storage_ok(),
            final(self)@ == old(self)@.grown(additional as nat, columns as nat, *template),
    {
        let new_len = self.storage.len + additional;
        let ghost before = self.storage.inner@;
        while self.storage.inner.len() < new_len
            invariant
                self.storage.inner@.len() <= if before.len() < new_len { new_len as int } else { before.len() as int },
                self.storage.inner@.len() >= before.len(),
                self.storage.inner@.subrange(0, before.len() as int) == before,
                forall|i: int| before.len() <= i < self.storage.inner@.len() ==> self.storage.inner@[i]@
                    == RowView::fresh(columns as nat, *template),
                self.storage.zero == old(self).storage.zero,
                self.storage.len == old(self).storage.len,
                self.storage.visible_lines == old(self).storage.visible_lines,
                self.visible_lines == old(self).visible_lines,
                self.columns == old(self).columns,
                self.max_scroll_limit == old(self).max_scroll_limit,
                self.display_offset == old(self).display_offset,
            decreases new_len - self.storage.inner@.len(),
        {
            let row = GridRow::new(columns, template);
            self.storage.inner.push(row);
            proof {
                assert(self.storage.inner@.subrange(0, before.len() as int) =~= before);
            }
        }
        self.storage.len = new_len;
        proof {
            let expected = old(self)@.grown(additional as nat, columns as nat, *template);
            assert(self@.inner =~= expected.inner) by {
                assert(self.storage.inner@.subrange(0, before.len() as int) == before);
            }
        }
    }

    fn rotate(&mut self, count: usize)
        requires
            old(self).storage_ok(),
            old(self)@.inner.len() > 0,
        ensures
            final(self).storage_ok(),
            final(self)@ == old(self)@.rotated(count as nat),
    {
        let n = self.storage.inner.len();
        let zero = self.storage.zero;
        let step = count % n;
        proof {
            lemma_ring_slot(zero as int, step as int, n as int);
            vstd::arithmetic::div_mod::lemma_add_mod_noop(zero as int, count as int, n as int);
            vstd::arithmetic::div_mod::lemma_small_mod(zero as nat, n as nat);
            vstd::arithmetic::div_mod::lemma_mod_bound(count as int, n as int);
        }
        if step < n - zero {
            self.storage.zero = zero + step;
        } else {
            self.storage.zero = step - (n - zero);
        }
    }

    fn shrink_lines(&mut self, count: usize)
        requires
            old(self).storage_ok(),
            old(self).storage.visible_lines <= old(self)@.len,
        ensures
            final(self).storage_ok(),
            final(self)@ == old(self)@.shrunk(count as nat),
    {
        self.storage.len = self.storage.len.saturating_sub(count);
        if self.storage.len < self.storage.visible_lines {
            self.storage.len = self.storage.visible_lines;
        }
    }

    fn clear_logical_row(&mut self, index: usize, template: &CellAttributes)
        requires
            old(self).storage_ok(),
        ensures
            final(self).storage_ok(),
            final(self)@ == old(self)@.cleared_row(index as int, *template),
    {
        if index < self.storage.len {
            let slot = self.slot_of(index);
            proof {
                broadcast use lemma_row_views_update;
            }
            self.storage.inner[slot].clear(template);
        }
    }

    fn clear_logical_rows(&mut self, from: usize, count: usize, template: &CellAttributes)
        requires
            old(self).storage_ok(),
            from + count <= usize::MAX,
        ensures
            final(self).storage_ok(),
            final(self)@ == old(self)@.cleared_rows(from as int, count as nat, *template),
            final(self).storage.visible_lines == old(self).storage.visible_lines,
            final(self)@.inner.len() == old(self)@.inner.len(),
            final(self)@.zero == old(self)@.zero,
            final(self)@.len == old(self)@.len,
            final(self)@.columns == old(self)@.columns,
            final(self)@.visible_lines == old(self)@.visible_lines,
            final(self)@.max_scroll_limit == old(self)@.max_scroll_limit,
            final(self)@.display_offset == old(self)@.display_offset,
    {
        proof {
            lemma_cleared_rows_shape(old(self)@, from as int, count as nat, *template);
        }
        let mut i: usize = 0;
        while i < count
            invariant
                self.storage_ok(),
                i <= count,
                from + count <= usize::MAX,
                self@ == old(self)@.cleared_rows(from as int, i as nat, *template),
                self.storage.visible_lines == old(self).storage.visible_lines,
            decreases count - i,
        {
            self.clear_logical_row(from + i, template);
            i = i + 1;
        }
    }

    fn swap_logical(&mut self, a: usize, b: usize)
        requires
            old(self).storage_ok(),
            a < old(self)@.len,
            b < old(self)@.len,
        ensures
            final(self).storage_ok(),
            final(self)@ == old(self)@.swapped(a as int, b as int),
    {
        let sa = self.slot_of(a);
        let sb = self.slot_of(b);
        if sa == sb {
            proof {
                assert(self@.inner.update(sa as int, self@.inner[sb as int]).update(sb as int, self@.inner[sa as int]) =~= self@.inner);
            }
            return;
        }
        let mut held = GridRow { cells: Vec::new(), overflow: Vec::new(), soft_wrap: false };
        proof {
            broadcast use lemma_row_views_update;
        }
        self.storage.inner.set_and_swap(sa, &mut held);
        self.storage.inner.set_and_swap(sb, &mut held);
        self.storage.inner.set_and_swap(sa, &mut held);
        proof {
            assert(self@.inner =~= old(self)@.swapped(a as int, b as int).inner);
        }
    }

    /// Clear every live row.
    pub fn clear(&mut self, template: &CellAttributes)
        requires
            old(self).wf(),
        ensures
            final(self).wf(),
            final(self)@ == old(self)@.cleared_rows(0, old(self)@.len, *template),
    {
        let len = self.storage.len;
        self.clear_logical_rows(0, len, template);
    }

    /// Drop all scrollback history and show the newest content.
    pub fn clear_history(&mut self)
        requires
            old(self).wf(),
        ensures
            final(self).wf(),
            final(self)@ == (GridView { len: old(self)@.visible_lines, display_offset: 0, ..old(self)@ }),
    {
        self.storage.len = self.visible_lines;
        self.display_offset = 0;
    }

    /// Scroll the region `top..=bottom` of the screen up by `count` lines.
    /// With `top == 0` the lines leaving the screen move into history.
    pub fn scroll_up(&mut self, top: usize, bottom: usize, count: usize, template: &CellAttributes)
        requires
            old(self).wf(),
            top == 0 ==> old(self)@.len + count <= usize::MAX,
        ensures
            final(self).wf(),
            final(self)@ == old(self)@.scrolled_up(top as int, bottom as int, count as nat, *template),
    {
        if top > bottom || bottom >= self.visible_lines || count == 0 {
            return;
        }
        if top == 0 {
            let history = self.history_size();
            let can_grow = self.max_scroll_limit.saturating_sub(history);
            let grow_by = if count < can_grow { count } else { can_grow };
            let overflow = count - grow_by;
            let ghost start = self@;
            if grow_by > 0 {
                let columns = self.columns;
                self.grow_lines(grow_by, columns, template);
                let new_len = self.storage.len;
                self.clear_logical_rows(new_len - grow_by, grow_by, template);
            }
            let ghost grown = self@;
            if overflow > 0 && self.storage.len > 0 {
                self.rotate(overflow);
                let new_len = self.storage.len;
                self.clear_logical_rows(new_len.saturating_sub(overflow), overflow, template);
            }
            self.display_offset = 0;
            proof {
                assert(self@ == start.scrolled_into_history(count as nat, *template));
            }
        } else {
            let history = self.history_size();
            let mut n: usize = 0;
            while n < count
                invariant
                    self.storage_ok(),
                    self.wf(),
                    n <= count,
                    0 < top <= bottom < self.visible_lines,
                    self@.len == old(self)@.len,
                    self@.visible_lines == old(self)@.visible_lines,
                    self@.max_scroll_limit == old(self)@.max_scroll_limit,
                    self@.zero == old(self)@.zero,
                    self@.inner.len() == old(self)@.inner.len(),
                    history == old(self)@.history_size(),
                    self@ == old(self)@.region_scrolled_up(top as int, bottom as int, n as nat, *template),
                decreases count - n,
            {
                let mut row = top;
                while row < bottom
                    invariant
                        self.storage_ok(),
                        self.wf(),
                        top <= row <= bottom,
                        0 < top <= bottom < self.visible_lines,
                        history == self@.history_size(),
                        self@.len == old(self)@.len,
                        self@.visible_lines == old(self)@.visible_lines,
                        self@.max_scroll_limit == old(self)@.max_scroll_limit,
                        self@.zero == old(self)@.zero,
                        self@.inner.len() == old(self)@.inner.len(),
                        self@ == old(self)@.region_scrolled_up(top as int, bottom as int, n as nat, *template).swaps_up(
                            history as int,
                            top as int,
                            (row - top) as nat,
                        ),
                    decreases bottom - row,
                {
                    self.swap_logical(history + row, history + row + 1);
                    row = row + 1;
                }
                self.clear_logical_row(history + bottom, template);
                n = n + 1;
            }
        }
    }

    /// Scroll the region `top..=bottom` of the screen down by `count` lines.
    pub fn scroll_down(&mut self, top: usize, bottom: usize, count: usize, template: &CellAttributes)
        requires
            old(self).wf(),
        ensures
            final(self).wf(),
            final(self)@ == if top > bottom || bottom >= old(self)@.visible_lines || count == 0 {
                old(self)@
            } else {
                old(self)@.region_scrolled_down(top as int, bottom as int, count as nat, *template)
            },
    {
        if top > bottom || bottom >= self.visible_lines || count == 0 {
            return;
        }
        let history = self.history_size();
        let mut n: usize = 0;
        while n < count
            invariant
                self.storage_ok(),
                self.wf(),
                n <= count,
                top <= bottom < self.visible_lines,
                self@.len == old(self)@.len,
                self@.visible_lines == old(self)@.visible_lines,
                self@.max_scroll_limit == old(self)@.max_scroll_limit,
                self@.zero == old(self)@.zero,
                self@.inner.len() == old(self)@.inner.len(),
                history == old(self)@.history_size(),
                self@ == old(self)@.region_scrolled_down(top as int, bottom as int, n as nat, *template),
            decreases count - n,
        {
            let mut row = bottom;
            while row > top
                invariant
                    self.storage_ok(),
                    self.wf(),
                    top <= row <= bottom,
                    top <= bottom < self.visible_lines,
                    history == self@.history_size(),
                    self@.len == old(self)@.len,
                    self@.visible_lines == old(self)@.visible_lines,
                    self@.max_scroll_limit == old(self)@.max_scroll_limit,
                    self@.zero == old(self)@.zero,
                    self@.inner.len() == old(self)@.inner.len(),
                    self@ == old(self)@.region_scrolled_down(top as int, bottom as int, n as nat, *template).swaps_down(
                        history as int,
                        bottom as int,
                        (bottom - row) as nat,
                    ),
                decreases row - top,
            {
                self.swap_logical(history + row, history + row - 1);
                row = row - 1;
            }
            self.clear_logical_row(history + top, template);
            n = n + 1;
        }
    }
}


impl Grid {
    /// Clear the cells `start_col..=end_col` (clamped to the width) of screen row `row_idx`.
    pub fn clear_range(
        &mut self,
        row_idx: usize,
        start_col: usize,
        end_col: usize,
        template: &CellAttributes,
    )
        requires
            old(self).wf(),
        ensures
            final(self).wf(),
            final(self)@ == if row_idx >= old(self)@.visible_lines || start_col >= old(self)@.columns {
                old(self)@
            } else {
                let i = old(self)@.first_displayed() + row_idx;
                let last = if end_col < old(self)@.columns - 1 { end_col as int } else { old(self)@.columns - 1 };
                old(self)@.with_row_cells(i, range_cleared(old(self)@.row(i).cells, start_col as int, last, *template))
            },
    {
        if row_idx >= self.visible_lines || start_col >= self.columns {
            return;
        }
        let end_col = if end_col < self.columns - 1 { end_col } else { self.columns - 1 };
        let columns = self.columns;
        let row = self.row_mut(row_idx);
        let ghost original = row.cells@;
        let ghost original_row = row@;
        if start_col <= end_col {
            let mut col = start_col;
            while col <= end_col
                invariant
                    start_col <= col <= end_col + 1,
                    end_col < columns,
                    row.cells@.len() == original.len(),
                    row@ == (RowView { cells: row.cells@, ..original_row }),
                    forall|j: int| 0 <= j < original.len() ==> row.cells@[j] == if start_col <= j < col { blank_cell(*template) } else { original[j] },
                decreases end_col + 1 - col,
            {
                if col < row.cells.len() {
                    row.cells.set(col, Cell::blank(template));
                }
                col = col + 1;
            }
        }
        proof {
            assert(row.cells@ =~= range_cleared(original, start_col as int, end_col as int, *template));
        }
    }

    /// Insert `count` blank cells at column `col_idx` of screen row `row_idx`,
    /// shifting the rest of the row right.
    pub fn insert_blank_cells(
        &mut self,
        row_idx: usize,
        col_idx: usize,
        count: usize,
        template: &CellAttributes,
    )
        requires
            old(self).wf(),
        ensures
            final(self).wf(),
            final(self)@ == if row_idx >= old(self)@.visible_lines || col_idx >= old(self)@.columns || count == 0 {
                old(self)@
            } else {
                let i = old(self)@.first_displayed() + row_idx;
                let room = old(self)@.columns - col_idx;
                let shift = if count < room { count as int } else { room };
                old(self)@.with_row_cells(
                    i,
                    blanks_inserted(old(self)@.row(i).cells, col_idx as int, shift, old(self)@.columns as int, *template),
                )
            },
    {
        if row_idx >= self.visible_lines || col_idx >= self.columns || count == 0 {
            return;
        }
        let columns = self.columns;
        let row = self.row_mut(row_idx);
        let max_shift = columns - col_idx;
        let count = if count < max_shift { count } else { max_shift };
        let ghost original = row.cells@;
        let ghost original_row = row@;
        let mut idx = columns - col_idx - count;
        while idx > 0
            invariant
                row@ == (RowView { cells: row.cells@, ..original_row }),
                idx <= columns - col_idx - count,
                count <= columns - col_idx,
                col_idx < columns,
                row.cells@.len() == original.len(),
                forall|j: int|
                    0 <= j < original.len() ==> row.cells@[j] == if col_idx + idx + count <= j < columns {
                        original[j - count]
                    } else {
                        original[j]
                    },
            decreases idx,
        {
            idx = idx - 1;
            let source = col_idx + idx;
            let target = source + count;
            if target < row.cells.len() && source < row.cells.len() {
                let cell = row.cells[source].clone();
                row.cells.set(target, cell);
            }
        }
        let mut idx = col_idx;
        let stop = if col_idx + count < columns { col_idx + count } else { columns };
        while idx < stop
            invariant
                row@ == (RowView { cells: row.cells@, ..original_row }),
                col_idx <= idx <= stop,
                stop <= columns,
                stop == col_idx + count,
                row.cells@.len() == original.len(),
                forall|j: int|
                    0 <= j < original.len() ==> row.cells@[j] == if col_idx <= j < idx {
                        blank_cell(*template)
                    } else if col_idx + count <= j < columns {
                        original[j - count]
                    } else {
                        original[j]
                    },
            decreases stop - idx,
        {
            if idx < row.cells.len() {
                row.cells.set(idx, Cell::blank(template));
            }
            idx = idx + 1;
        }
        proof {
            assert(row.cells@ =~= blanks_inserted(original, col_idx as int, count as int, columns as int, *template));
        }
    }

    /// Delete `count` cells at column `col_idx` of screen row `row_idx`,
    /// shifting the rest of the row left and clearing the vacated end.
    pub fn delete_cells(
        &mut self,
        row_idx: usize,
        col_idx: usize,
        count: usize,
        template: &CellAttributes,
    )
        requires
            old(self).wf(),
        ensures
            final(self).wf(),
            final(self)@ == if row_idx >= old(self)@.visible_lines || col_idx >= old(self)@.columns || count == 0 {
                old(self)@
            } else {
                let i = old(self)@.first_displayed() + row_idx;
                let span = old(self)@.columns - col_idx;
                let shift = if count < span { count as int } else { span };
                old(self)@.with_row_cells(
                    i,
                    cells_deleted(old(self)@.row(i).cells, col_idx as int, shift, old(self)@.columns as int, *template),
                )
            },
    {
        if row_idx >= self.visible_lines || col_idx >= self.columns || count == 0 {
            return;
        }
        let columns = self.columns;
        let row = self.row_mut(row_idx);
        let span = columns - col_idx;
        let count = if count < span { count } else { span };
        let ghost original = row.cells@;
        let ghost original_row = row@;
        let mut idx = col_idx;
        while idx < columns
            invariant
                row@ == (RowView { cells: row.cells@, ..original_row }),
                col_idx <= idx <= columns,
                1 <= count,
                row.cells@.len() == original.len(),
                forall|j: int|
                    0 <= j < original.len() ==> row.cells@[j] == if col_idx <= j < idx {
                        if j + count < original.len() {
                            original[j + count]
                        } else {
                            blank_cell(*template)
                        }
                    } else {
                        original[j]
                    },
            decreases columns - idx,
        {
            let len = row.cells.len();
            if idx < len {
                if count < len - idx {
                    let cell = row.cells[idx + count].clone();
                    row.cells.set(idx, cell);
                } else {
                    row.cells.set(idx, Cell::blank(template));
                }
            }
            idx = idx + 1;
        }
        proof {
            assert(row.cells@ =~= cells_deleted(original, col_idx as int, count as int, columns as int, *template));
        }
    }

    /// Scroll the display viewport through history.
    pub fn scroll_display(&mut self, direction: ScrollDirection)
        requires
            old(self).wf(),
            direction matches ScrollDirection::Delta(count) ==> old(self)@.display_offset
                <= i32::MAX && i32::MIN <= old(self)@.display_offset + count <= i32::MAX,
            direction is PageUp ==> old(self)@.display_offset + old(self)@.visible_lines
                <= usize::MAX,
        ensures
            final(self).wf(),
            final(self)@ == (GridView {
                display_offset: old(self)@.scrolled_offset(direction),
                ..old(self)@
            }),
    {
        let history = self.history_size();
        self.display_offset = match direction {
            ScrollDirection::Delta(count) => {
                let moved = (self.display_offset as i32) + count;
                let clamped = if moved < 0 { 0 } else { moved as usize };
                if clamped < history { clamped } else { history }
            },
            ScrollDirection::PageUp => {
                let moved = self.display_offset + self.visible_lines;
                if moved < history { moved } else { history }
            },
            ScrollDirection::PageDown => self.display_offset.saturating_sub(self.visible_lines),
            ScrollDirection::Top => history,
            ScrollDirection::Bottom => 0,
        };
    }

    /// The currently displayed rows, top first (accounting for the display offset).
    pub fn display_iter(&self) -> (rows: Vec<&GridRow>)
        requires
            self.wf(),
        ensures
            rows@.len() == self@.visible_lines,
            forall|k: int| 0 <= k < self@.visible_lines ==> rows@[k]@ == self@.row(self@.first_displayed() + k),
    {
        let history = self.history_size();
        let start = history.saturating_sub(self.display_offset);
        let mut rows: Vec<&GridRow> = Vec::new();
        let mut k: usize = 0;
        while k < self.visible_lines
            invariant
                self.wf(),
                k <= self@.visible_lines,
                start == self@.first_displayed(),
                rows@.len() == k,
                forall|j: int| 0 <= j < k ==> rows@[j]@ == self@.row(self@.first_displayed() + j),
            decreases self@.visible_lines - k,
        {
            let slot = self.compute_index(start + k);
            rows.push(&self.storage.inner[slot]);
            k = k + 1;
        }
        rows
    }
}


/// A trailing cell that reflow may drop: an untouched space that is not half
/// of a double-width character.
pub open spec fn removable_blank(cell: Cell) -> bool {
    cell.ch == ' ' && !cell.touched && !cell.flags.has(Flags::WIDE_CHAR) && !cell.flags.has(
        Flags::WIDE_CHAR_SPACER,
    )
}

/// `cells` without its removable trailing blanks.
pub open spec fn trimmed(cells: Seq<Cell>) -> Seq<Cell>
    decreases cells.len(),
{
    if cells.len() > 0 && removable_blank(cells.last()) {
        trimmed(cells.drop_last())
    } else {
        cells
    }
}

/// One step of joining rows into logical lines: the finished lines and the
/// line still being continued by soft-wrapped rows.
pub open spec fn joined_row(acc: (Seq<Seq<Cell>>, Seq<Cell>), row: RowView) -> (Seq<Seq<Cell>>, Seq<Cell>) {
    let content = trimmed(row.cells);
    if content.len() == 0 && !row.soft_wrap {
        let lines = if acc.1.len() > 0 { acc.0.push(acc.1) } else { acc.0 };
        (lines.push(Seq::empty()), Seq::empty())
    } else {
        let current = acc.1 + content;
        if !row.soft_wrap {
            (acc.0.push(current), Seq::empty())
        } else {
            (acc.0, current)
        }
    }
}

/// Join `rows` (oldest first) into finished lines and an open line.
pub open spec fn joined_rows(rows: Seq<RowView>) -> (Seq<Seq<Cell>>, Seq<Cell>)
    decreases rows.len(),
{
    if rows.len() == 0 {
        (Seq::empty(), Seq::empty())
    } else {
        joined_row(joined_rows(rows.drop_last()), rows.last())
    }
}

/// The logical lines of `rows`: soft-wrapped rows joined, trailing blanks
/// removed, at least one (possibly empty) line.
pub open spec fn logical_lines(rows: Seq<RowView>) -> Seq<Seq<Cell>> {
    let joined = joined_rows(rows);
    let lines = if joined.1.len() > 0 { joined.0.push(joined.1) } else { joined.0 };
    if lines.len() == 0 { seq![Seq::empty()] } else { lines }
}

/// Move a chunk end back so that it does not split a double-width character.
pub open spec fn backed_off(line: Seq<Cell>, cursor: int, end: int) -> int
    decreases end - cursor,
{
    if end > cursor && line[end - 1].flags.has(Flags::WIDE_CHAR) {
        backed_off(line, cursor, end - 1)
    } else {
        end
    }
}

/// Backing off stays between the chunk start and the first guess.
pub proof fn lemma_backed_off_bounds(line: Seq<Cell>, cursor: int, end: int)
    requires
        cursor <= end,
    ensures
        cursor <= backed_off(line, cursor, end) <= end,
    decreases end - cursor,
{
    if end > cursor && line[end - 1].flags.has(Flags::WIDE_CHAR) {
        lemma_backed_off_bounds(line, cursor, end - 1);
    }
}

/// A chunk starting inside the line is non-empty and ends inside the line.
pub proof fn lemma_chunk_end_bounds(line: Seq<Cell>, columns: nat, cursor: int)
    requires
        0 <= cursor < line.len(),
    ensures
        cursor < chunk_end(line, columns, cursor) <= line.len(),
{
    let first = if cursor + columns < line.len() { cursor + columns } else { line.len() as int };
    lemma_backed_off_bounds(line, cursor, first);
}

/// End of the chunk of `line` starting at `cursor` for rows of `columns` cells.
pub open spec fn chunk_end(line: Seq<Cell>, columns: nat, cursor: int) -> int {
    let first = if cursor + columns < line.len() { cursor + columns } else { line.len() as int };
    if first < line.len() {
        let end = backed_off(line, cursor, first);
        if end == cursor {
            if cursor + 1 < line.len() { cursor + 1 } else { line.len() as int }
        } else {
            end
        }
    } else {
        first
    }
}

/// The row holding `line[start..end]`, padded with cleared cells; it wraps
/// when the line continues.
pub open spec fn chunk_row(line: Seq<Cell>, columns: nat, start: int, end: int, template: CellAttributes) -> RowView {
    RowView {
        cells: Seq::new(columns, |j: int| if j < end - start { line[start + j] } else { blank_cell(template) }),
        overflow: Seq::empty(),
        soft_wrap: end < line.len(),
    }
}

/// The rows of `line` from `cursor` on.
pub open spec fn chunks_from(line: Seq<Cell>, columns: nat, cursor: int, template: CellAttributes) -> Seq<RowView>
    decreases line.len() - cursor,
{
    if cursor >= line.len() {
        Seq::empty()
    } else {
        let end = chunk_end(line, columns, cursor);
        proof {
            if cursor >= 0 {
                lemma_chunk_end_bounds(line, columns, cursor);
            }
        }
        if cursor < 0 {
            Seq::empty()
        } else {
            seq![chunk_row(line, columns, cursor, end, template)] + chunks_from(line, columns, end, template)
        }
    }
}

/// The rows of one logical line; an empty line is one cleared row.
pub open spec fn line_rows(line: Seq<Cell>, columns: nat, template: CellAttributes) -> Seq<RowView> {
    if line.len() == 0 {
        seq![RowView::fresh(columns, template)]
    } else {
        chunks_from(line, columns, 0, template)
    }
}

/// The rows of all `lines`, in order.
pub open spec fn lines_rows(lines: Seq<Seq<Cell>>, columns: nat, template: CellAttributes) -> Seq<RowView>
    decreases lines.len(),
{
    if lines.len() == 0 {
        Seq::empty()
    } else {
        lines_rows(lines.drop_last(), columns, template) + line_rows(lines.last(), columns, template)
    }
}

/// `rows` limited to the newest `max_total` rows and padded with cleared
/// rows to at least `target` rows.
pub open spec fn bounded_rows(rows: Seq<RowView>, max_total: nat, target: nat, columns: nat, template: CellAttributes) -> Seq<RowView> {
    let kept = if rows.len() > max_total { rows.subrange(rows.len() - max_total, rows.len() as int) } else { rows };
    if kept.len() < target {
        kept + Seq::new((target - kept.len()) as nat, |_i: int| RowView::fresh(columns, template))
    } else {
        kept
    }
}

impl GridView {
    /// The grid after changing the number of screen lines only.
    pub open spec fn lines_resized(self, visible_lines: nat, template: CellAttributes) -> GridView {
        let target: nat = if visible_lines == 0 { 1 } else { visible_lines };
        let grown = if target > self.len {
            self.grown((target - self.len) as nat, self.columns, template)
        } else {
            self
        };
        let sized = GridView { visible_lines: target, ..grown };
        let history = sized.history_size();
        let offset = GridView {
            display_offset: if self.display_offset < history { self.display_offset } else { history },
            ..sized
        };
        let max_total = target + self.max_scroll_limit;
        if offset.len > max_total {
            let excess = (offset.len - max_total) as nat;
            offset.rotated(excess % offset.len).shrunk(excess)
        } else {
            offset
        }
    }

    /// The grid after reflowing its content to `columns` columns.
    pub open spec fn reflowed(self, columns: nat, visible_lines: nat, template: CellAttributes) -> GridView {
        let target: nat = if visible_lines == 0 { 1 } else { visible_lines };
        let rows = bounded_rows(
            lines_rows(logical_lines(self.rows()), columns, template),
            target + self.max_scroll_limit,
            target,
            columns,
            template,
        );
        let history: nat = (rows.len() - target) as nat;
        GridView {
            inner: rows,
            zero: 0,
            len: rows.len(),
            columns,
            visible_lines: target,
            max_scroll_limit: self.max_scroll_limit,
            display_offset: if self.display_offset < history { self.display_offset } else { history },
        }
    }
}


/// The cell runs of `lines`.
spec fn line_views(lines: Seq<Vec<Cell>>) -> Seq<Seq<Cell>> {
    Seq::new(lines.len(), |i: int| lines[i]@)
}

proof fn lemma_line_views_push(lines: Seq<Vec<Cell>>, line: Vec<Cell>)
    ensures
        line_views(lines.push(line)) == line_views(lines).push(line@),
{
    assert(line_views(lines.push(line)) =~= line_views(lines).push(line@));
}

proof fn lemma_row_views_push(rows: Seq<GridRow>, row: GridRow)
    ensures
        row_views(rows.push(row)) == row_views(rows).push(row@),
{
    assert(row_views(rows.push(row)) =~= row_views(rows).push(row@));
}

proof fn lemma_row_views_skip(rows: Seq<GridRow>, at: int)
    requires
        0 <= at <= rows.len(),
    ensures
        row_views(rows.subrange(at, rows.len() as int)) == row_views(rows).subrange(at, rows.len() as int),
{
    assert(row_views(rows.subrange(at, rows.len() as int)) =~= row_views(rows).subrange(at, rows.len() as int));
}

fn is_removable_blank(cell: &Cell) -> (removable: bool)
    ensures
        removable == removable_blank(*cell),
{
    !(!cell.is_blank() || cell.touched || cell.is_wide_leading() || cell.is_wide_trailing())
}

fn trim_trailing_blanks(cells: &Vec<Cell>) -> (kept: Vec<Cell>)
    ensures
        kept@ == trimmed(cells@),
{
    let mut end = cells.len();
    proof {
        assert(cells@.subrange(0, end as int) =~= cells@);
    }
    while end > 0 && is_removable_blank(&cells[end - 1])
        invariant
            end <= cells@.len(),
            trimmed(cells@) == trimmed(cells@.subrange(0, end as int)),
        decreases end,
    {
        proof {
            assert(cells@.subrange(0, end as int).drop_last() =~= cells@.subrange(0, end - 1));
        }
        end = end - 1;
    }
    let mut kept: Vec<Cell> = Vec::new();
    let mut i: usize = 0;
    while i < end
        invariant
            i <= end <= cells@.len(),
            kept@ == cells@.subrange(0, i as int),
        decreases end - i,
    {
        kept.push(cells[i].clone());
        i = i + 1;
        proof {
            assert(kept@ =~= cells@.subrange(0, i as int));
        }
    }
    proof {
        let prefix = cells@.subrange(0, end as int);
        if end > 0 {
            assert(!removable_blank(prefix.last()));
        }
        assert(trimmed(prefix) == prefix);
    }
    kept
}

impl Grid {
    fn resize_visible_lines(&mut self, visible_lines: usize, columns: usize, template: &CellAttributes)
        requires
            old(self).wf(),
            columns == old(self)@.columns,
        ensures
            final(self).wf(),
            final(self)@ == old(self)@.lines_resized(visible_lines as nat, *template),
    {
        let previous_offset = self.display_offset;
        let target_visible = if visible_lines == 0 { 1 } else { visible_lines };
        let current_total = self.storage.len;
        if target_visible > current_total {
            let growth = target_visible - current_total;
            self.grow_lines(growth, columns, template);
        }
        self.storage.visible_lines = target_visible;
        self.visible_lines = target_visible;
        let history = self.history_size();
        self.display_offset = if previous_offset < history { previous_offset } else { history };
        let max_total = target_visible.saturating_add(self.max_scroll_limit);
        if self.storage.len > max_total {
            let excess = self.storage.len - max_total;
            let len = self.storage.len;
            self.rotate(excess % len);
            self.shrink_lines(excess);
        }
    }

    fn reflow_columns(&mut self, columns: usize, visible_lines: usize, template: &CellAttributes)
        requires
            old(self).wf(),
        ensures
            final(self).wf(),
            final(self)@ == old(self)@.reflowed(columns as nat, visible_lines as nat, *template),
    {
        let target_visible = if visible_lines == 0 { 1 } else { visible_lines };
        let max_total = target_visible.saturating_add(self.max_scroll_limit);
        let ghost rows = old(self)@.rows();

        let mut logical: Vec<Vec<Cell>> = Vec::new();
        let mut current: Vec<Cell> = Vec::new();
        let mut idx: usize = 0;
        while idx < self.storage.len
            invariant
                self.wf(),
                self@ == old(self)@,
                rows == self@.rows(),
                idx <= self@.len,
                (line_views(logical@), current@) == joined_rows(rows.subrange(0, idx as int)),
            decreases self@.len - idx,
        {
            let slot = self.compute_index(idx);
            let row = &self.storage.inner[slot];
            let content = trim_trailing_blanks(&row.cells);
            proof {
                assert(rows.subrange(0, idx + 1).drop_last() =~= rows.subrange(0, idx as int));
                assert(rows.subrange(0, idx + 1).last() == row@);
            }
            if content.len() == 0 && !row.soft_wrap {
                if current.len() > 0 {
                    proof {
                        lemma_line_views_push(logical@, current);
                    }
                    logical.push(current);
                    current = Vec::new();
                }
                let empty: Vec<Cell> = Vec::new();
                proof {
                    lemma_line_views_push(logical@, empty);
                    assert(empty@ =~= Seq::<Cell>::empty());
                    assert(current@ =~= Seq::<Cell>::empty());
                }
                logical.push(empty);
            } else {
                let ghost before = current@;
                let mut j: usize = 0;
                while j < content.len()
                    invariant
                        j <= content@.len(),
                        current@ == before + content@.subrange(0, j as int),
                    decreases content@.len() - j,
                {
                    current.push(content[j].clone());
                    j = j + 1;
                    proof {
                        assert(current@ =~= before + content@.subrange(0, j as int));
                    }
                }
                proof {
                    assert(content@.subrange(0, content@.len() as int) =~= content@);
                }
                if !row.soft_wrap {
                    proof {
                        lemma_line_views_push(logical@, current);
                    }
                    logical.push(current);
                    current = Vec::new();
                    proof {
                        assert(current@ =~= Seq::<Cell>::empty());
                    }
                }
            }
            idx = idx + 1;
        }
        proof {
            assert(rows.subrange(0, rows.len() as int) =~= rows);
        }
        if current.len() > 0 {
            proof {
                lemma_line_views_push(logical@, current);
            }
            logical.push(current);
        }
        if logical.len() == 0 {
            let empty: Vec<Cell> = Vec::new();
            proof {
                lemma_line_views_push(logical@, empty);
                assert(empty@ =~= Seq::<Cell>::empty());
                assert(line_views(logical@).push(empty@) =~= seq![Seq::<Cell>::empty()]);
            }
            logical.push(empty);
        }
        let ghost lines = line_views(logical@);
        assert(lines == logical_lines(rows));

        let mut new_rows: Vec<GridRow> = Vec::new();
        let mut k: usize = 0;
        while k < logical.len()
            invariant
                k <= logical@.len(),
                lines == line_views(logical@),
                row_views(new_rows@) == lines_rows(lines.subrange(0, k as int), columns as nat, *template),
            decreases logical@.len() - k,
        {
            let line = &logical[k];
            proof {
                assert(lines.subrange(0, k + 1).drop_last() =~= lines.subrange(0, k as int));
                assert(lines.subrange(0, k + 1).last() == line@);
            }
            if line.len() == 0 {
                let mut row = GridRow::new(columns, template);
                row.set_soft_wrap(false);
                proof {
                    lemma_row_views_push(new_rows@, row);
                }
                new_rows.push(row);
            } else {
                let ghost done = row_views(new_rows@);
                let mut cursor: usize = 0;
                while cursor < line.len()
                    invariant
                        cursor <= line@.len(),
                        done + chunks_from(line@, columns as nat, 0, *template) == row_views(new_rows@)
                            + chunks_from(line@, columns as nat, cursor as int, *template),
                    decreases line@.len() - cursor,
                {
                    let len = line.len();
                    let first = if columns < len - cursor { cursor + columns } else { len };
                    let mut end = first;
                    if end < len {
                        while end > cursor && line[end - 1].is_wide_leading()
                            invariant
                                cursor <= end <= first,
                                first <= line@.len(),
                                backed_off(line@, cursor as int, first as int) == backed_off(
                                    line@,
                                    cursor as int,
                                    end as int,
                                ),
                            decreases end - cursor,
                        {
                            end = end - 1;
                        }
                        if end == cursor {
                            end = if cursor + 1 < len { cursor + 1 } else { len };
                        }
                    }
                    proof {
                        assert(end == chunk_end(line@, columns as nat, cursor as int));
                        lemma_chunk_end_bounds(line@, columns as nat, cursor as int);
                    }
                    let mut row = GridRow::new(columns, template);
                    let ghost fresh = row@;
                    let mut j: usize = 0;
                    while j < columns && j < end - cursor
                        invariant
                            j <= columns,
                            j <= end - cursor,
                            cursor < end <= line@.len(),
                            row@.overflow == fresh.overflow,
                            row@.soft_wrap == fresh.soft_wrap,
                            row@.cells.len() == columns,
                            forall|m: int|
                                0 <= m < columns ==> row@.cells[m] == if m < j {
                                    line@[cursor + m]
                                } else {
                                    blank_cell(*template)
                                },
                        decreases columns - j,
                    {
                        let cell = line[cursor + j].clone();
                        row.cells.set(j, cell);
                        j = j + 1;
                    }
                    row.set_soft_wrap(end < len);
                    proof {
                        let expected = chunk_row(line@, columns as nat, cursor as int, end as int, *template);
                        assert forall|m: int| 0 <= m < columns implies row@.cells[m] == expected.cells[m] by {
                            if m < j {
                                assert(m < end - cursor);
                            } else {
                                assert(m >= end - cursor);
                            }
                        }
                        assert(row@.cells =~= expected.cells);
                        assert(row@.overflow =~= expected.overflow);
                        lemma_row_views_push(new_rows@, row);
                        assert(chunks_from(line@, columns as nat, cursor as int, *template) =~= seq![expected]
                            + chunks_from(line@, columns as nat, end as int, *template));
                    }
                    new_rows.push(row);
                    cursor = end;
                }
                proof {
                    assert(chunks_from(line@, columns as nat, cursor as int, *template) =~= Seq::<RowView>::empty());
                    assert(row_views(new_rows@) =~= done + chunks_from(line@, columns as nat, 0, *template));
                }
            }
            k = k + 1;
        }
        proof {
            assert(lines.subrange(0, lines.len() as int) =~= lines);
        }
        let ghost all_rows = row_views(new_rows@);
        if new_rows.len() > max_total {
            let excess = new_rows.len() - max_total;
            proof {
                lemma_row_views_skip(new_rows@, excess as int);
            }
            new_rows = new_rows.split_off(excess);
        }
        let ghost kept = row_views(new_rows@);
        while new_rows.len() < target_visible
            invariant
                kept.len() <= new_rows@.len(),
                row_views(new_rows@).subrange(0, kept.len() as int) == kept,
                forall|i: int|
                    kept.len() <= i < new_rows@.len() ==> new_rows@[i]@ == RowView::fresh(columns as nat, *template),
                new_rows@.len() <= if kept.len() < target_visible { target_visible as int } else { kept.len() as int },
            decreases target_visible - new_rows@.len(),
        {
            new_rows.push(GridRow::new(columns, template));
            proof {
                assert(row_views(new_rows@).subrange(0, kept.len() as int) =~= kept);
            }
        }
        proof {
            let expected = bounded_rows(all_rows, max_total as nat, target_visible as nat, columns as nat, *template);
            assert(row_views(new_rows@) =~= expected);
        }
        let total = new_rows.len();
        self.storage.inner = new_rows;
        self.storage.zero = 0;
        self.storage.len = total;
        self.storage.visible_lines = target_visible;
        self.columns = columns;
        self.visible_lines = target_visible;
        let history = total - target_visible;
        self.display_offset = if self.display_offset < history { self.display_offset } else { history };
    }

    /// Resize the grid: a change of width reflows the content, otherwise only
    /// the number of screen lines changes.
    pub fn resize(&mut self, columns: usize, visible_lines: usize, template: &CellAttributes)
        requires
            old(self).wf(),
        ensures
            final(self).wf(),
            final(self)@ == if columns != old(self)@.columns {
                old(self)@.reflowed(columns as nat, visible_lines as nat, *template)
            } else {
                old(self)@.lines_resized(visible_lines as nat, *template)
            },
    {
        if columns != self.columns {
            self.reflow_columns(columns, visible_lines, template);
            return;
        }
        self.resize_visible_lines(visible_lines, columns, template);
    }
}

} // verus!
