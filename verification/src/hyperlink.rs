//! Hyperlink spans of a snapshot: explicit (OSC 8) links and URLs detected in
//! the visible text.

use regex_automata::hybrid::regex::Regex;
use regex_automata::util::syntax::Config as SyntaxConfig;
use vstd::prelude::*;

use crate::cell::Flags;
use crate::escape::Hyperlink;
use crate::index::{point_to_viewport, Point};
use crate::snapshot::{SnapshotCell, SnapshotSize};
use crate::text::push_char;
use crate::ui::input::char_utf8_width;

verus! {

/// Regex pattern for detecting URLs in terminal content: common schemes
/// followed by characters other than whitespace, controls, quotes and angle
/// brackets.
pub const URL_PATTERN: &'static str = "(?:ipfs:|ipns:|magnet:|mailto:|gemini://|gopher://|https://|http://|news:|file://|git://|ssh:|ftp://)[^\\s<>\\x00-\\x1F\\x7F-\\x9F\"']+";

/// Byte spans of the non-overlapping leftmost matches of `pattern` in
/// `haystack`, in order, or `None` where the pattern does not compile.
pub uninterp spec fn regex_find_all(
    pattern: Seq<char>,
    case_insensitive: bool,
    haystack: Seq<char>,
) -> Option<Seq<(usize, usize)>>;

/// Builds a `regex_automata::hybrid::regex::Regex` from `pattern` (with the
/// given case sensitivity) and collects the spans of `Regex::find_iter` over
/// `haystack`. Claimed: the result is `regex_find_all` of the arguments, and
/// each span starts no later than it ends.
#[verifier::external_body]
fn find_all(pattern: &str, case_insensitive: bool, haystack: &str) -> (found: Option<
    Vec<(usize, usize)>,
>)
    ensures
        match found {
            Some(spans) => regex_find_all(pattern@, case_insensitive, haystack@) == Some(spans@)
                && forall|i: int| 0 <= i < spans@.len() ==> (#[trigger] spans@[i]).0 <= spans@[i].1,
            None => regex_find_all(pattern@, case_insensitive, haystack@) is None,
        },
{
    let mut builder = Regex::builder();
    builder.syntax(SyntaxConfig::new().case_insensitive(case_insensitive));
    match builder.build(pattern) {
        Ok(regex) => {
            let mut cache = regex.create_cache();
            let mut spans = Vec::new();
            for found in regex.find_iter(&mut cache, haystack) {
                spans.push((found.start(), found.end()));
            }
            Some(spans)
        },
        Err(_) => None,
    }
}

/// Hyperlink span mapped to a contiguous range of cells.
#[derive(Debug, PartialEq, Eq)]
pub struct HyperlinkSpan {
    /// Hyperlink payload (either OSC 8 or detected).
    pub link: Hyperlink,
    /// First cell of the hyperlink in grid coordinates.
    pub start: Point,
    /// Last cell of the hyperlink in grid coordinates.
    pub end: Point,
}

impl Clone for HyperlinkSpan {
    fn clone(&self) -> (copy: Self)
        ensures
            copy == *self,
    {
        HyperlinkSpan { link: self.link.clone(), start: self.start, end: self.end }
    }
}

/// Whether `point` lies between `start` and `end`, inclusive, in reading
/// order.
pub open spec fn span_covers(start: Point, end: Point, point: Point) -> bool {
    if point.line.0 < start.line.0 {
        false
    } else if point.line.0 > start.line.0 {
        point.line.0 < end.line.0
    } else {
        point.column.0 >= start.column.0 && (point.line.0 < end.line.0 || point.column.0
            <= end.column.0)
    }
}

impl HyperlinkSpan {
    /// Checks if a given point lies within this hyperlink span.
    pub fn contains(&self, point: Point) -> (inside: bool)
        ensures
            inside == span_covers(self.start, self.end, point),
    {
        if point.line.0 < self.start.line.0 {
            false
        } else if point.line.0 > self.start.line.0 {
            point.line.0 < self.end.line.0
        } else {
            point.column.0 >= self.start.column.0 && (point.line.0 < self.end.line.0
                || point.column.0 <= self.end.column.0)
        }
    }
}

/// Whether every cell's viewport position can be computed without
/// overflow.
pub open spec fn cells_addressable(cells: Seq<SnapshotCell>, columns: int, display_offset: int) -> bool {
    &&& display_offset <= i32::MAX
    &&& forall|i: int|
        0 <= i < cells.len() ==> #[trigger] cells[i].point.line.0 + display_offset <= i32::MAX && (
        cells[i].point.line.0 + display_offset >= 0 ==> (cells[i].point.line.0 + display_offset)
            * columns + cells[i].point.column.0 <= usize::MAX)
}

/// Viewport cell index of a cell, if it is not above the viewport.
pub open spec fn viewport_index(cell: SnapshotCell, columns: int, display_offset: int) -> Option<
    int,
> {
    let line = cell.point.line.0 + display_offset;
    if line >= 0 {
        Some(line * columns + cell.point.column.0)
    } else {
        None
    }
}

/// The explicit hyperlink of the last cell that carries one at viewport
/// index `index`.
pub open spec fn osc_link_at(
    cells: Seq<SnapshotCell>,
    columns: int,
    display_offset: int,
    index: int,
) -> Option<Hyperlink>
    decreases cells.len(),
{
    if cells.len() == 0 {
        None
    } else {
        let cell = cells.last();
        if viewport_index(cell, columns, display_offset) == Some(index)
            && cell.cell.attributes.hyperlink is Some {
            cell.cell.attributes.hyperlink
        } else {
            osc_link_at(cells.drop_last(), columns, display_offset, index)
        }
    }
}

/// State of the pass over explicit links: spans so far, the span claimed by
/// each visible cell, the span the previous cell belongs to, and the
/// viewport position and flags of the previous cell.
pub ghost struct OscScan {
    pub spans: Seq<HyperlinkSpan>,
    pub slots: Seq<Option<u32>>,
    pub current: Option<u32>,
    pub last: Option<Point<usize>>,
    pub last_flags: Flags,
}

/// Whether `current` directly follows `previous`: the next column of the
/// same line, or the first column of the next line after a soft wrap.
pub open spec fn follows(current: Point<usize>, previous: Option<Point<usize>>, flags: Flags) -> bool {
    previous matches Some(prev) && ((current.line == prev.line && current.column.0
        == prev.column.0 + 1) || (current.line == prev.line + 1 && current.column.0 == 0
        && flags.has(Flags::WRAPLINE)))
}

/// `slots` with visible cell `index` claimed by span `id` (cells past the
/// slots are ignored).
pub open spec fn claim(slots: Seq<Option<u32>>, index: int, id: u32) -> Seq<Option<u32>> {
    if 0 <= index < slots.len() {
        slots.update(index, Some(id))
    } else {
        slots
    }
}

/// One step of the pass over explicit links. A cell above the viewport is
/// skipped. A linked cell joins the previous cell's span when that span has
/// the same link and the cell follows the previous one; otherwise it opens a
/// new span (while span IDs last). An unlinked cell ends the current span.
pub open spec fn osc_step(scan: OscScan, cell: SnapshotCell, columns: int, display_offset: int) -> OscScan {
    let line = cell.point.line.0 + display_offset;
    if line < 0 {
        scan
    } else {
        let position = Point { line: line as usize, column: cell.point.column };
        let index = line * columns + cell.point.column.0;
        let next = match cell.cell.attributes.hyperlink {
            Some(link) => {
                if scan.current matches Some(id) && id < scan.spans.len() && scan.spans[id as int].link@
                    == link@ && follows(position, scan.last, scan.last_flags) {
                    let id = scan.current->0;
                    OscScan {
                        spans: scan.spans.update(
                            id as int,
                            HyperlinkSpan { end: cell.point, ..scan.spans[id as int] },
                        ),
                        slots: claim(scan.slots, index, id),
                        ..scan
                    }
                } else if scan.spans.len() < 0xffff_ffff {
                    let id = scan.spans.len() as u32;
                    OscScan {
                        spans: scan.spans.push(
                            HyperlinkSpan { link, start: cell.point, end: cell.point },
                        ),
                        slots: claim(scan.slots, index, id),
                        current: Some(id),
                        ..scan
                    }
                } else {
                    OscScan { current: None, ..scan }
                }
            },
            None => OscScan { current: None, ..scan },
        };
        OscScan { last: Some(position), last_flags: cell.cell.flags, ..next }
    }
}

/// The pass over explicit links applied to `cells`, from `start`.
pub open spec fn osc_scan(cells: Seq<SnapshotCell>, columns: int, display_offset: int, start: OscScan) -> OscScan
    decreases cells.len(),
{
    if cells.len() == 0 {
        start
    } else {
        osc_step(osc_scan(cells.drop_last(), columns, display_offset, start), cells.last(), columns, display_offset)
    }
}

/// The scan before any cell: no spans, `slots` unclaimed visible cells.
pub open spec fn osc_start(slots: nat) -> OscScan {
    OscScan {
        spans: Seq::empty(),
        slots: Seq::new(slots, |_i: int| None::<u32>),
        current: None,
        last: None,
        last_flags: Flags::none(),
    }
}

/// Abstract content of a hyperlink map.
pub ghost struct HyperlinkMapView {
    pub spans: Seq<HyperlinkSpan>,
    pub slots: Seq<Option<u32>>,
    pub columns: nat,
    pub screen_lines: nat,
}

/// Map from visible cells to hyperlink spans.
#[derive(Debug, PartialEq, Eq)]
pub struct HyperlinkMap {
    spans: Vec<HyperlinkSpan>,
    cell_to_span: Vec<Option<u32>>,
    columns: usize,
    screen_lines: usize,
}

/// Whether every assigned cell refers to an existing span.
pub open spec fn slots_valid(view: HyperlinkMapView) -> bool {
    forall|i: int|
        0 <= i < view.slots.len() ==> (#[trigger] view.slots[i] matches Some(id) ==> id
            < view.spans.len())
}

impl View for HyperlinkMap {
    type V = HyperlinkMapView;

    closed spec fn view(&self) -> HyperlinkMapView {
        HyperlinkMapView {
            spans: self.spans@,
            slots: self.cell_to_span@,
            columns: self.columns as nat,
            screen_lines: self.screen_lines as nat,
        }
    }
}

impl Clone for HyperlinkMap {
    fn clone(&self) -> (copy: Self)
        ensures
            copy@ == self@,
    {
        let mut spans: Vec<HyperlinkSpan> = Vec::new();
        let mut i: usize = 0;
        while i < self.spans.len()
            invariant
                i <= self.spans@.len(),
                spans@ == self.spans@.take(i as int),
            decreases self.spans@.len() - i,
        {
            spans.push(self.spans[i].clone());
            i = i + 1;
            proof {
                assert(spans@ =~= self.spans@.take(i as int));
            }
        }
        proof {
            assert(self.spans@.take(i as int) =~= self.spans@);
        }
        HyperlinkMap {
            spans,
            cell_to_span: self.cell_to_span.clone(),
            columns: self.columns,
            screen_lines: self.screen_lines,
        }
    }
}

impl Default for HyperlinkMap {
    fn default() -> (map: Self)
        ensures
            map@.spans.len() == 0,
            map@.slots.len() == 0,
            map@.columns == 0,
            map@.screen_lines == 0,
    {
        HyperlinkMap { spans: Vec::new(), cell_to_span: Vec::new(), columns: 0, screen_lines: 0 }
    }
}

/// One character of a logical line and the cell it came from.
struct DetectedSymbol {
    point: Point,
    ch: char,
    cell_index: usize,
    is_spacer: bool,
}

/// Text of consecutive visible rows joined by soft wraps, with the cell
/// behind each character and each byte.
pub struct LogicalLine {
    text: String,
    symbols: Vec<DetectedSymbol>,
    byte_to_symbol: Vec<usize>,
}

/// Characters of a detected URL gathered before they become a span.
struct DetectedSegment {
    text: String,
    start: Option<Point>,
    end: Point,
    indices: Vec<usize>,
}

impl DetectedSymbol {
    spec fn view_symbol(&self) -> SymbolView {
        SymbolView {
            point: self.point,
            ch: self.ch,
            cell_index: self.cell_index,
            is_spacer: self.is_spacer,
        }
    }
}

impl LogicalLine {
    /// The characters of the line, each with its cell, and the character
    /// behind each byte of the text.
    pub closed spec fn view_line(&self) -> LineView {
        LineView {
            symbols: self.symbols@.map_values(|symbol: DetectedSymbol| symbol.view_symbol()),
            bytes: self.byte_to_symbol@,
        }
    }

    /// Every byte maps to a character of the line, and the text is the
    /// characters in order.
    pub closed spec fn wf(&self) -> bool {
        &&& forall|i: int|
            0 <= i < self.byte_to_symbol@.len() ==> #[trigger] self.byte_to_symbol@[i]
                < self.symbols@.len()
        &&& self.text@ == line_text(self.view_line())
    }

    /// An empty line.
    pub fn new() -> (line: Self)
        ensures
            line.wf(),
            line_text(line.view_line()).len() == 0,
            line.view_line() == empty_line(),
    {
        proof {
            assert(line_text(empty_line()) =~= Seq::<char>::empty());
        }
        let line = LogicalLine {
            text: String::new(),
            symbols: Vec::new(),
            byte_to_symbol: Vec::new(),
        };
        proof {
            assert(line.view_line().symbols =~= Seq::<SymbolView>::empty());
            assert(line.view_line().bytes =~= Seq::<usize>::empty());
            assert(line_text(line.view_line()) =~= Seq::<char>::empty());
        }
        line
    }

    /// Append the characters of one row of cells.
    pub fn push_row(
        &mut self,
        cells: &[SnapshotCell],
        row_start: usize,
        row_end: usize,
        columns: usize,
        display_offset: usize,
    )
        requires
            old(self).wf(),
            row_start < row_end <= cells@.len(),
            cells_addressable(cells@, columns as int, display_offset as int),
        ensures
            final(self).wf(),
            line_text(final(self).view_line()).len() > 0,
            final(self).view_line() == push_cells(
                old(self).view_line(),
                cells@,
                row_start as int,
                row_end as int,
                columns as int,
                display_offset as int,
            ),
    {
        let ghost target = push_cells(
            self.view_line(),
            cells@,
            row_start as int,
            row_end as int,
            columns as int,
            display_offset as int,
        );
        let mut i = row_start;
        while i < row_end
            invariant
                row_start <= i <= row_end <= cells@.len(),
                self.wf(),
                i > row_start ==> self.text@.len() > 0,
                cells_addressable(cells@, columns as int, display_offset as int),
                push_cells(
                    self.view_line(),
                    cells@,
                    i as int,
                    row_end as int,
                    columns as int,
                    display_offset as int,
                ) == target,
            decreases row_end - i,
        {
            let ghost before = self.view_line();
            let ghost symbols_before = self.symbols@;
            let indexed = &cells[i];
            let ch = indexed.cell.ch;
            push_char(&mut self.text, ch);
            proof {
                assert(cells@[i as int].point.line.0 + display_offset <= i32::MAX);
            }
            let cell_index = match point_to_viewport(display_offset, indexed.point) {
                Some(point) => point.line * columns + point.column.0,
                None => i,
            };
            let is_spacer = indexed.cell.flags.intersects(
                Flags::WIDE_CHAR_SPACER | Flags::LEADING_WIDE_CHAR_SPACER,
            );
            let symbol_index = self.symbols.len();
            let symbol = DetectedSymbol { point: indexed.point, ch, cell_index, is_spacer };
            proof {
                assert(symbol.view_symbol() == symbol_of(
                    cells@,
                    i as int,
                    columns as int,
                    display_offset as int,
                ));
            }
            self.symbols.push(symbol);
            let width = char_utf8_width(ch);
            let ghost bytes_before = self.byte_to_symbol@;
            let ghost symbols_after = self.symbols@;
            let ghost text_after = self.text@;
            let mut byte: usize = 0;
            proof {
                assert(bytes_before + Seq::new(0, |_j: int| symbol_index) =~= bytes_before);
            }
            while byte < width
                invariant
                    byte <= width,
                    symbol_index < self.symbols@.len(),
                    symbol_index == before.symbols.len(),
                    forall|j: int|
                        0 <= j < self.byte_to_symbol@.len() ==> #[trigger] self.byte_to_symbol@[j]
                            < self.symbols@.len(),
                    self.byte_to_symbol@ == bytes_before + Seq::new(
                        byte as nat,
                        |_j: int| symbol_index,
                    ),
                    self.symbols@ == symbols_after,
                    self.text@ == text_after,
                decreases width - byte,
            {
                self.byte_to_symbol.push(symbol_index);
                byte = byte + 1;
                proof {
                    assert(self.byte_to_symbol@ =~= bytes_before + Seq::new(
                        byte as nat,
                        |_j: int| symbol_index,
                    ));
                }
            }
            proof {
                let symbol_view = symbol_of(cells@, i as int, columns as int, display_offset as int);
                assert(symbols_after == symbols_before.push(symbol));
                assert(self.view_line().symbols =~= before.symbols.push(symbol_view));
                assert(self.view_line() == push_symbol(before, symbol_view));
                assert(line_text(self.view_line()) =~= line_text(before).push(ch));
            }
            i = i + 1;
        }
    }
}

impl DetectedSegment {
    spec fn view_segment(&self) -> SegmentView {
        SegmentView { text: self.text@, start: self.start, end: self.end, indices: self.indices@ }
    }

    /// Every gathered cell is unclaimed in `map` (or lies past its cells).
    spec fn unclaimed(&self, map: HyperlinkMapView) -> bool {
        forall|k: int|
            0 <= k < self.indices@.len() ==> (#[trigger] self.indices@[k] >= map.slots.len()
                || map.slots[self.indices@[k] as int] is None)
    }

    fn new() -> (segment: Self)
        ensures
            segment.indices@.len() == 0,
            segment.view_segment() == empty_segment(),
    {
        let segment = DetectedSegment {
            text: String::new(),
            start: None,
            end: Point::new(crate::index::Line(0), crate::index::Column(0)),
            indices: Vec::new(),
        };
        proof {
            assert(segment.view_segment().indices =~= Seq::<usize>::empty());
        }
        segment
    }

    fn push(&mut self, point: Point, ch: char, cell_index: usize)
        ensures
            forall|map: HyperlinkMapView|
                old(self).unclaimed(map) && (cell_index >= map.slots.len()
                    || map.slots[cell_index as int] is None) ==> #[trigger] final(self).unclaimed(map),
            final(self).view_segment() == (SegmentView {
                text: old(self).view_segment().text.push(ch),
                start: if old(self).start is None {
                    Some(point)
                } else {
                    old(self).start
                },
                end: point,
                indices: old(self).view_segment().indices.push(cell_index),
            }),
    {
        if self.start.is_none() {
            self.start = Some(point);
        }
        self.end = point;
        push_char(&mut self.text, ch);
        self.indices.push(cell_index);
    }

    /// Commit the gathered characters as a detected span of `map` and start
    /// over.
    fn flush(&mut self, map: &mut HyperlinkMap)
        requires
            slots_valid(old(map)@),
            old(self).unclaimed(old(map)@),
        ensures
            final(self).unclaimed(final(map)@),
            slots_valid(final(map)@),
            preserves_assigned(old(map)@, final(map)@),
            detected_only(old(map)@, final(map)@),
            final(map)@.columns == old(map)@.columns,
            final(map)@.screen_lines == old(map)@.screen_lines,
            (final(self).view_segment(), link_state(final(map)@)) == flush_segment(
                old(self).view_segment(),
                link_state(old(map)@),
            ),
    {
        if self.text.as_str().is_empty() {
            return;
        }
        let start = match self.start {
            Some(start) => start,
            None => {
                return;
            },
        };
        let ghost initial = link_state(map@);
        let link = Hyperlink::new(None, self.text.clone());
        if let Some(span_id) = map.push_span(link, start, self.end) {
            let mut k: usize = 0;
            let ghost before = map@;
            proof {
                assert(link_state(map@).spans =~= initial.spans.push(
                    SpanView { link: (None, self.text@), start, end: self.end },
                ));
                assert(self.indices@.take(0) =~= Seq::<usize>::empty());
            }
            while k < self.indices.len()
                invariant
                    link_state(map@).spans == initial.spans.push(
                        SpanView { link: (None, self.text@), start, end: self.end },
                    ),
                    k <= self.indices@.len(),
                    map@.slots == claim_all(before.slots, self.indices@.take(k as int), span_id),
                    span_id == initial.spans.len(),
                    before.slots == initial.slots,
                    slots_valid(map@),
                    span_id < map@.spans.len(),
                    map@.spans == before.spans,
                    map@.slots.len() == before.slots.len(),
                    map@.columns == before.columns,
                    map@.screen_lines == before.screen_lines,
                    map@.spans[span_id as int].link@.0 is None,
                    forall|i: int|
                        0 <= i < before.slots.len() ==> (#[trigger] map@.slots[i] == before.slots[i]
                            || (before.slots[i] is None && map@.slots[i] == Some(span_id))),
                    self.unclaimed(before),
                decreases self.indices@.len() - k,
            {
                proof {
                    assert(self.indices@.take(k + 1).drop_last() =~= self.indices@.take(k as int));
                }
                map.set_span_for_index(span_id, self.indices[k]);
                k = k + 1;
                proof {
                    assert(link_state(map@).spans =~= initial.spans.push(
                        SpanView { link: (None, self.text@), start, end: self.end },
                    ));
                }
            }
            proof {
                assert(self.indices@.take(k as int) =~= self.indices@);
            }
        }
        let ghost flushed = flush_segment(old(self).view_segment(), initial);
        self.text = String::new();
        self.indices = Vec::new();
        self.start = None;
        proof {
            assert(self.view_segment() =~= flushed.0);
            assert(link_state(map@).spans =~= flushed.1.spans);
            assert(link_state(map@).slots =~= flushed.1.slots);
        }
    }
}

/// Abstract content of a span: its link's identifier and target, and its
/// first and last cells.
pub ghost struct SpanView {
    pub link: (Option<Seq<char>>, Seq<char>),
    pub start: Point,
    pub end: Point,
}

/// Abstract content of a span.
pub open spec fn span_view(span: HyperlinkSpan) -> SpanView {
    SpanView { link: span.link@, start: span.start, end: span.end }
}

/// Spans and claimed cells of a map, spans taken by their content.
pub ghost struct LinkState {
    pub spans: Seq<SpanView>,
    pub slots: Seq<Option<u32>>,
}

/// Spans and claimed cells of a map.
pub open spec fn link_state(map: HyperlinkMapView) -> LinkState {
    LinkState { spans: map.spans.map_values(|span: HyperlinkSpan| span_view(span)), slots: map.slots }
}

/// One character of a logical line: its cell's position, the character,
/// the cell's index among the visible cells and whether it is a
/// wide-character spacer.
pub ghost struct SymbolView {
    pub point: Point,
    pub ch: char,
    pub cell_index: usize,
    pub is_spacer: bool,
}

/// Characters of a logical line and, for each byte of its text, the
/// character that byte belongs to.
pub ghost struct LineView {
    pub symbols: Seq<SymbolView>,
    pub bytes: Seq<usize>,
}

/// Characters gathered for a detected URL span.
pub ghost struct SegmentView {
    pub text: Seq<char>,
    pub start: Option<Point>,
    pub end: Point,
    pub indices: Seq<usize>,
}

/// A segment with nothing gathered.
pub open spec fn empty_segment() -> SegmentView {
    SegmentView {
        text: Seq::empty(),
        start: None,
        end: Point { line: crate::index::Line(0), column: crate::index::Column(0) },
        indices: Seq::empty(),
    }
}

/// A line with no characters.
pub open spec fn empty_line() -> LineView {
    LineView { symbols: Seq::empty(), bytes: Seq::empty() }
}

/// `slots` with every visible cell of `indices` claimed by span `id`.
pub open spec fn claim_all(slots: Seq<Option<u32>>, indices: Seq<usize>, id: u32) -> Seq<Option<u32>>
    decreases indices.len(),
{
    if indices.len() == 0 {
        slots
    } else {
        claim(claim_all(slots, indices.drop_last(), id), indices.last() as int, id)
    }
}

/// Commit a segment: a non-empty segment becomes a span with a detected
/// link to its text (while span IDs last) claiming its cells, and the
/// segment starts over.
pub open spec fn flush_segment(segment: SegmentView, state: LinkState) -> (SegmentView, LinkState) {
    if segment.text.len() == 0 || segment.start is None {
        (segment, state)
    } else {
        let next = if state.spans.len() < 0xffff_ffff {
            LinkState {
                spans: state.spans.push(
                    SpanView {
                        link: (None, segment.text),
                        start: segment.start->0,
                        end: segment.end,
                    },
                ),
                slots: claim_all(state.slots, segment.indices, state.spans.len() as u32),
            }
        } else {
            state
        };
        (SegmentView { text: Seq::empty(), start: None, indices: Seq::empty(), ..segment }, next)
    }
}

/// Whether visible cell `index` is claimed.
pub open spec fn is_claimed(state: LinkState, index: usize) -> bool {
    index < state.slots.len() && state.slots[index as int] is Some
}

/// Take one character of a URL match: a claimed or spacer cell ends the
/// segment, any other cell extends it.
pub open spec fn symbol_step(segment: SegmentView, state: LinkState, symbol: SymbolView) -> (
    SegmentView,
    LinkState,
) {
    if is_claimed(state, symbol.cell_index) || symbol.is_spacer {
        flush_segment(segment, state)
    } else {
        (
            SegmentView {
                text: segment.text.push(symbol.ch),
                start: if segment.start is None {
                    Some(symbol.point)
                } else {
                    segment.start
                },
                end: symbol.point,
                indices: segment.indices.push(symbol.cell_index),
            },
            state,
        )
    }
}

/// Progress through the bytes of one URL match.
pub ghost struct MatchScan {
    pub segment: SegmentView,
    pub state: LinkState,
    pub last: Option<usize>,
}

/// Take bytes `from..to` of a match, each character once.
pub open spec fn match_bytes(scan: MatchScan, line: LineView, from: int, to: int) -> MatchScan
    decreases to - from,
{
    if from >= to {
        scan
    } else {
        let next = if 0 <= from < line.bytes.len() {
            let symbol = line.bytes[from];
            if scan.last == Some(symbol) {
                scan
            } else {
                let (segment, state) = symbol_step(
                    scan.segment,
                    scan.state,
                    line.symbols[symbol as int],
                );
                MatchScan { segment, state, last: Some(symbol) }
            }
        } else {
            scan
        };
        match_bytes(next, line, from + 1, to)
    }
}

/// Turn URL matches `m..` of a line into detected spans.
pub open spec fn matches_scan(
    state: LinkState,
    line: LineView,
    matches: Seq<(usize, usize)>,
    m: int,
) -> LinkState
    decreases matches.len() - m,
{
    if m >= matches.len() || m < 0 {
        state
    } else {
        let scan = match_bytes(
            MatchScan { segment: empty_segment(), state, last: None },
            line,
            matches[m].0 as int,
            matches[m].1 as int,
        );
        matches_scan(flush_segment(scan.segment, scan.state).1, line, matches, m + 1)
    }
}

/// Text of a logical line.
pub open spec fn line_text(line: LineView) -> Seq<char> {
    line.symbols.map_values(|symbol: SymbolView| symbol.ch)
}

/// Detected spans of the URLs in one logical line.
pub open spec fn line_scan(state: LinkState, line: LineView) -> LinkState {
    if line_text(line).len() == 0 {
        state
    } else {
        match regex_find_all(URL_PATTERN@, true, line_text(line)) {
            Some(matches) => matches_scan(state, line, matches, 0),
            None => state,
        }
    }
}

/// The character of cell `j`, with its visible-cell index (its position in
/// `cells` when it lies above the viewport).
pub open spec fn symbol_of(cells: Seq<SnapshotCell>, j: int, columns: int, display_offset: int) -> SymbolView {
    let cell = cells[j];
    SymbolView {
        point: cell.point,
        ch: cell.cell.ch,
        cell_index: match viewport_index(cell, columns, display_offset) {
            Some(index) => index as usize,
            None => j as usize,
        },
        is_spacer: cell.cell.flags.has_any(
            (Flags::WIDE_CHAR_SPACER | Flags::LEADING_WIDE_CHAR_SPACER) as u16,
        ),
    }
}

/// `line` with one more character.
pub open spec fn push_symbol(line: LineView, symbol: SymbolView) -> LineView {
    LineView {
        symbols: line.symbols.push(symbol),
        bytes: line.bytes + Seq::new(
            crate::ui::input::utf8_width(symbol.ch),
            |_i: int| line.symbols.len() as usize,
        ),
    }
}

/// `line` with the characters of cells `from..to`.
pub open spec fn push_cells(
    line: LineView,
    cells: Seq<SnapshotCell>,
    from: int,
    to: int,
    columns: int,
    display_offset: int,
) -> LineView
    decreases to - from,
{
    if from >= to {
        line
    } else {
        push_cells(
            push_symbol(line, symbol_of(cells, from, columns, display_offset)),
            cells,
            from + 1,
            to,
            columns,
            display_offset,
        )
    }
}

/// Detected spans of the visible rows `row..`: rows joined by soft wraps
/// form a logical line, and each logical line is scanned for URLs.
pub open spec fn rows_scan(
    state: LinkState,
    line: LineView,
    cells: Seq<SnapshotCell>,
    columns: int,
    screen_lines: int,
    display_offset: int,
    row: int,
) -> LinkState
    decreases screen_lines - row,
{
    let finish = if line_text(line).len() > 0 {
        line_scan(state, line)
    } else {
        state
    };
    if row >= screen_lines || row < 0 {
        finish
    } else {
        let row_start = row * columns;
        let row_end = if (row + 1) * columns < cells.len() {
            (row + 1) * columns
        } else {
            cells.len() as int
        };
        if row_start >= row_end {
            finish
        } else {
            let joined = push_cells(line, cells, row_start, row_end, columns, display_offset);
            if !row_continues(cells.subrange(row_start, row_end)) {
                rows_scan(
                    line_scan(state, joined),
                    empty_line(),
                    cells,
                    columns,
                    screen_lines,
                    display_offset,
                    row + 1,
                )
            } else {
                rows_scan(state, joined, cells, columns, screen_lines, display_offset, row + 1)
            }
        }
    }
}

/// Spans and claimed cells after the pass over explicit links.
pub open spec fn osc_link_state(
    cells: Seq<SnapshotCell>,
    columns: int,
    display_offset: int,
    visible: nat,
) -> LinkState {
    let scan = osc_scan(cells, columns, display_offset, osc_start(visible));
    LinkState { spans: scan.spans.map_values(|span: HyperlinkSpan| span_view(span)), slots: scan.slots }
}

/// Spans and claimed cells of the hyperlink map built from `cells`: none
/// without visible cells; otherwise the explicit links, then the URLs
/// detected in each logical line over cells no explicit link claims.
pub open spec fn hyperlink_state(cells: Seq<SnapshotCell>, size: SnapshotSize, display_offset: int) -> LinkState {
    let visible = size.columns * size.screen_lines;
    if visible == 0 || cells.len() == 0 {
        LinkState { spans: Seq::empty(), slots: Seq::empty() }
    } else {
        rows_scan(
            osc_link_state(cells, size.columns as int, display_offset, visible as nat),
            empty_line(),
            cells,
            size.columns as int,
            size.screen_lines as int,
            display_offset,
            0,
        )
    }
}

/// Slots of `before` that held a span still hold it, and its span is kept.
pub open spec fn preserves_assigned(before: HyperlinkMapView, after: HyperlinkMapView) -> bool {
    &&& before.spans.len() <= after.spans.len()
    &&& forall|i: int| 0 <= i < before.spans.len() ==> #[trigger] after.spans[i] == before.spans[i]
    &&& after.slots.len() == before.slots.len()
    &&& forall|i: int|
        0 <= i < before.slots.len() && (#[trigger] before.slots[i]) is Some ==> after.slots[i]
            == before.slots[i]
}

/// Slots newly assigned between `before` and `after` refer to detected links,
/// which carry no explicit identifier.
pub open spec fn detected_only(before: HyperlinkMapView, after: HyperlinkMapView) -> bool {
    forall|i: int|
        0 <= i < before.slots.len() && (#[trigger] after.slots[i]) != before.slots[i]
            ==> (after.slots[i] matches Some(id) && after.spans[id as int].link@.0 is None)
}

/// Whether the last cell of `row` that is not a wide-character spacer
/// continues on the next row.
pub open spec fn row_continues(row: Seq<SnapshotCell>) -> bool
    decreases row.len(),
{
    if row.len() == 0 {
        false
    } else if !row.last().cell.flags.has_any(
        (Flags::WIDE_CHAR_SPACER | Flags::LEADING_WIDE_CHAR_SPACER) as u16,
    ) {
        row.last().cell.flags.has(Flags::WRAPLINE)
    } else {
        row_continues(row.drop_last())
    }
}

/// Whether the last non-spacer cell of a row continues on the next row.
fn row_wraps(cells: &[SnapshotCell], row_start: usize, row_end: usize) -> (wraps: bool)
    requires
        row_start <= row_end <= cells@.len(),
    ensures
        wraps == row_continues(cells@.subrange(row_start as int, row_end as int)),
{
    let mut i = row_end;
    while i > row_start
        invariant
            row_start <= i <= row_end <= cells@.len(),
            row_continues(cells@.subrange(row_start as int, row_end as int)) == row_continues(
                cells@.subrange(row_start as int, i as int),
            ),
        decreases i,
    {
        proof {
            assert(cells@.subrange(row_start as int, i as int).drop_last() =~= cells@.subrange(
                row_start as int,
                i - 1,
            ));
        }
        let flags = cells[i - 1].cell.flags;
        if !flags.intersects(Flags::WIDE_CHAR_SPACER | Flags::LEADING_WIDE_CHAR_SPACER) {
            return flags.contains(Flags::WRAPLINE);
        }
        i = i - 1;
    }
    false
}

impl HyperlinkMap {
    /// Builds a hyperlink map from the cells of a snapshot: explicit links
    /// first, adjacent cells with the same link merged into one span, then
    /// URLs detected in the text of each visible logical line, over cells
    /// that no explicit link claims.
    pub fn build(cells: &[SnapshotCell], size: SnapshotSize, display_offset: usize) -> (map: Self)
        requires
            size.columns * size.screen_lines <= usize::MAX,
            cells@.len() < 0xffff_ffff,
            cells_addressable(cells@, size.columns as int, display_offset as int),
        ensures
            link_state(map@) == hyperlink_state(cells@, size, display_offset as int),
            slots_valid(map@),
            map@.slots.len() == if size.columns * size.screen_lines == 0 || cells@.len() == 0 {
                0
            } else {
                size.columns * size.screen_lines
            },
            map@.slots.len() > 0 ==> map@.columns == size.columns && map@.screen_lines
                == size.screen_lines,
            map@.slots.len() > 0 ==> ({
                let scan = osc_scan(
                    cells@,
                    size.columns as int,
                    display_offset as int,
                    osc_start(map@.slots.len()),
                );
                &&& scan.spans.len() <= map@.spans.len()
                &&& forall|k: int| 0 <= k < scan.spans.len() ==> #[trigger] map@.spans[k] == scan.spans[k]
                &&& forall|k: int|
                    0 <= k < map@.slots.len() && (#[trigger] scan.slots[k]) is Some ==> map@.slots[k]
                        == scan.slots[k]
            }),
            forall|i: int|
                0 <= i < map@.slots.len() ==> (osc_link_at(
                    cells@,
                    size.columns as int,
                    display_offset as int,
                    i,
                ) matches Some(link) ==> (#[trigger] map@.slots[i] matches Some(id)
                    && map@.spans[id as int].link@ == link@)),
            forall|i: int|
                0 <= i < map@.slots.len() ==> (osc_link_at(
                    cells@,
                    size.columns as int,
                    display_offset as int,
                    i,
                ) is None ==> (#[trigger] map@.slots[i] matches Some(id)
                    ==> map@.spans[id as int].link@.0 is None)),
    {
        let visible_cells = size.columns * size.screen_lines;
        if visible_cells == 0 || cells.len() == 0 {
            let map = HyperlinkMap::default();
            proof {
                assert(link_state(map@).spans =~= Seq::<SpanView>::empty());
                assert(link_state(map@).slots =~= Seq::<Option<u32>>::empty());
            }
            return map;
        }
        let mut cell_to_span: Vec<Option<u32>> = Vec::new();
        while cell_to_span.len() < visible_cells
            invariant
                cell_to_span@.len() <= visible_cells,
                forall|i: int| 0 <= i < cell_to_span@.len() ==> cell_to_span@[i] is None,
            decreases visible_cells - cell_to_span@.len(),
        {
            cell_to_span.push(None);
        }
        let mut map = HyperlinkMap {
            spans: Vec::new(),
            cell_to_span,
            columns: size.columns,
            screen_lines: size.screen_lines,
        };
        map.ingest_osc_spans(cells, display_offset);
        let ghost after_osc = map@;
        proof {
            assert(link_state(after_osc) =~= osc_link_state(
                cells@,
                size.columns as int,
                display_offset as int,
                visible_cells as nat,
            ));
        }
        map.ingest_detected_urls_from_cells(cells, display_offset);
        proof {
            assert forall|i: int| 0 <= i < map@.slots.len() implies (osc_link_at(
                cells@,
                size.columns as int,
                display_offset as int,
                i,
            ) is None ==> (#[trigger] map@.slots[i] matches Some(id)
                ==> map@.spans[id as int].link@.0 is None)) by {
                if osc_link_at(cells@, size.columns as int, display_offset as int, i) is None {
                    assert(after_osc.slots[i] is None);
                }
            }
            assert forall|i: int| 0 <= i < map@.slots.len() implies (osc_link_at(
                cells@,
                size.columns as int,
                display_offset as int,
                i,
            ) matches Some(link) ==> (#[trigger] map@.slots[i] matches Some(id)
                && map@.spans[id as int].link@ == link@)) by {
                if osc_link_at(cells@, size.columns as int, display_offset as int, i) is Some {
                    assert(after_osc.slots[i] is Some);
                }
            }
        }
        map
    }

    /// Returns the span ID for a given point in grid coordinates, or `None`
    /// if the point has no associated hyperlink or is outside the viewport.
    pub fn span_id_for_point(&self, display_offset: usize, point: Point) -> (id: Option<u32>)
        requires
            display_offset <= i32::MAX,
            point.line.0 + display_offset <= i32::MAX,
            (point.line.0 + display_offset) * self@.columns + point.column.0 <= usize::MAX,
        ensures
            id == (match viewport_slot(self@, display_offset as int, point) {
                Some(slot) => self@.slots[slot],
                None => None,
            }),
    {
        let viewport_point = match point_to_viewport(display_offset, point) {
            Some(viewport_point) => viewport_point,
            None => {
                return None;
            },
        };
        if viewport_point.line >= self.screen_lines {
            return None;
        }
        proof {
            assert((point.line.0 + display_offset) * self@.columns + point.column.0 <= usize::MAX);
        }
        let index = viewport_point.line * self.columns + viewport_point.column.0;
        if index < self.cell_to_span.len() {
            self.cell_to_span[index]
        } else {
            None
        }
    }

    /// Returns the hyperlink span for a given point in grid coordinates, or
    /// `None` if the point has no associated hyperlink.
    pub fn span_for_point(&self, display_offset: usize, point: Point) -> (span: Option<
        &HyperlinkSpan,
    >)
        requires
            display_offset <= i32::MAX,
            point.line.0 + display_offset <= i32::MAX,
            (point.line.0 + display_offset) * self@.columns + point.column.0 <= usize::MAX,
        ensures
            span == (match viewport_slot(self@, display_offset as int, point) {
                Some(slot) => match self@.slots[slot] {
                    Some(id) => if id < self@.spans.len() {
                        Some(&self@.spans[id as int])
                    } else {
                        None
                    },
                    None => None,
                },
                None => None,
            }),
    {
        match self.span_id_for_point(display_offset, point) {
            Some(id) => {
                let index = id as usize;
                if index < self.spans.len() {
                    Some(&self.spans[index])
                } else {
                    None
                }
            },
            None => None,
        }
    }

    /// Associates a cell index with a hyperlink span ID; indices past the
    /// visible cells are ignored.
    fn set_span_for_index(&mut self, span_id: u32, index: usize)
        requires
            span_id < old(self)@.spans.len(),
            slots_valid(old(self)@),
        ensures
            final(self)@ == (HyperlinkMapView {
                slots: if index < old(self)@.slots.len() {
                    old(self)@.slots.update(index as int, Some(span_id))
                } else {
                    old(self)@.slots
                },
                ..old(self)@
            }),
            slots_valid(final(self)@),
    {
        if index < self.cell_to_span.len() {
            self.cell_to_span.set(index, Some(span_id));
        }
    }

    /// Creates a new hyperlink span and returns its ID; none once span IDs
    /// are exhausted.
    fn push_span(&mut self, link: Hyperlink, start: Point, end: Point) -> (id: Option<u32>)
        requires
            slots_valid(old(self)@),
        ensures
            slots_valid(final(self)@),
            match id {
                Some(id) => final(self)@ == (HyperlinkMapView {
                    spans: old(self)@.spans.push(HyperlinkSpan { link, start, end }),
                    ..old(self)@
                }) && id == old(self)@.spans.len(),
                None => final(self)@ == old(self)@ && old(self)@.spans.len() >= 0xffff_ffff,
            },
            id is Some ==> old(self)@.spans.len() < 0xffff_ffff,
    {
        if self.spans.len() >= 0xffff_ffff {
            return None;
        }
        let id = self.spans.len() as u32;
        self.spans.push(HyperlinkSpan { link, start, end });
        Some(id)
    }

    /// Record the explicit hyperlinks of the cells, merging each cell into
    /// the span of the previous cell when both carry the same link and sit
    /// next to each other (on one line, or across a soft wrap).
    fn ingest_osc_spans(&mut self, cells: &[SnapshotCell], display_offset: usize)
        requires
            old(self)@.spans.len() == 0,
            cells@.len() < 0xffff_ffff,
            forall|i: int| 0 <= i < old(self)@.slots.len() ==> old(self)@.slots[i] is None,
            cells_addressable(cells@, old(self)@.columns as int, display_offset as int),
        ensures
            final(self)@.columns == old(self)@.columns,
            final(self)@.screen_lines == old(self)@.screen_lines,
            final(self)@.slots.len() == old(self)@.slots.len(),
            slots_valid(final(self)@),
            forall|i: int|
                0 <= i < final(self)@.slots.len() ==> (#[trigger] final(self)@.slots[i] is Some
                    <==> osc_link_at(
                    cells@,
                    final(self)@.columns as int,
                    display_offset as int,
                    i,
                ) is Some),
            forall|i: int|
                0 <= i < final(self)@.slots.len() ==> (#[trigger] final(self)@.slots[i] matches Some(
                    id,
                ) ==> (osc_link_at(cells@, final(self)@.columns as int, display_offset as int, i)
                    matches Some(link) && final(self)@.spans[id as int].link@ == link@)),
            ({
                let scan = osc_scan(
                    cells@,
                    old(self)@.columns as int,
                    display_offset as int,
                    osc_start(old(self)@.slots.len()),
                );
                final(self)@.spans == scan.spans && final(self)@.slots == scan.slots
            }),
    {
        let ghost columns = self.columns as int;
        let ghost offset = display_offset as int;
        let ghost start_view = self@;
        let mut current_span: Option<u32> = None;
        let mut last_viewport: Option<Point<usize>> = None;
        let mut last_flags = Flags::empty();
        let mut i: usize = 0;
        proof {
            assert(cells@.take(0) =~= Seq::<SnapshotCell>::empty());
            assert(self@.slots =~= osc_start(start_view.slots.len()).slots);
        }
        while i < cells.len()
            invariant
                i <= cells@.len(),
                cells@.len() < 0xffff_ffff,
                self@.spans.len() <= i,
                columns == self.columns,
                ({
                    let scan = osc_scan(
                        cells@.take(i as int),
                        columns,
                        display_offset as int,
                        osc_start(start_view.slots.len()),
                    );
                    &&& self@.spans == scan.spans
                    &&& self@.slots == scan.slots
                    &&& current_span == scan.current
                    &&& last_viewport == scan.last
                    &&& last_flags == scan.last_flags
                }),
                offset == display_offset as int,
                self@.columns == start_view.columns,
                self@.screen_lines == start_view.screen_lines,
                self@.slots.len() == start_view.slots.len(),
                slots_valid(self@),
                cells_addressable(cells@, columns, offset),
                current_span matches Some(id) ==> id < self@.spans.len(),
                forall|k: int|
                    0 <= k < self@.slots.len() ==> (#[trigger] self@.slots[k] is Some <==> osc_link_at(
                        cells@.take(i as int),
                        columns,
                        offset,
                        k,
                    ) is Some),
                forall|k: int|
                    0 <= k < self@.slots.len() ==> (#[trigger] self@.slots[k] matches Some(id)
                        ==> (osc_link_at(cells@.take(i as int), columns, offset, k) matches Some(
                        link,
                    ) && self@.spans[id as int].link@ == link@)),
            decreases cells@.len() - i,
        {
            let indexed = &cells[i];
            let ghost before = self@;
            let ghost prefix = cells@.take(i as int);
            let ghost extended = cells@.take(i + 1);
            let ghost scan = osc_scan(prefix, columns, offset, osc_start(start_view.slots.len()));
            let ghost next_scan = osc_step(scan, cells@[i as int], columns, offset);
            proof {
                assert(extended.drop_last() =~= prefix);
                assert(extended.last() == cells@[i as int]);
                assert(cells@[i as int].point.line.0 + display_offset <= i32::MAX);
            }
            let viewport = point_to_viewport(display_offset, indexed.point);
            if let Some(viewport_point) = viewport {
                proof {
                    assert((cells@[i as int].point.line.0 + offset) * columns
                        + cells@[i as int].point.column.0 <= usize::MAX);
                }
                let cell_index = viewport_point.line * self.columns + viewport_point.column.0;
                proof {
                    assert(viewport_index(cells@[i as int], columns, offset) == Some(
                        cell_index as int,
                    ));
                }
                match indexed.cell.hyperlink() {
                    Some(link) => {
                        let ghost link_view = link@;
                        let extend = self.should_extend_span(
                            current_span,
                            &link,
                            viewport_point,
                            last_viewport,
                            last_flags,
                        );
                        let span_id = if extend {
                            let id = current_span.unwrap();
                            self.extend_current_span(id, indexed.point);
                            Some(id)
                        } else {
                            self.push_span(link, indexed.point, indexed.point)
                        };
                        match span_id {
                            Some(span_id) => {
                                proof {
                                    assert(self@.spans[span_id as int].link@ == link_view);
                                    assert(forall|j: int| 0 <= j < before.spans.len()
                                        ==> (#[trigger] self@.spans[j]).link == before.spans[j].link);
                                    assert(self@.slots == before.slots);
                                }
                                let ghost mid = self@;
                                self.set_span_for_index(span_id, cell_index);
                                current_span = Some(span_id);
                                proof {
                                    assert forall|k: int| 0 <= k < self@.slots.len() implies ((
                                        #[trigger] self@.slots[k] is Some <==> osc_link_at(
                                        extended,
                                        columns,
                                        offset,
                                        k,
                                    ) is Some) && (self@.slots[k] matches Some(id) ==> (osc_link_at(
                                        extended,
                                        columns,
                                        offset,
                                        k,
                                    ) matches Some(l) && self@.spans[id as int].link@ == l@))) by {
                                        if k != cell_index as int {
                                            assert(self@.slots[k] == before.slots[k]);
                                            assert(osc_link_at(extended, columns, offset, k)
                                                == osc_link_at(prefix, columns, offset, k));
                                        }
                                    }
                                }
                            },
                            None => {
                                current_span = None;
                            },
                        }
                    },
                    None => {
                        current_span = None;
                        proof {
                            assert forall|k: int| 0 <= k < self@.slots.len() implies osc_link_at(
                                extended,
                                columns,
                                offset,
                                k,
                            ) == osc_link_at(prefix, columns, offset, k) by {}
                        }
                    },
                }
                last_viewport = Some(viewport_point);
                last_flags = indexed.cell.flags;
            } else {
                proof {
                    assert(viewport_index(cells@[i as int], columns, offset) is None);
                    assert forall|k: int| 0 <= k < self@.slots.len() implies osc_link_at(
                        extended,
                        columns,
                        offset,
                        k,
                    ) == osc_link_at(prefix, columns, offset, k) by {}
                }
            }
            proof {
                assert(osc_scan(extended, columns, offset, osc_start(start_view.slots.len()))
                    == next_scan);
            }
            i = i + 1;
        }
        proof {
            assert(cells@.take(i as int) =~= cells@);
        }
    }

    /// Whether the cell at `current` continues the current span: the span
    /// has the same link and the cell follows the previous one.
    fn should_extend_span(
        &self,
        current_span: Option<u32>,
        new_link: &Hyperlink,
        current: Point<usize>,
        previous: Option<Point<usize>>,
        previous_flags: Flags,
    ) -> (extend: bool)
        ensures
            extend == (current_span matches Some(id) && id < self@.spans.len()
                && self@.spans[id as int].link@ == new_link@ && follows(
                current,
                previous,
                previous_flags,
            )),
    {
        let span_id = match current_span {
            Some(span_id) => span_id,
            None => {
                return false;
            },
        };
        let index = span_id as usize;
        if index >= self.spans.len() {
            return false;
        }
        if !self.spans[index].link.same_as(new_link) {
            return false;
        }
        is_adjacent_position(current, previous, previous_flags)
    }

    /// Move the end of span `span_id` to `new_end`.
    fn extend_current_span(&mut self, span_id: u32, new_end: Point)
        requires
            span_id < old(self)@.spans.len(),
        ensures
            final(self)@.slots == old(self)@.slots,
            final(self)@.columns == old(self)@.columns,
            final(self)@.screen_lines == old(self)@.screen_lines,
            final(self)@.spans.len() == old(self)@.spans.len(),
            forall|k: int|
                0 <= k < old(self)@.spans.len() ==> (#[trigger] final(self)@.spans[k]).link
                    == old(self)@.spans[k].link,
            final(self)@.spans == old(self)@.spans.update(
                span_id as int,
                HyperlinkSpan { end: new_end, ..old(self)@.spans[span_id as int] },
            ),
    {
        let index = span_id as usize;
        let mut span = self.spans[index].clone();
        span.end = new_end;
        self.spans.set(index, span);
    }

    /// Whether the cell at `index` is claimed by a span.
    fn is_cell_assigned(&self, index: usize) -> (assigned: bool)
        ensures
            assigned == (index < self@.slots.len() && self@.slots[index as int] is Some),
    {
        index < self.cell_to_span.len() && self.cell_to_span[index].is_some()
    }

    /// Extend the URL segment with a symbol whose cell is unclaimed; a
    /// claimed or spacer cell ends the segment instead.
    fn ingest_detected_symbol(&mut self, segment: &mut DetectedSegment, symbol: &DetectedSymbol)
        requires
            slots_valid(old(self)@),
            old(segment).unclaimed(old(self)@),
        ensures
            slots_valid(final(self)@),
            final(segment).unclaimed(final(self)@),
            preserves_assigned(old(self)@, final(self)@),
            detected_only(old(self)@, final(self)@),
            final(self)@.columns == old(self)@.columns,
            final(self)@.screen_lines == old(self)@.screen_lines,
            (final(segment).view_segment(), link_state(final(self)@)) == symbol_step(
                old(segment).view_segment(),
                link_state(old(self)@),
                symbol.view_symbol(),
            ),
    {
        if self.is_cell_assigned(symbol.cell_index) || symbol.is_spacer {
            segment.flush(self);
        } else {
            segment.push(symbol.point, symbol.ch, symbol.cell_index);
        }
    }

    /// Detect URLs in each visible logical line and give their unclaimed
    /// cells detected spans.
    fn ingest_detected_urls_from_cells(&mut self, cells: &[SnapshotCell], display_offset: usize)
        requires
            slots_valid(old(self)@),
            old(self)@.columns * old(self)@.screen_lines <= usize::MAX,
            cells_addressable(cells@, old(self)@.columns as int, display_offset as int),
        ensures
            slots_valid(final(self)@),
            preserves_assigned(old(self)@, final(self)@),
            detected_only(old(self)@, final(self)@),
            final(self)@.columns == old(self)@.columns,
            final(self)@.screen_lines == old(self)@.screen_lines,
            link_state(final(self)@) == rows_scan(
                link_state(old(self)@),
                empty_line(),
                cells@,
                old(self)@.columns as int,
                old(self)@.screen_lines as int,
                display_offset as int,
                0,
            ),
    {
        let ghost target = rows_scan(
            link_state(self@),
            empty_line(),
            cells@,
            self@.columns as int,
            self@.screen_lines as int,
            display_offset as int,
            0,
        );
        if cells.len() == 0 || self.columns == 0 {
            proof {
                assert(line_text(empty_line()) =~= Seq::<char>::empty());
            }
            return;
        }
        let ghost start_view = self@;
        let ghost columns = self@.columns as int;
        let ghost screen_lines = self@.screen_lines as int;
        let mut line = LogicalLine::new();
        let mut row: usize = 0;
        while row < self.screen_lines
            invariant
                self@.columns == start_view.columns,
                self@.screen_lines == start_view.screen_lines,
                columns == start_view.columns,
                screen_lines == start_view.screen_lines,
                start_view.columns * start_view.screen_lines <= usize::MAX,
                row <= self@.screen_lines,
                slots_valid(self@),
                preserves_assigned(start_view, self@),
                detected_only(start_view, self@),
                line.wf(),
                cells_addressable(cells@, self@.columns as int, display_offset as int),
                rows_scan(
                    link_state(self@),
                    line.view_line(),
                    cells@,
                    columns,
                    screen_lines,
                    display_offset as int,
                    row as int,
                ) == target,
            ensures
                line.wf(),
                slots_valid(self@),
                preserves_assigned(start_view, self@),
                detected_only(start_view, self@),
                self@.columns == start_view.columns,
                self@.screen_lines == start_view.screen_lines,
                target == if line_text(line.view_line()).len() > 0 {
                    line_scan(link_state(self@), line.view_line())
                } else {
                    link_state(self@)
                },
            decreases self@.screen_lines - row,
        {
            proof {
                assert((row + 1) * start_view.columns <= start_view.screen_lines
                    * start_view.columns) by (nonlinear_arith)
                    requires
                        row < start_view.screen_lines,
                ;
                assert(start_view.screen_lines * start_view.columns == start_view.columns
                    * start_view.screen_lines) by (nonlinear_arith);
                assert(row * start_view.columns <= (row + 1) * start_view.columns)
                    by (nonlinear_arith);
            }
            let row_start = row * self.columns;
            let next_start = (row + 1) * self.columns;
            let row_end = if next_start < cells.len() {
                next_start
            } else {
                cells.len()
            };
            if row_start >= row_end {
                break;
            }
            let ghost state_before = link_state(self@);
            line.push_row(cells, row_start, row_end, self.columns, display_offset);
            if !row_wraps(cells, row_start, row_end) {
                self.ingest_detected_logical_line(&line);
                line = LogicalLine::new();
            }
            row = row + 1;
        }
        if !line.text.as_str().is_empty() {
            self.ingest_detected_logical_line(&line);
        }
    }

    /// Give the unclaimed cells of each URL match of a logical line a
    /// detected span, splitting a match where claimed or spacer cells
    /// interrupt it.
    fn ingest_detected_logical_line(&mut self, line: &LogicalLine)
        requires
            slots_valid(old(self)@),
            line.wf(),
        ensures
            slots_valid(final(self)@),
            preserves_assigned(old(self)@, final(self)@),
            detected_only(old(self)@, final(self)@),
            final(self)@.columns == old(self)@.columns,
            final(self)@.screen_lines == old(self)@.screen_lines,
            link_state(final(self)@) == line_scan(link_state(old(self)@), line.view_line()),
    {
        if line.text.as_str().is_empty() {
            return;
        }
        let found = match find_all(URL_PATTERN, true, line.text.as_str()) {
            Some(found) => found,
            None => {
                return;
            },
        };
        self.ingest_url_matches(line, found.as_slice());
    }

    /// Give the unclaimed cells of each match (a byte range of the line's
    /// text) a detected span, in order, splitting a match where claimed or
    /// spacer cells interrupt it; bytes past the text are ignored.
    pub fn ingest_url_matches(&mut self, line: &LogicalLine, found: &[(usize, usize)])
        requires
            slots_valid(old(self)@),
            line.wf(),
        ensures
            slots_valid(final(self)@),
            preserves_assigned(old(self)@, final(self)@),
            detected_only(old(self)@, final(self)@),
            final(self)@.columns == old(self)@.columns,
            final(self)@.screen_lines == old(self)@.screen_lines,
            link_state(final(self)@) == matches_scan(link_state(old(self)@), line.view_line(), found@, 0),
    {
        let ghost start_view = self@;
        let ghost view = line.view_line();
        let ghost target = matches_scan(link_state(self@), view, found@, 0);
        let mut m: usize = 0;
        while m < found.len()
            invariant
                m <= found@.len(),
                line.wf(),
                view == line.view_line(),
                slots_valid(self@),
                preserves_assigned(start_view, self@),
                detected_only(start_view, self@),
                self@.columns == start_view.columns,
                self@.screen_lines == start_view.screen_lines,
                matches_scan(link_state(self@), view, found@, m as int) == target,
            decreases found@.len() - m,
        {
            let (match_start, match_end) = found[m];
            let ghost match_state = link_state(self@);
            let ghost scanned = match_bytes(
                MatchScan { segment: empty_segment(), state: match_state, last: None },
                view,
                match_start as int,
                match_end as int,
            );
            let mut segment = DetectedSegment::new();
            let mut last_symbol: Option<usize> = None;
            let mut byte = match_start;
            while byte < match_end
                invariant
                    line.wf(),
                    view == line.view_line(),
                    segment.unclaimed(self@),
                    slots_valid(self@),
                    preserves_assigned(start_view, self@),
                    detected_only(start_view, self@),
                    self@.columns == start_view.columns,
                    self@.screen_lines == start_view.screen_lines,
                    match_bytes(
                        MatchScan {
                            segment: segment.view_segment(),
                            state: link_state(self@),
                            last: last_symbol,
                        },
                        view,
                        byte as int,
                        match_end as int,
                    ) == scanned,
                decreases match_end - byte,
            {
                if byte < line.byte_to_symbol.len() {
                    let symbol_index = line.byte_to_symbol[byte];
                    let repeated = match last_symbol {
                        Some(last) => last == symbol_index,
                        None => false,
                    };
                    if !repeated {
                        last_symbol = Some(symbol_index);
                        let ghost before = self@;
                        proof {
                            assert(view.symbols[symbol_index as int] == line.symbols@[
                                symbol_index as int
                            ].view_symbol());
                        }
                        self.ingest_detected_symbol(&mut segment, &line.symbols[symbol_index]);
                        proof {
                            lemma_steps_compose(start_view, before, self@);
                        }
                    }
                }
                byte = byte + 1;
            }
            let ghost before = self@;
            segment.flush(self);
            proof {
                lemma_steps_compose(start_view, before, self@);
            }
            m = m + 1;
        }
    }
}

/// Two preserving, detected-only steps compose.
proof fn lemma_steps_compose(a: HyperlinkMapView, b: HyperlinkMapView, c: HyperlinkMapView)
    requires
        slots_valid(b),
        preserves_assigned(a, b),
        detected_only(a, b),
        preserves_assigned(b, c),
        detected_only(b, c),
    ensures
        preserves_assigned(a, c),
        detected_only(a, c),
{
    assert forall|i: int|
        0 <= i < a.slots.len() && (#[trigger] c.slots[i]) != a.slots[i] implies (c.slots[i] matches Some(
        id,
    ) && c.spans[id as int].link@.0 is None) by {
        if c.slots[i] == b.slots[i] {
            let id = b.slots[i]->0;
            assert(b.spans[id as int].link@.0 is None);
            if b.slots[i] is Some && (id as int) < b.spans.len() {
                assert(c.spans[id as int] == b.spans[id as int]);
            }
        }
    }
}

/// Viewport slot index of a grid point, if the point lies on a visible line.
pub open spec fn viewport_slot(view: HyperlinkMapView, display_offset: int, point: Point) -> Option<
    int,
> {
    let line = point.line.0 + display_offset;
    if line < 0 || line >= view.screen_lines {
        None
    } else {
        let index = line * view.columns + point.column.0;
        if index < view.slots.len() {
            Some(index)
        } else {
            None
        }
    }
}

/// Whether `current` directly follows `previous`: the next column of the same
/// line, or the first column of the next line after a soft wrap.
fn is_adjacent_position(
    current: Point<usize>,
    previous: Option<Point<usize>>,
    previous_flags: Flags,
) -> (adjacent: bool)
    ensures
        adjacent == follows(current, previous, previous_flags),
{
    let prev = match previous {
        Some(prev) => prev,
        None => {
            return false;
        },
    };
    if current.line == prev.line && prev.column.0 < usize::MAX && current.column.0 == prev.column.0
        + 1 {
        return true;
    }
    prev.line < usize::MAX && current.line == prev.line + 1 && current.column.0 == 0
        && previous_flags.contains(Flags::WRAPLINE)
}


/// The pass over explicit links keeps the number of slots and opens at most
/// one span per cell.
proof fn lemma_osc_scan_sizes(cells: Seq<SnapshotCell>, columns: int, display_offset: int, start: OscScan)
    ensures
        osc_scan(cells, columns, display_offset, start).slots.len() == start.slots.len(),
        osc_scan(cells, columns, display_offset, start).spans.len() <= start.spans.len()
            + cells.len(),
    decreases cells.len(),
{
    if cells.len() > 0 {
        lemma_osc_scan_sizes(cells.drop_last(), columns, display_offset, start);
    }
}

/// A slot that no cell of `cells[from..to]` lands on keeps its span over
/// those cells.
proof fn lemma_osc_scan_keeps_slot(
    cells: Seq<SnapshotCell>,
    columns: int,
    display_offset: int,
    start: OscScan,
    from: int,
    to: int,
    k: int,
)
    requires
        0 <= from <= to <= cells.len(),
        0 <= k < start.slots.len(),
        forall|m: int|
            from <= m < to ==> viewport_index(#[trigger] cells[m], columns, display_offset)
                != Some(k),
    ensures
        osc_scan(cells.take(to), columns, display_offset, start).slots[k] == osc_scan(
            cells.take(from),
            columns,
            display_offset,
            start,
        ).slots[k],
    decreases to - from,
{
    if to > from {
        lemma_osc_scan_keeps_slot(cells, columns, display_offset, start, from, to - 1, k);
        assert(cells.take(to).drop_last() =~= cells.take(to - 1));
        assert(cells.take(to).last() == cells[to - 1]);
        assert(viewport_index(cells[to - 1], columns, display_offset) != Some(k));
        lemma_osc_scan_sizes(cells.take(to - 1), columns, display_offset, start);
    }
}

/// Consecutive linked cells that continue one another on screen share one
/// span: when cell `j + 1` carries the same link as cell `j` and stands in
/// column 0 of the line below it while cell `j` is soft-wrapped (WRAPLINE),
/// or in the next column of the same line, the pass over explicit links
/// gives both cells the same span, provided no later cell lands on either
/// of their visible positions.
pub proof fn lemma_continued_link_shares_span(
    cells: Seq<SnapshotCell>,
    columns: int,
    display_offset: int,
    slots: nat,
    j: int,
)
    requires
        0 <= j,
        j + 1 < cells.len(),
        cells.len() < 0xffff_ffff,
        cells_addressable(cells, columns, display_offset),
        cells[j].point.line.0 + display_offset >= 0,
        cells[j].cell.attributes.hyperlink is Some,
        cells[j + 1].cell.attributes.hyperlink is Some,
        cells[j].cell.attributes.hyperlink->0@ == cells[j + 1].cell.attributes.hyperlink->0@,
        (cells[j + 1].point.line.0 == cells[j].point.line.0 + 1 && cells[j + 1].point.column.0 == 0
            && cells[j].cell.flags.has(Flags::WRAPLINE)) || (cells[j + 1].point.line.0
            == cells[j].point.line.0 && cells[j + 1].point.column.0 == cells[j].point.column.0 + 1),
        0 <= viewport_index(cells[j], columns, display_offset)->0 < slots,
        0 <= viewport_index(cells[j + 1], columns, display_offset)->0 < slots,
        forall|m: int|
            j + 1 < m < cells.len() ==> viewport_index(#[trigger] cells[m], columns, display_offset)
                != viewport_index(cells[j], columns, display_offset) && viewport_index(
                cells[m],
                columns,
                display_offset,
            ) != viewport_index(cells[j + 1], columns, display_offset),
    ensures
        ({
            let scan = osc_scan(cells, columns, display_offset, osc_start(slots));
            let first = viewport_index(cells[j], columns, display_offset)->0;
            let second = viewport_index(cells[j + 1], columns, display_offset)->0;
            scan.slots[first] is Some && scan.slots[second] == scan.slots[first]
        }),
{
    let start = osc_start(slots);
    let a = cells[j];
    let b = cells[j + 1];
    let ia = viewport_index(a, columns, display_offset)->0;
    let ib = viewport_index(b, columns, display_offset)->0;
    let s0 = osc_scan(cells.take(j), columns, display_offset, start);
    lemma_osc_scan_sizes(cells.take(j), columns, display_offset, start);
    assert(cells.take(j + 1).drop_last() =~= cells.take(j));
    assert(cells.take(j + 1).last() == a);
    let s1 = osc_scan(cells.take(j + 1), columns, display_offset, start);
    assert(s1 == osc_step(s0, a, columns, display_offset));
    assert(s1.current is Some);
    let id = s1.current->0;
    assert(id < s1.spans.len());
    assert(s1.spans[id as int].link@ == a.cell.attributes.hyperlink->0@);
    assert(s1.slots[ia] == Some(id));
    assert(s1.last == Some(Point { line: (a.point.line.0 + display_offset) as usize, column: a.point.column }));
    assert(s1.last_flags == a.cell.flags);
    assert(cells.take(j + 2).drop_last() =~= cells.take(j + 1));
    assert(cells.take(j + 2).last() == b);
    let s2 = osc_scan(cells.take(j + 2), columns, display_offset, start);
    lemma_osc_scan_sizes(cells.take(j + 1), columns, display_offset, start);
    let pb = Point { line: (b.point.line.0 + display_offset) as usize, column: b.point.column };
    assert(a.point.line.0 + display_offset <= i32::MAX);
    assert(b.point.line.0 + display_offset <= i32::MAX);
    assert(follows(pb, s1.last, s1.last_flags));
    assert(s2 == osc_step(s1, b, columns, display_offset));
    assert(s2.slots == claim(s1.slots, ib, id));
    assert(s2.slots[ia] == Some(id));
    assert(s2.slots[ib] == Some(id));
    lemma_osc_scan_keeps_slot(cells, columns, display_offset, start, j + 2, cells.len() as int, ia);
    lemma_osc_scan_keeps_slot(cells, columns, display_offset, start, j + 2, cells.len() as int, ib);
    assert(cells.take(cells.len() as int) =~= cells);
}

} // verus!
