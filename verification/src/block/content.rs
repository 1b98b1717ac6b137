//! Command provenance and the text sections captured for a block.

use vstd::prelude::*;

use crate::block_text::{join_lines, trim_spaces};
use crate::cell::{Cell, Flags};
use crate::grid::{Grid, GridRow, RowView};
use crate::index::Point;
use crate::text::{has_prefix, push_char, strip_prefix};

verus! {

/// Provenance of canonical command text retained by a block.
#[derive(Clone, Copy, Debug, PartialEq, Eq, Structural)]
pub enum CommandSource {
    /// Text captured by the input path before Enter was sent.
    InputBuffer,
    /// Text supplied by the shell command-start hook.
    ShellIntegration,
    /// Text reconstructed from rendered command echo cells.
    CommandEcho,
}

/// Canonical command text with explicit provenance.
#[derive(Debug, PartialEq, Eq)]
pub struct CommandRecord {
    text: String,
    source: CommandSource,
}

impl View for CommandRecord {
    type V = (Seq<char>, CommandSource);

    closed spec fn view(&self) -> (Seq<char>, CommandSource) {
        (self.text@, self.source)
    }
}

impl Clone for CommandRecord {
    fn clone(&self) -> (copy: Self)
        ensures
            copy@ == self@,
    {
        CommandRecord { text: self.text.clone(), source: self.source }
    }
}

/// Number of bytes of the UTF-8 encoding of `text`.
pub open spec fn utf8_len(text: Seq<char>) -> nat {
    vstd::utf8::encode_utf8(text).len()
}

impl CommandRecord {
    /// Return canonical command text.
    pub fn text(&self) -> (text: &str)
        ensures
            text@ == self@.0,
    {
        self.text.as_str()
    }

    /// Return the source used to obtain command text.
    pub fn source(&self) -> (source: CommandSource)
        ensures
            source == self@.1,
    {
        self.source
    }

    /// Record command text supplied by a shell lifecycle event.
    pub fn from_shell(text: &str) -> (record: Self)
        ensures
            record@ == (text@, CommandSource::ShellIntegration),
    {
        CommandRecord { text: text.to_owned(), source: CommandSource::ShellIntegration }
    }
}

/// Abstract content of a [`BlockContent`].
pub ghost struct ContentView {
    pub prompt_start: Option<Point>,
    pub prompt_text: Option<Seq<char>>,
    pub header_text: Option<Seq<char>>,
    pub output_text: Option<Seq<char>>,
    pub command: Option<(Seq<char>, CommandSource)>,
    pub output_starts_on_new_line: bool,
}

/// Textual view of an optional string.
pub open spec fn opt_view(text: Option<String>) -> Option<Seq<char>> {
    match text {
        Some(t) => Some(t@),
        None => None,
    }
}

/// Byte length of an optional text.
pub open spec fn opt_bytes(text: Option<Seq<char>>) -> nat {
    match text {
        Some(t) => utf8_len(t),
        None => 0,
    }
}

/// The output section of a finished block: its whole text after the header,
/// without the line break that separates them when output starts on a new line.
pub open spec fn output_after_header(whole: Seq<char>, header: Seq<char>, new_line: bool) -> Seq<char> {
    let output = whole.subrange(header.len() as int, whole.len() as int);
    if new_line && output.len() > 0 && output[0] == '\n' {
        output.drop_first()
    } else {
        output
    }
}

/// Prompt, header and output sections captured for a block.
#[derive(Debug, Default)]
pub struct BlockContent {
    prompt_start: Option<Point>,
    prompt_text: Option<String>,
    header_text: Option<String>,
    output_text: Option<String>,
    command: Option<CommandRecord>,
    output_starts_on_new_line: bool,
}

impl View for BlockContent {
    type V = ContentView;

    closed spec fn view(&self) -> ContentView {
        ContentView {
            prompt_start: self.prompt_start,
            prompt_text: opt_view(self.prompt_text),
            header_text: opt_view(self.header_text),
            output_text: opt_view(self.output_text),
            command: match self.command {
                Some(c) => Some(c@),
                None => None,
            },
            output_starts_on_new_line: self.output_starts_on_new_line,
        }
    }
}

fn clone_text(text: &Option<String>) -> (copy: Option<String>)
    ensures
        opt_view(copy) == opt_view(*text),
{
    match text {
        Some(t) => Some(t.clone()),
        None => None,
    }
}

impl BlockContent {
    /// Prompt section, if captured.
    pub fn prompt_text(&self) -> (text: Option<String>)
        ensures
            opt_view(text) == self@.prompt_text,
    {
        clone_text(&self.prompt_text)
    }

    /// Output section, if captured.
    pub fn output_text(&self) -> (text: Option<String>)
        ensures
            opt_view(text) == self@.output_text,
    {
        clone_text(&self.output_text)
    }

    /// Approximate bytes retained by the captured texts.
    pub fn estimated_text_bytes(&self) -> (bytes: usize)
        requires
            opt_bytes(self@.prompt_text) + opt_bytes(self@.header_text) + opt_bytes(
                self@.output_text,
            ) + match self@.command {
                Some(c) => utf8_len(c.0),
                None => 0,
            } <= usize::MAX,
        ensures
            bytes == opt_bytes(self@.prompt_text) + opt_bytes(self@.header_text) + opt_bytes(
                self@.output_text,
            ) + match self@.command {
                Some(c) => utf8_len(c.0),
                None => 0,
            },
    {
        let prompt = match &self.prompt_text {
            Some(text) => text.as_str().len(),
            None => 0,
        };
        let header = match &self.header_text {
            Some(text) => text.as_str().len(),
            None => 0,
        };
        let output = match &self.output_text {
            Some(text) => text.as_str().len(),
            None => 0,
        };
        let command = match &self.command {
            Some(command) => command.text().len(),
            None => 0,
        };
        prompt + header + output + command
    }

    /// Remember where the prompt starts.
    pub fn mark_prompt_start(&mut self, point: Point)
        ensures
            final(self)@ == (ContentView { prompt_start: Some(point), ..old(self)@ }),
    {
        self.prompt_start = Some(point);
    }

    /// Finish the prompt started at the remembered point: its text runs up
    /// to `end`; nothing happens without a remembered start.
    pub fn mark_prompt_end(&mut self, grid: &Grid, end: Point)
        requires
            grid.wf(),
            old(self)@.prompt_start matches Some(start) ==> (range_ordered(start, end)
                ==> range_in_grid(grid@, start, end)),
        ensures
            final(self)@ == match old(self)@.prompt_start {
                Some(start) => ContentView {
                    prompt_start: None,
                    prompt_text: range_text(grid@, start, end),
                    ..old(self)@
                },
                None => old(self)@,
            },
    {
        let start = match self.prompt_start {
            Some(start) => start,
            None => {
                return;
            },
        };
        self.prompt_start = None;
        self.prompt_text = extract_range(grid, start, end);
    }

    /// Record the text preceding command output (the whole grid: prompt
    /// and command echo), whether output starts on a fresh line (the cursor
    /// is in the first column), and the shell's command text.
    pub fn capture_header(&mut self, grid: &Grid, cursor_column: usize, command: Option<&str>)
        requires
            grid.wf(),
        ensures
            final(self)@ == (ContentView {
                header_text: grid_text(grid@),
                output_starts_on_new_line: cursor_column == 0,
                command: match command {
                    Some(c) => Some((c@, CommandSource::ShellIntegration)),
                    None => old(self)@.command,
                },
                ..old(self)@
            }),
    {
        self.header_text = surface_text(grid);
        self.output_starts_on_new_line = cursor_column == 0;
        if let Some(command) = command {
            self.command = Some(CommandRecord::from_shell(command));
        }
    }

    /// Derive the output section from the finished block's whole text.
    pub fn freeze(&mut self, whole_text: Option<&String>)
        ensures
            final(self)@ == if whole_text is Some && old(self)@.header_text is Some && has_prefix(
                whole_text.unwrap()@,
                old(self)@.header_text.unwrap(),
            ) {
                let output = output_after_header(
                    whole_text.unwrap()@,
                    old(self)@.header_text.unwrap(),
                    old(self)@.output_starts_on_new_line,
                );
                ContentView {
                    output_text: if output.len() > 0 { Some(output) } else { None },
                    ..old(self)@
                }
            } else {
                old(self)@
            },
    {
        let (whole_text, header_text) = match (whole_text, &self.header_text) {
            (Some(whole), Some(header)) => (whole, header),
            _ => return,
        };
        let output = match strip_prefix(whole_text.as_str(), header_text.as_str()) {
            Some(output) => output,
            None => return,
        };
        let output = if self.output_starts_on_new_line {
            match strip_prefix(output.as_str(), "\n") {
                Some(rest) => rest,
                None => output,
            }
        } else {
            output
        };
        proof {
            reveal_strlit("\n");
            let nl = "\n"@;
            assert(nl.len() == 1 && nl[0] == '\n');
            let raw = whole_text@.subrange(header_text@.len() as int, whole_text@.len() as int);
            if raw.len() > 0 && raw[0] == '\n' {
                assert(raw.subrange(0, 1) =~= nl);
                assert(raw.subrange(1, raw.len() as int) =~= raw.drop_first());
            }
            if has_prefix(raw, nl) {
                assert(raw.subrange(0, 1)[0] == nl[0]);
            }
        }
        self.output_text = if output.as_str().is_empty() {
            None
        } else {
            Some(output)
        };
    }
}

/// Characters of cells, skipping trailing halves of double-width
/// characters.
pub open spec fn cells_text(cells: Seq<Cell>) -> Seq<char>
    decreases cells.len(),
{
    if cells.len() == 0 {
        Seq::empty()
    } else {
        let last = cells.last();
        cells_text(cells.drop_last()) + if last.flags.has(Flags::WIDE_CHAR_SPACER) {
            Seq::<char>::empty()
        } else {
            seq![last.ch]
        }
    }
}

/// Cells of a row within the grid's columns.
pub open spec fn row_cells(row: RowView, columns: nat) -> Seq<Cell> {
    if row.cells.len() <= columns {
        row.cells
    } else {
        row.cells.take(columns as int)
    }
}

/// `lines` without trailing empty lines.
pub open spec fn drop_empty_tail(lines: Seq<Seq<char>>) -> Seq<Seq<char>>
    decreases lines.len(),
{
    if lines.len() > 0 && lines.last().len() == 0 {
        drop_empty_tail(lines.drop_last())
    } else {
        lines
    }
}

/// Text as a block section: none when empty.
pub open spec fn nonempty(text: Seq<char>) -> Option<Seq<char>> {
    if text.len() == 0 {
        None
    } else {
        Some(text)
    }
}

/// Text of the whole grid, history first: each row's characters without
/// trailing spaces, trailing empty rows dropped, joined with newlines; none
/// for an empty result or a grid without columns.
pub open spec fn grid_text(grid: crate::grid::GridView) -> Option<Seq<char>> {
    if grid.columns == 0 {
        None
    } else {
        nonempty(
            join_lines(
                drop_empty_tail(
                    grid.rows().map_values(
                        |row: RowView| trim_spaces(cells_text(row_cells(row, grid.columns))),
                    ),
                ),
            ),
        )
    }
}

/// Whether the lines of `start..=end` exist in the grid (lines count from
/// the top of the screen, history above it) and `end` lies within the
/// columns.
/// Whether `start` does not come after `end`.
pub open spec fn range_ordered(start: Point, end: Point) -> bool {
    !(end.line.0 < start.line.0 || (end.line.0 == start.line.0 && end.column.0 < start.column.0))
}

/// Whether the lines of a range lie in the grid and its end column within
/// the width.
pub open spec fn range_in_grid(grid: crate::grid::GridView, start: Point, end: Point) -> bool {
    &&& start.line.0 + grid.history_size() >= 0
    &&& end.line.0 + grid.history_size() < grid.len
    &&& end.column.0 <= grid.columns
}

/// Characters of line `line` of a range: from the start column on the first
/// line, up to the end column (exclusive) on the last.
pub open spec fn range_line(grid: crate::grid::GridView, start: Point, end: Point, line: int) -> Seq<
    char,
> {
    let first = if line == start.line.0 { start.column.0 as int } else { 0 };
    let last = if line == end.line.0 { end.column.0 as int } else { grid.columns as int };
    let row = grid.row(line + grid.history_size());
    let cells = row_cells(row, grid.columns);
    let upto = if last <= cells.len() { last } else { cells.len() as int };
    let text = if first < upto { cells_text(cells.subrange(first, upto)) } else { Seq::empty() };
    if line == end.line.0 {
        text
    } else {
        trim_spaces(text)
    }
}

/// Lines `from..=to` of a range that hold at least one column.
pub open spec fn range_lines(grid: crate::grid::GridView, start: Point, end: Point, to: int) -> Seq<
    Seq<char>,
>
    decreases to - start.line.0 + 1,
{
    if to < start.line.0 {
        Seq::empty()
    } else {
        let first = if to == start.line.0 { start.column.0 as int } else { 0 };
        let last = if to == end.line.0 { end.column.0 as int } else { grid.columns as int };
        let before = range_lines(grid, start, end, to - 1);
        if first >= last {
            before
        } else {
            before.push(range_line(grid, start, end, to))
        }
    }
}

/// Text between two grid points: the lines of the range, all but the last
/// without trailing spaces, joined with newlines; none when `end` precedes
/// `start`, the grid has no columns, or the text is empty.
pub open spec fn range_text(grid: crate::grid::GridView, start: Point, end: Point) -> Option<
    Seq<char>,
> {
    if end.line.0 < start.line.0 || (end.line.0 == start.line.0 && end.column.0 < start.column.0)
        || grid.columns == 0 {
        None
    } else {
        nonempty(join_lines(range_lines(grid, start, end, end.line.0 as int)))
    }
}

/// Characters of `row.cells[from..to]` (bounded by the row), skipping
/// trailing halves of double-width characters.
fn cells_string(row: &GridRow, from: usize, to: usize) -> (text: Vec<char>)
    requires
        from <= to <= row@.cells.len(),
    ensures
        text@ == cells_text(row@.cells.subrange(from as int, to as int)),
{
    let mut text: Vec<char> = Vec::new();
    let mut column = from;
    proof {
        assert(row@.cells.subrange(from as int, from as int) =~= Seq::<Cell>::empty());
    }
    while column < to
        invariant
            from <= column <= to <= row@.cells.len(),
            text@ == cells_text(row@.cells.subrange(from as int, column as int)),
        decreases to - column,
    {
        let cell = row.cell(column);
        proof {
            assert(row@.cells.subrange(from as int, column + 1).drop_last() =~= row@.cells.subrange(
                from as int,
                column as int,
            ));
        }
        if !cell.flags.contains(Flags::WIDE_CHAR_SPACER) {
            text.push(cell.ch);
        }
        column = column + 1;
        proof {
            assert(text@ =~= cells_text(row@.cells.subrange(from as int, column as int)));
        }
    }
    text
}

/// `chars` without trailing spaces, as a string.
fn trimmed(chars: &Vec<char>) -> (text: String)
    ensures
        text@ == trim_spaces(chars@),
{
    let mut end = chars.len();
    proof {
        assert(chars@.take(end as int) =~= chars@);
    }
    while end > 0 && chars[end - 1] == ' '
        invariant
            end <= chars@.len(),
            trim_spaces(chars@) == trim_spaces(chars@.take(end as int)),
        decreases end,
    {
        proof {
            assert(chars@.take(end as int).drop_last() =~= chars@.take(end - 1));
        }
        end = end - 1;
    }
    let mut text = String::new();
    let mut i: usize = 0;
    while i < end
        invariant
            i <= end <= chars@.len(),
            text@ == chars@.take(i as int),
        decreases end - i,
    {
        push_char(&mut text, chars[i]);
        i = i + 1;
        proof {
            assert(text@ =~= chars@.take(i as int));
        }
    }
    text
}

/// Lines joined with newlines.
fn join_strings(lines: &Vec<String>) -> (text: String)
    ensures
        text@ == join_lines(lines@.map_values(|line: String| line@)),
{
    let ghost views = lines@.map_values(|line: String| line@);
    let mut text = String::new();
    let mut i: usize = 0;
    proof {
        assert(views.take(0) =~= Seq::<Seq<char>>::empty());
    }
    while i < lines.len()
        invariant
            i <= lines@.len(),
            views == lines@.map_values(|line: String| line@),
            text@ == join_lines(views.take(i as int)),
        decreases lines@.len() - i,
    {
        proof {
            assert(views.take(i + 1).drop_last() =~= views.take(i as int));
        }
        if i > 0 {
            push_char(&mut text, '\n');
        }
        text.append(lines[i].as_str());
        i = i + 1;
        proof {
            assert(text@ =~= join_lines(views.take(i as int)));
        }
    }
    proof {
        assert(views.take(i as int) =~= views);
    }
    text
}

/// Text of the whole grid, history first, rows trimmed of trailing spaces
/// and trailing empty rows dropped; none when empty.
pub fn surface_text(grid: &Grid) -> (text: Option<String>)
    requires
        grid.wf(),
    ensures
        match text {
            Some(text) => grid_text(grid@) == Some(text@),
            None => grid_text(grid@) is None,
        },
{
    let columns = grid.width();
    if columns == 0 {
        return None;
    }
    let rows = grid.rows();
    let ghost all = grid@.rows().map_values(
        |row: RowView| trim_spaces(cells_text(row_cells(row, grid@.columns))),
    );
    let mut lines: Vec<String> = Vec::new();
    let mut i: usize = 0;
    while i < rows.len()
        invariant
            i <= rows@.len(),
            rows@.len() == grid@.len,
            columns == grid@.columns,
            forall|k: int| 0 <= k < grid@.len ==> rows@[k]@ == grid@.row(k),
            all == grid@.rows().map_values(
                |row: RowView| trim_spaces(cells_text(row_cells(row, grid@.columns))),
            ),
            lines@.map_values(|line: String| line@) == all.take(i as int),
        decreases rows@.len() - i,
    {
        let row = rows[i];
        let width = if row.len() < columns {
            row.len()
        } else {
            columns
        };
        let chars = cells_string(row, 0, width);
        let line = trimmed(&chars);
        proof {
            assert(row@.cells.subrange(0, width as int) =~= row_cells(grid@.row(i as int), grid@.columns));
            assert(all[i as int] == line@);
        }
        let ghost before = lines@.map_values(|line: String| line@);
        let ghost line_view = line@;
        lines.push(line);
        i = i + 1;
        proof {
            assert(lines@.map_values(|line: String| line@) =~= before.push(line_view));
            assert(all.take(i as int) =~= all.take(i - 1).push(all[i - 1]));
        }
    }
    proof {
        assert(all.take(i as int) =~= all);
    }
    let ghost kept = lines@.map_values(|line: String| line@);
    while lines.len() > 0 && lines[lines.len() - 1].as_str().is_empty()
        invariant
            drop_empty_tail(all) == drop_empty_tail(lines@.map_values(|line: String| line@)),
        decreases lines@.len(),
    {
        let ghost before = lines@.map_values(|line: String| line@);
        lines.pop();
        proof {
            assert(lines@.map_values(|line: String| line@) =~= before.drop_last());
        }
    }
    proof {
        let views = lines@.map_values(|line: String| line@);
        assert(drop_empty_tail(views) == views);
    }
    let text = join_strings(&lines);
    if text.as_str().is_empty() {
        None
    } else {
        Some(text)
    }
}

/// Text between two grid points (lines count from the top of the screen,
/// history above it), the last line kept as is and the others trimmed of
/// trailing spaces; none when `end` precedes `start`, for a grid without
/// columns, or for empty text.
pub fn extract_range(grid: &Grid, start: Point, end: Point) -> (text: Option<String>)
    requires
        grid.wf(),
        range_ordered(start, end) ==> range_in_grid(grid@, start, end),
    ensures
        match text {
            Some(text) => range_text(grid@, start, end) == Some(text@),
            None => range_text(grid@, start, end) is None,
        },
{
    let columns = grid.width();
    if end.line.0 < start.line.0 || (end.line.0 == start.line.0 && end.column.0 < start.column.0)
        || columns == 0 {
        return None;
    }
    let rows = grid.rows();
    let total = rows.len();
    let history = grid.history_size();
    let mut lines: Vec<String> = Vec::new();
    let mut line: i64 = start.line.0 as i64;
    proof {
        assert(range_lines(grid@, start, end, start.line.0 - 1) =~= Seq::<Seq<char>>::empty());
    }
    while line <= end.line.0 as i64
        invariant
            start.line.0 <= line <= end.line.0 + 1,
            range_in_grid(grid@, start, end),
            rows@.len() == grid@.len,
            total == grid@.len,
            columns == grid@.columns,
            history == grid@.history_size(),
            forall|k: int| 0 <= k < grid@.len ==> rows@[k]@ == grid@.row(k),
            lines@.map_values(|l: String| l@) == range_lines(grid@, start, end, line - 1),
        decreases end.line.0 + 1 - line,
    {
        let first = if line == start.line.0 as i64 {
            start.column.0
        } else {
            0
        };
        let last = if line == end.line.0 as i64 {
            end.column.0
        } else {
            columns
        };
        if first < last {
            let index: usize = if line >= 0 {
                history + line as usize
            } else {
                history - (0 - line) as usize
            };
            let row = rows[index];
            let width = if row.len() < columns {
                row.len()
            } else {
                columns
            };
            let upto = if last <= width {
                last
            } else {
                width
            };
            let chars = if first < upto {
                cells_string(row, first, upto)
            } else {
                Vec::new()
            };
            let text = if line == end.line.0 as i64 {
                let mut text = String::new();
                let mut k: usize = 0;
                while k < chars.len()
                    invariant
                        k <= chars@.len(),
                        text@ == chars@.take(k as int),
                    decreases chars@.len() - k,
                {
                    push_char(&mut text, chars[k]);
                    k = k + 1;
                    proof {
                        assert(text@ =~= chars@.take(k as int));
                    }
                }
                proof {
                    assert(chars@.take(k as int) =~= chars@);
                }
                text
            } else {
                trimmed(&chars)
            };
            proof {
                let cells = row_cells(grid@.row(line + grid@.history_size()), grid@.columns);
                assert(row@.cells.subrange(0, width as int) =~= cells);
                if first < upto {
                    assert(row@.cells.subrange(first as int, upto as int) =~= cells.subrange(
                        first as int,
                        upto as int,
                    ));
                }
                assert(text@ == range_line(grid@, start, end, line as int));
            }
            let ghost before = lines@.map_values(|l: String| l@);
            lines.push(text);
            proof {
                assert(lines@.map_values(|l: String| l@) =~= before.push(
                    range_line(grid@, start, end, line as int),
                ));
            }
        }
        line = line + 1;
    }
    let text = join_strings(&lines);
    if text.as_str().is_empty() {
        None
    } else {
        Some(text)
    }
}

} // verus!
