//! Text of terminal blocks, gathered from snapshot cells.

use vstd::prelude::*;

use crate::block::model::{BlockKind, BlockSnapshot};
use crate::cell::Flags;
use crate::snapshot::SnapshotCell;
use crate::text::{chars_of, push_char, string_from_chars};

verus! {

/// Whether a cell lies on one of the lines `start..end`.
pub open spec fn on_lines(cell: SnapshotCell, start: int, end: int) -> bool {
    start <= cell.point.line.0 < end
}

/// Characters a cell contributes to text: none for the trailing half of a
/// double-width character.
pub open spec fn cell_glyph(cell: SnapshotCell) -> Seq<char> {
    if cell.cell.flags.has(Flags::WIDE_CHAR_SPACER) {
        Seq::empty()
    } else {
        seq![cell.cell.ch]
    }
}

/// The cells on lines `start..end`, grouped into runs of consecutive cells
/// sharing a line: each run's line and the characters of its cells.
pub open spec fn line_runs(cells: Seq<SnapshotCell>, start: int, end: int) -> Seq<(i32, Seq<char>)>
    decreases cells.len(),
{
    if cells.len() == 0 {
        Seq::empty()
    } else {
        let runs = line_runs(cells.drop_last(), start, end);
        let cell = cells.last();
        if !on_lines(cell, start, end) {
            runs
        } else if runs.len() > 0 && runs.last().0 == cell.point.line.0 {
            runs.update(runs.len() - 1, (runs.last().0, runs.last().1 + cell_glyph(cell)))
        } else {
            runs.push((cell.point.line.0, cell_glyph(cell)))
        }
    }
}

/// `text` without its trailing ASCII spaces.
pub open spec fn trim_spaces(text: Seq<char>) -> Seq<char>
    decreases text.len(),
{
    if text.len() > 0 && text.last() == ' ' {
        trim_spaces(text.drop_last())
    } else {
        text
    }
}

/// `lines` joined with newlines.
pub open spec fn join_lines(lines: Seq<Seq<char>>) -> Seq<char>
    decreases lines.len(),
{
    if lines.len() == 0 {
        Seq::empty()
    } else if lines.len() == 1 {
        lines[0]
    } else {
        join_lines(lines.drop_last()) + seq!['\n'] + lines.last()
    }
}

/// Trimmed text of each run.
pub open spec fn run_lines(runs: Seq<(i32, Seq<char>)>) -> Seq<Seq<char>> {
    runs.map_values(|run: (i32, Seq<char>)| trim_spaces(run.1))
}

/// Last line (exclusive) covered by a block.
pub open spec fn block_end(block: BlockSnapshot) -> int {
    block.start_line + (block.line_count as i32)
}

/// Whether the lines of a block can be addressed without overflow, where
/// they are read at all: a block with cached text is answered from it.
pub open spec fn block_lines_fit(block: BlockSnapshot) -> bool {
    block.cached_text is None ==> i32::MIN <= block_end(block) <= i32::MAX
}

/// Textual content of a block: its cached text when it has one, else its
/// lines from the snapshot cells, each without trailing spaces, joined with
/// newlines; none for prompt blocks, empty cached text or zero lines.
pub open spec fn block_text_of(block: BlockSnapshot, cells: Seq<SnapshotCell>) -> Option<Seq<char>> {
    match block.cached_text {
        Some(text) => if block.meta.kind == BlockKind::Prompt || text@.len() == 0 {
            None
        } else {
            Some(text@)
        },
        None => if block.line_count == 0 || block.meta.kind == BlockKind::Prompt {
            None
        } else {
            Some(join_lines(run_lines(line_runs(cells, block.start_line as int, block_end(block)))))
        },
    }
}

/// First line of `text` as `str::lines` yields it: up to the first newline,
/// without a carriage return before that newline.
pub open spec fn first_line(text: Seq<char>) -> Seq<char> {
    if exists|i: int| 0 <= i < text.len() && text[i] == '\n' {
        let i = choose|i: int|
            0 <= i < text.len() && text[i] == '\n' && forall|j: int| 0 <= j < i ==> text[j] != '\n';
        let line = text.take(i);
        if line.len() > 0 && line.last() == '\r' {
            line.drop_last()
        } else {
            line
        }
    } else {
        text
    }
}

/// Prompt line of a command block: the first line of its cached text, or
/// its first visible line, without trailing spaces; none for other kinds,
/// zero lines, or a first line with no character at all.
pub open spec fn block_prompt_of(block: BlockSnapshot, cells: Seq<SnapshotCell>) -> Option<
    Seq<char>,
> {
    match block.cached_text {
        Some(text) => if block.meta.kind != BlockKind::Command || first_line(text@).len() == 0 {
            None
        } else {
            Some(trim_spaces(first_line(text@)))
        },
        None => {
            let runs = line_runs(cells, block.start_line as int, block_end(block));
            if block.line_count == 0 || block.meta.kind != BlockKind::Command || runs.len() == 0
                || runs[0].1.len() == 0 {
                None
            } else {
                Some(trim_spaces(runs[0].1))
            }
        },
    }
}

/// `chars` without trailing spaces, as a string.
fn trim_trailing_spaces(chars: &Vec<char>) -> (text: String)
    ensures
        text@ == trim_spaces(chars@),
{
    let mut end = chars.len();
    proof {
        assert(chars@.take(end as int) =~= chars@);
    }
    while end > 0 && chars[end - 1] == ' '
        invariant
            end <= chars@.len(),
            trim_spaces(chars@) == trim_spaces(chars@.take(end as int)),
        decreases end,
    {
        proof {
            assert(chars@.take(end as int).drop_last() =~= chars@.take(end - 1));
        }
        end = end - 1;
    }
    string_from_chars(vstd::slice::slice_subrange(chars.as_slice(), 0, end))
}

/// Lines joined with newlines.
fn joined(lines: &Vec<String>) -> (text: String)
    ensures
        text@ == join_lines(lines@.map_values(|line: String| line@)),
{
    let ghost views = lines@.map_values(|line: String| line@);
    let mut text = String::new();
    let mut i: usize = 0;
    proof {
        assert(views.take(0) =~= Seq::<Seq<char>>::empty());
    }
    while i < lines.len()
        invariant
            i <= lines@.len(),
            views == lines@.map_values(|line: String| line@),
            text@ == join_lines(views.take(i as int)),
        decreases lines@.len() - i,
    {
        proof {
            assert(views.take(i + 1).drop_last() =~= views.take(i as int));
        }
        if i > 0 {
            push_char(&mut text, '\n');
        }
        text.append(lines[i].as_str());
        i = i + 1;
        proof {
            if i == 1 {
                assert(text@ =~= join_lines(views.take(1)));
            } else {
                assert(text@ =~= join_lines(views.take(i as int)));
            }
        }
    }
    proof {
        assert(views.take(i as int) =~= views);
    }
    text
}

/// Aggregate the textual content for the provided block from snapshot cells.
///
/// Returns `None` for prompt blocks or entries with zero visible lines.
pub fn collect_block_text(block: &BlockSnapshot, cells: &[SnapshotCell]) -> (text: Option<String>)
    requires
        block_lines_fit(*block),
    ensures
        match text {
            Some(text) => block_text_of(*block, cells@) == Some(text@),
            None => block_text_of(*block, cells@) is None,
        },
{
    if let Some(text) = &block.cached_text {
        if block.meta.kind == BlockKind::Prompt {
            return None;
        }
        if text.as_str().is_empty() {
            return None;
        }
        return Some(text.clone());
    }
    if block.line_count == 0 || block.meta.kind == BlockKind::Prompt {
        return None;
    }
    let start = block.start_line;
    let end = start + block.line_count as i32;
    let ghost all = cells@;
    let mut lines: Vec<String> = Vec::new();
    let mut current: Option<i32> = None;
    let mut buffer: Vec<char> = Vec::new();
    let mut i: usize = 0;
    proof {
        assert(all.take(0) =~= Seq::<SnapshotCell>::empty());
    }
    while i < cells.len()
        invariant
            all == cells@,
            i <= all.len(),
            end == block_end(*block),
            start == block.start_line,
            ({
                let runs = line_runs(all.take(i as int), start as int, end as int);
                match current {
                    None => runs.len() == 0 && lines@.len() == 0 && buffer@.len() == 0,
                    Some(line) => runs.len() == lines@.len() + 1 && runs.last() == (
                        line,
                        buffer@,
                    ) && lines@.map_values(|line: String| line@) == run_lines(
                        runs.drop_last(),
                    ),
                }
            }),
        decreases all.len() - i,
    {
        let cell = &cells[i];
        let line = cell.point.line.0;
        proof {
            assert(all.take(i + 1).drop_last() =~= all.take(i as int));
            assert(all.take(i + 1).last() == all[i as int]);
        }
        if start <= line && line < end {
            let ghost runs = line_runs(all.take(i as int), start as int, end as int);
            let same = match current {
                Some(open) => open == line,
                None => false,
            };
            if !same {
                if current.is_some() {
                    let ghost before = lines@.map_values(|line: String| line@);
                    proof {
                        assert(runs.len() == lines@.len() + 1);
                        assert(runs.last().1 == buffer@);
                        assert(before == run_lines(runs.drop_last()));
                    }
                    let finished = trim_trailing_spaces(&buffer);
                    lines.push(finished);
                    buffer = Vec::new();
                    proof {
                        assert(lines@.map_values(|line: String| line@) =~= before.push(
                            trim_spaces(runs.last().1),
                        ));
                        assert(run_lines(runs) =~= run_lines(runs.drop_last()).push(
                            trim_spaces(runs.last().1),
                        ));
                    }
                }
                current = Some(line);
            }
            if !cell.cell.flags.contains(Flags::WIDE_CHAR_SPACER) {
                buffer.push(cell.cell.ch);
            }
            proof {
                let next = line_runs(all.take(i + 1), start as int, end as int);
                let glyph = cell_glyph(all[i as int]);
                assert(on_lines(all[i as int], start as int, end as int));
                if same {
                    assert(runs.len() > 0 && runs.last().0 == all[i as int].point.line.0);
                    assert(next == runs.update(runs.len() - 1, (runs.last().0, runs.last().1 + glyph)));
                } else {
                    assert(!(runs.len() > 0 && runs.last().0 == all[i as int].point.line.0));
                    assert(next == runs.push((line, glyph)));
                }
                assert(buffer@ =~= next.last().1);
                assert(next.drop_last() =~= if same { runs.drop_last() } else { runs });
            }
        }
        i = i + 1;
    }
    proof {
        assert(all.take(i as int) =~= all);
    }
    if current.is_some() {
        let ghost runs = line_runs(all, start as int, end as int);
        let ghost before = lines@.map_values(|line: String| line@);
        proof {
            assert(all.take(i as int) =~= all);
            assert(runs.len() == lines@.len() + 1);
            assert(before == run_lines(runs.drop_last()));
        }
        let finished = trim_trailing_spaces(&buffer);
        lines.push(finished);
        proof {
            assert(lines@.map_values(|line: String| line@) =~= before.push(
                trim_spaces(runs.last().1),
            ));
            assert(run_lines(runs) =~= run_lines(runs.drop_last()).push(
                trim_spaces(runs.last().1),
            ));
        }
    } else {
        proof {
            assert(lines@.map_values(|line: String| line@) =~= run_lines(
                line_runs(all, start as int, end as int),
            ));
        }
    }
    Some(joined(&lines))
}

/// Once a second run has started, the first run of the cells is fixed.
proof fn lemma_first_run_frozen(cells: Seq<SnapshotCell>, i: int, start: int, end: int)
    requires
        0 <= i <= cells.len(),
        line_runs(cells.take(i), start, end).len() >= 2,
    ensures
        line_runs(cells, start, end).len() >= 2,
        line_runs(cells, start, end)[0] == line_runs(cells.take(i), start, end)[0],
    decreases cells.len() - i,
{
    if i < cells.len() {
        assert(cells.take(i + 1).drop_last() =~= cells.take(i));
        lemma_first_run_frozen(cells, i + 1, start, end);
    } else {
        assert(cells.take(i) =~= cells);
    }
}

/// First line of `text` as `str::lines` yields it.
fn first_line_string(text: &str) -> (line: String)
    ensures
        line@ == first_line(text@),
{
    let chars = chars_of(text);
    let mut i: usize = 0;
    while i < chars.len() && chars[i] != '\n'
        invariant
            i <= chars@.len(),
            chars@ == text@,
            forall|j: int| 0 <= j < i ==> chars@[j] != '\n',
        decreases chars@.len() - i,
    {
        i = i + 1;
    }
    if i == chars.len() {
        proof {
            assert(!(exists|k: int| 0 <= k < text@.len() && text@[k] == '\n'));
        }
        return text.to_string();
    }
    proof {
        let k = choose|k: int|
            0 <= k < text@.len() && text@[k] == '\n' && forall|j: int| 0 <= j < k ==> text@[j]
                != '\n';
        assert(k == i) by {
            if k < i {
            } else if k > i {
                assert(text@[i as int] == '\n');
            }
        }
    }
    let mut end = i;
    if end > 0 && chars[end - 1] == '\r' {
        end = end - 1;
    }
    let line = string_from_chars(vstd::slice::slice_subrange(chars.as_slice(), 0, end));
    proof {
        assert(line@ =~= first_line(text@));
    }
    line
}

/// Return only the prompt/input line of a command block: the first line of
/// its cached text, or its first visible line trimmed of trailing spaces.
pub fn collect_block_prompt(block: &BlockSnapshot, cells: &[SnapshotCell]) -> (text: Option<String>)
    requires
        block_lines_fit(*block),
    ensures
        match text {
            Some(text) => block_prompt_of(*block, cells@) == Some(text@),
            None => block_prompt_of(*block, cells@) is None,
        },
{
    if let Some(text) = &block.cached_text {
        if block.meta.kind != BlockKind::Command {
            return None;
        }
        let first = first_line_string(text.as_str());
        if first.as_str().is_empty() {
            return None;
        }
        let first_chars = chars_of(first.as_str());
        return Some(trim_trailing_spaces(&first_chars));
    }
    if block.line_count == 0 || block.meta.kind != BlockKind::Command {
        return None;
    }
    let start = block.start_line;
    let end = start + block.line_count as i32;
    let ghost all = cells@;
    let mut current: Option<i32> = None;
    let mut buffer: Vec<char> = Vec::new();
    let mut i: usize = 0;
    proof {
        assert(all.take(0) =~= Seq::<SnapshotCell>::empty());
        assert(all.take(all.len() as int) =~= all);
    }
    while i < cells.len()
        invariant_except_break
            all == cells@,
            all.take(all.len() as int) == all,
            i <= all.len(),
            end == block_end(*block),
            start == block.start_line,
            ({
                let runs = line_runs(all.take(i as int), start as int, end as int);
                match current {
                    None => runs.len() == 0 && buffer@.len() == 0,
                    Some(line) => runs == seq![(line, buffer@)],
                }
            }),
        ensures
            ({
                let runs = line_runs(all, start as int, end as int);
                match current {
                    None => runs.len() == 0,
                    Some(line) => runs.len() >= 1 && runs[0] == (line, buffer@),
                }
            }),
        decreases all.len() - i,
    {
        let cell = &cells[i];
        let line = cell.point.line.0;
        proof {
            assert(all.take(i + 1).drop_last() =~= all.take(i as int));
            assert(all.take(i + 1).last() == all[i as int]);
        }
        if start <= line && line < end {
            let ghost runs = line_runs(all.take(i as int), start as int, end as int);
            match current {
                Some(open) => {
                    if open != line {
                        proof {
                            let next = line_runs(all.take(i + 1), start as int, end as int);
                            assert(next == runs.push((line, cell_glyph(all[i as int]))));
                            lemma_first_run_frozen(all, i + 1, start as int, end as int);
                        }
                        break;
                    }
                },
                None => {
                    current = Some(line);
                },
            }
            if !cell.cell.flags.contains(Flags::WIDE_CHAR_SPACER) {
                buffer.push(cell.cell.ch);
            }
            proof {
                let next = line_runs(all.take(i + 1), start as int, end as int);
                let glyph = cell_glyph(all[i as int]);
                assert(on_lines(all[i as int], start as int, end as int));
                assert(next.len() == 1 && next[0].0 == line);
                assert(buffer@ =~= next[0].1);
                assert(next =~= seq![(line, buffer@)]);
            }
        }
        i = i + 1;
    }
    match current {
        Some(_) => {
            if buffer.len() == 0 {
                return None;
            }
            Some(trim_trailing_spaces(&buffer))
        },
        None => None,
    }
}

} // verus!
