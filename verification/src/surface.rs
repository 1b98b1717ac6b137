//! Surface configuration, tab stops, version reporting, and the surface
//! that prints characters into its grid.

use vstd::prelude::*;

use std::ops::Range;

use unicode_width::UnicodeWidthChar;

use crate::cell::{Cell, CellAttributes, Flags};
use crate::color::{Colors, COUNT};
use crate::hyperlink::{cells_addressable, HyperlinkMap};
use crate::snapshot::{CursorSnapshot, SnapshotCell, SnapshotDamage, SnapshotOwned, SnapshotSize};
use crate::escape::{CharacterAttribute, Color, CursorShape, CursorStyle, Mode, NamedMode, Rgb, StdColor};
use crate::grid::{ScrollDirection, lemma_slot_in_range, lemma_replaced_widths, lemma_row_replaced, lemma_row_width, lemma_scrolled_up_widths, row_widths, Grid, GridRow, GridView, RowView};
use crate::mode::{modes_contain, SurfaceMode};
use crate::index::{Column, Direction, Line, Point};
use crate::text::{chars_of, push_char};

verus! {

/// Default characters which delimit semantic selection.
pub const SEMANTIC_ESCAPE_CHARS: &'static str = ",│`|:\"' ()[]{}<>\t";

/// Default tab interval.
pub const INITIAL_TABSTOPS: usize = 8;

/// Configuration options for a surface.
#[derive(Debug, PartialEq, Eq)]
pub struct SurfaceConfig {
    /// The maximum amount of scrolling history.
    pub scrolling_history: usize,
    /// Default cursor style to reset the cursor to.
    pub default_cursor_style: CursorStyle,
    /// The characters which delimit semantic selection.
    pub semantic_escape_chars: String,
    /// Whether to enable the kitty keyboard protocol.
    pub kitty_keyboard: bool,
}

impl Default for SurfaceConfig {
    fn default() -> (config: Self)
        ensures
            config.scrolling_history == 10000,
            config.default_cursor_style == CursorStyle::spec_default(),
            config.semantic_escape_chars@ == SEMANTIC_ESCAPE_CHARS@,
            !config.kitty_keyboard,
    {
        SurfaceConfig {
            scrolling_history: 10000,
            default_cursor_style: CursorStyle::default(),
            semantic_escape_chars: SEMANTIC_ESCAPE_CHARS.to_string(),
            kitty_keyboard: false,
        }
    }
}

impl Clone for SurfaceConfig {
    fn clone(&self) -> (copy: Self)
        ensures
            copy == *self,
    {
        SurfaceConfig {
            scrolling_history: self.scrolling_history,
            default_cursor_style: self.default_cursor_style,
            semantic_escape_chars: self.semantic_escape_chars.clone(),
            kitty_keyboard: self.kitty_keyboard,
        }
    }
}

/// Whether a fresh row of tab stops has a stop at `column`.
pub open spec fn initial_tabstop(column: int) -> bool {
    column % (INITIAL_TABSTOPS as int) == 0
}

/// Horizontal tab stops of a surface, one flag per column.
#[derive(Debug, PartialEq, Eq)]
pub struct TabStops {
    tabs: Vec<bool>,
}

impl View for TabStops {
    type V = Seq<bool>;

    closed spec fn view(&self) -> Seq<bool> {
        self.tabs@
    }
}

impl TabStops {
    /// Tab stops every `INITIAL_TABSTOPS` columns, starting at column 0.
    pub fn new(columns: usize) -> (stops: TabStops)
        ensures
            stops@ == Seq::new(columns as nat, |i: int| initial_tabstop(i)),
    {
        let mut tabs: Vec<bool> = Vec::new();
        let mut i: usize = 0;
        while i < columns
            invariant
                i <= columns,
                tabs@ == Seq::new(i as nat, |j: int| initial_tabstop(j)),
            decreases columns - i,
        {
            tabs.push(i % INITIAL_TABSTOPS == 0);
            i = i + 1;
            proof {
                assert(tabs@ =~= Seq::new(i as nat, |j: int| initial_tabstop(j)));
            }
        }
        TabStops { tabs }
    }

    /// Number of columns covered.
    pub fn len(&self) -> (len: usize)
        ensures
            len == self@.len(),
    {
        self.tabs.len()
    }

    /// Remove all tab stops.
    pub fn clear_all(&mut self)
        ensures
            final(self)@ == Seq::new(old(self)@.len(), |_i: int| false),
    {
        let mut i: usize = 0;
        let ghost len = self.tabs@.len();
        while i < self.tabs.len()
            invariant
                i <= self.tabs@.len(),
                self.tabs@.len() == len,
                forall|j: int| 0 <= j < i ==> !self.tabs@[j],
            decreases self.tabs@.len() - i,
        {
            self.tabs.set(i, false);
            i = i + 1;
        }
        proof {
            assert(self.tabs@ =~= Seq::new(len, |_i: int| false));
        }
    }

    /// Change the number of columns: removed columns lose their stops, added
    /// columns get the initial stops.
    pub fn resize(&mut self, columns: usize)
        ensures
            final(self)@ == Seq::new(
                columns as nat,
                |i: int|
                    if i < old(self)@.len() {
                        old(self)@[i]
                    } else {
                        initial_tabstop(i)
                    },
            ),
    {
        let ghost previous = self.tabs@;
        if columns < self.tabs.len() {
            self.tabs.truncate(columns);
        } else {
            let mut index = self.tabs.len();
            while index < columns
                invariant
                    previous.len() <= index <= columns,
                    self.tabs@.len() == index,
                    forall|j: int| 0 <= j < previous.len() ==> self.tabs@[j] == previous[j],
                    forall|j: int|
                        previous.len() <= j < index ==> self.tabs@[j] == initial_tabstop(j),
                decreases columns - index,
            {
                self.tabs.push(index % INITIAL_TABSTOPS == 0);
                index = index + 1;
            }
        }
        proof {
            assert(self.tabs@ =~= Seq::new(
                columns as nat,
                |i: int|
                    if i < previous.len() {
                        previous[i]
                    } else {
                        initial_tabstop(i)
                    },
            ));
        }
    }

    /// Whether `column` holds a tab stop.
    pub fn get(&self, column: Column) -> (stop: bool)
        requires
            column.0 < self@.len(),
        ensures
            stop == self@[column.0 as int],
    {
        self.tabs[column.0]
    }

    /// Set or clear the tab stop at `column`.
    pub fn set(&mut self, column: Column, stop: bool)
        requires
            column.0 < old(self)@.len(),
        ensures
            final(self)@ == old(self)@.update(column.0 as int, stop),
    {
        self.tabs.set(column.0, stop);
    }
}

/// Value of an ASCII decimal digit.
pub open spec fn digit_value(c: char) -> int {
    c as int - '0' as int
}

/// Whether `c` is an ASCII decimal digit.
pub open spec fn is_digit(c: char) -> bool {
    '0' <= c && c <= '9'
}

/// Value of a string of decimal digits.
pub open spec fn decimal_value(digits: Seq<char>) -> int
    decreases digits.len(),
{
    if digits.len() == 0 {
        0
    } else {
        decimal_value(digits.drop_last()) * 10 + digit_value(digits.last())
    }
}

/// The digits of a component, without its optional leading `+`.
pub open spec fn unsigned_digits(component: Seq<char>) -> Seq<char> {
    if component.len() > 0 && component[0] == '+' {
        component.drop_first()
    } else {
        component
    }
}

/// Value of one version component read as a `usize`, or 0 where it is not
/// an unsigned decimal number that fits.
pub open spec fn component_value(component: Seq<char>) -> int {
    component_value_of_digits(unsigned_digits(component))
}

proof fn lemma_component_nonnegative(component: Seq<char>)
    ensures
        component_value(component) >= 0,
{
    let digits = unsigned_digits(component);
    if digits.len() > 0 && (forall|i: int| 0 <= i < digits.len() ==> is_digit(#[trigger] digits[i])) {
        lemma_decimal_nonnegative(digits);
    }
}

/// Position of the last `-` of `text`, if any.
pub open spec fn last_dash(text: Seq<char>) -> Option<int>
    decreases text.len(),
{
    if text.len() == 0 {
        None
    } else if text.last() == '-' {
        Some(text.len() - 1)
    } else {
        last_dash(text.drop_last())
    }
}

/// The part of a version before its last `-` (all of it without one).
pub open spec fn version_core(version: Seq<char>) -> Seq<char> {
    match last_dash(version) {
        Some(dash) => version.take(dash),
        None => version,
    }
}

/// Value of the completed `.`-separated components of `text` read as base-100
/// digits, and the characters of the component still open.
pub open spec fn components_fold(text: Seq<char>) -> (int, Seq<char>)
    decreases text.len(),
{
    if text.len() == 0 {
        (0, Seq::empty())
    } else {
        let (value, open) = components_fold(text.drop_last());
        if text.last() == '.' {
            (value * 100 + component_value(open), Seq::empty())
        } else {
            (value, open.push(text.last()))
        }
    }
}

/// Numeric form of a version: its `.`-separated components, before the last
/// `-`, read as base-100 digits, the last component least significant.
pub open spec fn version_value(version: Seq<char>) -> int {
    let (value, open) = components_fold(version_core(version));
    value * 100 + component_value(open)
}

proof fn lemma_decimal_monotone(digits: Seq<char>, i: int)
    requires
        0 <= i <= digits.len(),
        forall|j: int| 0 <= j < digits.len() ==> is_digit(#[trigger] digits[j]),
    ensures
        0 <= decimal_value(digits.take(i)) <= decimal_value(digits),
    decreases digits.len() - i,
{
    if i < digits.len() {
        lemma_decimal_monotone(digits, i + 1);
        assert(digits.take(i + 1).drop_last() =~= digits.take(i));
        assert(is_digit(digits[i]));
    } else {
        assert(digits.take(i) =~= digits);
        lemma_decimal_nonnegative(digits);
    }
}

proof fn lemma_decimal_nonnegative(digits: Seq<char>)
    requires
        forall|j: int| 0 <= j < digits.len() ==> is_digit(#[trigger] digits[j]),
    ensures
        decimal_value(digits) >= 0,
    decreases digits.len(),
{
    if digits.len() > 0 {
        assert(is_digit(digits[digits.len() - 1]));
        lemma_decimal_nonnegative(digits.drop_last());
    }
}

proof fn lemma_fold_monotone(text: Seq<char>, i: int)
    requires
        0 <= i <= text.len(),
    ensures
        0 <= components_fold(text.take(i)).0 <= components_fold(text).0,
    decreases text.len() - i,
{
    if i < text.len() {
        lemma_fold_monotone(text, i + 1);
        assert(text.take(i + 1).drop_last() =~= text.take(i));
        lemma_fold_nonnegative(text.take(i));
        lemma_component_nonnegative(components_fold(text.take(i)).1);
    } else {
        assert(text.take(i) =~= text);
        lemma_fold_nonnegative(text);
    }
}

proof fn lemma_fold_nonnegative(text: Seq<char>)
    ensures
        components_fold(text).0 >= 0,
    decreases text.len(),
{
    if text.len() > 0 {
        lemma_fold_nonnegative(text.drop_last());
        lemma_component_nonnegative(components_fold(text.drop_last()).1);
    }
}

/// Length of the part of `chars` before its last `-`.
fn core_length(chars: &Vec<char>) -> (len: usize)
    ensures
        len <= chars@.len(),
        chars@.take(len as int) == version_core(chars@),
{
    let mut end = chars.len();
    proof {
        assert(chars@.take(end as int) =~= chars@);
    }
    while end > 0
        invariant
            end <= chars@.len(),
            last_dash(chars@) == last_dash(chars@.take(end as int)),
        decreases end,
    {
        proof {
            assert(chars@.take(end as int).drop_last() =~= chars@.take(end - 1));
        }
        if chars[end - 1] == '-' {
            return end - 1;
        }
        end = end - 1;
    }
    proof {
        assert(chars@.take(chars@.len() as int) =~= chars@);
    }
    chars.len()
}

/// Value of one component, read as a `usize` (0 where it is not one).
pub fn parse_component(component: &Vec<char>) -> (value: usize)
    ensures
        value == component_value(component@),
{
    let mut start: usize = 0;
    if component.len() > 0 && component[0] == '+' {
        start = 1;
    }
    let ghost digits = unsigned_digits(component@);
    proof {
        assert(digits =~= component@.skip(start as int));
    }
    if start == component.len() {
        return 0;
    }
    let mut value: usize = 0;
    let mut i: usize = start;
    while i < component.len()
        invariant
            start <= i <= component@.len(),
            start < component@.len(),
            digits == component@.skip(start as int),
            digits == unsigned_digits(component@),
            forall|j: int| 0 <= j < i - start ==> is_digit(#[trigger] digits[j]),
            value == decimal_value(digits.take(i - start)),
        decreases component@.len() - i,
    {
        let c = component[i];
        proof {
            assert(digits.take(i - start + 1).drop_last() =~= digits.take(i - start));
            assert(digits[i - start] == c);
        }
        if !('0' <= c && c <= '9') {
            proof {
                assert(!is_digit(digits[i - start]));
            }
            return 0;
        }
        let digit = (c as u32 - '0' as u32) as usize;
        match value.checked_mul(10) {
            Some(scaled) => match scaled.checked_add(digit) {
                Some(next) => {
                    value = next;
                },
                None => {
                    proof {
                        lemma_overflow_persists(digits, (i - start + 1) as int);
                    }
                    return 0;
                },
            },
            None => {
                proof {
                    lemma_overflow_persists(digits, (i - start + 1) as int);
                }
                return 0;
            },
        }
        i = i + 1;
    }
    proof {
        assert(digits.take(i - start) =~= digits);
    }
    value
}

/// Once a prefix of a digit string overflows `usize`, the whole does; a
/// digit string past the first non-digit is no number at all.
proof fn lemma_overflow_persists(digits: Seq<char>, i: int)
    requires
        0 < i <= digits.len(),
        forall|j: int| 0 <= j < i ==> is_digit(#[trigger] digits[j]),
        decimal_value(digits.take(i)) > usize::MAX,
    ensures
        component_value_of_digits(digits) == 0,
{
    if forall|j: int| 0 <= j < digits.len() ==> is_digit(#[trigger] digits[j]) {
        lemma_decimal_monotone(digits, i);
    }
}

/// Value of a digit string as `component_value` reads it after the sign.
pub open spec fn component_value_of_digits(digits: Seq<char>) -> int {
    if digits.len() > 0 && (forall|i: int| 0 <= i < digits.len() ==> is_digit(#[trigger] digits[i]))
        && decimal_value(digits) <= usize::MAX {
        decimal_value(digits)
    } else {
        0
    }
}

/// Numeric form of a version string: the `.`-separated components before
/// the last `-` read as base-100 digits (`"1.2.3-dev"` gives `1_02_03`);
/// a component that is not a `usize` counts as 0.
pub fn version_number(version: &str) -> (number: usize)
    requires
        version_value(version@) <= usize::MAX,
    ensures
        number == version_value(version@),
{
    let chars = chars_of(version);
    let end = core_length(&chars);
    let ghost core = version_core(version@);
    let mut value: usize = 0;
    let mut open: Vec<char> = Vec::new();
    let mut i: usize = 0;
    proof {
        assert(core.take(0) =~= Seq::<char>::empty());
        lemma_fold_nonnegative(core);
    }
    while i < end
        invariant
            end <= chars@.len(),
            chars@ == version@,
            core == version_core(version@),
            core == chars@.take(end as int),
            i <= end,
            value == components_fold(core.take(i as int)).0,
            open@ == components_fold(core.take(i as int)).1,
            components_fold(core).0 * 100 + component_value(components_fold(core).1)
                <= usize::MAX,
        decreases end - i,
    {
        let c = chars[i];
        proof {
            assert(core.take(i + 1).drop_last() =~= core.take(i as int));
            assert(core[i as int] == c);
            lemma_fold_monotone(core, i + 1);
            lemma_fold_nonnegative(core);
            lemma_component_nonnegative(components_fold(core).1);
            lemma_component_nonnegative(open@);
        }
        if c == '.' {
            let component = parse_component(&open);
            value = value * 100 + component;
            open = Vec::new();
        } else {
            open.push(c);
        }
        i = i + 1;
    }
    proof {
        assert(core.take(end as int) =~= core);
    }
    let last = parse_component(&open);
    value * 100 + last
}

/// Whether `text` holds none of the characters `.` and `-`.
pub open spec fn plain_component(text: Seq<char>) -> bool {
    forall|i: int| 0 <= i < text.len() ==> #[trigger] text[i] != '.' && text[i] != '-'
}

/// The version text `x.y.z`.
pub open spec fn dotted(x: Seq<char>, y: Seq<char>, z: Seq<char>) -> Seq<char> {
    x + seq!['.'] + y + seq!['.'] + z
}

proof fn lemma_fold_plain(p: Seq<char>, q: Seq<char>)
    requires
        plain_component(q),
    ensures
        components_fold(p + q) == (components_fold(p).0, components_fold(p).1 + q),
    decreases q.len(),
{
    if q.len() == 0 {
        assert(p + q =~= p);
        assert(components_fold(p).1 + q =~= components_fold(p).1);
    } else {
        let shorter = q.drop_last();
        assert(plain_component(shorter)) by {
            assert forall|i: int| 0 <= i < shorter.len() implies #[trigger] shorter[i] != '.'
                && shorter[i] != '-' by {
                assert(shorter[i] == q[i]);
            }
        }
        lemma_fold_plain(p, shorter);
        assert((p + q).drop_last() =~= p + shorter);
        assert((p + q).last() == q.last());
        assert(q[q.len() - 1] != '.');
        assert((components_fold(p).1 + shorter).push(q.last()) =~= components_fold(p).1 + q);
    }
}

proof fn lemma_fold_dot(p: Seq<char>)
    ensures
        components_fold(p + seq!['.']) == (
            components_fold(p).0 * 100 + component_value(components_fold(p).1),
            Seq::<char>::empty(),
        ),
{
    assert((p + seq!['.']).drop_last() =~= p);
}

proof fn lemma_no_dash(text: Seq<char>)
    requires
        forall|i: int| 0 <= i < text.len() ==> #[trigger] text[i] != '-',
    ensures
        last_dash(text) is None,
    decreases text.len(),
{
    if text.len() > 0 {
        assert(text.last() == text[text.len() - 1]);
        lemma_no_dash(text.drop_last());
    }
}

proof fn lemma_suffix_dash(core: Seq<char>, suffix: Seq<char>)
    requires
        forall|i: int| 0 <= i < suffix.len() ==> #[trigger] suffix[i] != '-',
    ensures
        last_dash(core + seq!['-'] + suffix) == Some(core.len() as int),
    decreases suffix.len(),
{
    let text = core + seq!['-'] + suffix;
    if suffix.len() == 0 {
        assert(text.last() == '-');
    } else {
        assert(text.last() == suffix[suffix.len() - 1]);
        lemma_suffix_dash(core, suffix.drop_last());
        assert(text.drop_last() =~= core + seq!['-'] + suffix.drop_last());
    }
}

/// A version `x.y.z` whose components hold no `.` or `-`, optionally
/// followed by `-` and a suffix without `-`, reads as the components'
/// values in base 100.
pub proof fn lemma_dotted_value(x: Seq<char>, y: Seq<char>, z: Seq<char>, suffix: Option<Seq<char>>)
    requires
        plain_component(x),
        plain_component(y),
        plain_component(z),
        suffix matches Some(s) ==> forall|i: int| 0 <= i < s.len() ==> #[trigger] s[i] != '-',
    ensures
        version_value(
            match suffix {
                Some(s) => dotted(x, y, z) + seq!['-'] + s,
                None => dotted(x, y, z),
            },
        ) == component_value(x) * 10000 + component_value(y) * 100 + component_value(z),
{
    let core = dotted(x, y, z);
    let empty = Seq::<char>::empty();
    lemma_fold_plain(empty, x);
    assert(empty + x =~= x);
    assert(components_fold(empty) == (0int, empty));
    lemma_fold_dot(x);
    lemma_fold_plain(x + seq!['.'], y);
    lemma_fold_dot(x + seq!['.'] + y);
    lemma_fold_plain(x + seq!['.'] + y + seq!['.'], z);
    assert(empty + y =~= y);
    assert(empty + z =~= z);
    assert forall|i: int| 0 <= i < core.len() implies #[trigger] core[i] != '-' by {
        if i < x.len() {
            assert(core[i] == x[i]);
        } else if i == x.len() {
        } else if i < x.len() + 1 + y.len() {
            assert(core[i] == y[i - x.len() - 1]);
        } else if i == x.len() + 1 + y.len() {
        } else {
            assert(core[i] == z[i - x.len() - 2 - y.len()]);
        }
    }
    match suffix {
        Some(s) => {
            lemma_suffix_dash(core, s);
            assert((core + seq!['-'] + s).take(core.len() as int) =~= core);
        },
        None => {
            lemma_no_dash(core);
        },
    }
}

/// A higher version reports a higher number: for versions `x.y.z` (each
/// optionally followed by a `-` suffix) whose component values are below
/// 100, a lexicographically greater triple gives a greater value.
pub proof fn lemma_version_monotone(
    a: (Seq<char>, Seq<char>, Seq<char>),
    b: (Seq<char>, Seq<char>, Seq<char>),
    suffix_a: Option<Seq<char>>,
    suffix_b: Option<Seq<char>>,
)
    requires
        plain_component(a.0) && plain_component(a.1) && plain_component(a.2),
        plain_component(b.0) && plain_component(b.1) && plain_component(b.2),
        suffix_a matches Some(s) ==> forall|i: int| 0 <= i < s.len() ==> #[trigger] s[i] != '-',
        suffix_b matches Some(s) ==> forall|i: int| 0 <= i < s.len() ==> #[trigger] s[i] != '-',
        component_value(a.1) < 100 && component_value(a.2) < 100,
        component_value(b.1) < 100 && component_value(b.2) < 100,
        ({
            let (ax, ay, az) = (component_value(a.0), component_value(a.1), component_value(a.2));
            let (bx, by, bz) = (component_value(b.0), component_value(b.1), component_value(b.2));
            ax < bx || (ax == bx && ay < by) || (ax == bx && ay == by && az < bz)
        }),
    ensures
        version_value(
            match suffix_a {
                Some(s) => dotted(a.0, a.1, a.2) + seq!['-'] + s,
                None => dotted(a.0, a.1, a.2),
            },
        ) < version_value(
            match suffix_b {
                Some(s) => dotted(b.0, b.1, b.2) + seq!['-'] + s,
                None => dotted(b.0, b.1, b.2),
            },
        ),
{
    lemma_dotted_value(a.0, a.1, a.2, suffix_a);
    lemma_dotted_value(b.0, b.1, b.2, suffix_b);
    lemma_component_nonnegative(a.1);
    lemma_component_nonnegative(a.2);
    lemma_component_nonnegative(b.1);
    lemma_component_nonnegative(b.2);
}

/// Number of leading cells of `cells` up to its last non-space character.
pub open spec fn content_length(cells: Seq<Cell>) -> nat
    decreases cells.len(),
{
    if cells.len() == 0 {
        0
    } else if cells.last().ch != ' ' {
        cells.len()
    } else {
        content_length(cells.drop_last())
    }
}

/// Occupied length of a row: all of it when its last cell wraps onto the
/// next row, else up to its last non-space character.
pub open spec fn line_length(cells: Seq<Cell>) -> nat {
    if cells.len() > 0 && cells.last().flags.has(Flags::WRAPLINE) {
        cells.len()
    } else {
        content_length(cells)
    }
}

/// Whether a cell only pads a double-width character.
pub open spec fn pads_wide(cell: Cell) -> bool {
    cell.flags.has_any(Flags::WIDE_CHAR_SPACER | Flags::LEADING_WIDE_CHAR_SPACER)
}

/// Characters of the cells `from..to` and whether a tab is still being
/// expanded after them: once a tab is seen, following spaces are skipped up
/// to the next tab stop or other character; padding cells give nothing.
pub open spec fn line_chars(cells: Seq<Cell>, tabs: Seq<bool>, from: int, to: int) -> (Seq<char>, bool)
    decreases to - from,
{
    if to <= from {
        (Seq::empty(), false)
    } else {
        let (text, tab_mode) = line_chars(cells, tabs, from, to - 1);
        let cell = cells[to - 1];
        if tab_mode && !(tabs[to - 1] || cell.ch != ' ') {
            (text, true)
        } else {
            (if pads_wide(cell) { text } else { text.push(cell.ch) }, cell.ch == '\t')
        }
    }
}

/// Abstract content of a [`Surface`]: its grid, its tab stops and the
/// attributes that newly written cells take.
pub ghost struct SurfaceView {
    pub grid: GridView,
    pub tabs: Seq<bool>,
    pub template: CellAttributes,
    pub cursor: SurfaceCursor,
    pub mode: u32,
    pub scroll_top: usize,
    pub scroll_bottom: usize,
    pub colors: Seq<Option<Rgb>>,
    pub cursor_style: Option<CursorStyle>,
}

/// Cursor of a surface: a screen line (0 = top) and column, and whether the
/// next printed character first wraps to the next line.
#[derive(Clone, Copy, Debug, PartialEq, Eq, Structural)]
pub struct SurfaceCursor {
    pub line: usize,
    pub column: usize,
    pub input_needs_wrap: bool,
}

/// Displayed width of a character as `UnicodeWidthChar::width` gives it
/// (`None` for control characters).
pub uninterp spec fn unicode_char_width(c: char) -> Option<usize>;

/// Displayed width of `c` (`UnicodeWidthChar::width`): printable ASCII is one
/// column, C0 and C1 control characters have none, and no width exceeds 255
/// (the tables hold a byte).
#[verifier::external_body]
fn char_width(c: char) -> (width: Option<usize>)
    ensures
        width == unicode_char_width(c),
        (' ' <= c && c < '\u{7F}') ==> width == Some(1usize),
        (c < ' ' || ('\u{7F}' <= c && c < '\u{A0}')) ==> width is None,
        width matches Some(w) ==> w <= 255,
{
    c.width()
}

/// The cell in column `column` of logical row `row`.
pub open spec fn cell_in(g: GridView, row: int, column: int) -> Cell {
    g.row(row).cells[column]
}

/// The grid with the cell in column `column` of logical row `row` replaced.
pub open spec fn with_cell_in(g: GridView, row: int, column: int, cell: Cell) -> GridView {
    g.with_slot(g.slot(row), RowView { cells: g.row(row).cells.update(column, cell), ..g.row(row) })
}

/// The grid with the flags of one cell replaced.
pub open spec fn with_flags_in(g: GridView, row: int, column: int, flags: Flags) -> GridView {
    with_cell_in(g, row, column, Cell { flags, ..cell_in(g, row, column) })
}

/// A cell that no longer holds a wide character: blank, without the wide flag.
pub open spec fn cleared_wide(cell: Cell) -> Cell {
    Cell { ch: ' ', flags: cell.flags.without_bits(Flags::WIDE_CHAR), ..cell }
}

/// Logical row of the cursor.
pub open spec fn cursor_row(s: SurfaceView) -> int {
    s.grid.history_size() + s.cursor.line
}

/// The surface with `c` written at the cursor with `flags` and the cursor's
/// attributes; overwriting half of a wide character first clears its other
/// half, and a leading spacer at the end of the line above when the cursor is
/// in one of the first two columns.
pub open spec fn written(s: SurfaceView, c: char, flags: Flags) -> SurfaceView {
    let g = s.grid;
    let row = cursor_row(s);
    let col = s.cursor.column as int;
    let last = g.columns - 1;
    let cell = cell_in(g, row, col);
    let cleared = if cell.flags.has_any(Flags::WIDE_CHAR | Flags::WIDE_CHAR_SPACER) {
        let partner = if cell.flags.has(Flags::WIDE_CHAR) && col < last {
            with_flags_in(g, row, col + 1, cell_in(g, row, col + 1).flags.without_bits(Flags::WIDE_CHAR_SPACER))
        } else if col > 0 {
            with_cell_in(g, row, col - 1, cleared_wide(cell_in(g, row, col - 1)))
        } else {
            g
        };
        if col <= 1 && row > 0 {
            with_flags_in(
                partner,
                row - 1,
                last,
                cell_in(partner, row - 1, last).flags.without_bits(Flags::LEADING_WIDE_CHAR_SPACER),
            )
        } else {
            partner
        }
    } else {
        g
    };
    SurfaceView {
        grid: with_cell_in(cleared, row, col, Cell { ch: c, attributes: s.template, flags, touched: true }),
        ..s
    }
}

/// The surface with its scroll region scrolled up by `count` lines (at most
/// the region's height); new lines take the cursor's attributes.
pub open spec fn region_up(s: SurfaceView, count: nat) -> SurfaceView {
    let height = s.scroll_bottom - s.scroll_top;
    let lines: nat = if count < height { count } else { height as nat };
    if lines == 0 {
        s
    } else {
        SurfaceView {
            grid: s.grid.scrolled_up(s.scroll_top as int, s.scroll_bottom - 1, lines, s.template),
            ..s
        }
    }
}

/// The surface after a line feed: at the bottom of the scroll region the
/// region scrolls up, else the cursor moves down within the screen.
pub open spec fn line_fed(s: SurfaceView) -> SurfaceView {
    let next = s.cursor.line + 1;
    if next == s.scroll_bottom {
        region_up(s, 1)
    } else if next < s.grid.visible_lines {
        SurfaceView { cursor: SurfaceCursor { line: next as usize, ..s.cursor }, ..s }
    } else {
        s
    }
}

/// The surface after wrapping input to the next line (when line wrapping is
/// on): the cursor cell is marked as wrapping, the cursor moves down (at the
/// region's bottom by a line feed) to the first column.
pub open spec fn wrapped(s: SurfaceView) -> SurfaceView {
    if !modes_contain(s.mode, SurfaceMode::LINE_WRAP) {
        s
    } else {
        let row = cursor_row(s);
        let col = s.cursor.column as int;
        let marked = SurfaceView {
            grid: with_flags_in(s.grid, row, col, cell_in(s.grid, row, col).flags.with_bits(Flags::WRAPLINE)),
            ..s
        };
        let moved = if s.cursor.line + 1 >= s.scroll_bottom {
            line_fed(marked)
        } else {
            SurfaceView { cursor: SurfaceCursor { line: (s.cursor.line + 1) as usize, ..s.cursor }, ..marked }
        };
        SurfaceView { cursor: SurfaceCursor { column: 0, input_needs_wrap: false, ..moved.cursor }, ..moved }
    }
}

/// `cells` after exchanging each cell `c + width` with cell `c`, for `c`
/// from `to - 1` down to `from`.
pub open spec fn shifted(cells: Seq<Cell>, width: int, from: int, to: int) -> Seq<Cell>
    decreases to - from,
{
    if to <= from {
        cells
    } else {
        let c = to - 1;
        shifted(cells.update(c + width, cells[c]).update(c, cells[c + width]), width, from, c)
    }
}

/// In insert mode, when `width` more columns fit after the cursor, the cells
/// from the cursor on move right by `width`.
pub open spec fn made_room(s: SurfaceView, width: int) -> SurfaceView {
    let g = s.grid;
    let col = s.cursor.column as int;
    if modes_contain(s.mode, SurfaceMode::INSERT) && col + width < g.columns {
        let row = cursor_row(s);
        SurfaceView {
            grid: g.with_slot(
                g.slot(row),
                RowView { cells: shifted(g.row(row).cells, width, col, g.columns - width), ..g.row(row) },
            ),
            ..s
        }
    } else {
        s
    }
}

/// The cursor moves one column right, or stays at the last column and waits
/// to wrap.
pub open spec fn advanced(s: SurfaceView) -> SurfaceView {
    if s.cursor.column + 1 < s.grid.columns {
        SurfaceView { cursor: SurfaceCursor { column: (s.cursor.column + 1) as usize, ..s.cursor }, ..s }
    } else {
        SurfaceView { cursor: SurfaceCursor { input_needs_wrap: true, ..s.cursor }, ..s }
    }
}

/// A wide character at the cursor with its spacer in the next column.
pub open spec fn wide_written(s: SurfaceView, c: char) -> SurfaceView {
    let first = written(s, c, Flags::none().with_bits(Flags::WIDE_CHAR));
    let next = SurfaceView {
        cursor: SurfaceCursor { column: (first.cursor.column + 1) as usize, ..first.cursor },
        ..first
    };
    advanced(written(next, ' ', Flags::none().with_bits(Flags::WIDE_CHAR_SPACER)))
}

/// The surface with a pending wrap carried out.
pub open spec fn ready(s: SurfaceView) -> SurfaceView {
    if s.cursor.input_needs_wrap { wrapped(s) } else { s }
}

/// Printing a wide character: when it does not fit in the last column it
/// moves to the next line behind a leading spacer, or, with line wrapping
/// off, only leaves the cursor waiting to wrap.
pub open spec fn wide_printed(s: SurfaceView, c: char) -> SurfaceView {
    if s.cursor.column + 1 >= s.grid.columns {
        if modes_contain(s.mode, SurfaceMode::LINE_WRAP) {
            let padded = written(s, ' ', Flags::none().with_bits(Flags::LEADING_WIDE_CHAR_SPACER));
            wide_written(wrapped(padded), c)
        } else {
            SurfaceView { cursor: SurfaceCursor { input_needs_wrap: true, ..s.cursor }, ..s }
        }
    } else {
        wide_written(s, c)
    }
}

/// The surface after printing `c` of displayed width `width`: control
/// characters and zero-width characters change nothing; otherwise a pending
/// wrap happens first, insert mode makes room, and the character is written
/// at the cursor, which advances. A wide character that does not fit in the
/// last column is moved to the next line behind a leading spacer, or, with
/// line wrapping off, only leaves the cursor waiting to wrap.
pub open spec fn printed(s: SurfaceView, c: char, width: Option<usize>) -> SurfaceView {
    match width {
        None => s,
        Some(w) => if w == 0 {
            s
        } else {
            let roomy = made_room(ready(s), w as int);
            if w == 1 {
                advanced(written(roomy, c, Flags::none()))
            } else {
                wide_printed(roomy, c)
            }
        },
    }
}

/// The cell at a grid point.
pub open spec fn cell_at_point(g: GridView, point: Point) -> Cell {
    cell_in(g, line_row(g, point.line.0 as int), point.column.0 as int)
}

/// The point one cell before `point` in reading order, staying at the
/// top-left cell of the grid.
pub open spec fn previous_point(g: GridView, point: Point) -> Point {
    if point.column.0 > 0 {
        Point { line: point.line, column: Column((point.column.0 - 1) as usize) }
    } else if point.line.0 - 1 >= -(g.history_size() as int) {
        Point { line: Line((point.line.0 - 1) as i32), column: Column((g.columns - 1) as usize) }
    } else {
        Point { line: point.line, column: Column(0) }
    }
}

/// The point at the end of the wide character under `point` in
/// `direction`: to the right, past a leading spacer onto the wrapped
/// character's second column, or onto a wide character's spacer (within the
/// line); to the left, from a spacer onto its character and from a wide
/// character onto a leading spacer just before it.
pub open spec fn expanded(g: GridView, point: Point, direction: Direction) -> Point {
    let flags = cell_at_point(g, point).flags;
    match direction {
        Direction::Right => if flags.has(Flags::LEADING_WIDE_CHAR_SPACER) {
            Point { line: Line((point.line.0 + 1) as i32), column: Column(1) }
        } else if flags.has(Flags::WIDE_CHAR) {
            Point {
                column: Column(if point.column.0 + 1 < g.columns { (point.column.0 + 1) as usize } else { (g.columns - 1) as usize }),
                ..point
            }
        } else {
            point
        },
        Direction::Left => if flags.has_any(Flags::WIDE_CHAR | Flags::WIDE_CHAR_SPACER) {
            let at = if flags.has(Flags::WIDE_CHAR_SPACER) {
                Point { column: Column((point.column.0 - 1) as usize), ..point }
            } else {
                point
            };
            let before = previous_point(g, at);
            if cell_at_point(g, before).flags.has(Flags::LEADING_WIDE_CHAR_SPACER) {
                before
            } else {
                at
            }
        } else {
            point
        },
    }
}

/// The cell after `point` in reading order, if `point` is not the last
/// cell of the screen.
pub open spec fn next_point(g: GridView, point: Point) -> Option<Point> {
    if point.column.0 + 1 < g.columns && point.column.0 < usize::MAX {
        Some(Point { column: Column((point.column.0 + 1) as usize), ..point })
    } else if point.line.0 + 1 < g.visible_lines && point.line.0 < i32::MAX {
        Some(Point { line: Line((point.line.0 + 1) as i32), column: Column(0) })
    } else {
        None
    }
}

/// The cell before `point` in reading order, if `point` is not the first
/// cell of the history.
pub open spec fn prev_point(g: GridView, point: Point) -> Option<Point> {
    if point.column.0 > 0 {
        Some(Point { column: Column((point.column.0 - 1) as usize), ..point })
    } else if point.line.0 > -(g.history_size() as int) && point.line.0 > i32::MIN {
        Some(Point { line: Line((point.line.0 - 1) as i32), column: Column((g.columns - 1) as usize) })
    } else {
        None
    }
}

/// Whether the cell at `point` holds one of `needles` (padding cells hold none).
pub open spec fn holds_needle(g: GridView, point: Point, needles: Seq<char>) -> bool {
    !pads_wide(cell_at_point(g, point)) && needles.contains(cell_at_point(g, point).ch)
}

/// Whether `point` ends a line that does not wrap.
pub open spec fn ends_line(g: GridView, point: Point) -> bool {
    point.column.0 == g.columns - 1 && !cell_at_point(g, point).flags.has(Flags::WRAPLINE)
}

/// Scan right from after `point` for a needle, within the wrapped line:
/// the first cell holding one, or the last cell looked at.
pub open spec fn right_scan(g: GridView, point: Point, needles: Seq<char>) -> Result<Point, Point>
    decreases g.visible_lines - point.line.0, g.columns - point.column.0,
{
    match next_point(g, point) {
        None => Err(point),
        Some(next) => if holds_needle(g, next, needles) {
            Ok(next)
        } else if ends_line(g, next) {
            Err(next)
        } else {
            right_scan(g, next, needles)
        },
    }
}

/// Scan left from before `point` for a needle, within the wrapped line:
/// the first cell holding one, or the last cell looked at.
pub open spec fn left_scan(g: GridView, point: Point, needles: Seq<char>) -> Result<Point, Point>
    decreases point.line.0 + g.history_size(), point.column.0,
{
    match prev_point(g, point) {
        None => Err(point),
        Some(prev) => if ends_line(g, prev) {
            Err(point)
        } else if holds_needle(g, prev, needles) {
            Ok(prev)
        } else {
            left_scan(g, prev, needles)
        },
    }
}

/// The first cell after `point` in reading order that is no padding cell.
pub open spec fn next_unpadded(g: GridView, point: Point) -> Option<Point>
    decreases g.visible_lines - point.line.0, g.columns - point.column.0,
{
    match next_point(g, point) {
        None => None,
        Some(next) => if !pads_wide(cell_at_point(g, next)) {
            Some(next)
        } else {
            next_unpadded(g, next)
        },
    }
}

/// Left end of the semantic block around `point`: just after the nearest
/// delimiter to the left (skipping padding cells), else where the search
/// stopped.
pub open spec fn semantic_left(g: GridView, point: Point, delimiters: Seq<char>) -> Point {
    match inline_left(g, point, delimiters) {
        Ok(found) => match next_unpadded(g, found) {
            Some(next) => next,
            None => found,
        },
        Err(stopped) => stopped,
    }
}

/// Right end of the semantic block around `point`: just before the nearest
/// delimiter to the right, else where the search stopped.
pub open spec fn semantic_right(g: GridView, point: Point, delimiters: Seq<char>) -> Point {
    match inline_right(g, point, delimiters) {
        Ok(found) => match prev_point(g, found) {
            Some(prev) => prev,
            None => found,
        },
        Err(stopped) => stopped,
    }
}

/// The bracket matching `c` and whether it lies forward: `(`, `[`, `{`
/// and `<` close forward, their closing brackets open backward.
pub open spec fn bracket_partner(c: char) -> Option<(bool, char)> {
    if c == '(' {
        Some((true, ')'))
    } else if c == ')' {
        Some((false, '('))
    } else if c == '[' {
        Some((true, ']'))
    } else if c == ']' {
        Some((false, '['))
    } else if c == '{' {
        Some((true, '}'))
    } else if c == '}' {
        Some((false, '{'))
    } else if c == '<' {
        Some((true, '>'))
    } else if c == '>' {
        Some((false, '<'))
    } else {
        None
    }
}

/// The depth count after a cell: one more for another `start` bracket, one
/// less for an unmatched `end` bracket.
pub open spec fn bracket_depth(ch: char, start: char, end: char, skip: usize) -> usize {
    if ch == start {
        if skip < usize::MAX { (skip + 1) as usize } else { skip }
    } else if ch == end {
        (skip - 1) as usize
    } else {
        skip
    }
}

/// Scan forward from after `point` for the `end` bracket at depth zero.
pub open spec fn bracket_forward(g: GridView, point: Point, start: char, end: char, skip: usize) -> Option<Point>
    decreases g.visible_lines - point.line.0, g.columns - point.column.0,
{
    match next_point(g, point) {
        None => None,
        Some(next) => {
            let ch = cell_at_point(g, next).ch;
            if ch == end && skip == 0 {
                Some(next)
            } else {
                bracket_forward(g, next, start, end, bracket_depth(ch, start, end, skip))
            }
        },
    }
}

/// Scan backward from before `point` for the `end` bracket at depth zero.
pub open spec fn bracket_backward(g: GridView, point: Point, start: char, end: char, skip: usize) -> Option<Point>
    decreases point.line.0 + g.history_size(), point.column.0,
{
    match prev_point(g, point) {
        None => None,
        Some(prev) => {
            let ch = cell_at_point(g, prev).ch;
            if ch == end && skip == 0 {
                Some(prev)
            } else {
                bracket_backward(g, prev, start, end, bracket_depth(ch, start, end, skip))
            }
        },
    }
}

/// The bracket matching the one at `point`, skipping nested pairs; none
/// when the cell holds no bracket or its partner is missing.
pub open spec fn matching_bracket(g: GridView, point: Point) -> Option<Point> {
    let start = cell_at_point(g, point).ch;
    match bracket_partner(start) {
        None => None,
        Some((forward, end)) => if forward {
            bracket_forward(g, point, start, end, 0)
        } else {
            bracket_backward(g, point, start, end, 0)
        },
    }
}

/// Lines to scroll the display by (positive into history) so that `point`
/// comes into view, or none when it is already visible.
pub open spec fn scroll_needed(g: GridView, point: Point) -> Option<int> {
    let offset = g.display_offset as int;
    let screen = g.visible_lines as int;
    if point.line.0 < -offset {
        Some(-(point.line.0 + offset))
    } else if point.line.0 >= screen - offset {
        Some(-(point.line.0 + offset - screen + 1))
    } else {
        None
    }
}

/// Whether the point of a search result lies on the grid.
pub open spec fn on_grid_result(g: GridView, found: Result<Point, Point>) -> bool {
    let point = match found {
        Ok(point) => point,
        Err(point) => point,
    };
    line_in_grid(g, point.line.0 as int) && point.column.0 < g.columns
}

/// `point` moved down to the first history line when it lies above it.
pub open spec fn clamped_to_top(g: GridView, point: Point) -> Point {
    if point.line.0 < -(g.history_size() as int) {
        Point { line: Line(-(g.history_size() as int) as i32), ..point }
    } else {
        point
    }
}

/// Search right of `point` (within its wrapped line) for one of `needles`.
pub open spec fn inline_right(g: GridView, point: Point, needles: Seq<char>) -> Result<Point, Point> {
    let start = clamped_to_top(g, point);
    if ends_line(g, start) { Err(start) } else { right_scan(g, start, needles) }
}

/// Search left of `point` (within its wrapped line) for one of `needles`.
pub open spec fn inline_left(g: GridView, point: Point, needles: Seq<char>) -> Result<Point, Point> {
    left_scan(g, clamped_to_top(g, point), needles)
}

/// Whether a point lies on a line of the grid within the screen's bottom.
pub open spec fn point_on_grid(g: GridView, point: Point) -> bool {
    &&& point.line.0 < g.visible_lines
    &&& point.column.0 < g.columns
    &&& g.history_size() <= i32::MAX
    &&& 0 < g.visible_lines <= i32::MAX
}

/// Screen line that `goto` moves the cursor to: relative to the scroll
/// region in origin mode, clamped to the region (or the screen) and to the
/// first line.
pub open spec fn goto_line(s: SurfaceView, line: int) -> int {
    let origin = modes_contain(s.mode, SurfaceMode::ORIGIN);
    let offset: int = if origin { s.scroll_top as int } else { 0 };
    let max_y: int = if origin { s.scroll_bottom - 1 } else { s.grid.visible_lines - 1 };
    let target = line + offset;
    let bounded = if target < max_y { target } else { max_y };
    if bounded < 0 { 0 } else { bounded }
}

/// Snapshot cells of displayed row `r` (0 = top of the viewport), at their
/// grid points.
pub open spec fn displayed_row_cells(g: GridView, r: int) -> Seq<SnapshotCell> {
    Seq::new(
        g.columns,
        |c: int|
            SnapshotCell {
                point: Point { line: Line((r - g.display_offset) as i32), column: Column(c as usize) },
                cell: g.row(g.first_displayed() + r).cells[c],
            },
    )
}

/// Snapshot cells of the first `n` displayed rows, row by row.
pub open spec fn displayed_cells(g: GridView, n: int) -> Seq<SnapshotCell>
    decreases n,
{
    if n <= 0 {
        Seq::empty()
    } else {
        displayed_cells(g, n - 1) + displayed_row_cells(g, n - 1)
    }
}

/// Whether a surface state is consistent: every row is as wide as the grid,
/// the cursor and the scroll region lie on the screen.
pub open spec fn surface_ok(s: SurfaceView) -> bool {
    &&& crate::grid::grid_wf(s.grid)
    &&& s.tabs.len() == s.grid.columns
    &&& row_widths(s.grid, s.grid.columns)
    &&& s.grid.inner.len() > 0 || s.grid.len == 0
    &&& forall|i: int| 0 <= i < s.grid.len ==> (#[trigger] s.grid.row(i)).cells.len() == s.grid.columns
    &&& s.cursor.line < s.grid.visible_lines || s.cursor.line == 0
    &&& s.cursor.column < s.grid.columns || s.cursor.column == 0
    &&& s.scroll_top <= s.scroll_bottom <= s.grid.visible_lines
}

/// The cell attributes `template` after one graphic rendition attribute:
/// colors are replaced, `Reset` restores the default colors and clears every
/// style (the hyperlink stays), each style is set or cleared, an underline
/// replaces any other underline, and blink attributes change nothing.
pub open spec fn applied(template: CellAttributes, attribute: CharacterAttribute) -> CellAttributes {
    match attribute {
        CharacterAttribute::Foreground(color) => CellAttributes { foreground: color, ..template },
        CharacterAttribute::Background(color) => CellAttributes { background: color, ..template },
        CharacterAttribute::UnderlineColor(color) => CellAttributes { underline_color: color, ..template },
        CharacterAttribute::Reset => CellAttributes {
            bold: false,
            dim: false,
            italic: false,
            underline: crate::cell::CellUnderline::Off,
            blink: crate::cell::CellBlink::Off,
            reverse: false,
            hidden: false,
            strike: false,
            foreground: Color::Std(StdColor::Foreground),
            background: Color::Std(StdColor::Background),
            underline_color: None,
            ..template
        },
        CharacterAttribute::Reverse => CellAttributes { reverse: true, ..template },
        CharacterAttribute::CancelReverse => CellAttributes { reverse: false, ..template },
        CharacterAttribute::Bold => CellAttributes { bold: true, ..template },
        CharacterAttribute::CancelBold => CellAttributes { bold: false, ..template },
        CharacterAttribute::Dim => CellAttributes { dim: true, ..template },
        CharacterAttribute::CancelBoldDim => CellAttributes { bold: false, dim: false, ..template },
        CharacterAttribute::Italic => CellAttributes { italic: true, ..template },
        CharacterAttribute::CancelItalic => CellAttributes { italic: false, ..template },
        CharacterAttribute::Underline => CellAttributes {
            underline: crate::cell::CellUnderline::Single,
            ..template
        },
        CharacterAttribute::DoubleUnderline => CellAttributes {
            underline: crate::cell::CellUnderline::Double,
            ..template
        },
        CharacterAttribute::Undercurl => CellAttributes {
            underline: crate::cell::CellUnderline::Curl,
            ..template
        },
        CharacterAttribute::DottedUnderline => CellAttributes {
            underline: crate::cell::CellUnderline::Dotted,
            ..template
        },
        CharacterAttribute::DashedUnderline => CellAttributes {
            underline: crate::cell::CellUnderline::Dashed,
            ..template
        },
        CharacterAttribute::CancelUnderline => CellAttributes {
            underline: crate::cell::CellUnderline::Off,
            ..template
        },
        CharacterAttribute::Hidden => CellAttributes { hidden: true, ..template },
        CharacterAttribute::CancelHidden => CellAttributes { hidden: false, ..template },
        CharacterAttribute::Strike => CellAttributes { strike: true, ..template },
        CharacterAttribute::CancelStrike => CellAttributes { strike: false, ..template },
        _ => template,
    }
}

/// Row of the grid that holds `line` (0 = top screen line, negative lines
/// in the history).
pub open spec fn line_row(g: GridView, line: int) -> int {
    g.history_size() + line
}

/// Whether `line` is a line of the grid.
pub open spec fn line_in_grid(g: GridView, line: int) -> bool {
    0 <= line_row(g, line) < g.len
}

/// Text of the columns `start..end` of `line`, as a selection copies it:
/// a selected trailing half includes its wide character, the occupied
/// part of the line (at most up to `end`) is read with tabs collapsed, a
/// newline ends a line selected to its last column unless it wraps, and a
/// wide character wrapped to the next line is included when asked.
pub open spec fn line_text(
    g: GridView,
    tabs: Seq<bool>,
    line: int,
    start: int,
    end: int,
    include_wrapped_wide: bool,
) -> Seq<char> {
    let cells = g.row(line_row(g, line)).cells;
    let length = if line_length(cells) <= end + 1 { line_length(cells) as int } else { end + 1 };
    let first = if cells[start].flags.has(Flags::WIDE_CHAR_SPACER) { start - 1 } else { start };
    let body = line_chars(cells, tabs, first, length).0;
    let ended = if end >= g.columns - 1 && (length == 0 || !cells[length - 1].flags.has(
        Flags::WRAPLINE,
    )) {
        body.push('\n')
    } else {
        body
    };
    if length == g.columns && length >= 2 && cells[length - 1].flags.has(
        Flags::LEADING_WIDE_CHAR_SPACER,
    ) && include_wrapped_wide {
        ended.push(g.row(line_row(g, line) - 1).cells[0].ch)
    } else {
        ended
    }
}

/// Whether `line_text` reads only cells that exist: the start column lies in
/// the row (and is no trailing half at column 0), and the line before is
/// in the grid where a wrapped wide character is fetched from it.
pub open spec fn line_readable(g: GridView, line: int, start: int, end: int, include_wrapped_wide: bool) -> bool {
    let cells = g.row(line_row(g, line)).cells;
    let length = if line_length(cells) <= end + 1 { line_length(cells) as int } else { end + 1 };
    &&& line_in_grid(g, line)
    &&& 0 <= start < g.columns
    &&& end + 1 <= usize::MAX
    &&& !(start == 0 && cells[start].flags.has(Flags::WIDE_CHAR_SPACER))
    &&& (length == g.columns && length >= 2 && cells[length - 1].flags.has(
        Flags::LEADING_WIDE_CHAR_SPACER,
    ) && include_wrapped_wide) ==> line_in_grid(g, line - 1)
}

/// Text of the lines `start.line..=end.line`, from the start column on the
/// first line to the end column on the last, without a final newline.
pub open spec fn lines_text(g: GridView, tabs: Seq<bool>, start: Point, end: Point, upto: int) -> Seq<char>
    decreases upto - start.line.0 + 1,
{
    if upto < start.line.0 {
        Seq::empty()
    } else {
        lines_text(g, tabs, start, end, upto - 1) + line_text(
            g,
            tabs,
            upto,
            bounds_first(start, upto),
            bounds_last(g, end, upto),
            upto == end.line.0,
        )
    }
}

/// `text` without one trailing newline.
pub open spec fn strip_newline(text: Seq<char>) -> Seq<char> {
    if text.len() > 0 && text.last() == '\n' {
        text.drop_last()
    } else {
        text
    }
}

/// Text between two points of a surface, as a selection copies it.
pub open spec fn bounds_text(g: GridView, tabs: Seq<bool>, start: Point, end: Point) -> Seq<char> {
    strip_newline(lines_text(g, tabs, start, end, end.line.0 as int))
}

/// Whether every line read by `bounds_text` can be read.
pub open spec fn bounds_readable(g: GridView, start: Point, end: Point) -> bool {
    forall|line: int| start.line.0 <= line <= end.line.0 ==> #[trigger] bounds_line_readable(g, start, end, line)
}

/// First column of `line` within the bounds starting at `start`.
pub open spec fn bounds_first(start: Point, line: int) -> int {
    if line == start.line.0 { start.column.0 as int } else { 0 }
}

/// Last column of `line` within the bounds ending at `end`.
pub open spec fn bounds_last(g: GridView, end: Point, line: int) -> int {
    if line == end.line.0 { end.column.0 as int } else { g.columns - 1 }
}

/// Whether `line` of the bounds can be read.
pub open spec fn bounds_line_readable(g: GridView, start: Point, end: Point, line: int) -> bool {
    line_readable(g, line, bounds_first(start, line), bounds_last(g, end, line), line == end.line.0)
}

/// The text content of a terminal screen with its scrollback, and its tab
/// stops.
pub struct Surface {
    grid: Grid,
    tabs: TabStops,
    template: CellAttributes,
    cursor: SurfaceCursor,
    mode: SurfaceMode,
    scroll_top: usize,
    scroll_bottom: usize,
    colors: Colors,
    cursor_style: Option<CursorStyle>,
    config: SurfaceConfig,
}

impl View for Surface {
    type V = SurfaceView;

    closed spec fn view(&self) -> SurfaceView {
        SurfaceView {
            grid: self.grid@,
            tabs: self.tabs@,
            template: self.template,
            cursor: self.cursor,
            mode: self.mode@,
            scroll_top: self.scroll_top,
            scroll_bottom: self.scroll_bottom,
            colors: self.colors@,
            cursor_style: self.cursor_style,
        }
    }
}

impl Surface {
    /// The grid is well formed, every row is as wide as the grid, and there
    /// is a tab stop flag for every column.
    pub closed spec fn wf(&self) -> bool {
        &&& self.grid.wf()
        &&& surface_ok(self@)
    }

    /// A blank surface of `screen_lines` lines of `columns` cells, keeping up
    /// to the configured amount of history.
    pub fn new(config: SurfaceConfig, columns: usize, screen_lines: usize) -> (surface: Self)
        ensures
            surface.wf(),
            surface@.grid.columns == columns,
            surface@.grid.visible_lines == screen_lines,
            surface@.grid.len == screen_lines,
            surface@.grid.max_scroll_limit == config.scrolling_history,
            surface@.grid.display_offset == 0,
            forall|i: int| 0 <= i < screen_lines ==> #[trigger] surface@.grid.row(i) == crate::grid::RowView::fresh(
                columns as nat,
                crate::cell::default_attributes(),
            ),
            surface@.tabs == Seq::new(columns as nat, |i: int| initial_tabstop(i)),
            surface@.template == crate::cell::default_attributes(),
            surface@.cursor == (SurfaceCursor { line: 0, column: 0, input_needs_wrap: false }),
            surface@.mode == 0x18081u32,
            surface@.scroll_top == 0,
            surface@.scroll_bottom == screen_lines,
            surface@.colors == Seq::new(COUNT as nat, |_i: int| None::<Rgb>),
            surface@.cursor_style is None,
            surface.config() == config,
    {
        let template = CellAttributes::default();
        let grid = Grid::new(screen_lines, columns, config.scrolling_history, &template);
        let tabs = TabStops::new(columns);
        let surface = Surface {
            grid,
            tabs,
            template: CellAttributes::default(),
            cursor: SurfaceCursor { line: 0, column: 0, input_needs_wrap: false },
            mode: SurfaceMode::default(),
            scroll_top: 0,
            scroll_bottom: screen_lines,
            colors: Colors::new(),
            cursor_style: None,
            config,
        };
        proof {
            assert forall|i: int| 0 <= i < surface.grid@.len implies (#[trigger] surface.grid@.row(
                i,
            )).cells.len() == surface.grid@.columns by {
                assert(surface.grid@.slot(i) == i) by {
                    vstd::arithmetic::div_mod::lemma_small_mod(i as nat, screen_lines as nat);
                }
            }
            assert forall|i: int| 0 <= i < screen_lines implies #[trigger] surface.grid@.row(i)
                == crate::grid::RowView::fresh(columns as nat, crate::cell::default_attributes()) by {
                assert(surface.grid@.slot(i) == i) by {
                    vstd::arithmetic::div_mod::lemma_small_mod(i as nat, screen_lines as nat);
                }
            }
        }
        surface
    }

    /// The configuration the surface was created with.
    pub closed spec fn config(&self) -> SurfaceConfig {
        self.config
    }

    /// The active grid.
    pub fn grid(&self) -> (grid: &Grid)
        ensures
            grid@ == self@.grid,
            self.wf() ==> grid.wf(),
    {
        &self.grid
    }

    /// Cursor position and pending wrap.
    pub fn cursor(&self) -> (cursor: SurfaceCursor)
        ensures
            cursor == self@.cursor,
    {
        self.cursor
    }

    /// Active terminal modes.
    pub fn mode(&self) -> (mode: SurfaceMode)
        ensures
            mode@ == self@.mode,
    {
        self.mode
    }

    /// Logical row of the cursor.
    fn cursor_row_index(&self) -> (row: usize)
        requires
            self.wf(),
            self@.grid.visible_lines > 0,
        ensures
            row == cursor_row(self@),
            row < self@.grid.len,
    {
        let total = self.grid.total_lines();
        self.grid.history_size() + self.cursor.line
    }

    /// Flags of the cell in column `column` of logical row `row`.
    fn flags_at(&self, row: usize, column: usize) -> (flags: Flags)
        requires
            self.wf(),
            row < self@.grid.len,
            column < self@.grid.columns,
        ensures
            flags == cell_in(self@.grid, row as int, column as int).flags,
    {
        self.grid.logical_row(row).cell(column).flags
    }

    /// Replace the cell in column `column` of logical row `row`.
    fn set_cell_at(&mut self, row: usize, column: usize, cell: Cell)
        requires
            old(self).wf(),
            row < old(self)@.grid.len,
            column < old(self)@.grid.columns,
        ensures
            final(self).wf(),
            final(self)@ == (SurfaceView { grid: with_cell_in(old(self)@.grid, row as int, column as int, cell), ..old(self)@ }),
    {
        let ghost g = self.grid@;
        let ghost new_row = RowView { cells: g.row(row as int).cells.update(column as int, cell), ..g.row(row as int) };
        let target = self.grid.logical_row_mut(row);
        target.set_cell(column, cell);
        proof {
            lemma_row_replaced(g, row as int, new_row);
            lemma_replaced_widths(g, row as int, new_row, g.columns);
            self.grid.lemma_wf_model();
        }
    }

    /// Replace the flags of the cell in column `column` of logical row `row`.
    fn set_flags_at(&mut self, row: usize, column: usize, flags: Flags)
        requires
            old(self).wf(),
            row < old(self)@.grid.len,
            column < old(self)@.grid.columns,
        ensures
            final(self).wf(),
            final(self)@ == (SurfaceView { grid: with_flags_in(old(self)@.grid, row as int, column as int, flags), ..old(self)@ }),
    {
        let mut cell = self.grid.logical_row(row).cell(column).clone();
        cell.flags = flags;
        self.set_cell_at(row, column, cell);
    }

    /// Write `c` at the cursor with `flags` and the cursor's attributes.
    fn write_at_cursor(&mut self, c: char, flags: Flags)
        requires
            old(self).wf(),
            old(self)@.grid.visible_lines > 0,
            old(self)@.grid.columns > 0,
        ensures
            final(self).wf(),
            final(self)@ == written(old(self)@, c, flags),
            final(self)@.grid.len == old(self)@.grid.len,
            final(self)@.grid.columns == old(self)@.grid.columns,
            final(self)@.grid.visible_lines == old(self)@.grid.visible_lines,
    {
        let row = self.cursor_row_index();
        let col = self.cursor.column;
        let last = self.grid.width() - 1;
        let current = self.flags_at(row, col);
        if current.intersects(Flags::WIDE_CHAR | Flags::WIDE_CHAR_SPACER) {
            if current.contains(Flags::WIDE_CHAR) && col < last {
                let mut partner = self.flags_at(row, col + 1);
                partner.remove(Flags::WIDE_CHAR_SPACER);
                self.set_flags_at(row, col + 1, partner);
            } else if col > 0 {
                let mut before = self.grid.logical_row(row).cell(col - 1).clone();
                before.flags.remove(Flags::WIDE_CHAR);
                before.ch = ' ';
                self.set_cell_at(row, col - 1, before);
            }
            if col <= 1 && row > 0 {
                let mut above = self.flags_at(row - 1, last);
                above.remove(Flags::LEADING_WIDE_CHAR_SPACER);
                self.set_flags_at(row - 1, last, above);
            }
        }
        let cell = Cell { ch: c, attributes: self.template.clone(), flags, touched: true };
        self.set_cell_at(row, col, cell);
    }

    /// Scroll the scroll region up by `count` lines (at most its height).
    pub fn scroll_up(&mut self, count: usize)
        requires
            old(self).wf(),
            old(self)@.grid.len + count <= usize::MAX,
        ensures
            final(self).wf(),
            final(self)@ == region_up(old(self)@, count as nat),
            final(self)@.grid.len <= old(self)@.grid.len + count,
            final(self)@.grid.columns == old(self)@.grid.columns,
            final(self)@.grid.visible_lines == old(self)@.grid.visible_lines,
    {
        let height = self.scroll_bottom - self.scroll_top;
        let lines = if count < height { count } else { height };
        if lines == 0 {
            return;
        }
        let ghost g = self.grid@;
        let top = self.scroll_top;
        let bottom = self.scroll_bottom - 1;
        self.grid.scroll_up(top, bottom, lines, &self.template);
        proof {
            lemma_scrolled_up_widths(g, top as int, bottom as int, lines as nat, self.template);
            self.grid.lemma_wf_model();
            assert forall|i: int| 0 <= i < self.grid@.len implies (#[trigger] self.grid@.row(i)).cells.len()
                == self.grid@.columns by {
                lemma_row_width(self.grid@, self.grid@.columns, i);
            }
        }
    }

    /// Move the cursor down one line, scrolling the region at its bottom.
    pub fn line_feed(&mut self)
        requires
            old(self).wf(),
            old(self)@.grid.len < usize::MAX,
        ensures
            final(self).wf(),
            final(self)@ == line_fed(old(self)@),
            final(self)@.grid.len <= old(self)@.grid.len + 1,
            final(self)@.grid.columns == old(self)@.grid.columns,
            final(self)@.grid.visible_lines == old(self)@.grid.visible_lines,
    {
        let next = self.cursor.line + 1;
        if next == self.scroll_bottom {
            self.scroll_up(1);
        } else if next < self.grid.height() {
            self.cursor.line = next;
        }
    }

    /// Move the cursor to the first column.
    pub fn carriage_return(&mut self)
        requires
            old(self).wf(),
        ensures
            final(self).wf(),
            final(self)@ == (SurfaceView {
                cursor: SurfaceCursor { column: 0, input_needs_wrap: false, ..old(self)@.cursor },
                ..old(self)@
            }),
    {
        self.cursor.column = 0;
        self.cursor.input_needs_wrap = false;
    }

    /// Line feed, followed by a carriage return in line-feed/new-line mode.
    pub fn new_line(&mut self)
        requires
            old(self).wf(),
            old(self)@.grid.len < usize::MAX,
        ensures
            final(self).wf(),
            final(self)@ == ({
                let fed = line_fed(old(self)@);
                if modes_contain(old(self)@.mode, SurfaceMode::LINE_FEED_NEW_LINE) {
                    SurfaceView { cursor: SurfaceCursor { column: 0, input_needs_wrap: false, ..fed.cursor }, ..fed }
                } else {
                    fed
                }
            }),
    {
        self.line_feed();
        if self.mode.contains(SurfaceMode::new(SurfaceMode::LINE_FEED_NEW_LINE)) {
            self.carriage_return();
        }
    }

    /// Wrap input to the next line when line wrapping is on.
    fn wrapline(&mut self)
        requires
            old(self).wf(),
            old(self)@.grid.visible_lines > 0,
            old(self)@.grid.columns > 0,
            old(self)@.grid.len < usize::MAX,
        ensures
            final(self).wf(),
            final(self)@ == wrapped(old(self)@),
            final(self)@.grid.len <= old(self)@.grid.len + 1,
            final(self)@.grid.columns == old(self)@.grid.columns,
            final(self)@.grid.visible_lines == old(self)@.grid.visible_lines,
    {
        if !self.mode.contains(SurfaceMode::new(SurfaceMode::LINE_WRAP)) {
            return;
        }
        let row = self.cursor_row_index();
        let col = self.cursor.column;
        let mut flags = self.flags_at(row, col);
        flags.insert(Flags::WRAPLINE);
        self.set_flags_at(row, col, flags);
        if self.cursor.line + 1 >= self.scroll_bottom {
            self.line_feed();
        } else {
            self.cursor.line = self.cursor.line + 1;
        }
        self.cursor.column = 0;
        self.cursor.input_needs_wrap = false;
    }

    /// In insert mode, move the cells from the cursor on right by `width`
    /// when they fit.
    fn make_room(&mut self, width: usize)
        requires
            old(self).wf(),
            old(self)@.grid.visible_lines > 0,
            old(self)@.grid.columns > 0,
        ensures
            final(self).wf(),
            final(self)@ == made_room(old(self)@, width as int),
            final(self)@.grid.len == old(self)@.grid.len,
            final(self)@.grid.columns == old(self)@.grid.columns,
            final(self)@.grid.visible_lines == old(self)@.grid.visible_lines,
    {
        let columns = self.grid.width();
        let col = self.cursor.column;
        if !(self.mode.contains(SurfaceMode::new(SurfaceMode::INSERT)) && width < columns - col) {
            return;
        }
        let row = self.cursor_row_index();
        let ghost g = self.grid@;
        let ghost start = self@;
        proof {
            lemma_slot_in_range(g, row as int);
            assert(g.inner.update(g.slot(row as int), g.inner[g.slot(row as int)]) =~= g.inner);
            assert(g.with_slot(g.slot(row as int), RowView { cells: g.row(row as int).cells, ..g.row(row as int) }) == g);
        }
        let mut c = columns - width;
        while c > col
            invariant
                self.wf(),
                col <= c <= columns - width,
                width < columns - col,
                columns == g.columns,
                row < g.len,
                row == cursor_row(start),
                col == start.cursor.column,
                self@.grid == g.with_slot(g.slot(row as int), RowView { cells: self@.grid.row(row as int).cells, ..g.row(row as int) }),
                self@.grid.row(row as int).cells.len() == columns,
                shifted(self@.grid.row(row as int).cells, width as int, col as int, c as int) == shifted(
                    g.row(row as int).cells,
                    width as int,
                    col as int,
                    (columns - width) as int,
                ),
                self@ == (SurfaceView { grid: self@.grid, ..start }),
                g == start.grid,
                g.inner.len() > 0,
            decreases c,
        {
            c = c - 1;
            let ghost before = self@.grid;
            let ghost before_cells = before.row(row as int).cells;
            self.swap_cells_at(row, c + width, c);
            proof {
                let r1 = RowView { cells: before_cells, ..g.row(row as int) };
                let r2 = RowView {
                    cells: before_cells.update(c + width, before_cells[c as int]).update(c as int, before_cells[c + width]),
                    ..g.row(row as int)
                };
                lemma_slot_in_range(g, row as int);
                lemma_row_replaced(g, row as int, r1);
                assert(before.row(row as int) == r1);
                assert(self@.grid.inner =~= g.inner.update(g.slot(row as int), r2));
                lemma_row_replaced(g, row as int, r2);
                assert(self@.grid == g.with_slot(g.slot(row as int), r2));
                assert(self@.grid.row(row as int) == r2);
            }
        }
        proof {
            assert(self@.grid.row(row as int).cells == shifted(g.row(row as int).cells, width as int, col as int, (columns - width) as int));
        }
    }

    /// Exchange two cells of logical row `row`.
    fn swap_cells_at(&mut self, row: usize, a: usize, b: usize)
        requires
            old(self).wf(),
            row < old(self)@.grid.len,
            a < old(self)@.grid.columns,
            b < old(self)@.grid.columns,
        ensures
            final(self).wf(),
            final(self)@ == (SurfaceView {
                grid: old(self)@.grid.with_slot(
                    old(self)@.grid.slot(row as int),
                    RowView {
                        cells: old(self)@.grid.row(row as int).cells.update(
                            a as int,
                            old(self)@.grid.row(row as int).cells[b as int],
                        ).update(b as int, old(self)@.grid.row(row as int).cells[a as int]),
                        ..old(self)@.grid.row(row as int)
                    },
                ),
                ..old(self)@
            }),
    {
        let ghost g = self.grid@;
        let ghost cells = g.row(row as int).cells;
        let ghost new_row = RowView { cells: cells.update(a as int, cells[b as int]).update(b as int, cells[a as int]), ..g.row(row as int) };
        let target = self.grid.logical_row_mut(row);
        target.swap_cells(a, b);
        proof {
            lemma_row_replaced(g, row as int, new_row);
            lemma_replaced_widths(g, row as int, new_row, g.columns);
            self.grid.lemma_wf_model();
        }
    }

    /// Move the cursor one column right, or mark it to wrap at the last column.
    fn advance(&mut self)
        requires
            old(self).wf(),
        ensures
            final(self).wf(),
            final(self)@ == advanced(old(self)@),
    {
        let columns = self.grid.width();
        if self.cursor.column + 1 < columns {
            self.cursor.column = self.cursor.column + 1;
        } else {
            self.cursor.input_needs_wrap = true;
        }
    }

    /// Jump to the end of a wide cell (see `expanded`).
    pub fn expand_wide(&self, point: Point, direction: Direction) -> (end: Point)
        requires
            self.wf(),
            line_in_grid(self@.grid, point.line.0 as int),
            point.column.0 < self@.grid.columns,
            i32::MIN < point.line.0 < i32::MAX,
            direction is Left && cell_at_point(self@.grid, point).flags.has(Flags::WIDE_CHAR_SPACER) ==> point.column.0 > 0,
        ensures
            end == expanded(self@.grid, point, direction),
    {
        let ghost g = self.grid@;
        let row = self.point_row(point);
        let columns = self.grid.width();
        let flags = self.grid.logical_row(row).cell(point.column.0).flags;
        match direction {
            Direction::Right => {
                if flags.contains(Flags::LEADING_WIDE_CHAR_SPACER) {
                    Point::new(Line(point.line.0 + 1), Column(1))
                } else if flags.contains(Flags::WIDE_CHAR) {
                    let column = if point.column.0 + 1 < columns { point.column.0 + 1 } else { columns - 1 };
                    Point::new(point.line, Column(column))
                } else {
                    point
                }
            },
            Direction::Left => {
                if !flags.intersects(Flags::WIDE_CHAR | Flags::WIDE_CHAR_SPACER) {
                    return point;
                }
                let at = if flags.contains(Flags::WIDE_CHAR_SPACER) {
                    Point::new(point.line, Column(point.column.0 - 1))
                } else {
                    point
                };
                let before = if at.column.0 > 0 {
                    Point::new(at.line, Column(at.column.0 - 1))
                } else if row > 0 {
                    Point::new(Line(at.line.0 - 1), Column(columns - 1))
                } else {
                    Point::new(at.line, Column(0))
                };
                let before_row = if at.column.0 > 0 { row } else if row > 0 { row - 1 } else { row };
                proof {
                    lemma_row_width(g, g.columns, before_row as int);
                }
                if self.grid.logical_row(before_row).cell(before.column.0).flags.contains(
                    Flags::LEADING_WIDE_CHAR_SPACER,
                ) {
                    before
                } else {
                    at
                }
            },
        }
    }

    /// Searching to the right, find the next cell holding one of `needles`
    /// within the wrapped line; otherwise the last cell looked at.
    pub fn inline_search_right(&self, point: Point, needles: &str) -> (found: Result<Point, Point>)
        requires
            self.wf(),
            point_on_grid(self@.grid, point),
        ensures
            found == inline_right(self@.grid, point, needles@),
            on_grid_result(self@.grid, found),
    {
        let ghost g = self.grid@;
        let needle_chars = chars_of(needles);
        let start = self.clamp_to_top(point);
        if self.ends_line_at(start) {
            return Err(start);
        }
        let mut current = start;
        loop
            invariant
                self.wf(),
                g == self@.grid,
                point_on_grid(g, point),
                needle_chars@ == needles@,
                line_in_grid(g, current.line.0 as int),
                current.column.0 < g.columns,
                right_scan(g, current, needles@) == right_scan(g, start, needles@),
                start == clamped_to_top(g, point),
                !ends_line(g, start),
                g.visible_lines > 0,
            decreases g.visible_lines - current.line.0, g.columns - current.column.0,
        {
            let next = match self.next_cell(current) {
                Some(next) => next,
                None => {
                    return Err(current);
                },
            };
            if self.holds_needle_at(next, &needle_chars) {
                return Ok(next);
            }
            if self.ends_line_at(next) {
                return Err(next);
            }
            current = next;
        }
    }

    /// Searching to the left, find the previous cell holding one of
    /// `needles` within the wrapped line; otherwise the last cell looked at.
    pub fn inline_search_left(&self, point: Point, needles: &str) -> (found: Result<Point, Point>)
        requires
            self.wf(),
            point_on_grid(self@.grid, point),
        ensures
            found == inline_left(self@.grid, point, needles@),
            on_grid_result(self@.grid, found),
    {
        let ghost g = self.grid@;
        let needle_chars = chars_of(needles);
        let start = self.clamp_to_top(point);
        let mut current = start;
        loop
            invariant
                self.wf(),
                g == self@.grid,
                point_on_grid(g, point),
                needle_chars@ == needles@,
                line_in_grid(g, current.line.0 as int),
                current.column.0 < g.columns,
                left_scan(g, current, needles@) == left_scan(g, start, needles@),
                start == clamped_to_top(g, point),
                g.history_size() <= i32::MAX,
            decreases current.line.0 + g.history_size(), current.column.0,
        {
            let prev = match self.prev_cell(current) {
                Some(prev) => prev,
                None => {
                    return Err(current);
                },
            };
            if self.ends_line_at(prev) {
                return Err(current);
            }
            if self.holds_needle_at(prev, &needle_chars) {
                return Ok(prev);
            }
            current = prev;
        }
    }

    /// Find the bracket matching the one at `point`.
    pub fn bracket_search(&self, point: Point) -> (found: Option<Point>)
        requires
            self.wf(),
            line_in_grid(self@.grid, point.line.0 as int),
            point.column.0 < self@.grid.columns,
            0 < self@.grid.visible_lines <= i32::MAX,
            self@.grid.history_size() <= i32::MAX,
        ensures
            found == matching_bracket(self@.grid, point),
    {
        let ghost g = self.grid@;
        let row = self.point_row(point);
        let start = self.grid.logical_row(row).cell(point.column.0).ch;
        let (forward, end) = if start == '(' {
            (true, ')')
        } else if start == ')' {
            (false, '(')
        } else if start == '[' {
            (true, ']')
        } else if start == ']' {
            (false, '[')
        } else if start == '{' {
            (true, '}')
        } else if start == '}' {
            (false, '{')
        } else if start == '<' {
            (true, '>')
        } else if start == '>' {
            (false, '<')
        } else {
            return None;
        };
        let mut skip: usize = 0;
        let mut current = point;
        if forward {
            loop
                invariant
                    self.wf(),
                    g == self@.grid,
                    0 < g.visible_lines <= i32::MAX,
                    line_in_grid(g, current.line.0 as int),
                    current.column.0 < g.columns,
                    bracket_forward(g, current, start, end, skip) == matching_bracket(g, point),
                decreases g.visible_lines - current.line.0, g.columns - current.column.0,
            {
                let next = match self.next_cell(current) {
                    Some(next) => next,
                    None => {
                        return None;
                    },
                };
                let next_row = self.point_row(next);
                let ch = self.grid.logical_row(next_row).cell(next.column.0).ch;
                if ch == end && skip == 0 {
                    return Some(next);
                } else if ch == start {
                    skip = skip.saturating_add(1);
                } else if ch == end {
                    skip = skip - 1;
                }
                current = next;
            }
        } else {
            loop
                invariant
                    self.wf(),
                    g == self@.grid,
                    g.history_size() <= i32::MAX,
                    line_in_grid(g, current.line.0 as int),
                    current.column.0 < g.columns,
                    bracket_backward(g, current, start, end, skip) == matching_bracket(g, point),
                decreases current.line.0 + g.history_size(), current.column.0,
            {
                let prev = match self.prev_cell(current) {
                    Some(prev) => prev,
                    None => {
                        return None;
                    },
                };
                let prev_row = self.point_row(prev);
                let ch = self.grid.logical_row(prev_row).cell(prev.column.0).ch;
                if ch == end && skip == 0 {
                    return Some(prev);
                } else if ch == start {
                    skip = skip.saturating_add(1);
                } else if ch == end {
                    skip = skip - 1;
                }
                current = prev;
            }
        }
    }

    /// Scroll the display through history.
    pub fn scroll_display(&mut self, direction: ScrollDirection)
        requires
            old(self).wf(),
            direction matches ScrollDirection::Delta(count) ==> old(self)@.grid.display_offset
                <= i32::MAX && i32::MIN <= old(self)@.grid.display_offset + count <= i32::MAX,
            direction is PageUp ==> old(self)@.grid.display_offset + old(self)@.grid.visible_lines
                <= usize::MAX,
        ensures
            final(self).wf(),
            final(self)@ == (SurfaceView {
                grid: GridView { display_offset: old(self)@.grid.scrolled_offset(direction), ..old(self)@.grid },
                ..old(self)@
            }),
    {
        self.grid.scroll_display(direction);
        proof {
            self.grid.lemma_wf_model();
        }
    }

    /// Scroll the display so that `point` becomes visible.
    pub fn scroll_to_point(&mut self, point: Point)
        requires
            old(self).wf(),
            old(self)@.grid.display_offset <= i32::MAX,
            old(self)@.grid.visible_lines <= i32::MAX,
            i32::MIN < point.line.0,
            point.line.0 + old(self)@.grid.display_offset <= i32::MAX,
        ensures
            final(self).wf(),
            final(self)@ == match scroll_needed(old(self)@.grid, point) {
                None => old(self)@,
                Some(lines) => SurfaceView {
                    grid: GridView {
                        display_offset: old(self)@.grid.scrolled_offset(ScrollDirection::Delta(lines as i32)),
                        ..old(self)@.grid
                    },
                    ..old(self)@
                },
            },
    {
        let display_offset = self.grid.display_offset() as i32;
        let screen_lines = self.grid.height() as i32;
        if point.line.0 < -display_offset {
            let lines = point.line.0 + display_offset;
            self.scroll_display(ScrollDirection::Delta(-lines));
        } else if point.line.0 >= screen_lines - display_offset {
            let lines: i64 = point.line.0 as i64 + display_offset as i64 - screen_lines as i64 + 1;
            self.scroll_display(ScrollDirection::Delta((-lines) as i32));
        }
    }

    /// Characters that delimit semantic selection.
    pub fn semantic_escape_chars(&self) -> (chars: &str)
        ensures
            chars@ == self.config().semantic_escape_chars@,
    {
        self.config.semantic_escape_chars.as_str()
    }

    /// Find the left end of the semantic block around `point`.
    pub fn semantic_search_left(&self, point: Point) -> (end: Point)
        requires
            self.wf(),
            point_on_grid(self@.grid, point),
        ensures
            end == semantic_left(self@.grid, point, self.config().semantic_escape_chars@),
    {
        let ghost g = self.grid@;
        match self.inline_search_left(point, self.config.semantic_escape_chars.as_str()) {
            Ok(found) => {
                let mut current = found;
                loop
                    invariant
                        self.wf(),
                        g == self@.grid,
                        g.visible_lines > 0,
                        line_in_grid(g, current.line.0 as int),
                        current.column.0 < g.columns,
                        next_unpadded(g, current) == next_unpadded(g, found),
                        inline_left(g, point, self.config().semantic_escape_chars@) == Ok::<Point, Point>(found),
                    decreases g.visible_lines - current.line.0, g.columns - current.column.0,
                {
                    let next = match self.next_cell(current) {
                        Some(next) => next,
                        None => {
                            return found;
                        },
                    };
                    let row = self.point_row(next);
                    if !self.grid.logical_row(row).cell(next.column.0).flags.intersects(
                        Flags::WIDE_CHAR_SPACER | Flags::LEADING_WIDE_CHAR_SPACER,
                    ) {
                        return next;
                    }
                    current = next;
                }
            },
            Err(stopped) => stopped,
        }
    }

    /// Find the right end of the semantic block around `point`.
    pub fn semantic_search_right(&self, point: Point) -> (end: Point)
        requires
            self.wf(),
            point_on_grid(self@.grid, point),
        ensures
            end == semantic_right(self@.grid, point, self.config().semantic_escape_chars@),
    {
        match self.inline_search_right(point, self.config.semantic_escape_chars.as_str()) {
            Ok(found) => {
                match self.prev_cell(found) {
                    Some(prev) => prev,
                    None => found,
                }
            },
            Err(stopped) => stopped,
        }
    }

    /// `point` moved down to the first history line when above it.
    fn clamp_to_top(&self, point: Point) -> (clamped: Point)
        requires
            self.wf(),
            point_on_grid(self@.grid, point),
        ensures
            clamped == clamped_to_top(self@.grid, point),
            line_in_grid(self@.grid, clamped.line.0 as int),
            clamped.column.0 < self@.grid.columns,
    {
        let history = self.grid.history_size();
        proof {
            self.grid.lemma_wf_model();
        }
        let top: i64 = -(history as i64);
        if (point.line.0 as i64) < top {
            let line = top as i32;
            assert(line == -(history as int));
            Point::new(Line(line), point.column)
        } else {
            point
        }
    }

    /// The cell after `point` in reading order.
    fn next_cell(&self, point: Point) -> (next: Option<Point>)
        requires
            self.wf(),
            line_in_grid(self@.grid, point.line.0 as int),
            point.column.0 < self@.grid.columns,
            self@.grid.visible_lines > 0,
        ensures
            next == next_point(self@.grid, point),
            next matches Some(q) ==> line_in_grid(self@.grid, q.line.0 as int) && q.column.0 < self@.grid.columns,
    {
        let columns = self.grid.width();
        let screen = self.grid.height();
        proof {
            self.grid.lemma_wf_model();
        }
        if point.column.0 + 1 < columns {
            Some(Point::new(point.line, Column(point.column.0 + 1)))
        } else if point.line.0 < i32::MAX && (point.line.0 < 0 || (point.line.0 as usize) + 1 < screen) {
            Some(Point::new(Line(point.line.0 + 1), Column(0)))
        } else {
            None
        }
    }

    /// The cell before `point` in reading order.
    fn prev_cell(&self, point: Point) -> (prev: Option<Point>)
        requires
            self.wf(),
            line_in_grid(self@.grid, point.line.0 as int),
            point.column.0 < self@.grid.columns,
            self@.grid.history_size() <= i32::MAX,
        ensures
            prev == prev_point(self@.grid, point),
            prev matches Some(q) ==> line_in_grid(self@.grid, q.line.0 as int) && q.column.0 < self@.grid.columns,
    {
        let columns = self.grid.width();
        let history = self.grid.history_size();
        if point.column.0 > 0 {
            Some(Point::new(point.line, Column(point.column.0 - 1)))
        } else if point.line.0 > i32::MIN && (point.line.0 as i64) > -(history as i64) {
            Some(Point::new(Line(point.line.0 - 1), Column(columns - 1)))
        } else {
            None
        }
    }

    /// Whether `point` ends a line that does not wrap.
    fn ends_line_at(&self, point: Point) -> (ends: bool)
        requires
            self.wf(),
            line_in_grid(self@.grid, point.line.0 as int),
            point.column.0 < self@.grid.columns,
        ensures
            ends == ends_line(self@.grid, point),
    {
        let row = self.point_row(point);
        point.column.0 == self.grid.width() - 1 && !self.grid.logical_row(row).cell(point.column.0).flags.contains(
            Flags::WRAPLINE,
        )
    }

    /// Whether the cell at `point` holds one of `needles`.
    fn holds_needle_at(&self, point: Point, needles: &Vec<char>) -> (holds: bool)
        requires
            self.wf(),
            line_in_grid(self@.grid, point.line.0 as int),
            point.column.0 < self@.grid.columns,
        ensures
            holds == holds_needle(self@.grid, point, needles@),
    {
        let row = self.point_row(point);
        let cell = self.grid.logical_row(row).cell(point.column.0);
        if cell.flags.intersects(Flags::WIDE_CHAR_SPACER | Flags::LEADING_WIDE_CHAR_SPACER) {
            return false;
        }
        let mut i: usize = 0;
        while i < needles.len()
            invariant
                i <= needles@.len(),
                forall|j: int| 0 <= j < i ==> needles@[j] != cell.ch,
                *cell == cell_at_point(self@.grid, point),
                !pads_wide(*cell),
            decreases needles@.len() - i,
        {
            if needles[i] == cell.ch {
                assert(needles@[i as int] == cell.ch);
                assert(needles@.contains(cell.ch));
                return true;
            }
            i = i + 1;
        }
        assert(!needles@.contains(cell.ch));
        false
    }

    /// Logical row of a grid point.
    fn point_row(&self, point: Point) -> (row: usize)
        requires
            self.wf(),
            line_in_grid(self@.grid, point.line.0 as int),
        ensures
            row == line_row(self@.grid, point.line.0 as int),
            row < self@.grid.len,
            self@.grid.row(row as int).cells.len() == self@.grid.columns,
    {
        let history = self.grid.history_size();
        let total = self.grid.total_lines();
        if point.line.0 >= 0 {
            history + point.line.0 as usize
        } else {
            history - (-(point.line.0 as i64)) as usize
        }
    }

    /// Turn on a public mode; unknown modes are ignored.
    pub fn set_mode(&mut self, mode: Mode)
        ensures
            final(self)@ == (SurfaceView {
                mode: match mode {
                    Mode::Named(NamedMode::Insert) => old(self)@.mode | SurfaceMode::INSERT,
                    Mode::Named(NamedMode::LineFeedNewLine) => old(self)@.mode | SurfaceMode::LINE_FEED_NEW_LINE,
                    Mode::Unknown(_) => old(self)@.mode,
                },
                ..old(self)@
            }),
            old(self).wf() ==> final(self).wf(),
    {
        match mode {
            Mode::Named(NamedMode::Insert) => self.mode.insert(SurfaceMode::new(SurfaceMode::INSERT)),
            Mode::Named(NamedMode::LineFeedNewLine) => self.mode.insert(
                SurfaceMode::new(SurfaceMode::LINE_FEED_NEW_LINE),
            ),
            Mode::Unknown(_) => {},
        }
    }

    /// Turn off a public mode; unknown modes are ignored.
    pub fn unset_mode(&mut self, mode: Mode)
        ensures
            final(self)@ == (SurfaceView {
                mode: match mode {
                    Mode::Named(NamedMode::Insert) => old(self)@.mode & !SurfaceMode::INSERT,
                    Mode::Named(NamedMode::LineFeedNewLine) => old(self)@.mode & !SurfaceMode::LINE_FEED_NEW_LINE,
                    Mode::Unknown(_) => old(self)@.mode,
                },
                ..old(self)@
            }),
            old(self).wf() ==> final(self).wf(),
    {
        match mode {
            Mode::Named(NamedMode::Insert) => self.mode.remove(SurfaceMode::new(SurfaceMode::INSERT)),
            Mode::Named(NamedMode::LineFeedNewLine) => self.mode.remove(
                SurfaceMode::new(SurfaceMode::LINE_FEED_NEW_LINE),
            ),
            Mode::Unknown(_) => {},
        }
    }

    /// Print `c` unless it is a wide character and the surface has a single
    /// column, where nothing changes; says whether it printed.
    pub fn try_print(&mut self, c: char) -> (done: bool)
        requires
            old(self).wf(),
            old(self)@.grid.visible_lines > 0,
            old(self)@.grid.columns > 0,
            old(self)@.grid.len + 2 <= usize::MAX,
        ensures
            final(self).wf(),
            done == !(unicode_char_width(c) matches Some(w) && w > 1 && old(self)@.grid.columns == 1),
            done ==> final(self)@ == printed(old(self)@, c, unicode_char_width(c)),
            !done ==> final(self)@ == old(self)@,
    {
        if let Some(width) = char_width(c) {
            if width > 1 && self.grid.width() == 1 {
                return false;
            }
        }
        self.print(c);
        true
    }

    /// The cursor as drawn: on the wide character when it sits on its
    /// spacer, hidden unless the cursor is shown, with the cursor's
    /// attributes.
    pub fn cursor_snapshot(&self) -> (cursor: CursorSnapshot)
        requires
            self.wf(),
            self@.grid.visible_lines > 0,
            self@.grid.columns > 0,
            self@.grid.visible_lines <= i32::MAX,
        ensures
            cursor.point == (Point {
                line: Line(self@.cursor.line as i32),
                column: Column(
                    if cell_in(self@.grid, cursor_row(self@), self@.cursor.column as int).flags.has(Flags::WIDE_CHAR_SPACER)
                        && self@.cursor.column > 0 {
                        (self@.cursor.column - 1) as usize
                    } else {
                        self@.cursor.column
                    },
                ),
            }),
            cursor.shape == if !modes_contain(self@.mode, SurfaceMode::SHOW_CURSOR) {
                CursorShape::Hidden
            } else {
                match self@.cursor_style {
                    Some(style) => style.shape,
                    None => self.config().default_cursor_style.shape,
                }
            },
            cursor.cell == crate::cell::blank_cell(self@.template),
    {
        let row = self.cursor_row_index();
        let mut column = self.cursor.column;
        if self.flags_at(row, column).contains(Flags::WIDE_CHAR_SPACER) && column > 0 {
            column = column - 1;
        }
        let shape = if !self.mode.contains(SurfaceMode::new(SurfaceMode::SHOW_CURSOR)) {
            CursorShape::Hidden
        } else {
            self.cursor_style().shape
        };
        CursorSnapshot {
            shape,
            cell: Cell { ch: ' ', attributes: self.template.clone(), flags: Flags::empty(), touched: false },
            point: Point::new(Line(self.cursor.line as i32), Column(column)),
        }
    }

    /// An owned snapshot of what the surface displays: one cell per
    /// viewport position at its grid point, row by row, the cursor, the
    /// palette overrides, the modes, the hyperlinks found in the cells, and
    /// full damage.
    pub fn snapshot_owned(&self) -> (snapshot: SnapshotOwned)
        requires
            self.wf(),
            0 < self@.grid.visible_lines <= i32::MAX,
            self@.grid.columns > 0,
            self@.grid.visible_lines * self@.grid.columns < 0xffff_ffff,
            self@.grid.display_offset <= i32::MAX,
        ensures
            snapshot.spec_cells() == displayed_cells(self@.grid, self@.grid.visible_lines as int),
            snapshot.spec_blocks() == Seq::<crate::block::model::BlockSnapshot>::empty(),
    {
        let ghost g = self.grid@;
        let rows = self.grid.display_iter();
        let columns = self.grid.width();
        let screen = self.grid.height();
        let offset = self.grid.display_offset();
        let mut cells: Vec<SnapshotCell> = Vec::new();
        let mut r: usize = 0;
        proof {
            assert(displayed_cells(g, 0) =~= Seq::<SnapshotCell>::empty());
            vstd::arithmetic::mul::lemma_mul_inequality(1, screen as int, columns as int);
        }
        while r < screen
            invariant
                self.wf(),
                g == self@.grid,
                rows@.len() == g.visible_lines,
                forall|k: int| 0 <= k < g.visible_lines ==> rows@[k]@ == g.row(g.first_displayed() + k),
                columns == g.columns,
                screen == g.visible_lines,
                offset == g.display_offset,
                0 < screen <= i32::MAX,
                offset <= i32::MAX,
                screen * columns < 0xffff_ffff,
                r <= screen,
                cells@ == displayed_cells(g, r as int),
                cells@.len() == r * columns,
                forall|i: int| 0 <= i < cells@.len() ==> (#[trigger] cells@[i]).point.line.0 + offset < r
                    && cells@[i].point.line.0 + offset >= 0
                    && (cells@[i].point.line.0 + offset) * columns + cells@[i].point.column.0 < r * columns,
            decreases screen - r,
        {
            let row = rows[r];
            proof {
                crate::grid::lemma_row_width(g, g.columns, g.first_displayed() + r);
                self.grid.lemma_wf_model();
            }
            let mut c: usize = 0;
            let ghost before = cells@;
            while c < columns
                invariant
                    c <= columns,
                    columns == g.columns,
                    row@ == g.row(g.first_displayed() + r),
                    row@.cells.len() == columns,
                    r < screen,
                    screen <= i32::MAX,
                    offset <= i32::MAX,
                    cells@ == before + displayed_row_cells(g, r as int).take(c as int),
                    offset == g.display_offset,
                decreases columns - c,
            {
                let cell = row.cell(c).clone();
                let point = Point::new(Line(r as i32 - offset as i32), Column(c));
                cells.push(SnapshotCell { point, cell });
                proof {
                    assert(displayed_row_cells(g, r as int).take(c + 1) =~= displayed_row_cells(g, r as int).take(
                        c as int,
                    ).push(SnapshotCell { point, cell }));
                }
                c = c + 1;
            }
            proof {
                assert(displayed_row_cells(g, r as int).take(columns as int) =~= displayed_row_cells(g, r as int));
                vstd::arithmetic::mul::lemma_mul_is_distributive_add_other_way(columns as int, r as int, 1);
                assert forall|i: int| 0 <= i < cells@.len() implies (#[trigger] cells@[i]).point.line.0 + offset < r + 1
                    && cells@[i].point.line.0 + offset >= 0
                    && (cells@[i].point.line.0 + offset) * columns + cells@[i].point.column.0 < (r + 1) * columns by {
                    if i >= before.len() {
                        let k = i - before.len();
                        assert(cells@[i] == displayed_row_cells(g, r as int)[k]);
                    }
                }
            }
            r = r + 1;
        }
        let size = SnapshotSize { columns, screen_lines: screen, total_lines: self.grid.total_lines() };
        proof {
            vstd::arithmetic::mul::lemma_mul_is_commutative(screen as int, columns as int);
            assert(cells_addressable(cells@, columns as int, offset as int)) by {
                assert forall|i: int| 0 <= i < cells@.len() implies #[trigger] cells@[i].point.line.0 + offset <= i32::MAX
                    && (cells@[i].point.line.0 + offset >= 0 ==> (cells@[i].point.line.0 + offset) * columns
                    + cells@[i].point.column.0 <= usize::MAX) by {
                }
            }
        }
        let hyperlinks = HyperlinkMap::build(cells.as_slice(), size, offset);
        let cursor = self.cursor_snapshot();
        SnapshotOwned::from_parts(
            cells,
            hyperlinks,
            cursor,
            offset,
            self.colors.clone(),
            self.mode,
            size,
            SnapshotDamage::Full,
            screen * columns,
            Vec::new(),
        )
    }

    /// Palette overrides set by the application.
    pub fn colors(&self) -> (colors: &Colors)
        ensures
            colors@ == self@.colors,
    {
        &self.colors
    }

    /// Override palette entry `index`.
    pub fn set_color(&mut self, index: usize, color: Rgb)
        requires
            index < COUNT,
        ensures
            final(self)@ == (SurfaceView { colors: old(self)@.colors.update(index as int, Some(color)), ..old(self)@ }),
            old(self).wf() ==> final(self).wf(),
    {
        self.colors.set(index, Some(color));
    }

    /// Drop the override of palette entry `index`.
    pub fn reset_color(&mut self, index: usize)
        requires
            index < COUNT,
        ensures
            final(self)@ == (SurfaceView { colors: old(self)@.colors.update(index as int, None), ..old(self)@ }),
            old(self).wf() ==> final(self).wf(),
    {
        self.colors.set(index, None);
    }

    /// Cursor style in effect: the one the application set, else the
    /// configured default.
    pub fn cursor_style(&self) -> (style: CursorStyle)
        ensures
            style == match self@.cursor_style {
                Some(style) => style,
                None => self.config().default_cursor_style,
            },
    {
        match self.cursor_style {
            Some(style) => style,
            None => self.config.default_cursor_style,
        }
    }

    /// Set (or clear) the application's cursor style.
    pub fn set_cursor_style(&mut self, style: Option<CursorStyle>)
        ensures
            final(self)@ == (SurfaceView { cursor_style: style, ..old(self)@ }),
            old(self).wf() ==> final(self).wf(),
    {
        self.cursor_style = style;
    }

    /// Set the cursor shape, starting from the configured default style when
    /// none is set.
    pub fn set_cursor_shape(&mut self, shape: CursorShape)
        ensures
            final(self)@ == (SurfaceView {
                cursor_style: Some(
                    CursorStyle {
                        shape,
                        ..match old(self)@.cursor_style {
                            Some(style) => style,
                            None => old(self).config().default_cursor_style,
                        }
                    },
                ),
                ..old(self)@
            }),
            final(self).config() == old(self).config(),
            old(self).wf() ==> final(self).wf(),
    {
        let base = match self.cursor_style {
            Some(style) => style,
            None => self.config.default_cursor_style,
        };
        self.cursor_style = Some(CursorStyle { shape, ..base });
    }

    /// Move the cursor to `line` and `column` (see `goto_line`); the column
    /// is clamped to the last one.
    pub fn goto(&mut self, line: i32, column: usize)
        requires
            old(self).wf(),
            old(self)@.grid.columns > 0,
            old(self)@.grid.visible_lines <= i32::MAX,
        ensures
            final(self).wf(),
            final(self)@ == (SurfaceView {
                cursor: SurfaceCursor {
                    line: goto_line(old(self)@, line as int) as usize,
                    column: if column < old(self)@.grid.columns { column } else { (old(self)@.grid.columns - 1) as usize },
                    input_needs_wrap: false,
                },
                ..old(self)@
            }),
    {
        let origin = self.mode.contains(SurfaceMode::new(SurfaceMode::ORIGIN));
        let screen = self.grid.height();
        let offset: i64 = if origin { self.scroll_top as i64 } else { 0 };
        let max_y: i64 = if origin { self.scroll_bottom as i64 - 1 } else { screen as i64 - 1 };
        let target: i64 = line as i64 + offset;
        let bounded = if target < max_y { target } else { max_y };
        let new_line = if bounded < 0 { 0 } else { bounded as usize };
        let columns = self.grid.width();
        self.cursor.line = new_line;
        self.cursor.column = if column < columns { column } else { columns - 1 };
        self.cursor.input_needs_wrap = false;
    }

    /// Carry out a pending wrap and make room in insert mode.
    fn prepare(&mut self, width: usize)
        requires
            old(self).wf(),
            old(self)@.grid.visible_lines > 0,
            old(self)@.grid.columns > 0,
            old(self)@.grid.len < usize::MAX,
        ensures
            final(self).wf(),
            final(self)@ == made_room(ready(old(self)@), width as int),
            final(self)@.grid.len <= old(self)@.grid.len + 1,
            final(self)@.grid.columns == old(self)@.grid.columns,
            final(self)@.grid.visible_lines == old(self)@.grid.visible_lines,
    {
        if self.cursor.input_needs_wrap {
            self.wrapline();
        }
        self.make_room(width);
    }

    /// Print a wide character (see `wide_printed`).
    fn print_wide(&mut self, c: char)
        requires
            old(self).wf(),
            old(self)@.grid.visible_lines > 0,
            old(self)@.grid.columns > 1,
            old(self)@.grid.len < usize::MAX,
        ensures
            final(self).wf(),
            final(self)@ == wide_printed(old(self)@, c),
    {
        let columns = self.grid.width();
        if self.cursor.column + 1 >= columns {
            if self.mode.contains(SurfaceMode::new(SurfaceMode::LINE_WRAP)) {
                let mut padding = Flags::empty();
                padding.insert(Flags::LEADING_WIDE_CHAR_SPACER);
                self.write_at_cursor(' ', padding);
                self.wrapline();
            } else {
                self.cursor.input_needs_wrap = true;
                return;
            }
        }
        self.put_wide(c);
    }

    /// Write a wide character and its spacer at the cursor, which fits.
    fn put_wide(&mut self, c: char)
        requires
            old(self).wf(),
            old(self)@.grid.visible_lines > 0,
            old(self)@.cursor.column + 1 < old(self)@.grid.columns,
        ensures
            final(self).wf(),
            final(self)@ == wide_written(old(self)@, c),
    {
        let columns = self.grid.width();
        let mut wide = Flags::empty();
        wide.insert(Flags::WIDE_CHAR);
        let ghost before = self@;
        self.write_at_cursor(c, wide);
        assert(self@.cursor == before.cursor);
        assert(self.cursor.column + 1 < self@.grid.columns);
        self.cursor.column = self.cursor.column + 1;
        let mut spacer = Flags::empty();
        spacer.insert(Flags::WIDE_CHAR_SPACER);
        self.write_at_cursor(' ', spacer);
        self.advance();
    }

    /// Print one character at the cursor (see `printed`).
    pub fn print(&mut self, c: char)
        requires
            old(self).wf(),
            old(self)@.grid.visible_lines > 0,
            old(self)@.grid.columns > 0,
            unicode_char_width(c) matches Some(w) && w > 1 ==> old(self)@.grid.columns > 1,
            old(self)@.grid.len + 2 <= usize::MAX,
        ensures
            final(self).wf(),
            final(self)@ == printed(old(self)@, c, unicode_char_width(c)),
    {
        let width = match char_width(c) {
            Some(width) => width,
            None => {
                return;
            },
        };
        if width == 0 {
            return;
        }
        self.prepare(width);
        if width == 1 {
            self.write_at_cursor(c, Flags::empty());
            self.advance();
        } else {
            self.print_wide(c);
        }
    }

    /// Attributes that newly written cells take.
    pub fn template(&self) -> (template: &CellAttributes)
        ensures
            *template == self@.template,
    {
        &self.template
    }

    /// Apply one graphic rendition attribute to the attributes of newly
    /// written cells.
    pub fn sgr(&mut self, attribute: CharacterAttribute)
        ensures
            final(self)@ == (SurfaceView { template: applied(old(self)@.template, attribute), ..old(self)@ }),
            final(self).config() == old(self).config(),
            old(self).wf() ==> final(self).wf(),
    {
        let template = &mut self.template;
        match attribute {
            CharacterAttribute::Foreground(color) => template.foreground = color,
            CharacterAttribute::Background(color) => template.background = color,
            CharacterAttribute::UnderlineColor(color) => template.underline_color = color,
            CharacterAttribute::Reset => {
                template.foreground = Color::Std(StdColor::Foreground);
                template.background = Color::Std(StdColor::Background);
                template.bold = false;
                template.dim = false;
                template.italic = false;
                template.underline = crate::cell::CellUnderline::Off;
                template.blink = crate::cell::CellBlink::Off;
                template.reverse = false;
                template.hidden = false;
                template.strike = false;
                template.underline_color = None;
            },
            CharacterAttribute::Reverse => template.reverse = true,
            CharacterAttribute::CancelReverse => template.reverse = false,
            CharacterAttribute::Bold => template.bold = true,
            CharacterAttribute::CancelBold => template.bold = false,
            CharacterAttribute::Dim => template.dim = true,
            CharacterAttribute::CancelBoldDim => {
                template.bold = false;
                template.dim = false;
            },
            CharacterAttribute::Italic => template.italic = true,
            CharacterAttribute::CancelItalic => template.italic = false,
            CharacterAttribute::Underline => template.underline = crate::cell::CellUnderline::Single,
            CharacterAttribute::DoubleUnderline => template.underline = crate::cell::CellUnderline::Double,
            CharacterAttribute::Undercurl => template.underline = crate::cell::CellUnderline::Curl,
            CharacterAttribute::DottedUnderline => template.underline = crate::cell::CellUnderline::Dotted,
            CharacterAttribute::DashedUnderline => template.underline = crate::cell::CellUnderline::Dashed,
            CharacterAttribute::CancelUnderline => template.underline = crate::cell::CellUnderline::Off,
            CharacterAttribute::Hidden => template.hidden = true,
            CharacterAttribute::CancelHidden => template.hidden = false,
            CharacterAttribute::Strike => template.strike = true,
            CharacterAttribute::CancelStrike => template.strike = false,
            _ => {},
        }
    }

    /// Mutable access to the active grid.
    pub fn grid_mut(&mut self) -> (grid: &mut Grid)
        ensures
            (*grid)@ == old(self)@.grid,
            final(self)@ == (SurfaceView { grid: (*final(grid))@, ..old(self)@ }),
    {
        &mut self.grid
    }

    /// Number of columns.
    pub fn columns(&self) -> (columns: usize)
        ensures
            columns == self@.grid.columns,
    {
        self.grid.width()
    }

    /// Number of screen lines.
    pub fn screen_lines(&self) -> (lines: usize)
        ensures
            lines == self@.grid.visible_lines,
    {
        self.grid.height()
    }

    /// Convert a single line of the grid to text.
    pub fn line_to_string(&self, line: Line, cols: Range<Column>, include_wrapped_wide: bool) -> (text: String)
        requires
            self.wf(),
            line_readable(self@.grid, line.0 as int, cols.start.0 as int, cols.end.0 as int, include_wrapped_wide),
        ensures
            text@ == line_text(
                self@.grid,
                self@.tabs,
                line.0 as int,
                cols.start.0 as int,
                cols.end.0 as int,
                include_wrapped_wide,
            ),
    {
        let ghost g = self.grid@;
        let ghost tabs = self.tabs@;
        let history = self.grid.history_size();
        let columns = self.grid.width();
        let rows = self.grid.rows();
        let total = self.grid.total_lines();
        let index: usize = if line.0 >= 0 {
            history + line.0 as usize
        } else {
            history - (-(line.0 as i64)) as usize
        };
        proof {
            lemma_line_length_bound(g.row(index as int).cells);
        }
        let row: &GridRow = rows[index];
        let ghost cells = g.row(index as int).cells;
        assert(row@.cells == cells);
        let start = cols.start.0;
        let end = cols.end.0;
        let occupied = row_length(row);
        let length = if occupied <= end + 1 { occupied } else { end + 1 };
        let first = if row.cell(start).flags.contains(Flags::WIDE_CHAR_SPACER) { start - 1 } else { start };
        let mut text = String::new();
        let mut tab_mode = false;
        let mut column = first;
        proof {
            assert(text@ =~= line_chars(cells, tabs, first as int, first as int).0);
        }
        while column < length
            invariant
                first <= column,
                column <= length || length < first,
                length <= cells.len(),
                cells.len() == columns,
                columns == g.columns,
                tabs.len() == g.columns,
                tabs == self.tabs@,
                row@.cells == cells,
                column <= first || column <= length,
                (text@, tab_mode) == line_chars(cells, tabs, first as int, column as int),
            decreases length - column,
        {
            let cell = row.cell(column);
            let stop = self.tabs.get(Column(column));
            if tab_mode && !(stop || cell.ch != ' ') {
            } else {
                if !cell.flags.intersects(Flags::WIDE_CHAR_SPACER | Flags::LEADING_WIDE_CHAR_SPACER) {
                    push_char(&mut text, cell.ch);
                }
                tab_mode = cell.ch == '\t';
            }
            column = column + 1;
        }
        proof {
            if length < first {
                assert(line_chars(cells, tabs, first as int, length as int).0 =~= Seq::<char>::empty());
            }
        }
        if end >= columns - 1 && (length == 0 || !row.cell(length - 1).flags.contains(Flags::WRAPLINE)) {
            push_char(&mut text, '\n');
        }
        if length == columns && length >= 2 && row.cell(length - 1).flags.contains(
            Flags::LEADING_WIDE_CHAR_SPACER,
        ) && include_wrapped_wide {
            let previous: &GridRow = rows[index - 1];
            push_char(&mut text, previous.cell(0).ch);
        }
        text
    }

    /// Find the beginning of the current line across line wraps.
    pub fn line_search_left(&self, point: Point) -> (found: Point)
        requires
            self.wf(),
            line_in_grid(self@.grid, point.line.0 as int),
            self@.grid.columns > 0,
            self@.grid.history_size() <= i32::MAX,
        ensures
            found == (Point { line: Line(wrap_start(self@.grid, point.line.0 as int) as i32), column: Column(0) }),
    {
        let ghost g = self.grid@;
        let history = self.grid.history_size();
        let total = self.grid.total_lines();
        let last_column = self.grid.width() - 1;
        let rows = self.grid.rows();
        let mut line = point.line.0;
        let mut index: usize = if line >= 0 {
            history + line as usize
        } else {
            history - (-(line as i64)) as usize
        };
        while index > 0 && rows[index - 1].cell(last_column).flags.contains(Flags::WRAPLINE)
            invariant
                self.wf(),
                g == self@.grid,
                history == g.history_size(),
                history <= i32::MAX,
                total == g.len,
                last_column == g.columns - 1,
                rows@.len() == g.len,
                forall|k: int| 0 <= k < g.len ==> rows@[k]@ == g.row(k),
                forall|k: int| 0 <= k < g.len ==> (#[trigger] g.row(k)).cells.len() == g.columns,
                index == history + line,
                line_in_grid(g, line as int),
                wrap_start(g, line as int) == wrap_start(g, point.line.0 as int),
            decreases index,
        {
            proof {
                assert(g.row(index - 1).cells.len() == g.columns);
            }
            line = line - 1;
            index = index - 1;
        }
        Point::new(Line(line), Column(0))
    }

    /// Find the end of the current line across line wraps.
    pub fn line_search_right(&self, point: Point) -> (found: Point)
        requires
            self.wf(),
            line_in_grid(self@.grid, point.line.0 as int),
            self@.grid.columns > 0,
            self@.grid.visible_lines <= i32::MAX,
        ensures
            found == (Point {
                line: Line(wrap_end(self@.grid, point.line.0 as int) as i32),
                column: Column((self@.grid.columns - 1) as usize),
            }),
    {
        let ghost g = self.grid@;
        let history = self.grid.history_size();
        let total = self.grid.total_lines();
        let screen = self.grid.height();
        let last_column = self.grid.width() - 1;
        let rows = self.grid.rows();
        proof {
            self.grid.lemma_wf_model();
        }
        let mut line = point.line.0;
        let mut index: usize = if line >= 0 {
            history + line as usize
        } else {
            history - (-(line as i64)) as usize
        };
        while ((line < 0 && (line + 1 < 0 || screen > 0)) || (line >= 0 && (line as usize) + 1 < screen))
            && rows[index].cell(last_column).flags.contains(Flags::WRAPLINE)
            invariant
                self.wf(),
                g == self@.grid,
                history == g.history_size(),
                screen == g.visible_lines,
                screen <= i32::MAX,
                total == g.len,
                g.len == history + screen,
                last_column == g.columns - 1,
                rows@.len() == g.len,
                forall|k: int| 0 <= k < g.len ==> rows@[k]@ == g.row(k),
                forall|k: int| 0 <= k < g.len ==> (#[trigger] g.row(k)).cells.len() == g.columns,
                index == history + line,
                line_in_grid(g, line as int),
                wrap_end(g, line as int) == wrap_end(g, point.line.0 as int),
            decreases screen - line,
        {
            proof {
                assert(g.row(index as int).cells.len() == g.columns);
                assert(wraps(g, line as int));
            }
            line = line + 1;
            index = index + 1;
        }
        Point::new(Line(line), Column(last_column))
    }

    /// Convert the text between two points to a string.
    pub fn bounds_to_string(&self, start: Point, end: Point) -> (text: String)
        requires
            self.wf(),
            bounds_readable(self@.grid, start, end),
        ensures
            text@ == bounds_text(self@.grid, self@.tabs, start, end),
    {
        let columns = self.grid.width();
        let mut text = String::new();
        let mut line: i64 = start.line.0 as i64;
        while line <= end.line.0 as i64
            invariant
                self.wf(),
                bounds_readable(self@.grid, start, end),
                columns == self@.grid.columns,
                start.line.0 <= line,
                line <= end.line.0 + 1 || line == start.line.0,
                text@ == lines_text(self@.grid, self@.tabs, start, end, line - 1),
            decreases end.line.0 + 1 - line,
        {
            let current = line as i32;
            proof {
                assert(bounds_line_readable(self@.grid, start, end, current as int));
            }
            let start_col = if current == start.line.0 { start.column } else { Column(0) };
            let end_col = if current == end.line.0 { end.column } else { Column(columns - 1) };
            let piece = self.line_to_string(
                Line(current),
                Range { start: start_col, end: end_col },
                current == end.line.0,
            );
            text.append(piece.as_str());
            line = line + 1;
        }
        let ghost all = lines_text(self@.grid, self@.tabs, start, end, end.line.0 as int);
        proof {
            if end.line.0 < start.line.0 {
                assert(lines_text(self@.grid, self@.tabs, start, end, line - 1) =~= Seq::<char>::empty());
            }
            assert(text@ == all);
        }
        let chars = chars_of(text.as_str());
        if chars.len() > 0 && chars[chars.len() - 1] == '\n' {
            let stripped = crate::text::string_from_chars(
                vstd::slice::slice_subrange(chars.as_slice(), 0, chars.len() - 1),
            );
            proof {
                assert(stripped@ =~= all.drop_last());
            }
            return stripped;
        }
        text
    }
}

proof fn lemma_line_length_bound(cells: Seq<Cell>)
    ensures
        line_length(cells) <= cells.len(),
{
    lemma_content_length_bound(cells);
}

proof fn lemma_content_length_bound(cells: Seq<Cell>)
    ensures
        content_length(cells) <= cells.len(),
    decreases cells.len(),
{
    if cells.len() > 0 {
        lemma_content_length_bound(cells.drop_last());
    }
}

/// Whether the last cell of `line` wraps onto the next line.
pub open spec fn wraps(g: GridView, line: int) -> bool {
    g.row(line_row(g, line)).cells[g.columns - 1].flags.has(Flags::WRAPLINE)
}

/// First line of the wrapped line that `line` belongs to.
pub open spec fn wrap_start(g: GridView, line: int) -> int
    decreases line + g.history_size(),
{
    if line > -(g.history_size() as int) && wraps(g, line - 1) {
        wrap_start(g, line - 1)
    } else {
        line
    }
}

/// Last line of the wrapped line that `line` belongs to, within the screen.
pub open spec fn wrap_end(g: GridView, line: int) -> int
    decreases g.visible_lines - line,
{
    if line + 1 < g.visible_lines && wraps(g, line) {
        wrap_end(g, line + 1)
    } else {
        line
    }
}

/// Occupied length of a row (see `line_length`).
fn row_length(row: &GridRow) -> (length: usize)
    ensures
        length == line_length(row@.cells),
{
    let len = row.len();
    if len > 0 && row.cell(len - 1).flags.contains(Flags::WRAPLINE) {
        return len;
    }
    let mut end = len;
    proof {
        assert(row@.cells.take(end as int) =~= row@.cells);
    }
    while end > 0 && row.cell(end - 1).ch == ' '
        invariant
            end <= row@.cells.len(),
            content_length(row@.cells) == content_length(row@.cells.take(end as int)),
        decreases end,
    {
        proof {
            assert(row@.cells.take(end as int).drop_last() =~= row@.cells.take(end - 1));
        }
        end = end - 1;
    }
    end
}

/// SGR 0 resets the template to the default attributes (default colors, no
/// style of any kind), keeping only its hyperlink, whatever it was before.
pub proof fn lemma_reset_restores_defaults(template: CellAttributes)
    ensures
        applied(template, CharacterAttribute::Reset) == (CellAttributes {
            hyperlink: template.hyperlink,
            ..crate::cell::default_attributes()
        }),
        !applied(template, CharacterAttribute::Reset).bold,
        !applied(template, CharacterAttribute::Reset).dim,
        !applied(template, CharacterAttribute::Reset).italic,
        !applied(template, CharacterAttribute::Reset).reverse,
        !applied(template, CharacterAttribute::Reset).hidden,
        !applied(template, CharacterAttribute::Reset).strike,
        applied(template, CharacterAttribute::Reset).underline == crate::cell::CellUnderline::Off,
        applied(template, CharacterAttribute::Reset).blink == crate::cell::CellBlink::Off,
{
}

/// Each style attribute sets exactly its own style and its cancel clears
/// it, leaving every other attribute unchanged.
pub proof fn lemma_styles_set_and_cleared(template: CellAttributes)
    ensures
        applied(template, CharacterAttribute::Bold) == (CellAttributes { bold: true, ..template }),
        applied(template, CharacterAttribute::CancelBold) == (CellAttributes { bold: false, ..template }),
        applied(template, CharacterAttribute::Dim) == (CellAttributes { dim: true, ..template }),
        applied(template, CharacterAttribute::CancelBoldDim) == (CellAttributes { bold: false, dim: false, ..template }),
        applied(template, CharacterAttribute::Italic) == (CellAttributes { italic: true, ..template }),
        applied(template, CharacterAttribute::CancelItalic) == (CellAttributes { italic: false, ..template }),
        applied(template, CharacterAttribute::Reverse) == (CellAttributes { reverse: true, ..template }),
        applied(template, CharacterAttribute::CancelReverse) == (CellAttributes { reverse: false, ..template }),
        applied(template, CharacterAttribute::Hidden) == (CellAttributes { hidden: true, ..template }),
        applied(template, CharacterAttribute::CancelHidden) == (CellAttributes { hidden: false, ..template }),
        applied(template, CharacterAttribute::Strike) == (CellAttributes { strike: true, ..template }),
        applied(template, CharacterAttribute::CancelStrike) == (CellAttributes { strike: false, ..template }),
        applied(template, CharacterAttribute::CancelUnderline) == (CellAttributes {
            underline: crate::cell::CellUnderline::Off,
            ..template
        }),
{
}

/// The opening brackets and their closing partners.
pub open spec fn bracket_pair(open: char, close: char) -> bool {
    ||| open == '(' && close == ')'
    ||| open == '[' && close == ']'
    ||| open == '{' && close == '}'
    ||| open == '<' && close == '>'
}

/// Matching brackets: an opening bracket directly followed by its closing
/// partner matches it, a closing bracket directly preceded by its opening
/// partner matches it, and whatever a bracket matches is its partner (the
/// pairs are `()`, `[]`, `{}` and `<>`); a cell without a bracket matches
/// nothing.
pub proof fn lemma_brackets_match_partners(g: GridView, point: Point)
    ensures
        ({
            let ch = cell_at_point(g, point).ch;
            &&& (next_point(g, point) matches Some(next) && exists|close: char| bracket_pair(ch, close)
                && cell_at_point(g, next).ch == close) ==> matching_bracket(g, point) == next_point(g, point)
            &&& (prev_point(g, point) matches Some(prev) && exists|open: char| bracket_pair(open, ch)
                && cell_at_point(g, prev).ch == open) ==> matching_bracket(g, point) == prev_point(g, point)
            &&& matching_bracket(g, point) matches Some(found) ==> (bracket_pair(ch, cell_at_point(g, found).ch)
                || bracket_pair(cell_at_point(g, found).ch, ch))
            &&& !(exists|other: char| bracket_pair(ch, other) || bracket_pair(other, ch)) ==> matching_bracket(g, point)
                is None
        }),
{
    let ch = cell_at_point(g, point).ch;
    match bracket_partner(ch) {
        None => {},
        Some((forward, end)) => {
            if forward {
                lemma_forward_finds_end(g, point, ch, end, 0);
            } else {
                lemma_backward_finds_end(g, point, ch, end, 0);
            }
        },
    }
}

proof fn lemma_forward_finds_end(g: GridView, point: Point, start: char, end: char, skip: usize)
    ensures
        bracket_forward(g, point, start, end, skip) matches Some(found) ==> cell_at_point(g, found).ch == end,
    decreases g.visible_lines - point.line.0, g.columns - point.column.0,
{
    match next_point(g, point) {
        None => {},
        Some(next) => {
            let ch = cell_at_point(g, next).ch;
            if !(ch == end && skip == 0) {
                lemma_forward_finds_end(g, next, start, end, bracket_depth(ch, start, end, skip));
            }
        },
    }
}

proof fn lemma_backward_finds_end(g: GridView, point: Point, start: char, end: char, skip: usize)
    ensures
        bracket_backward(g, point, start, end, skip) matches Some(found) ==> cell_at_point(g, found).ch == end,
    decreases point.line.0 + g.history_size(), point.column.0,
{
    match prev_point(g, point) {
        None => {},
        Some(prev) => {
            let ch = cell_at_point(g, prev).ch;
            if !(ch == end && skip == 0) {
                lemma_backward_finds_end(g, prev, start, end, bracket_depth(ch, start, end, skip));
            }
        },
    }
}

/// The cell `n` places after `point` in reading order, if there is one.
pub open spec fn nth_next(g: GridView, point: Point, n: nat) -> Option<Point>
    decreases n,
{
    if n == 0 {
        Some(point)
    } else {
        match next_point(g, point) {
            Some(next) => nth_next(g, next, (n - 1) as nat),
            None => None,
        }
    }
}

/// The cell `n` places before `point` in reading order, if there is one.
pub open spec fn nth_prev(g: GridView, point: Point, n: nat) -> Option<Point>
    decreases n,
{
    if n == 0 {
        Some(point)
    } else {
        match prev_point(g, point) {
            Some(prev) => nth_prev(g, prev, (n - 1) as nat),
            None => None,
        }
    }
}

proof fn lemma_forward_depth_zero(g: GridView, point: Point, start: char, end: char, n: nat)
    requires
        n >= 1,
        nth_next(g, point, n) is Some,
        cell_at_point(g, nth_next(g, point, n)->0).ch == end,
        forall|m: nat|
            0 < m < n ==> (#[trigger] nth_next(g, point, m) matches Some(between) && cell_at_point(
                g,
                between,
            ).ch != start && cell_at_point(g, between).ch != end),
    ensures
        bracket_forward(g, point, start, end, 0) == nth_next(g, point, n),
    decreases n,
{
    assert(nth_next(g, point, n) == nth_next(g, next_point(g, point)->0, (n - 1) as nat));
    let next = next_point(g, point)->0;
    assert(nth_next(g, next, 0) == Some(next));
    assert(nth_next(g, point, 1) == Some(next));
    if n > 1 {
        assert(cell_at_point(g, next).ch != start && cell_at_point(g, next).ch != end);
        assert(bracket_depth(cell_at_point(g, next).ch, start, end, 0) == 0);
        assert forall|m: nat| 0 < m < n - 1 implies (#[trigger] nth_next(g, next, m) matches Some(
            between,
        ) && cell_at_point(g, between).ch != start && cell_at_point(g, between).ch != end) by {
            assert(nth_next(g, point, m + 1) == nth_next(g, next, m));
        }
        lemma_forward_depth_zero(g, next, start, end, (n - 1) as nat);
    }
}

proof fn lemma_backward_depth_zero(g: GridView, point: Point, start: char, end: char, n: nat)
    requires
        n >= 1,
        nth_prev(g, point, n) is Some,
        cell_at_point(g, nth_prev(g, point, n)->0).ch == end,
        forall|m: nat|
            0 < m < n ==> (#[trigger] nth_prev(g, point, m) matches Some(between) && cell_at_point(
                g,
                between,
            ).ch != start && cell_at_point(g, between).ch != end),
    ensures
        bracket_backward(g, point, start, end, 0) == nth_prev(g, point, n),
    decreases n,
{
    assert(nth_prev(g, point, n) == nth_prev(g, prev_point(g, point)->0, (n - 1) as nat));
    let prev = prev_point(g, point)->0;
    assert(nth_prev(g, prev, 0) == Some(prev));
    assert(nth_prev(g, point, 1) == Some(prev));
    if n > 1 {
        assert(cell_at_point(g, prev).ch != start && cell_at_point(g, prev).ch != end);
        assert(bracket_depth(cell_at_point(g, prev).ch, start, end, 0) == 0);
        assert forall|m: nat| 0 < m < n - 1 implies (#[trigger] nth_prev(g, prev, m) matches Some(
            between,
        ) && cell_at_point(g, between).ch != start && cell_at_point(g, between).ch != end) by {
            assert(nth_prev(g, point, m + 1) == nth_prev(g, prev, m));
        }
        lemma_backward_depth_zero(g, prev, start, end, (n - 1) as nat);
    }
}

/// An opening bracket matches its closing partner at depth zero: when the
/// cell `n` places after it holds the partner and no cell in between holds
/// either bracket of the pair, that cell is the match. Any of the pairs
/// `()`, `[]`, `{}` and `<>`.
pub proof fn lemma_bracket_closes_forward(g: GridView, point: Point, close: char, n: nat)
    requires
        bracket_pair(cell_at_point(g, point).ch, close),
        n >= 1,
        nth_next(g, point, n) is Some,
        cell_at_point(g, nth_next(g, point, n)->0).ch == close,
        forall|m: nat|
            0 < m < n ==> (#[trigger] nth_next(g, point, m) matches Some(between) && cell_at_point(
                g,
                between,
            ).ch != cell_at_point(g, point).ch && cell_at_point(g, between).ch != close),
    ensures
        matching_bracket(g, point) == nth_next(g, point, n),
{
    lemma_forward_depth_zero(g, point, cell_at_point(g, point).ch, close, n);
}

/// A closing bracket matches its opening partner at depth zero: when the
/// cell `n` places before it holds the partner and no cell in between
/// holds either bracket of the pair, that cell is the match. Any of the
/// pairs `()`, `[]`, `{}` and `<>`.
pub proof fn lemma_bracket_opens_backward(g: GridView, point: Point, open: char, n: nat)
    requires
        bracket_pair(open, cell_at_point(g, point).ch),
        n >= 1,
        nth_prev(g, point, n) is Some,
        cell_at_point(g, nth_prev(g, point, n)->0).ch == open,
        forall|m: nat|
            0 < m < n ==> (#[trigger] nth_prev(g, point, m) matches Some(between) && cell_at_point(
                g,
                between,
            ).ch != cell_at_point(g, point).ch && cell_at_point(g, between).ch != open),
    ensures
        matching_bracket(g, point) == nth_prev(g, point, n),
{
    lemma_backward_depth_zero(g, point, cell_at_point(g, point).ch, open, n);
}

} // verus!
