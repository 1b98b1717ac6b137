//! Terminal-local key bindings.

use vstd::prelude::*;

use crate::block::id::{decimal_digits, digit_char, push_decimal};
use crate::mode::{modes_contain, modes_intersect, SurfaceMode};
use crate::text::push_char;

verus! {

/// Modifier keys held with a keystroke.
#[derive(Clone, Copy, Debug, PartialEq, Eq, Hash, Structural)]
pub struct Modifiers {
    /// Control key.
    pub control: bool,
    /// Alt (option) key.
    pub alt: bool,
    /// Shift key.
    pub shift: bool,
    /// Platform (command, super) key.
    pub platform: bool,
    /// Function key.
    pub function: bool,
}

/// A key press: its modifiers, its key name and the text it types, if any.
#[derive(Debug, PartialEq, Eq, Hash)]
pub struct Keystroke {
    /// Modifiers held.
    pub modifiers: Modifiers,
    /// Name of the key.
    pub key: String,
    /// Text typed by the key, when it types any.
    pub key_char: Option<String>,
}

/// Abstract content of a keystroke.
pub type KeystrokeView = (Modifiers, Seq<char>, Option<Seq<char>>);

/// View of an optional string.
pub open spec fn optional_text(text: Option<String>) -> Option<Seq<char>> {
    match text {
        Some(text) => Some(text@),
        None => None,
    }
}

impl View for Keystroke {
    type V = KeystrokeView;

    open spec fn view(&self) -> KeystrokeView {
        (self.modifiers, self.key@, optional_text(self.key_char))
    }
}

impl Clone for Keystroke {
    fn clone(&self) -> (copy: Self)
        ensures
            copy@ == self@,
    {
        Keystroke {
            modifiers: self.modifiers,
            key: self.key.clone(),
            key_char: match &self.key_char {
                Some(text) => Some(text.clone()),
                None => None,
            },
        }
    }
}

impl Keystroke {
    /// Whether two keystrokes are the same key press.
    pub fn same_as(&self, other: &Keystroke) -> (same: bool)
        ensures
            same == (self@ == other@),
    {
        if self.modifiers != other.modifiers || self.key != other.key {
            return false;
        }
        match (&self.key_char, &other.key_char) {
            (Some(mine), Some(theirs)) => *mine == *theirs,
            (None, None) => true,
            _ => false,
        }
    }
}

/// Result of matching a keystroke against terminal-local bindings.
#[derive(Debug, PartialEq, Eq)]
pub enum BindingAction {
    /// Write the exact bytes to the active terminal backend.
    Bytes(Vec<u8>),
    /// Copy the current selection.
    Copy,
    /// Paste the native clipboard.
    Paste,
    /// Consume the keystroke without writing bytes.
    Ignore,
}

/// Abstract content of a binding action.
pub enum ActionView {
    /// Write these bytes.
    Bytes(Seq<u8>),
    /// Copy the selection.
    Copy,
    /// Paste the clipboard.
    Paste,
    /// Consume the keystroke.
    Ignore,
}

impl View for BindingAction {
    type V = ActionView;

    open spec fn view(&self) -> ActionView {
        match self {
            BindingAction::Bytes(bytes) => ActionView::Bytes(bytes@),
            BindingAction::Copy => ActionView::Copy,
            BindingAction::Paste => ActionView::Paste,
            BindingAction::Ignore => ActionView::Ignore,
        }
    }
}

impl Clone for BindingAction {
    fn clone(&self) -> (copy: Self)
        ensures
            copy@ == self@,
    {
        match self {
            BindingAction::Bytes(bytes) => BindingAction::Bytes(bytes.clone()),
            BindingAction::Copy => BindingAction::Copy,
            BindingAction::Paste => BindingAction::Paste,
            BindingAction::Ignore => BindingAction::Ignore,
        }
    }
}

/// Abstract content of a binding.
pub struct BindingView {
    pub keystroke: KeystrokeView,
    pub mode_include: u32,
    pub mode_exclude: u32,
    pub action: ActionView,
}

/// Whether a binding applies to `input` in surface mode `mode`.
pub open spec fn binding_matches(binding: BindingView, input: KeystrokeView, mode: u32) -> bool {
    &&& binding.keystroke == input
    &&& modes_contain(mode, binding.mode_include)
    &&& !modes_intersect(mode, binding.mode_exclude)
}

/// Whether two bindings fire on the same keystroke under the same modes.
pub open spec fn same_trigger(a: BindingView, b: BindingView) -> bool {
    &&& a.keystroke == b.keystroke
    &&& a.mode_include == b.mode_include
    &&& a.mode_exclude == b.mode_exclude
}

/// One terminal-local keystroke binding with mode constraints.
#[derive(Debug, PartialEq, Eq)]
pub struct TerminalBinding {
    keystroke: Keystroke,
    mode_include: SurfaceMode,
    mode_exclude: SurfaceMode,
    action: BindingAction,
}

impl View for TerminalBinding {
    type V = BindingView;

    closed spec fn view(&self) -> BindingView {
        BindingView {
            keystroke: self.keystroke@,
            mode_include: self.mode_include@,
            mode_exclude: self.mode_exclude@,
            action: self.action@,
        }
    }
}

impl Clone for TerminalBinding {
    fn clone(&self) -> (copy: Self)
        ensures
            copy@ == self@,
    {
        TerminalBinding {
            keystroke: self.keystroke.clone(),
            mode_include: self.mode_include,
            mode_exclude: self.mode_exclude,
            action: self.action.clone(),
        }
    }
}

impl TerminalBinding {
    /// Bound keystroke.
    pub fn keystroke(&self) -> (keystroke: &Keystroke)
        ensures
            keystroke@ == self@.keystroke,
    {
        &self.keystroke
    }

    /// Action performed by the binding.
    pub fn action(&self) -> (action: &BindingAction)
        ensures
            action@ == self@.action,
    {
        &self.action
    }

    /// Create a binding for an exact keystroke and surface mode predicate:
    /// it fires when every mode of `mode_include` and none of `mode_exclude`
    /// is set.
    pub fn new(
        keystroke: Keystroke,
        mode_include: SurfaceMode,
        mode_exclude: SurfaceMode,
        action: BindingAction,
    ) -> (binding: Self)
        ensures
            binding@ == (BindingView {
                keystroke: keystroke@,
                mode_include: mode_include@,
                mode_exclude: mode_exclude@,
                action: action@,
            }),
    {
        TerminalBinding { keystroke, mode_include, mode_exclude, action }
    }

    /// Whether the binding applies to `input` in `mode`.
    pub fn matches(&self, input: &Keystroke, mode: SurfaceMode) -> (applies: bool)
        ensures
            applies == binding_matches(self@, input@, mode@),
    {
        self.keystroke.same_as(input) && mode.contains(self.mode_include) && !mode.intersects(
            self.mode_exclude,
        )
    }

    /// Whether two bindings fire on the same keystroke under the same modes.
    pub fn same_trigger(&self, other: &Self) -> (same: bool)
        ensures
            same == same_trigger(self@, other@),
    {
        self.keystroke.same_as(&other.keystroke) && self.mode_include.bits()
            == other.mode_include.bits() && self.mode_exclude.bits() == other.mode_exclude.bits()
    }
}

/// Whether no two bindings share a trigger.
pub open spec fn triggers_distinct(entries: Seq<BindingView>) -> bool {
    forall|i: int, j: int|
        0 <= i < j < entries.len() ==> !same_trigger(#[trigger] entries[i], #[trigger] entries[j])
}

/// Bindings after adding `binding`: an entry with the same trigger is
/// replaced in place, otherwise the binding is appended.
pub open spec fn with_binding(entries: Seq<BindingView>, binding: BindingView) -> Seq<BindingView> {
    if exists|i: int| 0 <= i < entries.len() && same_trigger(#[trigger] entries[i], binding) {
        let i = choose|i: int| 0 <= i < entries.len() && same_trigger(#[trigger] entries[i], binding);
        entries.update(i, binding)
    } else {
        entries.push(binding)
    }
}

/// Action of the first binding, in lookup order, that applies to `input`
/// in `mode`.
pub open spec fn first_match(entries: Seq<BindingView>, input: KeystrokeView, mode: u32) -> Option<
    ActionView,
>
    decreases entries.len(),
{
    if entries.len() == 0 {
        None
    } else if binding_matches(entries[0], input, mode) {
        Some(entries[0].action)
    } else {
        first_match(entries.drop_first(), input, mode)
    }
}

/// Ordered terminal-local key bindings with replacement semantics.
#[derive(Debug, PartialEq, Eq)]
pub struct TerminalBindings {
    entries: Vec<TerminalBinding>,
}

impl View for TerminalBindings {
    type V = Seq<BindingView>;

    closed spec fn view(&self) -> Seq<BindingView> {
        self.entries@.map_values(|binding: TerminalBinding| binding@)
    }
}

impl TerminalBindings {
    #[verifier::type_invariant]
    spec fn distinct(self) -> bool {
        triggers_distinct(self@)
    }

    /// Borrow all configured bindings in lookup order.
    pub fn entries(&self) -> (entries: &[TerminalBinding])
        ensures
            entries@.map_values(|binding: TerminalBinding| binding@) == self@,
            triggers_distinct(self@),
    {
        proof {
            use_type_invariant(self);
        }
        self.entries.as_slice()
    }

    /// Create an empty binding table.
    pub fn new() -> (bindings: Self)
        ensures
            bindings@ == Seq::<BindingView>::empty(),
    {
        let bindings = TerminalBindings { entries: Vec::new() };
        proof {
            assert(bindings@ =~= Seq::<BindingView>::empty());
        }
        bindings
    }

    /// Add a binding, replacing an existing entry with the same trigger.
    pub fn add(&mut self, binding: TerminalBinding)
        ensures
            final(self)@ == with_binding(old(self)@, binding@),
    {
        proof {
            use_type_invariant(&*self);
        }
        let ghost before = self@;
        let mut i: usize = 0;
        while i < self.entries.len()
            invariant
                i <= self.entries@.len(),
                self@ == before,
                old(self)@ == before,
                triggers_distinct(before),
                forall|j: int| 0 <= j < i ==> !same_trigger(before[j], binding@),
            decreases self.entries@.len() - i,
        {
            if self.entries[i].same_trigger(&binding) {
                let ghost bview = binding@;
                proof {
                    assert(before[i as int] == self.entries@[i as int]@);
                    assert(same_trigger(before[i as int], bview));
                    lemma_replace_keeps_distinct(before, i as int, bview);
                }
                let mut entries: Vec<TerminalBinding> = Vec::new();
                std::mem::swap(&mut entries, &mut self.entries);
                entries.set(i, binding);
                proof {
                    assert(entries@.map_values(|b: TerminalBinding| b@) =~= before.update(
                        i as int,
                        bview,
                    ));
                }
                self.entries = entries;
                proof {
                    let k = choose|k: int| 0 <= k < before.len() && same_trigger(
                        #[trigger] before[k],
                        bview,
                    );
                    assert(k == i) by {
                        if k > i {
                            assert(same_trigger(before[i as int], before[k]));
                        }
                    }
                }
                return;
            }
            i = i + 1;
        }
        let ghost bview = binding@;
        let mut entries: Vec<TerminalBinding> = Vec::new();
                std::mem::swap(&mut entries, &mut self.entries);
        entries.push(binding);
        proof {
            assert(entries@.map_values(|b: TerminalBinding| b@) =~= before.push(bview));
            assert(triggers_distinct(before.push(bview))) by {
                assert forall|a: int, b: int| 0 <= a < b < before.len() + 1 implies !same_trigger(
                    #[trigger] before.push(bview)[a],
                    #[trigger] before.push(bview)[b],
                ) by {
                    if b == before.len() {
                        assert(!same_trigger(before[a], bview));
                    } else {
                        assert(!same_trigger(before[a], before[b]));
                    }
                }
            }
        }
        self.entries = entries;
    }

    /// Add or replace several bindings, in order.
    pub fn add_many(&mut self, bindings: Vec<TerminalBinding>)
        ensures
            final(self)@ == bindings@.map_values(|b: TerminalBinding| b@).fold_left(
                old(self)@,
                |entries: Seq<BindingView>, b: BindingView| with_binding(entries, b),
            ),
    {
        let ghost views = bindings@.map_values(|b: TerminalBinding| b@);
        let ghost start = self@;
        let mut i: usize = 0;
        proof {
            assert(views.take(0) =~= Seq::<BindingView>::empty());
        }
        while i < bindings.len()
            invariant
                i <= bindings@.len(),
                views == bindings@.map_values(|b: TerminalBinding| b@),
                self@ == views.take(i as int).fold_left(
                    start,
                    |entries: Seq<BindingView>, b: BindingView| with_binding(entries, b),
                ),
            decreases bindings@.len() - i,
        {
            let binding = bindings[i].clone();
            proof {
                assert(views.take(i + 1).drop_last() =~= views.take(i as int));
            }
            self.add(binding);
            i = i + 1;
        }
        proof {
            assert(views.take(i as int) =~= views);
        }
    }

    /// Resolve the first binding matching the input and active surface mode.
    pub fn resolve(&self, input: &Keystroke, mode: SurfaceMode) -> (action: Option<&BindingAction>)
        ensures
            match action {
                Some(action) => first_match(self@, input@, mode@) == Some(action@),
                None => first_match(self@, input@, mode@) is None,
            },
    {
        let mut i: usize = 0;
        proof {
            assert(self@.skip(0) =~= self@);
        }
        while i < self.entries.len()
            invariant
                i <= self.entries@.len(),
                first_match(self@, input@, mode@) == first_match(
                    self@.skip(i as int),
                    input@,
                    mode@,
                ),
            decreases self.entries@.len() - i,
        {
            proof {
                assert(self@.skip(i as int).drop_first() =~= self@.skip(i + 1));
                assert(self@.skip(i as int)[0] == self.entries@[i as int]@);
            }
            if self.entries[i].matches(input, mode) {
                return Some(self.entries[i].action());
            }
            i = i + 1;
        }
        None
    }

    /// The UTF-8 bytes typed by an unmodified printable keystroke: its text,
    /// or its key name where it types none; `None` when control, alt,
    /// platform or function is held, or when that text is empty.
    pub fn bytes_for_printable<'a>(&self, input: &'a Keystroke) -> (bytes: Option<&'a [u8]>)
        ensures
            match bytes {
                Some(bytes) => printable_text(input@) matches Some(text) && bytes@
                    == vstd::utf8::encode_utf8(text),
                None => printable_text(input@) is None,
            },
    {
        let modifiers = input.modifiers;
        if modifiers.control || modifiers.alt || modifiers.platform || modifiers.function {
            return None;
        }
        let text: &str = match &input.key_char {
            Some(text) => text.as_str(),
            None => input.key.as_str(),
        };
        if text.is_empty() {
            return None;
        }
        Some(text.as_bytes())
    }
}

/// Text typed by a keystroke when no command modifier is held.
pub open spec fn printable_text(input: KeystrokeView) -> Option<Seq<char>> {
    let modifiers = input.0;
    if modifiers.control || modifiers.alt || modifiers.platform || modifiers.function {
        None
    } else {
        let text = match input.2 {
            Some(text) => text,
            None => input.1,
        };
        if text.len() == 0 {
            None
        } else {
            Some(text)
        }
    }
}

/// Adding the same binding twice leaves the table as adding it once, and
/// adding keeps the triggers distinct.
pub proof fn lemma_add_idempotent(entries: Seq<BindingView>, binding: BindingView)
    requires
        triggers_distinct(entries),
    ensures
        triggers_distinct(with_binding(entries, binding)),
        with_binding(with_binding(entries, binding), binding) == with_binding(entries, binding),
{
    let once = with_binding(entries, binding);
    if exists|i: int| 0 <= i < entries.len() && same_trigger(#[trigger] entries[i], binding) {
        let i = choose|i: int| 0 <= i < entries.len() && same_trigger(#[trigger] entries[i], binding);
        lemma_replace_keeps_distinct(entries, i, binding);
        assert(same_trigger(once[i], binding));
        let j = choose|j: int| 0 <= j < once.len() && same_trigger(#[trigger] once[j], binding);
        assert(j == i) by {
            if j != i {
                assert(same_trigger(entries[j], binding));
                assert(same_trigger(entries[i], entries[j]) || same_trigger(entries[j], entries[i]));
            }
        }
        assert(once.update(i, binding) =~= once);
    } else {
        let n = entries.len() as int;
        assert(same_trigger(once[n], binding));
        let j = choose|j: int| 0 <= j < once.len() && same_trigger(#[trigger] once[j], binding);
        assert(j == n) by {
            if j < n {
                assert(same_trigger(entries[j], binding));
            }
        }
        assert(once.update(n, binding) =~= once);
        assert(triggers_distinct(once)) by {
            assert forall|a: int, b: int| 0 <= a < b < once.len() implies !same_trigger(
                #[trigger] once[a],
                #[trigger] once[b],
            ) by {
                if b == n {
                    assert(!same_trigger(entries[a], binding));
                } else {
                    assert(!same_trigger(entries[a], entries[b]));
                }
            }
        }
    }
}

proof fn lemma_replace_keeps_distinct(entries: Seq<BindingView>, i: int, binding: BindingView)
    requires
        triggers_distinct(entries),
        0 <= i < entries.len(),
        same_trigger(entries[i], binding),
    ensures
        triggers_distinct(entries.update(i, binding)),
{
    let updated = entries.update(i, binding);
    assert forall|a: int, b: int| 0 <= a < b < updated.len() implies !same_trigger(
        #[trigger] updated[a],
        #[trigger] updated[b],
    ) by {
        assert(!same_trigger(entries[a], entries[b]));
    }
}

/// Bytes sent by function key `number` (`F1` to `F20`; 20 and above send
/// the `F20` sequence).
pub open spec fn function_key_sequence(number: nat) -> Seq<u8> {
    let tail: Seq<u8> = if number == 1 {
        seq![0x4fu8, 0x50u8]
    } else if number == 2 {
        seq![0x4fu8, 0x51u8]
    } else if number == 3 {
        seq![0x4fu8, 0x52u8]
    } else if number == 4 {
        seq![0x4fu8, 0x53u8]
    } else if number == 5 {
        seq![0x5bu8, 0x31u8, 0x35u8, 0x7eu8]
    } else if number == 6 {
        seq![0x5bu8, 0x31u8, 0x37u8, 0x7eu8]
    } else if number == 7 {
        seq![0x5bu8, 0x31u8, 0x38u8, 0x7eu8]
    } else if number == 8 {
        seq![0x5bu8, 0x31u8, 0x39u8, 0x7eu8]
    } else if number == 9 {
        seq![0x5bu8, 0x32u8, 0x30u8, 0x7eu8]
    } else if number == 10 {
        seq![0x5bu8, 0x32u8, 0x31u8, 0x7eu8]
    } else if number == 11 {
        seq![0x5bu8, 0x32u8, 0x33u8, 0x7eu8]
    } else if number == 12 {
        seq![0x5bu8, 0x32u8, 0x34u8, 0x7eu8]
    } else if number == 13 {
        seq![0x5bu8, 0x32u8, 0x35u8, 0x7eu8]
    } else if number == 14 {
        seq![0x5bu8, 0x32u8, 0x36u8, 0x7eu8]
    } else if number == 15 {
        seq![0x5bu8, 0x32u8, 0x38u8, 0x7eu8]
    } else if number == 16 {
        seq![0x5bu8, 0x32u8, 0x39u8, 0x7eu8]
    } else if number == 17 {
        seq![0x5bu8, 0x33u8, 0x31u8, 0x7eu8]
    } else if number == 18 {
        seq![0x5bu8, 0x33u8, 0x32u8, 0x7eu8]
    } else if number == 19 {
        seq![0x5bu8, 0x33u8, 0x33u8, 0x7eu8]
    } else {
        seq![0x5bu8, 0x33u8, 0x34u8, 0x7eu8]
    };
    seq![0x1bu8] + tail
}

/// Bytes sent by function key `number`.
pub fn function_key_bytes(number: usize) -> (bytes: Vec<u8>)
    ensures
        bytes@ == function_key_sequence(number as nat),
{
    let bytes = match number {
        1 => vec![0x1b, 0x4f, 0x50],
        2 => vec![0x1b, 0x4f, 0x51],
        3 => vec![0x1b, 0x4f, 0x52],
        4 => vec![0x1b, 0x4f, 0x53],
        5 => vec![0x1b, 0x5b, 0x31, 0x35, 0x7e],
        6 => vec![0x1b, 0x5b, 0x31, 0x37, 0x7e],
        7 => vec![0x1b, 0x5b, 0x31, 0x38, 0x7e],
        8 => vec![0x1b, 0x5b, 0x31, 0x39, 0x7e],
        9 => vec![0x1b, 0x5b, 0x32, 0x30, 0x7e],
        10 => vec![0x1b, 0x5b, 0x32, 0x31, 0x7e],
        11 => vec![0x1b, 0x5b, 0x32, 0x33, 0x7e],
        12 => vec![0x1b, 0x5b, 0x32, 0x34, 0x7e],
        13 => vec![0x1b, 0x5b, 0x32, 0x35, 0x7e],
        14 => vec![0x1b, 0x5b, 0x32, 0x36, 0x7e],
        15 => vec![0x1b, 0x5b, 0x32, 0x38, 0x7e],
        16 => vec![0x1b, 0x5b, 0x32, 0x39, 0x7e],
        17 => vec![0x1b, 0x5b, 0x33, 0x31, 0x7e],
        18 => vec![0x1b, 0x5b, 0x33, 0x32, 0x7e],
        19 => vec![0x1b, 0x5b, 0x33, 0x33, 0x7e],
        _ => vec![0x1b, 0x5b, 0x33, 0x34, 0x7e],
    };
    proof {
        assert(bytes@ =~= function_key_sequence(number as nat));
    }
    bytes
}

/// A binding of an unmodified or modified key name to literal bytes.
fn binding(
    key: String,
    modifiers: Modifiers,
    required: SurfaceMode,
    exclude: SurfaceMode,
    bytes: Vec<u8>,
) -> (binding: TerminalBinding)
    ensures
        binding@ == (BindingView {
            keystroke: (modifiers, key@, None),
            mode_include: required@,
            mode_exclude: exclude@,
            action: ActionView::Bytes(bytes@),
        }),
{
    TerminalBinding::new(
        Keystroke { modifiers, key, key_char: None },
        required,
        exclude,
        BindingAction::Bytes(bytes),
    )
}

/// Binding of an unmodified key that sends `bytes` outside application
/// cursor mode (`application == false`) or only inside it.
fn navigation_binding(key: &str, bytes: Vec<u8>, application: bool) -> (binding: TerminalBinding)
    ensures
        binding@ == navigation_view(key@, bytes@, application),
{
    let app = SurfaceMode::new(SurfaceMode::APP_CURSOR);
    if application {
        binding(key.to_string(), Modifiers::default(), app, SurfaceMode::empty(), bytes)
    } else {
        binding(key.to_string(), Modifiers::default(), SurfaceMode::empty(), app, bytes)
    }
}

impl Modifiers {
    /// No modifier held.
    pub open spec fn spec_none() -> Modifiers {
        Modifiers { control: false, alt: false, shift: false, platform: false, function: false }
    }
}

impl Default for Modifiers {
    fn default() -> (modifiers: Self)
        ensures
            modifiers == Modifiers::spec_none(),
    {
        Modifiers { control: false, alt: false, shift: false, platform: false, function: false }
    }
}

/// A binding of an unmodified key that sends `bytes` outside application
/// cursor mode, or only inside it.
pub open spec fn navigation_view(key: Seq<char>, bytes: Seq<u8>, application: bool) -> BindingView {
    BindingView {
        keystroke: (Modifiers::spec_none(), key, None),
        mode_include: if application { SurfaceMode::APP_CURSOR } else { 0 },
        mode_exclude: if application { 0 } else { SurfaceMode::APP_CURSOR },
        action: ActionView::Bytes(bytes),
    }
}

/// Bindings of the editing and navigation keys: normal sequences outside
/// application cursor mode, then the application sequences.
pub open spec fn navigation_table() -> Seq<BindingView> {
    seq![
        navigation_view("enter"@, seq![0x0du8], false),
        navigation_view("backspace"@, seq![0x7fu8], false),
        navigation_view("escape"@, seq![0x1bu8], false),
        navigation_view("tab"@, seq![0x09u8], false),
        navigation_view("insert"@, seq![0x1bu8, 0x5bu8, 0x32u8, 0x7eu8], false),
        navigation_view("delete"@, seq![0x1bu8, 0x5bu8, 0x33u8, 0x7eu8], false),
        navigation_view("pageup"@, seq![0x1bu8, 0x5bu8, 0x35u8, 0x7eu8], false),
        navigation_view("pagedown"@, seq![0x1bu8, 0x5bu8, 0x36u8, 0x7eu8], false),
        navigation_view("home"@, seq![0x1bu8, 0x5bu8, 0x48u8], false),
        navigation_view("end"@, seq![0x1bu8, 0x5bu8, 0x46u8], false),
        navigation_view("up"@, seq![0x1bu8, 0x5bu8, 0x41u8], false),
        navigation_view("down"@, seq![0x1bu8, 0x5bu8, 0x42u8], false),
        navigation_view("left"@, seq![0x1bu8, 0x5bu8, 0x44u8], false),
        navigation_view("right"@, seq![0x1bu8, 0x5bu8, 0x43u8], false),
        navigation_view("home"@, seq![0x1bu8, 0x4fu8, 0x48u8], true),
        navigation_view("end"@, seq![0x1bu8, 0x4fu8, 0x46u8], true),
        navigation_view("up"@, seq![0x1bu8, 0x4fu8, 0x41u8], true),
        navigation_view("down"@, seq![0x1bu8, 0x4fu8, 0x42u8], true),
        navigation_view("left"@, seq![0x1bu8, 0x4fu8, 0x44u8], true),
        navigation_view("right"@, seq![0x1bu8, 0x4fu8, 0x43u8], true),
    ]
}

/// Binding of function key `number`, in every mode.
pub open spec fn function_key_view(number: nat) -> BindingView {
    BindingView {
        keystroke: (Modifiers::spec_none(), "f"@ + decimal_digits(number), None),
        mode_include: 0,
        mode_exclude: 0,
        action: ActionView::Bytes(function_key_sequence(number)),
    }
}

/// Modifiers with only control held.
pub open spec fn control_only() -> Modifiers {
    Modifiers { control: true, ..Modifiers::spec_none() }
}

/// Binding of `Ctrl` with the letter `offset` places after `a`, sending
/// control character `offset + 1`.
pub open spec fn control_key_view(offset: nat) -> BindingView {
    BindingView {
        keystroke: (control_only(), seq![((0x61 + offset) as u8) as char], None),
        mode_include: 0,
        mode_exclude: 0,
        action: ActionView::Bytes(seq![(offset + 1) as u8]),
    }
}

/// The standard bindings in the order they are added.
pub open spec fn default_table() -> Seq<BindingView> {
    navigation_table() + Seq::new(20, |i: int| function_key_view((i + 1) as nat)) + Seq::new(
        26,
        |i: int| control_key_view(i as nat),
    )
}

/// The standard bindings, in the order they are added.
fn default_list() -> (list: Vec<TerminalBinding>)
    ensures
        list@.map_values(|b: TerminalBinding| b@) == default_table(),
{
    let mut list: Vec<TerminalBinding> = Vec::new();
    let bytes = vec![0x0d];
    proof {
        assert(bytes@ =~= seq![0x0du8]);
    }
    list.push(navigation_binding("enter", bytes, false));
    let bytes = vec![0x7f];
    proof {
        assert(bytes@ =~= seq![0x7fu8]);
    }
    list.push(navigation_binding("backspace", bytes, false));
    let bytes = vec![0x1b];
    proof {
        assert(bytes@ =~= seq![0x1bu8]);
    }
    list.push(navigation_binding("escape", bytes, false));
    let bytes = vec![0x09];
    proof {
        assert(bytes@ =~= seq![0x09u8]);
    }
    list.push(navigation_binding("tab", bytes, false));
    let bytes = vec![0x1b, 0x5b, 0x32, 0x7e];
    proof {
        assert(bytes@ =~= seq![0x1bu8, 0x5bu8, 0x32u8, 0x7eu8]);
    }
    list.push(navigation_binding("insert", bytes, false));
    let bytes = vec![0x1b, 0x5b, 0x33, 0x7e];
    proof {
        assert(bytes@ =~= seq![0x1bu8, 0x5bu8, 0x33u8, 0x7eu8]);
    }
    list.push(navigation_binding("delete", bytes, false));
    let bytes = vec![0x1b, 0x5b, 0x35, 0x7e];
    proof {
        assert(bytes@ =~= seq![0x1bu8, 0x5bu8, 0x35u8, 0x7eu8]);
    }
    list.push(navigation_binding("pageup", bytes, false));
    let bytes = vec![0x1b, 0x5b, 0x36, 0x7e];
    proof {
        assert(bytes@ =~= seq![0x1bu8, 0x5bu8, 0x36u8, 0x7eu8]);
    }
    list.push(navigation_binding("pagedown", bytes, false));
    let bytes = vec![0x1b, 0x5b, 0x48];
    proof {
        assert(bytes@ =~= seq![0x1bu8, 0x5bu8, 0x48u8]);
    }
    list.push(navigation_binding("home", bytes, false));
    let bytes = vec![0x1b, 0x5b, 0x46];
    proof {
        assert(bytes@ =~= seq![0x1bu8, 0x5bu8, 0x46u8]);
    }
    list.push(navigation_binding("end", bytes, false));
    let bytes = vec![0x1b, 0x5b, 0x41];
    proof {
        assert(bytes@ =~= seq![0x1bu8, 0x5bu8, 0x41u8]);
    }
    list.push(navigation_binding("up", bytes, false));
    let bytes = vec![0x1b, 0x5b, 0x42];
    proof {
        assert(bytes@ =~= seq![0x1bu8, 0x5bu8, 0x42u8]);
    }
    list.push(navigation_binding("down", bytes, false));
    let bytes = vec![0x1b, 0x5b, 0x44];
    proof {
        assert(bytes@ =~= seq![0x1bu8, 0x5bu8, 0x44u8]);
    }
    list.push(navigation_binding("left", bytes, false));
    let bytes = vec![0x1b, 0x5b, 0x43];
    proof {
        assert(bytes@ =~= seq![0x1bu8, 0x5bu8, 0x43u8]);
    }
    list.push(navigation_binding("right", bytes, false));
    let bytes = vec![0x1b, 0x4f, 0x48];
    proof {
        assert(bytes@ =~= seq![0x1bu8, 0x4fu8, 0x48u8]);
    }
    list.push(navigation_binding("home", bytes, true));
    let bytes = vec![0x1b, 0x4f, 0x46];
    proof {
        assert(bytes@ =~= seq![0x1bu8, 0x4fu8, 0x46u8]);
    }
    list.push(navigation_binding("end", bytes, true));
    let bytes = vec![0x1b, 0x4f, 0x41];
    proof {
        assert(bytes@ =~= seq![0x1bu8, 0x4fu8, 0x41u8]);
    }
    list.push(navigation_binding("up", bytes, true));
    let bytes = vec![0x1b, 0x4f, 0x42];
    proof {
        assert(bytes@ =~= seq![0x1bu8, 0x4fu8, 0x42u8]);
    }
    list.push(navigation_binding("down", bytes, true));
    let bytes = vec![0x1b, 0x4f, 0x44];
    proof {
        assert(bytes@ =~= seq![0x1bu8, 0x4fu8, 0x44u8]);
    }
    list.push(navigation_binding("left", bytes, true));
    let bytes = vec![0x1b, 0x4f, 0x43];
    proof {
        assert(bytes@ =~= seq![0x1bu8, 0x4fu8, 0x43u8]);
    }
    list.push(navigation_binding("right", bytes, true));
    proof {
        assert(list@.map_values(|b: TerminalBinding| b@) =~= navigation_table());
    }
    let mut number: usize = 1;
    while number <= 20
        invariant
            1 <= number <= 21,
            list@.map_values(|b: TerminalBinding| b@) == navigation_table() + Seq::new(
                (number - 1) as nat,
                |i: int| function_key_view((i + 1) as nat),
            ),
        decreases 21 - number,
    {
        let mut key = "f".to_string();
        push_decimal(&mut key, number as u64);
        let entry = binding(
            key,
            Modifiers::default(),
            SurfaceMode::empty(),
            SurfaceMode::empty(),
            function_key_bytes(number),
        );
        proof {
            assert(entry@ == function_key_view(number as nat));
        }
        let ghost before = list@.map_values(|b: TerminalBinding| b@);
        list.push(entry);
        number = number + 1;
        proof {
            assert(list@.map_values(|b: TerminalBinding| b@) =~= before.push(
                function_key_view((number - 1) as nat),
            ));
            assert(list@.map_values(|b: TerminalBinding| b@) =~= navigation_table() + Seq::new(
                (number - 1) as nat,
                |i: int| function_key_view((i + 1) as nat),
            ));
        }
    }
    let ghost keys = navigation_table() + Seq::new(20, |i: int| function_key_view((i + 1) as nat));
    proof {
        assert(list@.map_values(|b: TerminalBinding| b@) =~= keys);
    }
    let mut offset: u8 = 0;
    while offset < 26
        invariant
            offset <= 26,
            list@.map_values(|b: TerminalBinding| b@) == keys + Seq::new(
                offset as nat,
                |i: int| control_key_view(i as nat),
            ),
        decreases 26 - offset,
    {
        let mut key = String::new();
        push_char(&mut key, (0x61u8 + offset) as char);
        let control = Modifiers { control: true, ..Modifiers::default() };
        let code = vec![offset + 1];
        proof {
            assert(code@ =~= seq![(offset + 1) as u8]);
            assert(key@ =~= seq![((0x61 + offset) as u8) as char]);
        }
        let entry = binding(key, control, SurfaceMode::empty(), SurfaceMode::empty(), code);
        proof {
            assert(entry@ == control_key_view(offset as nat));
        }
        let ghost before = list@.map_values(|b: TerminalBinding| b@);
        list.push(entry);
        offset = offset + 1;
        proof {
            assert(list@.map_values(|b: TerminalBinding| b@) =~= before.push(
                control_key_view((offset - 1) as nat),
            ));
            assert(list@.map_values(|b: TerminalBinding| b@) =~= keys + Seq::new(
                offset as nat,
                |i: int| control_key_view(i as nat),
            ));
        }
    }
    proof {
        assert(keys + Seq::new(26, |i: int| control_key_view(i as nat)) =~= default_table());
    }
    list
}

impl Default for TerminalBindings {
    /// The standard table: editing and navigation keys (normal and
    /// application cursor sequences), `F1` to `F20`, and `Ctrl-a` to
    /// `Ctrl-z` sending control characters 1 to 26, added in that order.
    fn default() -> (bindings: Self)
        ensures
            bindings@ == default_table().fold_left(
                Seq::<BindingView>::empty(),
                |entries: Seq<BindingView>, b: BindingView| with_binding(entries, b),
            ),
            bindings@ == default_bindings(),
            triggers_distinct(bindings@),
    {
        let mut bindings = TerminalBindings::new();
        bindings.add_many(default_list());
        proof {
            use_type_invariant(&bindings);
        }
        bindings
    }
}

proof fn lemma_digits_nonempty(n: nat)
    ensures
        decimal_digits(n).len() >= 1,
    decreases n,
{
    if n >= 10 {
        lemma_digits_nonempty(n / 10);
    }
}

/// Distinct numbers have distinct decimal digits.
proof fn lemma_digits_injective(a: nat, b: nat)
    requires
        decimal_digits(a) == decimal_digits(b),
    ensures
        a == b,
    decreases a,
{
    if a < 10 && b < 10 {
        assert(decimal_digits(a)[0] == digit_char(a));
        assert(decimal_digits(b)[0] == digit_char(b));
    } else if a < 10 {
        lemma_digits_nonempty(b / 10);
        assert(decimal_digits(b).len() >= 2);
    } else if b < 10 {
        lemma_digits_nonempty(a / 10);
        assert(decimal_digits(a).len() >= 2);
    } else {
        let da = decimal_digits(a);
        let db = decimal_digits(b);
        assert(da.last() == digit_char(a % 10));
        assert(db.last() == digit_char(b % 10));
        assert(da.drop_last() =~= decimal_digits(a / 10));
        assert(db.drop_last() =~= decimal_digits(b / 10));
        lemma_digits_injective(a / 10, b / 10);
    }
}

/// `first_match` gives the action of the first binding that applies.
proof fn lemma_first_match_at(entries: Seq<BindingView>, input: KeystrokeView, mode: u32, k: int)
    requires
        0 <= k < entries.len(),
        binding_matches(entries[k], input, mode),
        forall|j: int| 0 <= j < k ==> !binding_matches(#[trigger] entries[j], input, mode),
    ensures
        first_match(entries, input, mode) == Some(entries[k].action),
    decreases k,
{
    if k > 0 {
        assert(!binding_matches(entries[0], input, mode));
        let rest = entries.drop_first();
        assert forall|j: int| 0 <= j < k - 1 implies !binding_matches(#[trigger] rest[j], input, mode) by {
            assert(rest[j] == entries[j + 1]);
        }
        lemma_first_match_at(rest, input, mode, k - 1);
    }
}

/// Adding bindings with pairwise distinct triggers one by one to an empty
/// table gives them in order.
proof fn lemma_fold_distinct(entries: Seq<BindingView>)
    requires
        triggers_distinct(entries),
    ensures
        entries.fold_left(
            Seq::<BindingView>::empty(),
            |acc: Seq<BindingView>, b: BindingView| with_binding(acc, b),
        ) == entries,
    decreases entries.len(),
{
    if entries.len() > 0 {
        let init = entries.drop_last();
        assert(triggers_distinct(init)) by {
            assert forall|i: int, j: int| 0 <= i < j < init.len() implies !same_trigger(
                #[trigger] init[i],
                #[trigger] init[j],
            ) by {
                assert(init[i] == entries[i] && init[j] == entries[j]);
            }
        }
        lemma_fold_distinct(init);
        let last = entries.last();
        assert(!exists|i: int| 0 <= i < init.len() && same_trigger(#[trigger] init[i], last)) by {
            assert forall|i: int| 0 <= i < init.len() implies !same_trigger(#[trigger] init[i], last) by {
                assert(init[i] == entries[i]);
                assert(!same_trigger(entries[i], entries[entries.len() - 1]));
            }
        }
        assert(init.push(last) =~= entries);
    }
}


/// The editing and navigation bindings fire on pairwise different triggers.
proof fn lemma_navigation_distinct()
    ensures
        triggers_distinct(navigation_table()),
{
    reveal_strlit("enter");
    reveal_strlit("backspace");
    reveal_strlit("escape");
    reveal_strlit("tab");
    reveal_strlit("insert");
    reveal_strlit("delete");
    reveal_strlit("pageup");
    reveal_strlit("pagedown");
    reveal_strlit("home");
    reveal_strlit("end");
    reveal_strlit("up");
    reveal_strlit("down");
    reveal_strlit("left");
    reveal_strlit("right");
    let t = navigation_table();
    assert forall|i: int, j: int| 0 <= i < j < t.len() implies !same_trigger(
        #[trigger] t[i],
        #[trigger] t[j],
    ) by {
        if same_trigger(t[i], t[j]) {
            assert(t[i].keystroke.1.len() == t[j].keystroke.1.len());
            assert(t[i].keystroke.1[0] == t[j].keystroke.1[0]);
        }
    }
}

/// The standard bindings fire on pairwise different triggers.
proof fn lemma_default_table_distinct()
    ensures
        triggers_distinct(default_table()),
{
    lemma_navigation_distinct();
    reveal_strlit("f");
    let nav = navigation_table();
    let t = default_table();
    assert forall|i: int| 0 <= i < 20 implies #[trigger] t[i] == nav[i] by {}
    assert forall|i: int| 20 <= i < 40 implies #[trigger] t[i] == function_key_view((i - 19) as nat) by {}
    assert forall|i: int| 40 <= i < 66 implies #[trigger] t[i] == control_key_view((i - 40) as nat) by {}
    assert forall|i: int, j: int| 0 <= i < j < t.len() implies !same_trigger(
        #[trigger] t[i],
        #[trigger] t[j],
    ) by {
        if i < 20 && j < 20 {
            assert(!same_trigger(nav[i], nav[j]));
        } else if i < 20 {
            assert(t[i].mode_include != 0 || t[i].mode_exclude != 0);
        } else if j < 40 {
            let a = (i - 19) as nat;
            let b = (j - 19) as nat;
            if same_trigger(t[i], t[j]) {
                let ka = "f"@ + decimal_digits(a);
                let kb = "f"@ + decimal_digits(b);
                assert(ka == kb);
                assert(ka.skip(1) =~= decimal_digits(a));
                assert(kb.skip(1) =~= decimal_digits(b));
                lemma_digits_injective(a, b);
            }
        } else if i < 40 {
            assert(t[i].keystroke.0 != t[j].keystroke.0);
        } else {
            let a = (i - 40) as nat;
            let b = (j - 40) as nat;
            if same_trigger(t[i], t[j]) {
                assert(t[i].keystroke.1[0] == t[j].keystroke.1[0]);
                assert(((0x61 + a) as u8) as char == ((0x61 + b) as u8) as char);
            }
        }
    }
}

/// The standard bindings, as the table holds them after they are added.
pub open spec fn default_bindings() -> Seq<BindingView> {
    default_table().fold_left(
        Seq::<BindingView>::empty(),
        |entries: Seq<BindingView>, b: BindingView| with_binding(entries, b),
    )
}

/// Cursor-movement sequence of an arrow key with final letter `letter`:
/// `ESC [ letter`, or `ESC O letter` in application cursor mode.
pub open spec fn arrow_sequence(mode: u32, letter: u8) -> Seq<u8> {
    if mode & SurfaceMode::APP_CURSOR != 0 {
        seq![0x1bu8, 0x4fu8, letter]
    } else {
        seq![0x1bu8, 0x5bu8, letter]
    }
}

/// Surface mode `mode` holds application cursor mode exactly when a binding
/// that needs it applies, and a binding that excludes it does not.
proof fn lemma_app_cursor_bits(mode: u32)
    ensures
        modes_contain(mode, SurfaceMode::APP_CURSOR) == (mode & SurfaceMode::APP_CURSOR != 0),
        modes_intersect(mode, SurfaceMode::APP_CURSOR) == (mode & SurfaceMode::APP_CURSOR != 0),
        modes_contain(mode, 0),
        !modes_intersect(mode, 0),
{
    assert((mode & 2u32 == 2u32) == (mode & 2u32 != 0u32)) by (bit_vector);
    assert(mode & 0u32 == 0u32) by (bit_vector);
}

/// In the standard bindings each unmodified arrow key sends its cursor
/// movement sequence in every surface mode: `ESC [` followed by the
/// direction letter (A up, B down, C right, D left), or `ESC O` followed by
/// it in application cursor mode.
pub proof fn lemma_default_arrows(mode: u32)
    ensures
        first_match(default_bindings(), (Modifiers::spec_none(), "up"@, None), mode) == Some(
            ActionView::Bytes(arrow_sequence(mode, 0x41u8)),
        ),
        first_match(default_bindings(), (Modifiers::spec_none(), "down"@, None), mode) == Some(
            ActionView::Bytes(arrow_sequence(mode, 0x42u8)),
        ),
        first_match(default_bindings(), (Modifiers::spec_none(), "right"@, None), mode) == Some(
            ActionView::Bytes(arrow_sequence(mode, 0x43u8)),
        ),
        first_match(default_bindings(), (Modifiers::spec_none(), "left"@, None), mode) == Some(
            ActionView::Bytes(arrow_sequence(mode, 0x44u8)),
        ),
{
    lemma_default_table_distinct();
    lemma_fold_distinct(default_table());
    lemma_app_cursor_bits(mode);
    reveal_strlit("enter");
    reveal_strlit("backspace");
    reveal_strlit("escape");
    reveal_strlit("tab");
    reveal_strlit("insert");
    reveal_strlit("delete");
    reveal_strlit("pageup");
    reveal_strlit("pagedown");
    reveal_strlit("home");
    reveal_strlit("end");
    reveal_strlit("up");
    reveal_strlit("down");
    reveal_strlit("left");
    reveal_strlit("right");
    let t = default_table();
    let nav = navigation_table();
    assert forall|i: int| 0 <= i < 20 implies #[trigger] t[i] == nav[i] by {}
    let app = mode & SurfaceMode::APP_CURSOR != 0;
    let keys = seq!["up"@, "down"@, "right"@, "left"@];
    let normal = seq![10int, 11int, 13int, 12int];
    let letters = seq![0x41u8, 0x42u8, 0x43u8, 0x44u8];
    assert forall|a: int| 0 <= a < 4 implies first_match(
        t,
        (Modifiers::spec_none(), #[trigger] keys[a], None),
        mode,
    ) == Some(ActionView::Bytes(arrow_sequence(mode, letters[a]))) by {
        let input = (Modifiers::spec_none(), keys[a], None);
        let k = if app { normal[a] + 6 } else { normal[a] };
        assert(t[k] == navigation_view(keys[a], arrow_sequence(mode, letters[a]), app));
        assert forall|j: int| 0 <= j < k implies !binding_matches(#[trigger] t[j], input, mode) by {
            if j != normal[a] {
                assert(t[j].keystroke.1.len() != keys[a].len() || t[j].keystroke.1[0] != keys[a][0]);
            }
        }
        lemma_first_match_at(t, input, mode, k);
    }
    assert(keys[0] == "up"@);
    assert(keys[1] == "down"@);
    assert(keys[2] == "right"@);
    assert(keys[3] == "left"@);
}

} // verus!
