//! Terminal modes set by escape sequences.

use vstd::prelude::*;

verus! {

/// A set of terminal modes, one bit per mode.
#[derive(Clone, Copy, Debug, PartialEq, Eq, Hash, Structural)]
pub struct SurfaceMode {
    bits: u32,
}

impl View for SurfaceMode {
    type V = u32;

    closed spec fn view(&self) -> u32 {
        self.bits
    }
}

/// Whether every mode of `required` is in `modes`.
pub open spec fn modes_contain(modes: u32, required: u32) -> bool {
    modes & required == required
}

/// Whether `modes` and `other` share a mode.
pub open spec fn modes_intersect(modes: u32, other: u32) -> bool {
    modes & other != 0
}

impl SurfaceMode {
    /// The cursor is shown.
    pub const SHOW_CURSOR: u32 = 0x1;
    /// Cursor keys send application sequences.
    pub const APP_CURSOR: u32 = 0x2;
    /// The keypad sends application sequences.
    pub const APP_KEYPAD: u32 = 0x4;
    /// Mouse clicks are reported.
    pub const MOUSE_REPORT_CLICK: u32 = 0x8;
    /// Pasted text is bracketed.
    pub const BRACKETED_PASTE: u32 = 0x10;
    /// Mouse reports use the SGR encoding.
    pub const SGR_MOUSE: u32 = 0x20;
    /// Mouse motion is reported.
    pub const MOUSE_MOTION: u32 = 0x40;
    /// Text wraps at the right margin.
    pub const LINE_WRAP: u32 = 0x80;
    /// Line feed also returns the carriage.
    pub const LINE_FEED_NEW_LINE: u32 = 0x100;
    /// Cursor addressing is relative to the scroll region.
    pub const ORIGIN: u32 = 0x200;
    /// Printed characters shift the rest of the line.
    pub const INSERT: u32 = 0x400;
    /// Focus changes are reported.
    pub const FOCUS_IN_OUT: u32 = 0x800;
    /// The alternate screen is active.
    pub const ALT_SCREEN: u32 = 0x1000;
    /// Mouse drags are reported.
    pub const MOUSE_DRAG: u32 = 0x2000;
    /// Mouse reports use the UTF-8 encoding.
    pub const UTF: u32 = 0x4000;
    /// The wheel scrolls the alternate screen by cursor keys.
    pub const ALTERNATE_SCROLL: u32 = 0x8000;
    /// The bell sets the urgency hint.
    pub const URGENCY_HINTS: u32 = 0x10000;
    /// The kitty keyboard protocol is active.
    pub const KITTY_KEYBOARD_PROTOCOL: u32 = 0x20000;
    /// Any mouse reporting mode.
    pub const MOUSE_MODE: u32 = 0x2048;

    /// The modes whose bits are set in `bits`.
    pub fn new(bits: u32) -> (mode: Self)
        ensures
            mode@ == bits,
    {
        SurfaceMode { bits }
    }

    /// No mode set.
    pub fn empty() -> (mode: Self)
        ensures
            mode@ == 0,
    {
        SurfaceMode { bits: 0 }
    }

    /// Raw mode bits.
    pub fn bits(&self) -> (bits: u32)
        ensures
            bits == self@,
    {
        self.bits
    }

    /// Whether every mode of `other` is set.
    pub fn contains(&self, other: SurfaceMode) -> (set: bool)
        ensures
            set == modes_contain(self@, other@),
    {
        self.bits & other.bits == other.bits
    }

    /// Whether any mode of `other` is set.
    pub fn intersects(&self, other: SurfaceMode) -> (set: bool)
        ensures
            set == modes_intersect(self@, other@),
    {
        self.bits & other.bits != 0
    }

    /// Set the modes of `other`.
    pub fn insert(&mut self, other: SurfaceMode)
        ensures
            final(self)@ == old(self)@ | other@,
    {
        self.bits = self.bits | other.bits;
    }

    /// Clear the modes of `other`.
    pub fn remove(&mut self, other: SurfaceMode)
        ensures
            final(self)@ == old(self)@ & !other@,
    {
        self.bits = self.bits & !other.bits;
    }
}

impl Default for SurfaceMode {
    fn default() -> (mode: Self)
        ensures
            mode@ == 0x18081u32,
    {
        SurfaceMode { bits: 0x18081 }
    }
}

} // verus!
