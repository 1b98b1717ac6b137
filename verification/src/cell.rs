//! Terminal cells and their visual attributes.

use vstd::prelude::*;

use crate::escape::{Color, Hyperlink, Rgb, StdColor};

verus! {

/// Visual effects for blinking text.
#[derive(Debug, Clone, Copy, PartialEq, Eq, Default, Structural)]
pub enum CellBlink {
    /// No blinking.
    #[default]
    Off,
    /// Slow blink.
    Slow,
    /// Fast blink.
    Fast,
}

/// Supported underline variants.
#[derive(Debug, Clone, Copy, PartialEq, Eq, Default, Structural)]
pub enum CellUnderline {
    /// No underline.
    #[default]
    Off,
    /// Single underline.
    Single,
    /// Double underline.
    Double,
    /// Curly underline.
    Curl,
    /// Dotted underline.
    Dotted,
    /// Dashed underline.
    Dashed,
}

/// Per-cell visual attributes used when rendering a terminal grid.
#[derive(Debug, PartialEq, Eq)]
pub struct CellAttributes {
    pub bold: bool,
    pub dim: bool,
    pub italic: bool,
    pub underline: CellUnderline,
    pub blink: CellBlink,
    pub reverse: bool,
    pub hidden: bool,
    pub strike: bool,
    pub foreground: Color,
    pub background: Color,
    pub underline_color: Option<Color>,
    pub hyperlink: Option<Hyperlink>,
}

/// Attributes of an unstyled cell: default foreground on default background.
pub open spec fn default_attributes() -> CellAttributes {
    CellAttributes {
        bold: false,
        dim: false,
        italic: false,
        underline: CellUnderline::Off,
        blink: CellBlink::Off,
        reverse: false,
        hidden: false,
        strike: false,
        foreground: Color::Std(StdColor::Foreground),
        background: Color::Std(StdColor::Background),
        underline_color: None,
        hyperlink: None,
    }
}

impl Clone for CellAttributes {
    fn clone(&self) -> (copy: Self)
        ensures
            copy == *self,
    {
        CellAttributes {
            bold: self.bold,
            dim: self.dim,
            italic: self.italic,
            underline: self.underline,
            blink: self.blink,
            reverse: self.reverse,
            hidden: self.hidden,
            strike: self.strike,
            foreground: self.foreground,
            background: self.background,
            underline_color: self.underline_color,
            hyperlink: match &self.hyperlink {
                Some(link) => Some(link.clone()),
                None => None,
            },
        }
    }
}

impl Default for CellAttributes {
    fn default() -> (attributes: Self)
        ensures
            attributes == default_attributes(),
    {
        CellAttributes {
            bold: false,
            dim: false,
            italic: false,
            underline: CellUnderline::Off,
            blink: CellBlink::Off,
            reverse: false,
            hidden: false,
            strike: false,
            foreground: Color::Std(StdColor::Foreground),
            background: Color::Std(StdColor::Background),
            underline_color: None,
            hyperlink: None,
        }
    }
}

impl CellAttributes {
    /// Returns attributes with explicit foreground/background colors.
    pub fn with_colors(foreground: Rgb, background: Rgb) -> (attributes: Self)
        ensures
            attributes == (CellAttributes {
                foreground: Color::TrueColor(foreground),
                background: Color::TrueColor(background),
                ..default_attributes()
            }),
    {
        CellAttributes {
            foreground: Color::TrueColor(foreground),
            background: Color::TrueColor(background),
            ..Self::default()
        }
    }

    /// Attach (or remove) the hyperlink of subsequently printed cells.
    pub fn set_hyperlink(&mut self, hyperlink: Option<Hyperlink>)
        ensures
            *final(self) == (CellAttributes { hyperlink, ..*old(self) }),
    {
        self.hyperlink = hyperlink;
    }
}

/// Layout flags of a cell.
#[derive(Debug, Clone, Copy, Default, PartialEq, Eq, Structural)]
pub struct Flags {
    bits: u16,
}

impl Flags {
    /// The line continues on the next row (soft wrap).
    pub const WRAPLINE: u16 = 0x1;

    /// The cell holds a double-width character.
    pub const WIDE_CHAR: u16 = 0x2;

    /// The cell is the trailing half of a double-width character.
    pub const WIDE_CHAR_SPACER: u16 = 0x4;

    /// The cell pads the end of a row before a wrapped double-width character.
    pub const LEADING_WIDE_CHAR_SPACER: u16 = 0x8;

    /// Raw flag bits.
    pub closed spec fn bits(self) -> u16 {
        self.bits
    }

    /// The flags with no bit set.
    pub closed spec fn none() -> Flags {
        Flags { bits: 0 }
    }

    /// Whether every bit of `flag` is set.
    pub open spec fn has(self, flag: u16) -> bool {
        self.bits() & flag == flag
    }

    /// Whether any bit of `flag` is set.
    pub open spec fn has_any(self, flag: u16) -> bool {
        self.bits() & flag != 0
    }

    /// No flag set.
    pub fn empty() -> (flags: Self)
        ensures
            flags == Flags::none(),
            flags.bits() == 0,
    {
        Flags { bits: 0 }
    }

    /// Whether every bit of `flag` is set.
    pub fn contains(&self, flag: u16) -> (set: bool)
        ensures
            set == self.has(flag),
    {
        self.bits & flag == flag
    }

    /// Whether any bit of `flag` is set.
    pub fn intersects(&self, flag: u16) -> (set: bool)
        ensures
            set == self.has_any(flag),
    {
        self.bits & flag != 0
    }

    /// The flags with the bits of `flag` set as well.
    pub closed spec fn with_bits(self, flag: u16) -> Flags {
        Flags { bits: self.bits | flag }
    }

    /// The flags with the bits of `flag` cleared.
    pub closed spec fn without_bits(self, flag: u16) -> Flags {
        Flags { bits: self.bits & !flag }
    }

    /// Set the bits of `flag`.
    pub fn insert(&mut self, flag: u16)
        ensures
            final(self).bits() == old(self).bits() | flag,
            *final(self) == old(self).with_bits(flag),
    {
        self.bits = self.bits | flag;
    }

    /// Clear the bits of `flag`.
    pub fn remove(&mut self, flag: u16)
        ensures
            *final(self) == old(self).without_bits(flag),
    {
        self.bits = self.bits & !flag;
    }
}

/// Represents a single cell in the terminal grid.
#[derive(Debug, PartialEq, Eq)]
pub struct Cell {
    /// The printed character.
    pub ch: char,
    /// Visual attributes.
    pub attributes: CellAttributes,
    /// Layout flags.
    pub flags: Flags,
    /// Whether the character was written explicitly (and not merely cleared).
    pub touched: bool,
}

/// A cleared cell carrying `attributes`.
pub open spec fn blank_cell(attributes: CellAttributes) -> Cell {
    Cell { ch: ' ', attributes, flags: Flags::none(), touched: false }
}

impl Clone for Cell {
    fn clone(&self) -> (copy: Self)
        ensures
            copy == *self,
    {
        Cell {
            ch: self.ch,
            attributes: self.attributes.clone(),
            flags: self.flags,
            touched: self.touched,
        }
    }
}

impl Default for Cell {
    fn default() -> (cell: Self)
        ensures
            cell == blank_cell(default_attributes()),
    {
        Cell { ch: ' ', attributes: CellAttributes::default(), flags: Flags::empty(), touched: false }
    }
}

impl Cell {
    /// A cleared cell carrying a copy of `attributes`.
    pub fn blank(attributes: &CellAttributes) -> (cell: Self)
        ensures
            cell == blank_cell(*attributes),
    {
        Cell { ch: ' ', attributes: attributes.clone(), flags: Flags::empty(), touched: false }
    }

    /// A cell holding `ch`, written explicitly.
    pub fn with_char(ch: char, attributes: &CellAttributes) -> (cell: Self)
        ensures
            cell == (Cell { ch, attributes: *attributes, flags: Flags::none(), touched: true }),
    {
        Cell { ch, attributes: attributes.clone(), flags: Flags::empty(), touched: true }
    }

    /// Whether the cell shows a space.
    pub fn is_blank(&self) -> (blank: bool)
        ensures
            blank == (self.ch == ' '),
    {
        self.ch == ' '
    }

    /// Whether the cell holds the leading half of a double-width character.
    pub fn is_wide_leading(&self) -> (wide: bool)
        ensures
            wide == self.flags.has(Flags::WIDE_CHAR),
    {
        self.flags.contains(Flags::WIDE_CHAR)
    }

    /// Whether the cell is the trailing half of a double-width character.
    pub fn is_wide_trailing(&self) -> (spacer: bool)
        ensures
            spacer == self.flags.has(Flags::WIDE_CHAR_SPACER),
    {
        self.flags.contains(Flags::WIDE_CHAR_SPACER)
    }

    /// The hyperlink attached to this cell, if any.
    pub fn hyperlink(&self) -> (link: Option<Hyperlink>)
        ensures
            link == self.attributes.hyperlink,
    {
        match &self.attributes.hyperlink {
            Some(link) => Some(link.clone()),
            None => None,
        }
    }
}

} // verus!
