//! Color and hyperlink values carried by terminal cells.

use vstd::prelude::*;

verus! {

/// An opaque 24-bit RGB color.
#[derive(Clone, Copy, Debug, Default, PartialEq, Eq, Structural)]
pub struct Rgb {
    /// Red channel.
    pub r: u8,
    /// Green channel.
    pub g: u8,
    /// Blue channel.
    pub b: u8,
}

/// Named terminal colors: the sixteen ANSI colors and the dynamic roles.
#[derive(Clone, Copy, Debug, PartialEq, Eq, Structural)]
pub enum StdColor {
    Black,
    Red,
    Green,
    Yellow,
    Blue,
    Magenta,
    Cyan,
    White,
    BrightBlack,
    BrightRed,
    BrightGreen,
    BrightYellow,
    BrightBlue,
    BrightMagenta,
    BrightCyan,
    BrightWhite,
    Foreground,
    Background,
    Cursor,
    DimBlack,
    DimRed,
    DimGreen,
    DimYellow,
    DimBlue,
    DimMagenta,
    DimCyan,
    DimWhite,
    BrightForeground,
    DimForeground,
}

/// Palette slot of a named color: ANSI colors occupy `0..16`, the roles
/// follow the 256 indexed colors.
pub open spec fn std_color_slot(color: StdColor) -> nat {
    match color {
        StdColor::Black => 0,
        StdColor::Red => 1,
        StdColor::Green => 2,
        StdColor::Yellow => 3,
        StdColor::Blue => 4,
        StdColor::Magenta => 5,
        StdColor::Cyan => 6,
        StdColor::White => 7,
        StdColor::BrightBlack => 8,
        StdColor::BrightRed => 9,
        StdColor::BrightGreen => 10,
        StdColor::BrightYellow => 11,
        StdColor::BrightBlue => 12,
        StdColor::BrightMagenta => 13,
        StdColor::BrightCyan => 14,
        StdColor::BrightWhite => 15,
        StdColor::Foreground => 256,
        StdColor::Background => 257,
        StdColor::Cursor => 258,
        StdColor::DimBlack => 259,
        StdColor::DimRed => 260,
        StdColor::DimGreen => 261,
        StdColor::DimYellow => 262,
        StdColor::DimBlue => 263,
        StdColor::DimMagenta => 264,
        StdColor::DimCyan => 265,
        StdColor::DimWhite => 266,
        StdColor::BrightForeground => 267,
        StdColor::DimForeground => 268,
    }
}

impl StdColor {
    /// Palette slot of this named color.
    pub fn slot(self) -> (slot: usize)
        ensures
            slot == std_color_slot(self),
    {
        match self {
            StdColor::Black => 0,
            StdColor::Red => 1,
            StdColor::Green => 2,
            StdColor::Yellow => 3,
            StdColor::Blue => 4,
            StdColor::Magenta => 5,
            StdColor::Cyan => 6,
            StdColor::White => 7,
            StdColor::BrightBlack => 8,
            StdColor::BrightRed => 9,
            StdColor::BrightGreen => 10,
            StdColor::BrightYellow => 11,
            StdColor::BrightBlue => 12,
            StdColor::BrightMagenta => 13,
            StdColor::BrightCyan => 14,
            StdColor::BrightWhite => 15,
            StdColor::Foreground => 256,
            StdColor::Background => 257,
            StdColor::Cursor => 258,
            StdColor::DimBlack => 259,
            StdColor::DimRed => 260,
            StdColor::DimGreen => 261,
            StdColor::DimYellow => 262,
            StdColor::DimBlue => 263,
            StdColor::DimMagenta => 264,
            StdColor::DimCyan => 265,
            StdColor::DimWhite => 266,
            StdColor::BrightForeground => 267,
            StdColor::DimForeground => 268,
        }
    }
}

/// A cell color as set by the escape-sequence stream.
#[derive(Clone, Copy, Debug, PartialEq, Eq, Structural)]
pub enum Color {
    /// A named color resolved through the palette.
    Std(StdColor),
    /// One of the 256 indexed colors.
    Indexed(u8),
    /// An explicit RGB color.
    TrueColor(Rgb),
}

/// An explicit (OSC 8) or detected hyperlink.
#[derive(Debug, PartialEq, Eq, Hash)]
pub struct Hyperlink {
    id: Option<String>,
    uri: String,
}

impl View for Hyperlink {
    type V = (Option<Seq<char>>, Seq<char>);

    closed spec fn view(&self) -> (Option<Seq<char>>, Seq<char>) {
        (
            match self.id {
                Some(id) => Some(id@),
                None => None,
            },
            self.uri@,
        )
    }
}

impl Clone for Hyperlink {
    fn clone(&self) -> (copy: Self)
        ensures
            copy == *self,
    {
        Hyperlink {
            id: match &self.id {
                Some(id) => Some(id.clone()),
                None => None,
            },
            uri: self.uri.clone(),
        }
    }
}

impl Hyperlink {
    /// A hyperlink with an optional explicit identifier.
    pub fn new(id: Option<String>, uri: String) -> (link: Self)
        ensures
            link@.1 == uri@,
            link@.0 == (match id {
                Some(id) => Some(id@),
                None => None::<Seq<char>>,
            }),
    {
        Hyperlink { id, uri }
    }

    /// The link target.
    pub fn uri(&self) -> (uri: &str)
        ensures
            uri@ == self@.1,
    {
        self.uri.as_str()
    }

    /// The explicit identifier, if any.
    pub fn id(&self) -> (id: Option<&str>)
        ensures
            id matches Some(text) ==> self@.0 == Some(text@),
            id is None ==> self@.0 is None,
    {
        match &self.id {
            Some(id) => Some(id.as_str()),
            None => None,
        }
    }

    /// Whether both links have the same identifier and target.
    pub fn same_as(&self, other: &Self) -> (same: bool)
        ensures
            same == (self@ == other@),
    {
        let same_uri = self.uri == other.uri;
        let same_id = match (&self.id, &other.id) {
            (Some(a), Some(b)) => *a == *b,
            (None, None) => true,
            _ => false,
        };
        same_uri && same_id
    }
}

/// Shape of the terminal cursor.
#[derive(Clone, Copy, Debug, PartialEq, Eq, Structural)]
pub enum CursorShape {
    /// Filled box.
    Block,
    /// Line under the cell.
    Underline,
    /// Vertical bar before the cell.
    Beam,
    /// Outlined box.
    HollowBlock,
    /// Invisible cursor.
    Hidden,
}

/// Shape and blinking of the terminal cursor.
#[derive(Clone, Copy, Debug, PartialEq, Eq, Structural)]
pub struct CursorStyle {
    /// Cursor shape.
    pub shape: CursorShape,
    /// Whether the cursor blinks.
    pub blinking: bool,
}

impl CursorStyle {
    /// The default style: a steady block.
    pub open spec fn spec_default() -> CursorStyle {
        CursorStyle { shape: CursorShape::Block, blinking: false }
    }
}

impl Default for CursorStyle {
    fn default() -> (style: Self)
        ensures
            style == CursorStyle::spec_default(),
    {
        CursorStyle { shape: CursorShape::Block, blinking: false }
    }
}

/// Character set designated to a G slot.
#[derive(Clone, Copy, Debug, PartialEq, Eq, Structural)]
pub enum Charset {
    /// Plain ASCII.
    Ascii,
    /// DEC special characters and line drawing.
    SpecialCharacterAndLineDrawing,
}

/// One of the four character-set slots.
#[derive(Clone, Copy, Debug, PartialEq, Eq, Structural)]
pub enum CharsetIndex {
    /// Slot G0.
    G0,
    /// Slot G1.
    G1,
    /// Slot G2.
    G2,
    /// Slot G3.
    G3,
}

/// A Select Graphic Rendition attribute of the escape-sequence stream.
#[derive(Clone, Copy, Debug, PartialEq, Eq, Structural)]
pub enum CharacterAttribute {
    /// Clear all attributes.
    Reset,
    /// Bold text.
    Bold,
    /// Faint text.
    Dim,
    /// Italic text.
    Italic,
    /// Single underline.
    Underline,
    /// Double underline.
    DoubleUnderline,
    /// Curly underline.
    Undercurl,
    /// Dotted underline.
    DottedUnderline,
    /// Dashed underline.
    DashedUnderline,
    /// Slow blink.
    BlinkSlow,
    /// Fast blink.
    BlinkFast,
    /// Swap foreground and background.
    Reverse,
    /// Invisible text.
    Hidden,
    /// Struck-through text.
    Strike,
    /// End bold.
    CancelBold,
    /// End bold and faint.
    CancelBoldDim,
    /// End italic.
    CancelItalic,
    /// End any underline.
    CancelUnderline,
    /// End blinking.
    CancelBlink,
    /// End reverse video.
    CancelReverse,
    /// End hidden text.
    CancelHidden,
    /// End strike-through.
    CancelStrike,
    /// Set the foreground color.
    Foreground(Color),
    /// Set the background color.
    Background(Color),
    /// Set (or reset) the underline color.
    UnderlineColor(Option<Color>),
}

/// A public (ANSI) terminal mode known by name.
#[derive(Clone, Copy, Debug, PartialEq, Eq, Structural)]
pub enum NamedMode {
    /// Insert mode: printed characters push the rest of the line right.
    Insert,
    /// Line feeds also return the carriage.
    LineFeedNewLine,
}

/// A public (ANSI) terminal mode as requested by the escape-sequence stream.
#[derive(Clone, Copy, Debug, PartialEq, Eq, Structural)]
pub enum Mode {
    /// A mode the surface knows.
    Named(NamedMode),
    /// A mode number the surface ignores.
    Unknown(u16),
}

} // verus!
