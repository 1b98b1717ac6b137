//! Terminal colors, the ANSI palette and the widget theme.

use vstd::prelude::*;

use crate::color::Colors;
use crate::escape::{std_color_slot, Color, Rgb, StdColor};
use crate::ui::error::ConfigError;

verus! {

/// Validated opaque RGB color used by terminal themes.
#[derive(Clone, Copy, Debug, PartialEq, Eq, Structural)]
pub struct TerminalColor {
    red: u8,
    green: u8,
    blue: u8,
}

impl View for TerminalColor {
    type V = (u8, u8, u8);

    closed spec fn view(&self) -> (u8, u8, u8) {
        (self.red, self.green, self.blue)
    }
}

/// The color with the given channels, as a spec value.
pub closed spec fn rgb_color(red: u8, green: u8, blue: u8) -> TerminalColor {
    TerminalColor { red, green, blue }
}

/// Value of an ASCII hexadecimal digit, or `None` for any other character.
pub open spec fn hex_digit_value(c: char) -> Option<u8> {
    if '0' <= c && c <= '9' {
        Some((c as u32 - '0' as u32) as u8)
    } else if 'a' <= c && c <= 'f' {
        Some((c as u32 - 'a' as u32 + 10) as u8)
    } else if 'A' <= c && c <= 'F' {
        Some((c as u32 - 'A' as u32 + 10) as u8)
    } else {
        None
    }
}

/// Whether `text` is `#` followed by exactly six hexadecimal digits.
pub open spec fn is_hex_color(text: Seq<char>) -> bool {
    &&& text.len() == 7
    &&& text[0] == '#'
    &&& forall|i: int| 1 <= i < 7 ==> (#[trigger] hex_digit_value(text[i])) is Some
}

/// The channel written by the two hexadecimal digits starting at `at`.
pub open spec fn hex_channel(text: Seq<char>, at: int) -> u8 {
    (hex_digit_value(text[at])->0 * 16 + hex_digit_value(text[at + 1])->0) as u8
}

/// Value of a hexadecimal digit.
fn hex_digit(c: char) -> (value: Option<u8>)
    ensures
        value == hex_digit_value(c),
{
    if '0' <= c && c <= '9' {
        Some((c as u32 - '0' as u32) as u8)
    } else if 'a' <= c && c <= 'f' {
        Some((c as u32 - 'a' as u32 + 10) as u8)
    } else if 'A' <= c && c <= 'F' {
        Some((c as u32 - 'A' as u32 + 10) as u8)
    } else {
        None
    }
}

/// Channel value of two hexadecimal digits.
pub fn parse_channel(high: char, low: char) -> (channel: Option<u8>)
    ensures
        channel == (match (hex_digit_value(high), hex_digit_value(low)) {
            (Some(h), Some(l)) => Some((h * 16 + l) as u8),
            _ => None::<u8>,
        }),
{
    match (hex_digit(high), hex_digit(low)) {
        (Some(h), Some(l)) => Some(h * 16 + l),
        _ => None,
    }
}

impl TerminalColor {
    /// Return the raw RGB channels.
    pub fn rgb(&self) -> (channels: (u8, u8, u8))
        ensures
            channels == self@,
    {
        (self.red, self.green, self.blue)
    }

    /// Construct a color from RGB channels.
    pub fn from_rgb(red: u8, green: u8, blue: u8) -> (color: Self)
        ensures
            color == rgb_color(red, green, blue),
            color@ == (red, green, blue),
    {
        TerminalColor { red, green, blue }
    }

    /// Parse a color in strict `#rrggbb` form (digits of either case).
    pub fn from_hex(value: &str) -> (parsed: Result<Self, ConfigError>)
        ensures
            is_hex_color(value@) ==> parsed == Ok::<TerminalColor, ConfigError>(
                rgb_color(hex_channel(value@, 1), hex_channel(value@, 3), hex_channel(value@, 5)),
            ),
            is_hex_color(value@) ==> (parsed matches Ok(color) && color@ == (
                hex_channel(value@, 1),
                hex_channel(value@, 3),
                hex_channel(value@, 5),
            )),
            !is_hex_color(value@) ==> (parsed matches Err(ConfigError::InvalidColor(text))
                && text@ == value@),
    {
        let chars = crate::text::chars_of(value);
        if chars.len() != 7 || chars[0] != '#' {
            return Err(ConfigError::InvalidColor(value.to_string()));
        }
        let red = parse_channel(chars[1], chars[2]);
        let green = parse_channel(chars[3], chars[4]);
        let blue = parse_channel(chars[5], chars[6]);
        match (red, green, blue) {
            (Some(red), Some(green), Some(blue)) => {
                proof {
                    assert forall|i: int| 1 <= i < 7 implies (#[trigger] hex_digit_value(
                        value@[i],
                    )) is Some by {
                        assert(value@[i] == chars@[i]);
                    }
                }
                Ok(TerminalColor { red, green, blue })
            },
            _ => {
                proof {
                    assert(!is_hex_color(value@)) by {
                        if is_hex_color(value@) {
                            assert(hex_digit_value(value@[1]) is Some);
                            assert(hex_digit_value(value@[2]) is Some);
                            assert(hex_digit_value(value@[3]) is Some);
                            assert(hex_digit_value(value@[4]) is Some);
                            assert(hex_digit_value(value@[5]) is Some);
                            assert(hex_digit_value(value@[6]) is Some);
                        }
                    }
                }
                Err(ConfigError::InvalidColor(value.to_string()))
            },
        }
    }

    /// The theme color with the same channels as a surface color.
    pub fn from_surface_rgb(value: Rgb) -> (color: Self)
        ensures
            color == rgb_color(value.r, value.g, value.b),
    {
        TerminalColor::from_rgb(value.r, value.g, value.b)
    }
}

impl From<Rgb> for TerminalColor {
    fn from(value: Rgb) -> (color: Self) {
        TerminalColor::from_rgb(value.r, value.g, value.b)
    }
}

impl vstd::std_specs::convert::FromSpecImpl<Rgb> for TerminalColor {
    open spec fn obeys_from_spec() -> bool {
        true
    }

    open spec fn from_spec(value: Rgb) -> TerminalColor {
        rgb_color(value.r, value.g, value.b)
    }
}

/// Channel level of one coordinate of the 6x6x6 color cube.
pub open spec fn cube_level(value: int) -> int {
    if value == 0 {
        0
    } else {
        55 + value * 40
    }
}

/// Channel level of one coordinate of the 6x6x6 color cube.
pub fn cube_channel(value: u8) -> (level: u8)
    requires
        value < 6,
    ensures
        level == cube_level(value as int),
{
    if value == 0 {
        0
    } else {
        55 + value * 40
    }
}

/// Abstract content of a palette.
pub ghost struct PaletteView {
    pub standard: Seq<TerminalColor>,
    pub foreground: TerminalColor,
    pub background: TerminalColor,
    pub cursor: TerminalColor,
    pub dim: Seq<TerminalColor>,
}

/// The configurable ANSI colors used by a terminal.
#[derive(Debug, PartialEq, Eq)]
pub struct ColorPalette {
    standard: [TerminalColor; 16],
    foreground: TerminalColor,
    background: TerminalColor,
    cursor: TerminalColor,
    dim: [TerminalColor; 9],
}

impl View for ColorPalette {
    type V = PaletteView;

    closed spec fn view(&self) -> PaletteView {
        PaletteView {
            standard: self.standard@,
            foreground: self.foreground,
            background: self.background,
            cursor: self.cursor,
            dim: self.dim@,
        }
    }
}

/// Color that a palette gives one of the 256 indexed colors.
pub open spec fn indexed_color(palette: PaletteView, index: u8) -> TerminalColor {
    if index < 16 {
        palette.standard[index as int]
    } else if index < 232 {
        let value = index - 16;
        rgb_color(
            cube_level(value / 36) as u8,
            cube_level((value / 6) % 6) as u8,
            cube_level(value % 6) as u8,
        )
    } else {
        let level = (8 + (index - 232) * 10) as u8;
        rgb_color(level, level, level)
    }
}

/// Color that a palette gives a named color when no override is set.
pub open spec fn standard_color(palette: PaletteView, color: StdColor) -> TerminalColor {
    match color {
        StdColor::Foreground | StdColor::BrightForeground => palette.foreground,
        StdColor::Background => palette.background,
        StdColor::Cursor => palette.cursor,
        StdColor::DimForeground => palette.dim[8],
        StdColor::DimBlack => palette.dim[0],
        StdColor::DimRed => palette.dim[1],
        StdColor::DimGreen => palette.dim[2],
        StdColor::DimYellow => palette.dim[3],
        StdColor::DimBlue => palette.dim[4],
        StdColor::DimMagenta => palette.dim[5],
        StdColor::DimCyan => palette.dim[6],
        StdColor::DimWhite => palette.dim[7],
        _ => palette.standard[std_color_slot(color) as int],
    }
}

/// Color that a palette gives a cell color, honoring dynamic overrides.
pub open spec fn resolved_color(
    palette: PaletteView,
    color: Color,
    dynamic: Seq<Option<Rgb>>,
) -> TerminalColor {
    match color {
        Color::TrueColor(rgb) => rgb_color(rgb.r, rgb.g, rgb.b),
        Color::Indexed(index) => indexed_color(palette, index),
        Color::Std(standard) => match dynamic[std_color_slot(standard) as int] {
            Some(rgb) => rgb_color(rgb.r, rgb.g, rgb.b),
            None => standard_color(palette, standard),
        },
    }
}

impl Clone for ColorPalette {
    fn clone(&self) -> (copy: Self)
        ensures
            copy@ == self@,
    {
        proof {
            use_type_invariant(self);
        }
        ColorPalette {
            standard: self.standard,
            foreground: self.foreground,
            background: self.background,
            cursor: self.cursor,
            dim: self.dim,
        }
    }
}

impl Clone for TerminalTheme {
    fn clone(&self) -> (copy: Self)
        ensures
            copy@ == self@,
    {
        TerminalTheme {
            palette: self.palette.clone(),
            selection_background: self.selection_background,
            selection_foreground: self.selection_foreground,
            border: self.border,
            focused_border: self.focused_border,
            block_highlight: self.block_highlight,
        }
    }
}

impl ColorPalette {
    #[verifier::type_invariant]
    spec fn sizes(self) -> bool {
        self.standard@.len() == 16 && self.dim@.len() == 9
    }

    /// Default foreground.
    pub fn foreground(&self) -> (color: TerminalColor)
        ensures
            color == self@.foreground,
    {
        self.foreground
    }

    /// Default background.
    pub fn background(&self) -> (color: TerminalColor)
        ensures
            color == self@.background,
    {
        self.background
    }

    /// Default cursor color.
    pub fn cursor(&self) -> (color: TerminalColor)
        ensures
            color == self@.cursor,
    {
        self.cursor
    }

    /// Resolve a terminal color, honoring dynamic colors from the surface.
    pub fn resolve(&self, color: Color, dynamic: &Colors) -> (resolved: TerminalColor)
        ensures
            resolved == resolved_color(self@, color, dynamic@),
    {
        match color {
            Color::TrueColor(rgb) => TerminalColor::from_surface_rgb(rgb),
            Color::Indexed(index) => self.resolve_indexed(index),
            Color::Std(standard) => match dynamic.get_std(standard) {
                Some(rgb) => TerminalColor::from_surface_rgb(rgb),
                None => self.resolve_standard(standard),
            },
        }
    }

    /// Replace the default terminal foreground.
    pub fn with_foreground(self, foreground: TerminalColor) -> (palette: Self)
        ensures
            palette@ == (PaletteView { foreground, ..self@ }),
    {
        let mut palette = self;
        palette.foreground = foreground;
        palette
    }

    /// Replace the default terminal background.
    pub fn with_background(self, background: TerminalColor) -> (palette: Self)
        ensures
            palette@ == (PaletteView { background, ..self@ }),
    {
        let mut palette = self;
        palette.background = background;
        palette
    }

    /// Replace the default terminal cursor color.
    pub fn with_cursor(self, cursor: TerminalColor) -> (palette: Self)
        ensures
            palette@ == (PaletteView { cursor, ..self@ }),
    {
        let mut palette = self;
        palette.cursor = cursor;
        palette
    }

    /// Color of one of the 256 indexed colors.
    pub fn resolve_indexed(&self, index: u8) -> (color: TerminalColor)
        ensures
            color == indexed_color(self@, index),
    {
        proof {
            use_type_invariant(self);
        }
        if index < 16 {
            return self.standard[index as usize];
        }
        if index < 232 {
            let value = index - 16;
            let red = cube_channel(value / 36);
            let green = cube_channel((value / 6) % 6);
            let blue = cube_channel(value % 6);
            return TerminalColor::from_rgb(red, green, blue);
        }
        let value = 8 + (index - 232) * 10;
        TerminalColor::from_rgb(value, value, value)
    }

    /// Color of a named color, ignoring dynamic overrides.
    pub fn resolve_standard(&self, color: StdColor) -> (resolved: TerminalColor)
        ensures
            resolved == standard_color(self@, color),
    {
        proof {
            use_type_invariant(self);
        }
        match color {
            StdColor::Foreground | StdColor::BrightForeground => self.foreground,
            StdColor::Background => self.background,
            StdColor::Cursor => self.cursor,
            StdColor::Black => self.standard[0],
            StdColor::Red => self.standard[1],
            StdColor::Green => self.standard[2],
            StdColor::Yellow => self.standard[3],
            StdColor::Blue => self.standard[4],
            StdColor::Magenta => self.standard[5],
            StdColor::Cyan => self.standard[6],
            StdColor::White => self.standard[7],
            StdColor::BrightBlack => self.standard[8],
            StdColor::BrightRed => self.standard[9],
            StdColor::BrightGreen => self.standard[10],
            StdColor::BrightYellow => self.standard[11],
            StdColor::BrightBlue => self.standard[12],
            StdColor::BrightMagenta => self.standard[13],
            StdColor::BrightCyan => self.standard[14],
            StdColor::BrightWhite => self.standard[15],
            StdColor::DimForeground => self.dim[8],
            StdColor::DimBlack => self.dim[0],
            StdColor::DimRed => self.dim[1],
            StdColor::DimGreen => self.dim[2],
            StdColor::DimYellow => self.dim[3],
            StdColor::DimBlue => self.dim[4],
            StdColor::DimMagenta => self.dim[5],
            StdColor::DimCyan => self.dim[6],
            StdColor::DimWhite => self.dim[7],
        }
    }
}

/// The default ANSI colors, as channel triples.
pub open spec fn default_standard_channels() -> Seq<(u8, u8, u8)> {
    seq![
        (0x18u8, 0x18u8, 0x18u8),
        (0xacu8, 0x42u8, 0x42u8),
        (0x90u8, 0xa9u8, 0x59u8),
        (0xf4u8, 0xbfu8, 0x75u8),
        (0x6au8, 0x9fu8, 0xb5u8),
        (0xaau8, 0x75u8, 0x9fu8),
        (0x75u8, 0xb5u8, 0xaau8),
        (0xd8u8, 0xd8u8, 0xd8u8),
        (0x6bu8, 0x6bu8, 0x6bu8),
        (0xc5u8, 0x55u8, 0x55u8),
        (0xaau8, 0xc4u8, 0x74u8),
        (0xfeu8, 0xcau8, 0x88u8),
        (0x82u8, 0xb8u8, 0xc8u8),
        (0xc2u8, 0x8cu8, 0xb8u8),
        (0x93u8, 0xd3u8, 0xc3u8),
        (0xf8u8, 0xf8u8, 0xf8u8),
    ]
}

/// The default dim colors, as channel triples.
pub open spec fn default_dim_channels() -> Seq<(u8, u8, u8)> {
    seq![
        (0x0fu8, 0x0fu8, 0x0fu8),
        (0x71u8, 0x2bu8, 0x2bu8),
        (0x5fu8, 0x6fu8, 0x3au8),
        (0xa1u8, 0x7eu8, 0x4du8),
        (0x45u8, 0x68u8, 0x77u8),
        (0x70u8, 0x4du8, 0x68u8),
        (0x4du8, 0x77u8, 0x70u8),
        (0x8eu8, 0x8eu8, 0x8eu8),
        (0x82u8, 0x84u8, 0x82u8),
    ]
}

/// Whether `colors` has exactly the channel triples `channels`.
pub open spec fn colors_match(colors: Seq<TerminalColor>, channels: Seq<(u8, u8, u8)>) -> bool {
    &&& colors.len() == channels.len()
    &&& forall|i: int| 0 <= i < colors.len() ==> (#[trigger] colors[i])@ == channels[i]
}

/// Whether a palette is the default palette.
pub open spec fn is_default_palette(palette: PaletteView) -> bool {
    &&& colors_match(palette.standard, default_standard_channels())
    &&& palette.foreground@ == (0xd8u8, 0xd8u8, 0xd8u8)
    &&& palette.background@ == (0x18u8, 0x18u8, 0x18u8)
    &&& palette.cursor@ == (0xd8u8, 0xd8u8, 0xd8u8)
    &&& colors_match(palette.dim, default_dim_channels())
}

fn color(red: u8, green: u8, blue: u8) -> (color: TerminalColor)
    ensures
        color@ == (red, green, blue),
{
    TerminalColor::from_rgb(red, green, blue)
}

impl Default for ColorPalette {
    fn default() -> (palette: Self)
        ensures
            is_default_palette(palette@),
    {
        let palette = ColorPalette {
            standard: [
                color(0x18, 0x18, 0x18),
                color(0xac, 0x42, 0x42),
                color(0x90, 0xa9, 0x59),
                color(0xf4, 0xbf, 0x75),
                color(0x6a, 0x9f, 0xb5),
                color(0xaa, 0x75, 0x9f),
                color(0x75, 0xb5, 0xaa),
                color(0xd8, 0xd8, 0xd8),
                color(0x6b, 0x6b, 0x6b),
                color(0xc5, 0x55, 0x55),
                color(0xaa, 0xc4, 0x74),
                color(0xfe, 0xca, 0x88),
                color(0x82, 0xb8, 0xc8),
                color(0xc2, 0x8c, 0xb8),
                color(0x93, 0xd3, 0xc3),
                color(0xf8, 0xf8, 0xf8),
            ],
            foreground: color(0xd8, 0xd8, 0xd8),
            background: color(0x18, 0x18, 0x18),
            cursor: color(0xd8, 0xd8, 0xd8),
            dim: [
                color(0x0f, 0x0f, 0x0f),
                color(0x71, 0x2b, 0x2b),
                color(0x5f, 0x6f, 0x3a),
                color(0xa1, 0x7e, 0x4d),
                color(0x45, 0x68, 0x77),
                color(0x70, 0x4d, 0x68),
                color(0x4d, 0x77, 0x70),
                color(0x8e, 0x8e, 0x8e),
                color(0x82, 0x84, 0x82),
            ],
        };
        proof {
            assert(colors_match(palette@.standard, default_standard_channels()));
            assert(colors_match(palette@.dim, default_dim_channels()));
        }
        palette
    }
}

/// Abstract content of a theme.
pub ghost struct ThemeView {
    pub palette: PaletteView,
    pub selection_background: TerminalColor,
    pub selection_foreground: TerminalColor,
    pub border: TerminalColor,
    pub focused_border: TerminalColor,
    pub block_highlight: TerminalColor,
}

/// Whether the widget-chrome colors of a theme are the defaults.
pub open spec fn has_default_chrome(theme: ThemeView) -> bool {
    &&& theme.selection_background@ == (0x36u8, 0x4au8, 0x5cu8)
    &&& theme.selection_foreground@ == (0xffu8, 0xffu8, 0xffu8)
    &&& theme.border@ == (0x3au8, 0x3au8, 0x3au8)
    &&& theme.focused_border@ == (0x6au8, 0x9fu8, 0xb5u8)
    &&& theme.block_highlight@ == (0xffu8, 0xffu8, 0xffu8)
}

/// Complete paint palette for the terminal grid and widget chrome.
#[derive(Debug, PartialEq, Eq)]
pub struct TerminalTheme {
    palette: ColorPalette,
    selection_background: TerminalColor,
    selection_foreground: TerminalColor,
    border: TerminalColor,
    focused_border: TerminalColor,
    block_highlight: TerminalColor,
}

impl View for TerminalTheme {
    type V = ThemeView;

    closed spec fn view(&self) -> ThemeView {
        ThemeView {
            palette: self.palette@,
            selection_background: self.selection_background,
            selection_foreground: self.selection_foreground,
            border: self.border,
            focused_border: self.focused_border,
            block_highlight: self.block_highlight,
        }
    }
}

impl TerminalTheme {
    /// ANSI palette used for terminal cell colors.
    pub fn palette(&self) -> (palette: &ColorPalette)
        ensures
            palette@ == self@.palette,
    {
        &self.palette
    }

    /// Background used for selected cells.
    pub fn selection_background(&self) -> (color: TerminalColor)
        ensures
            color == self@.selection_background,
    {
        self.selection_background
    }

    /// Foreground used for selected cells.
    pub fn selection_foreground(&self) -> (color: TerminalColor)
        ensures
            color == self@.selection_foreground,
    {
        self.selection_foreground
    }

    /// Border color for an unfocused terminal.
    pub fn border(&self) -> (color: TerminalColor)
        ensures
            color == self@.border,
    {
        self.border
    }

    /// Border color for a focused terminal.
    pub fn focused_border(&self) -> (color: TerminalColor)
        ensures
            color == self@.focused_border,
    {
        self.focused_border
    }

    /// Block selection overlay color.
    pub fn block_highlight(&self) -> (color: TerminalColor)
        ensures
            color == self@.block_highlight,
    {
        self.block_highlight
    }

    /// Create a theme around a validated ANSI palette, with the default chrome.
    pub fn new(palette: ColorPalette) -> (theme: Self)
        ensures
            theme@.palette == palette@,
            has_default_chrome(theme@),
    {
        TerminalTheme {
            palette,
            selection_background: color(0x36, 0x4a, 0x5c),
            selection_foreground: color(0xff, 0xff, 0xff),
            border: color(0x3a, 0x3a, 0x3a),
            focused_border: color(0x6a, 0x9f, 0xb5),
            block_highlight: color(0xff, 0xff, 0xff),
        }
    }

    /// Replace selection background and foreground colors.
    pub fn with_selection(self, background: TerminalColor, foreground: TerminalColor) -> (theme:
        Self)
        ensures
            theme@ == (ThemeView {
                selection_background: background,
                selection_foreground: foreground,
                ..self@
            }),
    {
        let mut theme = self;
        theme.selection_background = background;
        theme.selection_foreground = foreground;
        theme
    }

    /// Replace unfocused and focused border colors.
    pub fn with_border(self, border: TerminalColor, focused_border: TerminalColor) -> (theme: Self)
        ensures
            theme@ == (ThemeView { border, focused_border, ..self@ }),
    {
        let mut theme = self;
        theme.border = border;
        theme.focused_border = focused_border;
        theme
    }

    /// Replace the selected-block overlay color.
    pub fn with_block_highlight(self, color: TerminalColor) -> (theme: Self)
        ensures
            theme@ == (ThemeView { block_highlight: color, ..self@ }),
    {
        let mut theme = self;
        theme.block_highlight = color;
        theme
    }
}

impl Default for TerminalTheme {
    fn default() -> (theme: Self)
        ensures
            is_default_palette(theme@.palette),
            has_default_chrome(theme@),
    {
        TerminalTheme::new(ColorPalette::default())
    }
}

/// The 256-color cube: index `16 + 36 * r + 6 * g + b`, for coordinates
/// below 6, has red, green and blue channels given by `r`, `g` and `b`, each
/// 0 for coordinate 0 and `55 + 40 * n` for coordinate `n` otherwise (so
/// index 196 is pure red and index 21 pure blue).
pub proof fn lemma_cube_coordinates(palette: PaletteView, r: u8, g: u8, b: u8)
    requires
        r < 6,
        g < 6,
        b < 6,
    ensures
        indexed_color(palette, (16 + 36 * r + 6 * g + b) as u8)@ == (
            (if r == 0 { 0 } else { 55 + 40 * r }) as u8,
            (if g == 0 { 0 } else { 55 + 40 * g }) as u8,
            (if b == 0 { 0 } else { 55 + 40 * b }) as u8,
        ),
{
    let index = (16 + 36 * r + 6 * g + b) as u8;
    let value = index - 16;
    assert(value == 36 * r + 6 * g + b);
    assert(value / 36 == r as int && (value / 6) % 6 == g as int && value % 6 == b as int) by (nonlinear_arith)
        requires
            value == 36 * r + 6 * g + b,
            r < 6,
            g < 6,
            b < 6,
    ;
}

/// The grayscale ramp: index `232 + n` has all three channels `8 + 10 * n`.
pub proof fn lemma_gray_ramp(palette: PaletteView, n: u8)
    requires
        n < 24,
    ensures
        indexed_color(palette, (232 + n) as u8)@ == ((8 + 10 * n) as u8, (8 + 10 * n) as u8, (8 + 10 * n) as u8),
{
}

} // verus!
