use otty_surface::mode::SurfaceMode;
use otty_surface::ui::behavior::block_operations_allowed;
use otty_surface::color::Colors;
use otty_surface::escape::{Color, Rgb, StdColor};
use otty_surface::ui::error::ConfigError;
use otty_surface::ui::theme::{ColorPalette, TerminalColor, TerminalTheme};

#[test]
fn parses_hex_without_panicking() {
    let color = TerminalColor::from_hex("#12abef").expect("valid color");
    assert_eq!(color.rgb(), (0x12, 0xab, 0xef));
    assert!(matches!(
        TerminalColor::from_hex("not-a-color"),
        Err(ConfigError::InvalidColor(_))
    ));
}

#[test]
fn hex_parsing_rejects_near_misses_and_keeps_the_input() {
    assert_eq!(
        TerminalColor::from_hex("#ABCDEF").expect("upper case digits").rgb(),
        (0xab, 0xcd, 0xef)
    );
    for bad in ["#12345", "#1234567", "12abef", "#12abeg", "#+f+f+f", "#é1234", "#aé€"] {
        assert_eq!(
            TerminalColor::from_hex(bad),
            Err(ConfigError::InvalidColor(bad.to_string()))
        );
    }
}

#[test]
fn theme_and_behavior_support_runtime_variants() {
    let accent = TerminalColor::from_rgb(0x66, 0xcc, 0xff);
    let palette = ColorPalette::default()
        .with_background(TerminalColor::from_rgb(0x10, 0x12, 0x18))
        .with_foreground(TerminalColor::from_rgb(0xee, 0xee, 0xee));
    let theme = TerminalTheme::new(palette)
        .with_border(accent, accent)
        .with_selection(accent, TerminalColor::from_rgb(0, 0, 0));

    assert_eq!(theme.focused_border(), accent);
}

#[test]
fn palette_resolves_standard_indexed_truecolor_and_dynamic_colors() {
    let palette = ColorPalette::default();
    let mut dynamic = Colors::default();
    dynamic.set_std(StdColor::Foreground, Some(Rgb { r: 1, g: 2, b: 3 }));

    assert_eq!(
        palette.resolve(Color::TrueColor(Rgb { r: 4, g: 5, b: 6 }), &dynamic),
        TerminalColor::from_rgb(4, 5, 6)
    );
    assert_eq!(
        palette.resolve(Color::Std(StdColor::Foreground), &dynamic),
        TerminalColor::from_rgb(1, 2, 3)
    );
    assert_eq!(
        palette.resolve(Color::Indexed(16), &dynamic),
        TerminalColor::from_rgb(0, 0, 0)
    );
    assert_eq!(
        palette.resolve(Color::Indexed(231), &dynamic),
        TerminalColor::from_rgb(255, 255, 255)
    );
    assert_eq!(
        palette.resolve(Color::Indexed(232), &dynamic),
        TerminalColor::from_rgb(8, 8, 8)
    );
    assert_eq!(
        palette.resolve(Color::Indexed(255), &dynamic),
        TerminalColor::from_rgb(238, 238, 238)
    );

    for color in [
        StdColor::Background,
        StdColor::Cursor,
        StdColor::Black,
        StdColor::Red,
        StdColor::Green,
        StdColor::Yellow,
        StdColor::Blue,
        StdColor::Magenta,
        StdColor::Cyan,
        StdColor::White,
        StdColor::BrightBlack,
        StdColor::BrightRed,
        StdColor::BrightGreen,
        StdColor::BrightYellow,
        StdColor::BrightBlue,
        StdColor::BrightMagenta,
        StdColor::BrightCyan,
        StdColor::BrightWhite,
        StdColor::BrightForeground,
        StdColor::DimForeground,
        StdColor::DimBlack,
        StdColor::DimRed,
        StdColor::DimGreen,
        StdColor::DimYellow,
        StdColor::DimBlue,
        StdColor::DimMagenta,
        StdColor::DimCyan,
        StdColor::DimWhite,
    ] {
        let resolved = palette.resolve(Color::Std(color), &dynamic);
        assert_eq!(resolved, palette.resolve_standard(color));
    }
}

#[test]
fn palette_and_theme_setters_replace_each_paint_role() {
    let foreground = TerminalColor::from_rgb(1, 2, 3);
    let background = TerminalColor::from_rgb(4, 5, 6);
    let cursor = TerminalColor::from_rgb(7, 8, 9);
    let highlight = TerminalColor::from_rgb(10, 11, 12);
    let palette = ColorPalette::default()
        .with_foreground(foreground)
        .with_background(background)
        .with_cursor(cursor);
    let theme = TerminalTheme::new(palette)
        .with_selection(highlight, foreground)
        .with_border(background, cursor)
        .with_block_highlight(highlight);

    assert_eq!(theme.palette().foreground(), foreground);
    assert_eq!(theme.palette().background(), background);
    assert_eq!(theme.palette().cursor(), cursor);
    assert_eq!(theme.selection_background(), highlight);
    assert_eq!(theme.selection_foreground(), foreground);
    assert_eq!(theme.border(), background);
    assert_eq!(theme.focused_border(), cursor);
    assert_eq!(theme.block_highlight(), highlight);
}

#[test]
fn default_palette_and_theme_colors() {
    let theme = TerminalTheme::default();
    let palette = theme.palette();

    assert_eq!(palette.foreground().rgb(), (0xd8, 0xd8, 0xd8));
    assert_eq!(palette.background().rgb(), (0x18, 0x18, 0x18));
    assert_eq!(palette.resolve_standard(StdColor::Red).rgb(), (0xac, 0x42, 0x42));
    assert_eq!(palette.resolve_standard(StdColor::DimForeground).rgb(), (0x82, 0x84, 0x82));
    assert_eq!(palette.resolve_indexed(9).rgb(), (0xc5, 0x55, 0x55));
    assert_eq!(palette.resolve_indexed(16 + 36 + 6 + 1).rgb(), (95, 95, 95));
    assert_eq!(theme.selection_background().rgb(), (0x36, 0x4a, 0x5c));
    assert_eq!(theme.border().rgb(), (0x3a, 0x3a, 0x3a));
    assert_eq!(TerminalColor::from(Rgb { r: 9, g: 8, b: 7 }).rgb(), (9, 8, 7));
}

#[test]
fn block_operations_are_disabled_on_the_alternate_screen() {
    assert!(block_operations_allowed(SurfaceMode::empty()));
    assert!(!block_operations_allowed(SurfaceMode::new(SurfaceMode::ALT_SCREEN)));
}
