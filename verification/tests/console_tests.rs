use aether::console_text::{
    ascii_code_defined_check, ascii_color_to_css, color_from_byte, console_cursor_step,
    console_text_defined_check, console_write_actions, cursor_step,
    parse_ascii_code, parse_number_from_chars, AsciiColor, AsciiEscapeCode, AsciiForegroundStyle,
    ConsoleAction, ConsoleStyle, CssColor, CursorStep, PixelPoint,
};
use aether::framebuffer::{
    char_grid_size, console_grid_size, pack_color, pixel_index, pixel_write, scroll_span,
    ColorMasks, PixelWrite,
};

fn chars(s: &str) -> Vec<char> {
    s.chars().collect()
}

#[test]
fn numbers_from_digits() {
    assert_eq!(parse_number_from_chars(&chars("")), 0);
    assert_eq!(parse_number_from_chars(&chars("0")), 0);
    assert_eq!(parse_number_from_chars(&chars("47")), 47);
    assert_eq!(parse_number_from_chars(&chars("1234567")), 1234567);
    // Characters that are not digits are skipped.
    assert_eq!(parse_number_from_chars(&chars("1;3x2")), 132);
}

#[test]
fn colors_from_bytes() {
    assert_eq!(color_from_byte(0), Some(AsciiColor::Black));
    assert_eq!(color_from_byte(1), Some(AsciiColor::Red));
    assert_eq!(color_from_byte(2), Some(AsciiColor::Green));
    assert_eq!(color_from_byte(3), Some(AsciiColor::Yellow));
    assert_eq!(color_from_byte(4), Some(AsciiColor::Blue));
    assert_eq!(color_from_byte(5), Some(AsciiColor::Purple));
    assert_eq!(color_from_byte(6), Some(AsciiColor::Cyan));
    assert_eq!(color_from_byte(7), Some(AsciiColor::White));
    assert_eq!(color_from_byte(8), None);
    assert_eq!(color_from_byte(255), None);
}

fn fg(color: AsciiColor, style: AsciiForegroundStyle, high_intensity: bool) -> Option<AsciiEscapeCode> {
    Some(AsciiEscapeCode::Foreground { color, style, high_intensity })
}

fn bg(color: AsciiColor, high_intensity: bool) -> Option<AsciiEscapeCode> {
    Some(AsciiEscapeCode::Background { color, high_intensity })
}

#[test]
fn escape_codes() {
    assert_eq!(parse_ascii_code(&chars("0")), Some(AsciiEscapeCode::Reset));
    assert_eq!(parse_ascii_code(&chars("41")), bg(AsciiColor::Red, false));
    assert_eq!(parse_ascii_code(&chars("47")), bg(AsciiColor::White, false));
    assert_eq!(parse_ascii_code(&chars("48")), None);
    assert_eq!(parse_ascii_code(&chars("1;31")), fg(AsciiColor::Red, AsciiForegroundStyle::Bold, false));
    assert_eq!(parse_ascii_code(&chars("1;33")), fg(AsciiColor::Yellow, AsciiForegroundStyle::Bold, false));
    assert_eq!(parse_ascii_code(&chars("1;92")), fg(AsciiColor::Green, AsciiForegroundStyle::Bold, true));
    assert_eq!(parse_ascii_code(&chars("1;38")), None);
    assert_eq!(parse_ascii_code(&chars("1:31")), None);
    assert_eq!(parse_ascii_code(&chars("1")), None);
    assert_eq!(parse_ascii_code(&chars("0;34")), fg(AsciiColor::Blue, AsciiForegroundStyle::Regular, false));
    assert_eq!(parse_ascii_code(&chars("0;96")), fg(AsciiColor::Cyan, AsciiForegroundStyle::Regular, true));
    assert_eq!(parse_ascii_code(&chars("0;100")), bg(AsciiColor::Black, true));
    assert_eq!(parse_ascii_code(&chars("0;107")), bg(AsciiColor::White, true));
    assert_eq!(parse_ascii_code(&chars("0;50")), None);
    assert_eq!(parse_ascii_code(&chars("0x")), None);
    assert_eq!(parse_ascii_code(&chars("2")), None);
    assert_eq!(parse_ascii_code(&chars("")), Some(AsciiEscapeCode::Reset));
}

#[test]
fn underline_codes_read_the_number_after_the_separator() {
    assert_eq!(parse_ascii_code(&chars("4;32")), fg(AsciiColor::Green, AsciiForegroundStyle::Underline, false));
    assert_eq!(parse_ascii_code(&chars("4;30")), fg(AsciiColor::Black, AsciiForegroundStyle::Underline, false));
    assert_eq!(parse_ascii_code(&chars("4;37")), fg(AsciiColor::White, AsciiForegroundStyle::Underline, false));
    assert_eq!(parse_ascii_code(&chars("4;;31")), None);
    assert_eq!(parse_ascii_code(&chars("4x;32")), None);
    assert_eq!(parse_ascii_code(&chars("4;91")), None);
    assert_eq!(parse_ascii_code(&chars("4")), None);
}

#[test]
fn text_splits_into_characters_and_styles() {
    let actions = console_write_actions(&chars("a\x1b[1;31mb\x1b[0mc"));
    assert_eq!(
        actions,
        vec![
            ConsoleAction::Print('a'),
            ConsoleAction::SetStyle(AsciiEscapeCode::Foreground {
                color: AsciiColor::Red,
                style: AsciiForegroundStyle::Bold,
                high_intensity: false,
            }),
            ConsoleAction::Print('b'),
            ConsoleAction::SetStyle(AsciiEscapeCode::Reset),
            ConsoleAction::Print('c'),
        ]
    );
}

#[test]
fn unknown_escape_prints_as_text() {
    // An escape that does not parse drops the escape character; the rest is printed.
    let actions = console_write_actions(&chars("\x1b[9mZ"));
    assert_eq!(
        actions,
        vec![
            ConsoleAction::Print('['),
            ConsoleAction::Print('9'),
            ConsoleAction::Print('m'),
            ConsoleAction::Print('Z'),
        ]
    );
    let lone = console_write_actions(&chars("\x1bx"));
    assert_eq!(lone, vec![ConsoleAction::Print('\x1b'), ConsoleAction::Print('x')]);
}

#[test]
fn log_line_colors() {
    let actions = console_write_actions(&chars("[\x1b[1;32mINFO\x1b[0m] up\n"));
    let printed: String = actions
        .iter()
        .filter_map(|a| match a {
            ConsoleAction::Print(c) => Some(*c),
            _ => None,
        })
        .collect();
    assert_eq!(printed, "[INFO] up\n");
    assert_eq!(actions.len(), printed.chars().count() + 2);
}

#[test]
fn style_changes() {
    let mut style = ConsoleStyle::initial();
    assert_eq!(
        style,
        ConsoleStyle {
            foreground_color: AsciiColor::White,
            foreground_style: AsciiForegroundStyle::Regular,
            foreground_high_intensity: true,
            background_color: AsciiColor::Black,
            background_high_intensity: true,
        }
    );
    style.apply(AsciiEscapeCode::Foreground {
        color: AsciiColor::Red,
        style: AsciiForegroundStyle::Bold,
        high_intensity: false,
    });
    style.apply(AsciiEscapeCode::Background { color: AsciiColor::Blue, high_intensity: false });
    assert_eq!(style.foreground_color, AsciiColor::Red);
    assert_eq!(style.foreground_style, AsciiForegroundStyle::Bold);
    assert!(!style.foreground_high_intensity);
    assert_eq!(style.background_color, AsciiColor::Blue);
    assert!(!style.background_high_intensity);
    style.apply(AsciiEscapeCode::Reset);
    assert_eq!(style, ConsoleStyle::initial());
}

#[test]
fn cursor_moves() {
    // A character in the middle of a line is drawn where the cursor is.
    assert_eq!(
        cursor_step(2, 1, 'x', 80, 25, 9, 18),
        CursorStep { new_x: 3, new_y: 1, should_scroll: false, draw_at: Some(PixelPoint { x: 18, y: 18 }) }
    );
    // The last column wraps to the next line.
    assert_eq!(
        cursor_step(79, 1, 'x', 80, 25, 9, 18),
        CursorStep { new_x: 0, new_y: 2, should_scroll: false, draw_at: Some(PixelPoint { x: 711, y: 18 }) }
    );
    // A newline moves without drawing.
    assert_eq!(
        cursor_step(5, 3, '\n', 80, 25, 9, 18),
        CursorStep { new_x: 0, new_y: 4, should_scroll: false, draw_at: None }
    );
    // A newline on the last line scrolls.
    assert_eq!(
        cursor_step(5, 24, '\n', 80, 25, 9, 18),
        CursorStep { new_x: 0, new_y: 25, should_scroll: true, draw_at: None }
    );
    // Below the last line characters are drawn on the last line.
    assert_eq!(
        cursor_step(0, 30, 'y', 80, 25, 9, 18),
        CursorStep { new_x: 1, new_y: 30, should_scroll: false, draw_at: Some(PixelPoint { x: 0, y: 432 }) }
    );
}

#[test]
fn console_font_cells() {
    assert_eq!(
        console_cursor_step(2, 1, 'x', 80, 25),
        CursorStep { new_x: 3, new_y: 1, should_scroll: false, draw_at: Some(PixelPoint { x: 18, y: 18 }) }
    );
    assert_eq!(console_grid_size(1024, 768), (113, 42));
    assert_eq!(console_grid_size(8, 17), (0, 0));
}

#[test]
fn css_colors() {
    assert_eq!(ascii_color_to_css(AsciiColor::Black, false), CssColor::DarkGray);
    assert_eq!(ascii_color_to_css(AsciiColor::Black, true), CssColor::Black);
    assert_eq!(ascii_color_to_css(AsciiColor::Red, false), CssColor::DarkRed);
    assert_eq!(ascii_color_to_css(AsciiColor::Red, true), CssColor::Red);
    assert_eq!(ascii_color_to_css(AsciiColor::Green, true), CssColor::LightGreen);
    assert_eq!(ascii_color_to_css(AsciiColor::Yellow, true), CssColor::LightYellow);
    assert_eq!(ascii_color_to_css(AsciiColor::Blue, true), CssColor::LightBlue);
    assert_eq!(ascii_color_to_css(AsciiColor::Purple, false), CssColor::DarkMagenta);
    assert_eq!(ascii_color_to_css(AsciiColor::Purple, true), CssColor::Magenta);
    assert_eq!(ascii_color_to_css(AsciiColor::Cyan, true), CssColor::LightCyan);
    assert_eq!(ascii_color_to_css(AsciiColor::White, false), CssColor::White);
    assert_eq!(ascii_color_to_css(AsciiColor::White, true), CssColor::White);
}

#[test]
fn framebuffer_geometry() {
    assert_eq!(char_grid_size(1920, 1080, 9, 18), (213, 60));
    assert_eq!(pixel_index(3, 2, 100, 50), Some(203));
    assert_eq!(pixel_index(-1, 2, 100, 50), None);
    assert_eq!(pixel_index(100, 2, 100, 50), None);
    assert_eq!(pixel_index(3, 50, 100, 50), None);
    assert_eq!(scroll_span(100, 18, 10), (1800, 16200));
}

#[test]
fn pixel_encoding() {
    let rgb888 = ColorMasks {
        red_mask_size: 8,
        red_mask_shift: 16,
        green_mask_size: 8,
        green_mask_shift: 8,
        blue_mask_size: 8,
        blue_mask_shift: 0,
    };
    assert_eq!(pack_color(0x12, 0x34, 0x56, rgb888), 0x123456);
    let rgb565 = ColorMasks {
        red_mask_size: 5,
        red_mask_shift: 11,
        green_mask_size: 6,
        green_mask_shift: 5,
        blue_mask_size: 5,
        blue_mask_shift: 0,
    };
    assert_eq!(pack_color(0xFF, 0xFF, 0xFF, rgb565), 0xFFFF);
    assert_eq!(pack_color(0x80, 0x00, 0x08, rgb565), 0x8001);
    assert_eq!(pixel_write(8, 0x123456), PixelWrite::Byte(0x56));
    assert_eq!(pixel_write(16, 0x123456), PixelWrite::HalfWord(0x3456));
    assert_eq!(pixel_write(15, 0x123456), PixelWrite::HalfWord(0x3456));
    assert_eq!(pixel_write(24, 0x123456), PixelWrite::Triple(0x12, 0x34, 0x56));
    assert_eq!(pixel_write(32, 0x123456), PixelWrite::Word(0x123456));
}

#[test]
fn plain_text_is_printed_verbatim() {
    let text = chars("no escapes here: 0123456789012345678901234567890\n");
    let actions = console_write_actions(&text);
    let expected: Vec<ConsoleAction> = text.iter().map(|c| ConsoleAction::Print(*c)).collect();
    assert_eq!(actions, expected);
}

#[test]
fn escape_numbers_must_fit() {
    assert!(ascii_code_defined_check(&chars("1;31")));
    assert!(ascii_code_defined_check(&chars("")));
    assert!(!ascii_code_defined_check(&chars("99999999999999999999999")));
    assert!(!ascii_code_defined_check(&chars("0;99999999999999999999999")));
    assert!(!ascii_code_defined_check(&chars("4;99999999999999999999999")));
    assert!(ascii_code_defined_check(&chars("4x;99999999999999999999999")));
    // After a code other than 0, 1 and 4 the second number is never read.
    assert!(ascii_code_defined_check(&chars("2;99999999999999999999999")));
    assert!(console_text_defined_check(&chars("a\x1b[1;31mb 123456789012345678901234567890")));
    assert!(!console_text_defined_check(&chars("a\x1b[123456789012345678901234567890m")));
    assert!(console_text_defined_check(&chars("")));
}
