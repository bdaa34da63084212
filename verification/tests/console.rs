use kernel::console::{AnsiState, ConsoleState, DrawOp, COLOR_BG, COLOR_FG};

fn feed(console: &mut ConsoleState, text: &str) -> Vec<DrawOp> {
    let mut ops = Vec::new();
    for c in text.chars() {
        console.print_char(c, &mut ops);
    }
    ops
}

#[test]
fn console_init_geometry() {
    let console = ConsoleState::init(640, 480);
    assert_eq!(console.columns, 80);
    assert_eq!(console.rows, 60);
    assert_eq!((console.cursor_x, console.cursor_y), (0, 0));
    assert_eq!(console.ansi_state, AnsiState::Normal);
}

#[test]
fn console_prints_glyphs_and_advances() {
    let mut console = ConsoleState::init(640, 480);
    let ops = feed(&mut console, "hi");
    assert_eq!(
        ops,
        vec![
            DrawOp::Glyph { codepoint: 'h' as u32, col: 0, row: 0, fg: COLOR_FG, bg: COLOR_BG },
            DrawOp::Glyph { codepoint: 'i' as u32, col: 1, row: 0, fg: COLOR_FG, bg: COLOR_BG },
        ]
    );
    assert_eq!((console.cursor_x, console.cursor_y), (2, 0));
    feed(&mut console, "\n");
    assert_eq!((console.cursor_x, console.cursor_y), (0, 1));
}

#[test]
fn console_scrolls_at_bottom() {
    // 2 columns by 2 rows.
    let mut console = ConsoleState::init(16, 16);
    let ops = feed(&mut console, "\n\n");
    assert!(ops.iter().any(|op| matches!(op, DrawOp::ScrollUp { .. })));
    assert!(console.cursor_y < console.rows);
}

#[test]
fn console_sgr_sets_colour_and_reset() {
    let mut console = ConsoleState::init(640, 480);
    let ops = feed(&mut console, "\x1b[31m");
    assert!(ops.is_empty());
    assert_ne!(console.current_fg, COLOR_FG);
    assert_eq!(console.ansi_state, AnsiState::Normal);
    feed(&mut console, "\x1b[0m");
    assert_eq!(console.current_fg, COLOR_FG);
    assert_eq!(console.current_bg, COLOR_BG);
}

#[test]
fn console_clear_screen_homes_cursor() {
    let mut console = ConsoleState::init(640, 480);
    feed(&mut console, "abc");
    let ops = feed(&mut console, "\x1b[2J");
    assert_eq!(ops, vec![DrawOp::ClearScreen { color: COLOR_BG }]);
    assert_eq!((console.cursor_x, console.cursor_y), (0, 0));
}

#[test]
fn console_cursor_position_command() {
    let mut console = ConsoleState::init(640, 480);
    feed(&mut console, "\x1b[5;10H");
    assert_eq!((console.cursor_x, console.cursor_y), (9, 4));
}
