use termrec::color::{ansi_basic_color, ansi_bright_color, Color};
use termrec::vterm::{Cell, VirtualTerminal};

#[test]
fn basic_print() {
    let mut vt = VirtualTerminal::new(10, 3);
    vt.feed(b"Hello");
    assert_eq!(vt.row_text(0).trim(), "Hello");
}

#[test]
fn cursor_movement() {
    let mut vt = VirtualTerminal::new(20, 5);
    // Move to row 2, col 5 (1-indexed)
    vt.feed(b"\x1b[2;5fTest");
    assert_eq!(&vt.row_text(1)[4..8], "Test");
}

#[test]
fn sgr_24bit_color() {
    let mut vt = VirtualTerminal::new(10, 2);
    vt.feed(b"\x1b[38;2;255;128;0mX");
    let cell = &vt.cells[0][0];
    assert_eq!(cell.ch, 'X');
    assert_eq!(cell.fg, Color::rgb(255, 128, 0));
}

#[test]
fn erase_in_display() {
    let mut vt = VirtualTerminal::new(10, 3);
    vt.feed(b"AAAAAAAAAA");
    vt.feed(b"\x1b[2J");
    assert_eq!(vt.row_text(0).trim(), "");
}

#[test]
fn sync_end_detection() {
    let mut vt = VirtualTerminal::new(10, 3);
    assert!(!vt.sync_end_seen);
    vt.feed(b"\x1b[?2026h");
    assert!(!vt.sync_end_seen);
    vt.feed(b"\x1b[?2026l");
    assert!(vt.sync_end_seen);
}

#[test]
fn cr_lf() {
    let mut vt = VirtualTerminal::new(20, 5);
    vt.feed(b"Line1\r\nLine2");
    assert_eq!(vt.row_text(0).trim(), "Line1");
    assert_eq!(vt.row_text(1).trim(), "Line2");
}

#[test]
fn new_terminal_is_blank() {
    let vt = VirtualTerminal::new(4, 2);
    assert_eq!(vt.all_text(), vec!["    ".to_string(), "    ".to_string()]);
    assert_eq!(vt.cells[1][3], Cell::default());
    assert_eq!(vt.cells[1][3].fg, Color::default_fg());
    assert_eq!(vt.cells[1][3].bg, Color::default_bg());
    assert_eq!(vt.row_text(2), "");
}

#[test]
fn print_stops_at_last_column() {
    let mut vt = VirtualTerminal::new(3, 1);
    vt.feed(b"abcd");
    // The cursor stays on the last column, so 'd' overwrites 'c'.
    assert_eq!(vt.row_text(0), "abd");
    assert_eq!(vt.cursor_col, 2);
}

#[test]
fn line_feed_at_bottom_scrolls() {
    let mut vt = VirtualTerminal::new(3, 2);
    vt.feed(b"one\r\ntwo\r\nsix");
    assert_eq!(vt.all_text(), vec!["two".to_string(), "six".to_string()]);
    assert_eq!(vt.cells.len(), 2);
}

#[test]
fn tab_and_backspace() {
    let mut vt = VirtualTerminal::new(20, 1);
    vt.feed(b"a\tb");
    assert_eq!(vt.cells[0][8].ch, 'b');
    let mut vt = VirtualTerminal::new(10, 1);
    vt.feed(b"\t\t\tx");
    // Tab stops never pass the last column.
    assert_eq!(vt.cells[0][9].ch, 'x');
    vt.feed(b"\x08\x08y");
    assert_eq!(vt.cells[0][7].ch, 'y');
}

#[test]
fn cursor_moves_clamp_to_grid() {
    let mut vt = VirtualTerminal::new(5, 4);
    vt.feed(b"\x1b[10B\x1b[10CZ");
    assert_eq!(vt.cells[3][4].ch, 'Z');
    vt.feed(b"\x1b[10A\x1b[10DA");
    assert_eq!(vt.cells[0][0].ch, 'A');
    vt.feed(b"\x1b[0;0HQ");
    assert_eq!(vt.cells[0][0].ch, 'Q');
}

#[test]
fn erase_modes() {
    let mut vt = VirtualTerminal::new(4, 3);
    vt.feed(b"abcd\r\nefgh\r\nijkl");
    vt.feed(b"\x1b[2;3H\x1b[0J");
    assert_eq!(vt.all_text(), vec!["abcd".to_string(), "ef  ".to_string(), "    ".to_string()]);
    let mut vt = VirtualTerminal::new(4, 3);
    vt.feed(b"abcd\r\nefgh\r\nijkl");
    vt.feed(b"\x1b[2;3H\x1b[1J");
    assert_eq!(vt.all_text(), vec!["    ".to_string(), "   h".to_string(), "ijkl".to_string()]);
    let mut vt = VirtualTerminal::new(4, 2);
    vt.feed(b"abcd\r\nefgh");
    vt.feed(b"\x1b[2;2H\x1b[K");
    assert_eq!(vt.row_text(1), "e   ");
    vt.feed(b"\x1b[1;3H\x1b[1K");
    assert_eq!(vt.row_text(0), "   d");
    vt.feed(b"\x1b[2K");
    assert_eq!(vt.row_text(0), "    ");
}

#[test]
fn sgr_attributes_and_palettes() {
    let mut vt = VirtualTerminal::new(10, 1);
    vt.feed(b"\x1b[1;3;4;9;31;42ma\x1b[22;23;24;29;39;49mb\x1b[38;5;196;48;5;244mc\x1b[95;104md\x1b[0me");
    let a = vt.cells[0][0];
    assert!(a.bold && a.italic && a.underline && a.strikethrough && !a.dim);
    assert_eq!(a.fg, Color::rgb(128, 0, 0));
    assert_eq!(a.bg, Color::rgb(0, 128, 0));
    let b = vt.cells[0][1];
    assert!(!b.bold && !b.italic && !b.underline && !b.strikethrough);
    assert_eq!(b.fg, Color::default_fg());
    assert_eq!(b.bg, Color::default_bg());
    let c = vt.cells[0][2];
    assert_eq!(c.fg, Color::rgb(255, 0, 0));
    assert_eq!(c.bg, Color::rgb(128, 128, 128));
    let d = vt.cells[0][3];
    assert_eq!(d.fg, Color::rgb(255, 0, 255));
    assert_eq!(d.bg, Color::rgb(0, 0, 255));
    let mut expected = Cell::default();
    expected.ch = 'e';
    assert_eq!(vt.cells[0][4], expected);
}

#[test]
fn truncated_extended_colors_use_zero() {
    let mut vt = VirtualTerminal::new(4, 1);
    vt.feed(b"\x1b[38;2;7mx");
    assert_eq!(vt.cells[0][0].fg, Color::rgb(7, 0, 0));
    vt.feed(b"\x1b[48;2;300;1;2my");
    // Values keep their low byte.
    assert_eq!(vt.cells[0][1].bg, Color::rgb(44, 1, 2));
}

#[test]
fn save_and_restore_cursor() {
    let mut vt = VirtualTerminal::new(6, 2);
    vt.feed(b"ab\x1b[scd\x1b[uX");
    assert_eq!(vt.row_text(0), "abXd  ");
}

#[test]
fn alternate_screen_mode() {
    let mut vt = VirtualTerminal::new(4, 2);
    vt.feed(b"\x1b[?1049h");
    assert!(vt.alt_screen);
    vt.feed(b"\x1b[?1049l");
    assert!(!vt.alt_screen);
    // Without the private marker the sequence is not a mode change.
    vt.feed(b"\x1b[1049h\x1b[2026l");
    assert!(!vt.alt_screen);
    assert!(!vt.sync_end_seen);
}

#[test]
fn sync_end_flag_stays_set() {
    let mut vt = VirtualTerminal::new(4, 2);
    vt.feed(b"\x1b[?2026lhello\x1b[?2026h");
    assert!(vt.sync_end_seen);
}

#[test]
fn csi_moves_do_not_touch_cells() {
    let mut vt = VirtualTerminal::new(4, 2);
    vt.feed(b"abcd");
    let before = vt.all_text();
    vt.feed(b"\x1b[2;2H\x1b[A\x1b[s\x1b[u\x1b[31m\x1b[?25l");
    assert_eq!(vt.all_text(), before);
}

#[test]
fn resize_keeps_overlap() {
    let mut vt = VirtualTerminal::new(3, 2);
    vt.feed(b"abc\r\ndef");
    vt.resize(5, 3);
    assert_eq!(vt.all_text(), vec!["abc  ".to_string(), "def  ".to_string(), "     ".to_string()]);
    vt.resize(3, 2);
    assert_eq!(vt.all_text(), vec!["abc".to_string(), "def".to_string()]);
    vt.resize(2, 1);
    assert_eq!(vt.all_text(), vec!["ab".to_string()]);
    assert_eq!(vt.cursor_row, 0);
    assert_eq!(vt.cursor_col, 1);
}

#[test]
fn clear_blanks_everything() {
    let mut vt = VirtualTerminal::new(3, 2);
    vt.feed(b"\x1b[31mabc\r\ndef");
    vt.clear();
    let fresh = VirtualTerminal::new(3, 2);
    assert_eq!(vt.cells, fresh.cells);
}

#[test]
fn zero_size_grid() {
    let mut vt = VirtualTerminal::new(0, 0);
    vt.feed(b"text\x1b[2J\x1b[?2026l");
    assert!(vt.sync_end_seen);
    assert!(vt.all_text().is_empty());
    assert!(!vt.try_feed(b"\n"));
    assert!(vt.try_feed(b"more"));
    let mut vt = VirtualTerminal::new(0, 2);
    assert!(!vt.try_feed(b"\t"));
    assert!(!vt.try_feed(b"\x1b[1K"));
    assert!(vt.try_feed(b"\n\x1b[K"));
    assert_eq!(vt.row_text(1), "");
}

#[test]
fn direct_actions() {
    let mut vt = VirtualTerminal::new(5, 2);
    vt.print('h');
    vt.execute(0x0A);
    vt.print('i');
    assert_eq!(vt.row_text(0), "h    ");
    assert_eq!(vt.row_text(1), " i   ");
    vt.csi_dispatch(&vec![vec![1], vec![5]], &vec![], 'H');
    vt.print('!');
    assert_eq!(vt.row_text(0), "h   !");
}

#[test]
fn palette() {
    assert_eq!(Color::from_256(1), ansi_basic_color(1));
    assert_eq!(Color::from_256(9), ansi_bright_color(1));
    assert_eq!(Color::from_256(16), Color::rgb(0, 0, 0));
    assert_eq!(Color::from_256(17), Color::rgb(0, 0, 95));
    assert_eq!(Color::from_256(196), Color::rgb(255, 0, 0));
    assert_eq!(Color::from_256(231), Color::rgb(255, 255, 255));
    assert_eq!(Color::from_256(232), Color::rgb(8, 8, 8));
    assert_eq!(Color::from_256(255), Color::rgb(238, 238, 238));
    assert_eq!(ansi_basic_color(8), Color::default_fg());
    assert_eq!(ansi_bright_color(0), Color::rgb(128, 128, 128));
}

#[test]
fn cursor_saved_before_shrinking() {
    let mut vt = VirtualTerminal::new(10, 5);
    vt.feed(b"\x1b[5;10H\x1b[s");
    vt.resize(5, 3);
    assert_eq!((vt.cursor_row, vt.cursor_col), (2, 4));
    // Restoring brings the cursor outside the smaller grid; printing and
    // erasing from there touch nothing.
    vt.feed(b"\x1b[uAB\x1b[K\x1b[J");
    assert_eq!((vt.cursor_row, vt.cursor_col), (4, 9));
    assert!(vt.all_text().iter().all(|r| r.trim().is_empty()));
    // Erasing up to a cursor below the grid cannot be done.
    assert!(!vt.try_feed(b"\x1b[1J"));
    assert!(!vt.try_feed(b"\r\x1b[J"));
    assert_eq!((vt.cursor_row, vt.cursor_col), (4, 9));
    // A line feed scrolls and brings the cursor back to the last row.
    vt.feed(b"\n\rXY");
    assert_eq!((vt.cursor_row, vt.cursor_col), (2, 2));
    assert_eq!(vt.row_text(2), "XY   ");
}
