//! The frame renderer: whole frames and their pieces, byte for byte.

use rilo::editor::EditorConfig;
use rilo::keys::EditorKey;

fn open_editor(name: &[u8], data: &[u8], cols: u16, rows: u16) -> EditorConfig {
    let mut ec = EditorConfig::new();
    ec.set_window_size(cols, rows);
    ec.editor_open(&name.to_vec(), &data.to_vec());
    ec
}

#[test]
fn empty_document_frame_shows_tildes_and_the_banner() {
    let mut ec = EditorConfig::new();
    ec.set_window_size(10, 5);  // 3 text rows; banner on row 3/3 = 1
    let frame = ec.editor_refresh_screen(false);
    let mut expected: Vec<u8> = Vec::new();
    expected.extend_from_slice(b"\x1b[?25l\x1b[H");
    expected.extend_from_slice(b"~\x1b[K\r\n");
    // The banner is clipped to the ten available columns.
    expected.extend_from_slice(b"Rilo edito\x1b[K\r\n");
    expected.extend_from_slice(b"~\x1b[K\r\n");
    // Status bar: no filename, zero lines; exactly fills the width.
    expected.extend_from_slice(b"\x1b[7m - 0 lines\x1b[m\r\n");
    // Message bar: the message is stale, so only erase-to-end.
    expected.extend_from_slice(b"\x1b[K");
    expected.extend_from_slice(b"\x1b[1;1H");
    expected.extend_from_slice(b"\x1b[?25h");
    assert_eq!(frame, expected);
}

#[test]
fn text_rows_are_clipped_to_the_viewport() {
    let mut ec = open_editor(b"t.txt", b"abcdefghijklmnop\nshort\n", 5, 6);
    ec.off_col = 0;
    let frame = ec.editor_refresh_screen(false);
    let s = String::from_utf8_lossy(&frame).to_string();
    // Only the first five columns of the long row appear.
    assert!(s.contains("abcde\u{1b}[39m\u{1b}[K\r\n"));
    assert!(!s.contains("abcdef"));
    assert!(s.contains("short\u{1b}[39m\u{1b}[K\r\n"));
}

#[test]
fn number_highlight_emits_color_escapes_once_per_run() {
    let mut ec = open_editor(b"t.rs", b"a 12 b\n", 40, 10);
    let frame = ec.editor_refresh_screen(false);
    let s = String::from_utf8_lossy(&frame).to_string();
    // One color change into red before "12", one back to default after.
    assert!(s.contains("\u{1b}[39ma \u{1b}[31m12\u{1b}[39m b"));
}

#[test]
fn status_bar_shows_name_lines_dirty_and_type() {
    let mut ec = open_editor(b"m.rs", b"x\ny\n", 40, 10);
    ec.editor_process_keypress(&EditorKey::Else(b'z'));
    let frame = ec.editor_refresh_screen(false);
    let s = String::from_utf8_lossy(&frame).to_string();
    assert!(s.contains("\u{1b}[7mm.rs - 2 lines(modified)"));
    // The right half is right-aligned: file type and cursor line.
    assert!(s.contains("rust | 1/2\u{1b}[m\r\n"));
}

#[test]
fn message_bar_shows_only_fresh_messages() {
    let mut ec = open_editor(b"t.txt", b"x\n", 20, 6);
    ec.editor_set_status_message(b"hello there".to_vec());
    let fresh = ec.editor_refresh_screen(true);
    let stale = ec.editor_refresh_screen(false);
    let fs = String::from_utf8_lossy(&fresh).to_string();
    let ss = String::from_utf8_lossy(&stale).to_string();
    assert!(fs.contains("hello there"));
    assert!(!ss.contains("hello there"));
}

#[test]
fn message_is_truncated_to_the_width() {
    let mut ec = open_editor(b"t.txt", b"x\n", 8, 6);
    ec.editor_set_status_message(b"0123456789abcdef".to_vec());
    let frame = ec.editor_refresh_screen(true);
    let s = String::from_utf8_lossy(&frame).to_string();
    assert!(s.contains("01234567"));
    assert!(!s.contains("012345678"));
}

#[test]
fn cursor_is_positioned_inside_the_viewport() {
    let mut ec = open_editor(b"t.txt", b"one\ntwo\nthree\n", 40, 10);
    ec.cp_y = 2;
    ec.cp_x = 3;
    let frame = ec.editor_refresh_screen(false);
    let s = String::from_utf8_lossy(&frame).to_string();
    // Row three, render column four, both one-based.
    assert!(s.ends_with("\u{1b}[3;4H\u{1b}[?25h"));
}

#[test]
fn match_overlay_is_drawn_blue() {
    let mut ec = open_editor(b"t.txt", b"find me\n", 40, 10);
    ec.editor_find_callback(&b"me".to_vec(), &EditorKey::Else(b'm'));
    let frame = ec.editor_refresh_screen(false);
    let s = String::from_utf8_lossy(&frame).to_string();
    assert!(s.contains("\u{1b}[34mme"));
}
