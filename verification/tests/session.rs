//! The editor session: opening, editing, saving, cursor movement and the
//! quit countdown.

use rilo::editor::{EditorConfig, KeyAction};
use rilo::highlight::Highlight;
use rilo::keys::{Arrow, EditorKey, Function};

fn open_editor(name: &[u8], data: &[u8]) -> EditorConfig {
    let mut ec = EditorConfig::new();
    ec.set_window_size(80, 24);
    ec.editor_open(&name.to_vec(), &data.to_vec());
    ec
}

fn row_bytes(ec: &EditorConfig, i: usize) -> Vec<u8> {
    ec.erow[i].chars.clone()
}

#[test]
fn open_splits_lines_and_strips_line_endings() {
    let ec = open_editor(b"t.txt", b"foo\r\nbar\nbaz");
    assert_eq!(ec.numrows, 3);
    assert_eq!(row_bytes(&ec, 0), b"foo".to_vec());
    assert_eq!(row_bytes(&ec, 1), b"bar".to_vec());
    assert_eq!(row_bytes(&ec, 2), b"baz".to_vec());
}

#[test]
fn open_keeps_interior_empty_lines_and_drops_the_trailing_one() {
    let ec = open_editor(b"t.txt", b"a\n\nb\n");
    assert_eq!(ec.numrows, 3);
    assert_eq!(row_bytes(&ec, 0), b"a".to_vec());
    assert_eq!(row_bytes(&ec, 1), b"".to_vec());
    assert_eq!(row_bytes(&ec, 2), b"b".to_vec());
}

#[test]
fn save_reproduces_the_opened_bytes() {
    // Opening what was saved gives the same bytes back.
    let data = b"alpha\n\nbeta\ngamma\n";
    let ec = open_editor(b"t.txt", data);
    assert_eq!(ec.editor_rows_to_string(), data.to_vec());
    let ec2 = open_editor(b"t.txt", &ec.editor_rows_to_string());
    assert_eq!(ec2.editor_rows_to_string(), data.to_vec());
}

#[test]
fn net_inserted_bytes_equal_row_length() {
    // Inserts and deletes on an empty document: the row's length is the
    // net number of inserted bytes, and the render form is no shorter.
    let mut ec = EditorConfig::new();
    ec.set_window_size(80, 24);
    ec.editor_insert_char(b'a');
    ec.editor_insert_char(b'\t');
    ec.editor_insert_char(b'b');
    ec.editor_delete_char();
    ec.editor_insert_char(b'c');
    assert_eq!(ec.numrows, 1);
    assert_eq!(ec.erow[0].chars, b"a\tc".to_vec());
    assert_eq!(ec.erow[0].chars.len(), 3);
    assert!(ec.erow[0].render.len() >= ec.erow[0].chars.len());
    assert_eq!(ec.cp_x, 3);
    assert!(ec.dirty);
    // Deleting everything and once more at the start stays a no-op.
    ec.editor_delete_char();
    ec.editor_delete_char();
    ec.editor_delete_char();
    ec.editor_delete_char();
    assert_eq!(ec.erow[0].chars.len(), 0);
    assert_eq!(ec.cp_x, 0);
}

#[test]
fn enter_at_end_of_line_two_inserts_an_empty_line() {
    // Open a three-line file, move to the end of the second line, press
    // enter: four lines, line two unchanged, line three empty, cursor at
    // the start of line three.
    let mut ec = open_editor(b"t.txt", b"foo\nbar\nbaz\n");
    ec.cp_y = 1;
    ec.cp_x = 3;
    let r = ec.editor_process_keypress(&EditorKey::Else(b'\r'));
    assert_eq!(r, KeyAction::Continue);
    assert_eq!(ec.numrows, 4);
    assert_eq!(row_bytes(&ec, 0), b"foo".to_vec());
    assert_eq!(row_bytes(&ec, 1), b"bar".to_vec());
    assert_eq!(row_bytes(&ec, 2), b"".to_vec());
    assert_eq!(row_bytes(&ec, 3), b"baz".to_vec());
    assert_eq!(ec.cp_x, 0);
    assert_eq!(ec.cp_y, 2);
}

#[test]
fn enter_in_the_middle_splits_the_row() {
    let mut ec = open_editor(b"t.txt", b"hello\n");
    ec.cp_y = 0;
    ec.cp_x = 2;
    ec.editor_insert_new_line();
    assert_eq!(ec.numrows, 2);
    assert_eq!(row_bytes(&ec, 0), b"he".to_vec());
    assert_eq!(row_bytes(&ec, 1), b"llo".to_vec());
    assert_eq!((ec.cp_x, ec.cp_y), (0, 1));
}

#[test]
fn quit_countdown_takes_three_presses_when_dirty() {
    // The first two presses warn and keep running; the third quits.
    let mut ec = open_editor(b"t.txt", b"x\n");
    ec.editor_insert_char(b'y');
    assert!(ec.dirty);
    let ctrl_q = EditorKey::Else(17);
    assert_eq!(ec.editor_process_keypress(&ctrl_q), KeyAction::Continue);
    assert_eq!(ec.quit_times, 2);
    assert_eq!(
        ec.status_msg,
        b"WARNING!!! File has unsaved changes. Press Ctrl-Q 2 more times to quit.".to_vec()
    );
    assert_eq!(ec.editor_process_keypress(&ctrl_q), KeyAction::Continue);
    assert_eq!(ec.quit_times, 1);
    assert_eq!(
        ec.status_msg,
        b"WARNING!!! File has unsaved changes. Press Ctrl-Q 1 more times to quit.".to_vec()
    );
    assert_eq!(ec.editor_process_keypress(&ctrl_q), KeyAction::Quit);
}

#[test]
fn quit_is_immediate_when_clean() {
    let mut ec = open_editor(b"t.txt", b"x\n");
    assert!(!ec.dirty);
    assert_eq!(ec.editor_process_keypress(&EditorKey::Else(17)), KeyAction::Quit);
}

#[test]
fn save_done_resets_dirty_and_the_countdown() {
    let mut ec = open_editor(b"t.txt", b"x\n");
    ec.editor_insert_char(b'y');
    ec.editor_process_keypress(&EditorKey::Else(17));
    assert_eq!(ec.quit_times, 2);
    ec.editor_save_done(5);
    assert!(!ec.dirty);
    assert_eq!(ec.quit_times, 3);
    assert_eq!(ec.status_msg, b"5 bytes written to disk".to_vec());
}

#[test]
fn ctrl_s_and_ctrl_f_are_requests_to_the_caller() {
    let mut ec = open_editor(b"t.txt", b"x\n");
    assert_eq!(ec.editor_process_keypress(&EditorKey::Else(19)), KeyAction::Save);
    assert_eq!(ec.editor_process_keypress(&EditorKey::Else(6)), KeyAction::Find);
}

#[test]
fn printable_bytes_insert_literally() {
    let mut ec = EditorConfig::new();
    ec.set_window_size(80, 24);
    assert_eq!(ec.editor_process_keypress(&EditorKey::Else(b'h')), KeyAction::Continue);
    assert_eq!(ec.editor_process_keypress(&EditorKey::Else(b'i')), KeyAction::Continue);
    assert_eq!(ec.erow[0].chars, b"hi".to_vec());
    assert!(ec.dirty);
}

#[test]
fn arrows_move_and_clamp() {
    let mut ec = open_editor(b"t.txt", b"abc\nx\n");
    // Right to the end of the first row, then onto the next row.
    for _ in 0..3 {
        ec.editor_process_keypress(&EditorKey::Arrow(Arrow::Right));
    }
    assert_eq!((ec.cp_x, ec.cp_y), (3, 0));
    ec.editor_process_keypress(&EditorKey::Arrow(Arrow::Right));
    assert_eq!((ec.cp_x, ec.cp_y), (0, 1));
    // Left wraps back to the end of the previous row.
    ec.editor_process_keypress(&EditorKey::Arrow(Arrow::Left));
    assert_eq!((ec.cp_x, ec.cp_y), (3, 0));
    // Down clamps the column to the shorter row.
    ec.editor_process_keypress(&EditorKey::Arrow(Arrow::Down));
    assert_eq!((ec.cp_x, ec.cp_y), (1, 1));
}

#[test]
fn home_and_end_jump_within_the_row() {
    let mut ec = open_editor(b"t.txt", b"abcdef\n");
    ec.editor_process_keypress(&EditorKey::Function(Function::End));
    assert_eq!(ec.cp_x, 6);
    ec.editor_process_keypress(&EditorKey::Function(Function::Home));
    assert_eq!(ec.cp_x, 0);
}

#[test]
fn delete_key_removes_the_byte_under_the_cursor() {
    let mut ec = open_editor(b"t.txt", b"abc\n");
    ec.editor_process_keypress(&EditorKey::Function(Function::Delete));
    assert_eq!(ec.erow[0].chars, b"bc".to_vec());
    assert_eq!(ec.cp_x, 0);
}

#[test]
fn backspace_at_line_start_is_a_no_op() {
    let mut ec = open_editor(b"t.txt", b"abc\ndef\n");
    ec.cp_y = 1;
    ec.cp_x = 0;
    ec.editor_process_keypress(&EditorKey::Function(Function::Backspace));
    assert_eq!(ec.numrows, 2);
    assert_eq!(ec.erow[0].chars, b"abc".to_vec());
    assert_eq!(ec.erow[1].chars, b"def".to_vec());
}

#[test]
fn scroll_follows_the_cursor() {
    let mut data = Vec::new();
    for i in 0..50 {
        data.extend_from_slice(format!("line{}\n", i).as_bytes());
    }
    let mut ec = open_editor(b"t.txt", &data);
    ec.set_window_size(10, 12);  // 10 text rows
    ec.cp_y = 30;
    ec.cp_x = 0;
    ec.editor_scroll();
    // The cursor row must lie inside the window.
    assert!(ec.off_row <= 30 && 30 < ec.off_row + 10);
    assert_eq!(ec.off_row, 21);
    ec.cp_y = 5;
    ec.editor_scroll();
    assert_eq!(ec.off_row, 5);
}

#[test]
fn rx_accounts_for_tabs_when_scrolling() {
    let mut ec = open_editor(b"t.txt", b"\tx\n");
    ec.cp_x = 2;
    ec.editor_scroll();
    assert_eq!(ec.rx, 9);
}

#[test]
fn opening_a_rust_file_selects_the_syntax() {
    let ec = open_editor(b"m.rs", b"let x = 1;\n");
    assert!(ec.editor_syntax.syntax.is_some());
    let ec2 = open_editor(b"m.txt", b"let x = 1;\n");
    assert!(ec2.editor_syntax.syntax.is_none());
}

#[test]
fn open_threads_string_state_across_rows() {
    let ec = open_editor(b"m.rs", b"x\"ab\ncd\" y\n");
    assert_eq!(ec.numrows, 2);
    assert_eq!(ec.erow[0].hl[0], Highlight::NORMAL);
    assert_eq!(ec.erow[0].hl[1], Highlight::STRING);
    // The second row starts inside the string opened on the first.
    assert_eq!(ec.erow[1].hl[0], Highlight::STRING);
    assert_eq!(ec.erow[1].hl[1], Highlight::STRING);
    assert_eq!(ec.erow[1].hl[2], Highlight::STRING);
    assert_eq!(ec.erow[1].hl[3], Highlight::NORMAL);
    assert_eq!(ec.erow[1].hl[4], Highlight::NORMAL);
    assert_eq!(ec.editor_syntax.in_string, 0);
}

#[test]
fn page_keys_move_a_screenful() {
    let mut data = Vec::new();
    for i in 0..50 {
        data.extend_from_slice(format!("l{}\n", i).as_bytes());
    }
    let mut ec = open_editor(b"t.txt", &data);
    ec.set_window_size(10, 12);  // 10 text rows
    ec.editor_process_keypress(&EditorKey::Function(Function::Down));
    // From the top: the cursor jumps to the bottom of the window, then
    // moves one screenful further down.
    assert_eq!(ec.cp_y, 19);
    ec.editor_process_keypress(&EditorKey::Function(Function::Up));
    // The cursor goes to the top of the window, then one screenful up.
    assert_eq!(ec.cp_y, 0);
}
