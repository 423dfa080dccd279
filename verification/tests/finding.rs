//! The incremental search and the prompt machinery.

use rilo::editor::{editor_prompt_message, EditorConfig, PromptStep};
use rilo::highlight::Highlight;
use rilo::keys::{Arrow, EditorKey};
use rilo::text::find_substring;

fn open_editor(name: &[u8], data: &[u8]) -> EditorConfig {
    let mut ec = EditorConfig::new();
    ec.set_window_size(80, 24);
    ec.editor_open(&name.to_vec(), &data.to_vec());
    ec
}

#[test]
fn substring_search_finds_the_first_occurrence() {
    assert_eq!(find_substring(&b"hello world".to_vec(), &b"o".to_vec()), Some(4));
    assert_eq!(find_substring(&b"hello".to_vec(), &b"lo".to_vec()), Some(3));
    assert_eq!(find_substring(&b"hello".to_vec(), &b"x".to_vec()), None);
    assert_eq!(find_substring(&b"hi".to_vec(), &b"high".to_vec()), None);
    assert_eq!(find_substring(&b"abc".to_vec(), &b"".to_vec()), Some(0));
}

#[test]
fn prompt_message_substitutes_the_buffer() {
    let m = editor_prompt_message(
        &b"Search: {} (Use ESC/Arrows/Enter)".to_vec(),
        &b"abc".to_vec(),
    );
    assert_eq!(m, b"Search: abc (Use ESC/Arrows/Enter)".to_vec());
}

#[test]
fn prompt_collects_and_edits_the_buffer() {
    let mut ec = open_editor(b"t.txt", b"x\n");
    let mut buf: Vec<u8> = Vec::new();
    assert_eq!(
        ec.editor_prompt(&mut buf, &EditorKey::Else(b'h'), false),
        PromptStep::Continue
    );
    assert_eq!(
        ec.editor_prompt(&mut buf, &EditorKey::Else(b'i'), false),
        PromptStep::Continue
    );
    assert_eq!(buf, b"hi".to_vec());
    // Backspace removes the last byte; the control-h byte does too.
    assert_eq!(
        ec.editor_prompt(
            &mut buf,
            &EditorKey::Function(rilo::keys::Function::Backspace),
            false
        ),
        PromptStep::Continue
    );
    assert_eq!(buf, b"h".to_vec());
    assert_eq!(
        ec.editor_prompt(&mut buf, &EditorKey::Else(8), false),
        PromptStep::Continue
    );
    assert_eq!(buf, b"".to_vec());
    // Enter on an empty buffer keeps the prompt open.
    assert_eq!(
        ec.editor_prompt(&mut buf, &EditorKey::Else(b'\r'), false),
        PromptStep::Continue
    );
    buf.push(b'q');
    assert_eq!(
        ec.editor_prompt(&mut buf, &EditorKey::Else(b'\r'), false),
        PromptStep::Submit
    );
    assert_eq!(
        ec.editor_prompt(&mut buf, &EditorKey::Else(27), false),
        PromptStep::Cancel
    );
}

#[test]
fn search_positions_cursor_and_overlays_the_match() {
    // The query sits in exactly one row: the cursor lands on its first
    // byte and exactly that byte range turns into a match overlay.
    let mut ec = open_editor(b"t.txt", b"hello\nworld\nfoo\n");
    let saved = ec.editor_find_begin();
    let mut buf: Vec<u8> = Vec::new();
    ec.editor_prompt(&mut buf, &EditorKey::Else(b'o'), true);
    ec.editor_prompt(&mut buf, &EditorKey::Else(b'r'), true);
    assert_eq!(buf, b"or".to_vec());
    assert_eq!((ec.cp_x, ec.cp_y), (1, 1));
    assert_eq!(ec.last_match, Some(1));
    assert_eq!(ec.erow[1].hl[0], Highlight::NORMAL);
    assert_eq!(ec.erow[1].hl[1], Highlight::MATCH);
    assert_eq!(ec.erow[1].hl[2], Highlight::MATCH);
    assert_eq!(ec.erow[1].hl[3], Highlight::NORMAL);
    // Escape: the override is undone and the session restores the saved
    // cursor and viewport.
    let step = ec.editor_prompt(&mut buf, &EditorKey::Else(27), true);
    assert_eq!(step, PromptStep::Cancel);
    ec.editor_find_end(saved, true);
    assert_eq!((ec.cp_x, ec.cp_y), (0, 0));
    assert_eq!((ec.off_row, ec.off_col), (0, 0));
    assert!(ec.erow[1].hl.iter().all(|h| *h == Highlight::NORMAL));
    assert_eq!(ec.last_match, None);
    assert!(ec.saved_hl.is_none());
}

#[test]
fn search_match_sets_cursor_in_content_space() {
    // The match is located in render space; the cursor column comes back
    // through the inverse tab arithmetic.
    let mut ec = open_editor(b"t.txt", b"\tabc\n");
    ec.editor_find_callback(&b"abc".to_vec(), &EditorKey::Else(b'c'));
    // "abc" starts at render column 8, which is content column 1.
    assert_eq!((ec.cp_x, ec.cp_y), (1, 0));
}

#[test]
fn arrows_step_through_matches_circularly() {
    let mut ec = open_editor(b"t.txt", b"aaa\nbbb\naaa\n");
    let q = b"aaa".to_vec();
    // A fresh keystroke restarts from the top.
    ec.editor_find_callback(&q, &EditorKey::Else(b'a'));
    assert_eq!(ec.last_match, Some(0));
    // Forward: the next matching row, two rows down.
    ec.editor_find_callback(&q, &EditorKey::Arrow(Arrow::Right));
    assert_eq!(ec.last_match, Some(2));
    // Forward again wraps around to the first row.
    ec.editor_find_callback(&q, &EditorKey::Arrow(Arrow::Right));
    assert_eq!(ec.last_match, Some(0));
    // Backward wraps the other way.
    ec.editor_find_callback(&q, &EditorKey::Arrow(Arrow::Up));
    assert_eq!(ec.last_match, Some(2));
    // Enter ends the search and keeps the cursor on the match.
    ec.editor_find_callback(&q, &EditorKey::Else(b'\r'));
    assert_eq!(ec.last_match, None);
    assert_eq!(ec.cp_y, 2);
    assert!(ec.saved_hl.is_none());
}

#[test]
fn failed_search_leaves_the_cursor_alone() {
    let mut ec = open_editor(b"t.txt", b"abc\ndef\n");
    ec.editor_find_callback(&b"zzz".to_vec(), &EditorKey::Else(b'z'));
    assert_eq!((ec.cp_x, ec.cp_y), (0, 0));
    assert_eq!(ec.last_match, None);
    assert!(ec.saved_hl.is_none());
}

#[test]
fn search_forces_a_scroll_recompute() {
    let mut ec = open_editor(b"t.txt", b"a\nb\nneedle\n");
    ec.editor_find_callback(&b"needle".to_vec(), &EditorKey::Else(b'n'));
    // The row offset is pushed past the end so the next scroll recenters.
    assert_eq!(ec.off_row, 3);
    ec.editor_scroll();
    assert!(ec.off_row <= 2 && 2 < ec.off_row + ec.screen_rows as usize);
}
