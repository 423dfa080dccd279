//! The row model: tab expansion, render-column arithmetic, and per-row
//! editing.

use rilo::highlight::{EditorSyntaxInf, Highlight};
use rilo::row::{editor_row_cxtorx, editor_row_rxtocx, Erow};

fn make_row(content: &[u8]) -> Erow {
    let mut row = Erow {
        size: content.len(),
        chars: content.to_vec(),
        rsize: 0,
        render: Vec::new(),
        hl: Vec::new(),
    };
    let mut si = EditorSyntaxInf { syntax: None, in_string: 0 };
    row.editor_update_row(&mut si);
    row
}

#[test]
fn plain_text_renders_as_itself() {
    let row = make_row(b"hello");
    assert_eq!(row.render, b"hello".to_vec());
    assert_eq!(row.rsize, 5);
    assert_eq!(row.hl.len(), 5);
}

#[test]
fn tab_expands_to_tab_stop() {
    // A tab at content column 0 renders as eight spaces.
    let row = make_row(b"\t");
    assert_eq!(row.render, b"        ".to_vec());
    assert_eq!(editor_row_cxtorx(&row.chars, 1), 8);
}

#[test]
fn tab_after_three_columns_pads_to_next_stop() {
    // "abc" occupies columns 0..3; the tab pads to column 8.
    let row = make_row(b"abc\tx");
    assert_eq!(row.render, b"abc     x".to_vec());
    assert_eq!(editor_row_cxtorx(&row.chars, 4), 8);
}

#[test]
fn tab_one_column_before_stop_widens_by_one() {
    let row = make_row(b"abcdefg\t");
    assert_eq!(row.render.len(), 8);
    assert_eq!(row.chars.len(), 8);
}

#[test]
fn render_is_never_shorter_than_content() {
    for content in [&b"abc\tdef"[..], b"\t\t", b"", b"plain", b"a\tb\tc"] {
        let row = make_row(content);
        assert!(row.render.len() >= row.chars.len());
    }
}

#[test]
fn render_columns_round_trip_on_tab_free_content() {
    let row = make_row(b"hello");
    for x in 0..=5 {
        let rx = editor_row_cxtorx(&row.chars, x);
        assert_eq!(rx, x);
        assert_eq!(editor_row_rxtocx(&row.chars, rx), x);
    }
}

#[test]
fn render_column_inverse_lands_on_the_tab() {
    // Every render column inside the tab's padding maps back to the tab.
    let row = make_row(b"a\tb");
    assert_eq!(editor_row_cxtorx(&row.chars, 0), 0);
    assert_eq!(editor_row_cxtorx(&row.chars, 1), 1);
    assert_eq!(editor_row_cxtorx(&row.chars, 2), 8);
    for rx in 1..8 {
        assert_eq!(editor_row_rxtocx(&row.chars, rx), 1);
    }
    assert_eq!(editor_row_rxtocx(&row.chars, 8), 2);
    assert_eq!(editor_row_rxtocx(&row.chars, 100), 3);
}

#[test]
fn insert_character_clamps_past_the_end() {
    let mut row = make_row(b"ab");
    let mut si = EditorSyntaxInf { syntax: None, in_string: 0 };
    row.editor_row_insert_character(99, b'c', &mut si);
    assert_eq!(row.chars, b"abc".to_vec());
    assert_eq!(row.size, 3);
    assert_eq!(row.render, b"abc".to_vec());
}

#[test]
fn insert_character_in_the_middle() {
    let mut row = make_row(b"ac");
    let mut si = EditorSyntaxInf { syntax: None, in_string: 0 };
    row.editor_row_insert_character(1, b'b', &mut si);
    assert_eq!(row.chars, b"abc".to_vec());
}

#[test]
fn delete_character_removes_and_rerenders() {
    let mut row = make_row(b"a\tb");
    let mut si = EditorSyntaxInf { syntax: None, in_string: 0 };
    row.editor_row_delete_char(1, &mut si);
    assert_eq!(row.chars, b"ab".to_vec());
    assert_eq!(row.render, b"ab".to_vec());
    assert_eq!(row.hl.len(), 2);
}

#[test]
fn highlight_matches_render_length() {
    let row = make_row(b"ab\tcd");
    assert_eq!(row.hl.len(), row.render.len());
    assert!(row.hl.iter().all(|h| *h == Highlight::NORMAL));
}
