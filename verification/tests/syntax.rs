//! The syntax scanner and syntax selection.

use rilo::highlight::{
    editor_color_to_syntax, editor_syntax_to_color, EditorSyntax, EditorSyntaxInf, HLFlags,
    Highlight,
};
use rilo::row::Erow;

fn scan(content: &[u8], flags: HLFlags, in_string: u8) -> (Vec<Highlight>, u8) {
    let mut row = Erow {
        size: content.len(),
        chars: content.to_vec(),
        rsize: 0,
        render: Vec::new(),
        hl: Vec::new(),
    };
    let syntax = EditorSyntax::new(b"test".to_vec(), vec![b"tst".to_vec()], flags);
    let mut si = EditorSyntaxInf { syntax: Some(syntax), in_string };
    row.editor_update_row(&mut si);
    (row.hl, si.in_string)
}

#[test]
fn digits_need_a_separator_or_a_number_before_them() {
    // In "a1 23" the 1 follows an identifier letter, so it stays normal;
    // 2 follows a separator and 3 follows a number.
    let (hl, _) = scan(b"a1 23", HLFlags { numbers: true, strings: false }, 0);
    assert_eq!(
        hl,
        vec![
            Highlight::NORMAL,
            Highlight::NORMAL,
            Highlight::NORMAL,
            Highlight::NUMBER,
            Highlight::NUMBER,
        ]
    );
}

#[test]
fn numbers_disabled_leaves_digits_normal() {
    let (hl, _) = scan(b"12", HLFlags { numbers: false, strings: false }, 0);
    assert_eq!(hl, vec![Highlight::NORMAL, Highlight::NORMAL]);
}

#[test]
fn double_quoted_string_is_string_colored() {
    let (hl, out) = scan(b"x\"ab\"y", HLFlags { numbers: true, strings: true }, 0);
    assert_eq!(
        hl,
        vec![
            Highlight::NORMAL,
            Highlight::STRING,
            Highlight::STRING,
            Highlight::STRING,
            Highlight::STRING,
            Highlight::NORMAL,
        ]
    );
    assert_eq!(out, 0);
}

#[test]
fn unterminated_string_carries_across_rows() {
    let (hl1, out1) = scan(b"a\"bc", HLFlags { numbers: true, strings: true }, 0);
    assert_eq!(
        hl1,
        vec![
            Highlight::NORMAL,
            Highlight::STRING,
            Highlight::STRING,
            Highlight::STRING,
        ]
    );
    assert_eq!(out1, b'"');
    // The next row continues inside the string until the closing quote.
    let (hl2, out2) = scan(b"de\" f", HLFlags { numbers: true, strings: true }, out1);
    assert_eq!(
        hl2,
        vec![
            Highlight::STRING,
            Highlight::STRING,
            Highlight::STRING,
            Highlight::NORMAL,
            Highlight::NORMAL,
        ]
    );
    assert_eq!(out2, 0);
}

#[test]
fn backslash_escapes_the_closing_quote() {
    let (hl, out) = scan(b"\"a\\\"b\"", HLFlags { numbers: true, strings: true }, 0);
    assert_eq!(hl, vec![Highlight::STRING; 6]);
    assert_eq!(out, 0);
}

#[test]
fn single_quotes_open_strings_too() {
    let (hl, out) = scan(b"'a'", HLFlags { numbers: true, strings: true }, 0);
    assert_eq!(hl, vec![Highlight::STRING; 3]);
    assert_eq!(out, 0);
}

#[test]
fn digit_inside_string_is_string_colored() {
    let (hl, _) = scan(b"\"1\"", HLFlags { numbers: true, strings: true }, 0);
    assert_eq!(hl, vec![Highlight::STRING; 3]);
}

#[test]
fn no_syntax_means_all_normal() {
    let mut row = Erow {
        size: 4,
        chars: b"1 23".to_vec(),
        rsize: 0,
        render: Vec::new(),
        hl: Vec::new(),
    };
    let mut si = EditorSyntaxInf { syntax: None, in_string: 7 };
    row.editor_update_row(&mut si);
    assert_eq!(row.hl, vec![Highlight::NORMAL; 4]);
    // Without a syntax the open-string state is untouched.
    assert_eq!(si.in_string, 7);
}

#[test]
fn colors_map_and_unmap() {
    assert_eq!(editor_syntax_to_color(&Highlight::NUMBER), 31);
    assert_eq!(editor_syntax_to_color(&Highlight::MATCH), 34);
    assert_eq!(editor_syntax_to_color(&Highlight::STRING), 35);
    assert_eq!(editor_syntax_to_color(&Highlight::NORMAL), 37);
    assert_eq!(editor_syntax_to_color(&Highlight::NONE), 37);
    assert_eq!(editor_color_to_syntax(31), Highlight::NUMBER);
    assert_eq!(editor_color_to_syntax(34), Highlight::MATCH);
    assert_eq!(editor_color_to_syntax(35), Highlight::STRING);
    assert_eq!(editor_color_to_syntax(99), Highlight::NORMAL);
}

#[test]
fn extension_matching_takes_the_last_dot() {
    let syntax = EditorSyntax::new(
        b"rust".to_vec(),
        vec![b"rs".to_vec(), b"toml".to_vec()],
        HLFlags { numbers: true, strings: true },
    );
    assert!(syntax.much_type(&b"main.rs".to_vec()));
    assert!(syntax.much_type(&b"Cargo.toml".to_vec()));
    assert!(syntax.much_type(&b"a.b.rs".to_vec()));
    assert!(!syntax.much_type(&b"main.c".to_vec()));
    assert!(!syntax.much_type(&b"noextension".to_vec()));
    assert!(!syntax.much_type(&b"rs".to_vec()));
}
