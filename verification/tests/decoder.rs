//! The escape-sequence key decoder, fed byte by byte.

use rilo::keys::{decode_first, decode_next, Arrow, Decode, EditorKey, EscState, Function};

fn run_seq(bytes: &[Option<u8>]) -> EditorKey {
    let mut st = match decode_first(0x1b) {
        Decode::Pending(s) => s,
        Decode::Key(_) => panic!("escape byte must open a sequence"),
    };
    for b in bytes {
        match decode_next(st, *b) {
            Decode::Pending(s) => st = s,
            Decode::Key(k) => return k,
        }
    }
    panic!("sequence did not resolve");
}

#[test]
fn plain_byte_is_literal() {
    assert_eq!(decode_first(b'x'), Decode::Key(EditorKey::Else(b'x')));
    assert_eq!(decode_first(13), Decode::Key(EditorKey::Else(13)));
}

#[test]
fn byte_127_is_backspace() {
    assert_eq!(
        decode_first(127),
        Decode::Key(EditorKey::Function(Function::Backspace))
    );
}

#[test]
fn escape_opens_sequence() {
    assert_eq!(decode_first(0x1b), Decode::Pending(EscState::First));
}

#[test]
fn arrow_keys_decode() {
    assert_eq!(
        run_seq(&[Some(b'['), Some(b'A')]),
        EditorKey::Arrow(Arrow::Up)
    );
    assert_eq!(
        run_seq(&[Some(b'['), Some(b'B')]),
        EditorKey::Arrow(Arrow::Down)
    );
    assert_eq!(
        run_seq(&[Some(b'['), Some(b'C')]),
        EditorKey::Arrow(Arrow::Right)
    );
    assert_eq!(
        run_seq(&[Some(b'['), Some(b'D')]),
        EditorKey::Arrow(Arrow::Left)
    );
}

#[test]
fn bracket_home_end_decode() {
    assert_eq!(
        run_seq(&[Some(b'['), Some(b'H')]),
        EditorKey::Function(Function::Home)
    );
    assert_eq!(
        run_seq(&[Some(b'['), Some(b'F')]),
        EditorKey::Function(Function::End)
    );
}

#[test]
fn zero_home_end_decode() {
    assert_eq!(
        run_seq(&[Some(b'0'), Some(b'H')]),
        EditorKey::Function(Function::Home)
    );
    assert_eq!(
        run_seq(&[Some(b'0'), Some(b'F')]),
        EditorKey::Function(Function::End)
    );
}

#[test]
fn tilde_function_keys_decode() {
    assert_eq!(
        run_seq(&[Some(b'['), Some(b'1'), Some(b'~')]),
        EditorKey::Function(Function::Home)
    );
    assert_eq!(
        run_seq(&[Some(b'['), Some(b'3'), Some(b'~')]),
        EditorKey::Function(Function::Delete)
    );
    assert_eq!(
        run_seq(&[Some(b'['), Some(b'4'), Some(b'~')]),
        EditorKey::Function(Function::End)
    );
    assert_eq!(
        run_seq(&[Some(b'['), Some(b'5'), Some(b'~')]),
        EditorKey::Function(Function::Up)
    );
    assert_eq!(
        run_seq(&[Some(b'['), Some(b'6'), Some(b'~')]),
        EditorKey::Function(Function::Down)
    );
    assert_eq!(
        run_seq(&[Some(b'['), Some(b'7'), Some(b'~')]),
        EditorKey::Function(Function::Home)
    );
    assert_eq!(
        run_seq(&[Some(b'['), Some(b'8'), Some(b'~')]),
        EditorKey::Function(Function::End)
    );
}

#[test]
fn unmapped_digit_or_tail_is_bare_escape() {
    assert_eq!(
        run_seq(&[Some(b'['), Some(b'2'), Some(b'~')]),
        EditorKey::Else(0x1b)
    );
    assert_eq!(
        run_seq(&[Some(b'['), Some(b'5'), Some(b'x')]),
        EditorKey::Else(0x1b)
    );
    assert_eq!(run_seq(&[Some(b'['), Some(b'Z')]), EditorKey::Else(0x1b));
    assert_eq!(run_seq(&[Some(b'q'), Some(b'H')]), EditorKey::Else(0x1b));
}

#[test]
fn timed_out_reads_resolve_to_escape() {
    assert_eq!(run_seq(&[None]), EditorKey::Else(0x1b));
    assert_eq!(run_seq(&[Some(b'['), None]), EditorKey::Else(0x1b));
    assert_eq!(run_seq(&[Some(b'['), Some(b'5'), None]), EditorKey::Else(0x1b));
}
