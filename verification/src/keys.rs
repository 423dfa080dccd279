//! Logical key events and the escape-sequence decoder.
//!
//! Raw terminal input arrives one byte at a time.  A byte other than the
//! escape byte decodes on its own; the escape byte opens a short sequence of
//! up to three further reads, each of which may time out.  The decoder is a
//! finite automaton: the caller feeds it the outcome of each read (`Some`
//! byte, or `None` on a timed-out read) and it either asks for the next byte
//! or produces the decoded key.

use vstd::prelude::*;

verus! {

/// A decoded key event.
#[derive(Clone, Copy, Debug, PartialEq, Eq, Structural)]
pub enum EditorKey {
    Arrow(Arrow),
    Function(Function),
    Else(u8),
}

/// The four cursor arrows.
#[derive(Clone, Copy, Debug, PartialEq, Eq, Structural)]
pub enum Arrow {
    Left,
    Right,
    Up,
    Down,
}

/// Function keys: `Up`/`Down` are page-up and page-down.
#[derive(Clone, Copy, Debug, PartialEq, Eq, Structural)]
pub enum Function {
    Up,
    Down,
    Home,
    End,
    Delete,
    Backspace,
}

/// Decoder state after the escape byte: which follow-up byte is awaited.
/// `Second` holds the first follow-up byte; `Third` holds the digit that
/// followed `[`.
#[derive(Clone, Copy, Debug, PartialEq, Eq, Structural)]
pub enum EscState {
    First,
    Second(u8),
    Third(u8),
}

/// One step of the decoder: either a key is ready, or another read is needed.
#[derive(Clone, Copy, Debug, PartialEq, Eq, Structural)]
pub enum Decode {
    Key(EditorKey),
    Pending(EscState),
}

pub const ESCAPE_BYTE: u8 = 0x1b;

/// What `decode_first` returns for each initial byte.
pub open spec fn spec_decode_first(b: u8) -> Decode {
    if b == ESCAPE_BYTE {
        Decode::Pending(EscState::First)
    } else if b == 127 {
        Decode::Key(EditorKey::Function(Function::Backspace))
    } else {
        Decode::Key(EditorKey::Else(b))
    }
}

/// The arrow / home / end mapping for a byte following `ESC [`.
pub open spec fn spec_bracket_key(b: u8) -> EditorKey {
    if b == 65 {  // 'A'
        EditorKey::Arrow(Arrow::Up)
    } else if b == 66 {  // 'B'
        EditorKey::Arrow(Arrow::Down)
    } else if b == 67 {  // 'C'
        EditorKey::Arrow(Arrow::Right)
    } else if b == 68 {  // 'D'
        EditorKey::Arrow(Arrow::Left)
    } else if b == 72 {  // 'H'
        EditorKey::Function(Function::Home)
    } else if b == 70 {  // 'F'
        EditorKey::Function(Function::End)
    } else {
        EditorKey::Else(ESCAPE_BYTE)
    }
}

/// The home / end mapping for a byte following `ESC 0`.
pub open spec fn spec_zero_key(b: u8) -> EditorKey {
    if b == 72 {  // 'H'
        EditorKey::Function(Function::Home)
    } else if b == 70 {  // 'F'
        EditorKey::Function(Function::End)
    } else {
        EditorKey::Else(ESCAPE_BYTE)
    }
}

/// The function-key mapping for a digit in `ESC [ <digit> ~`.
pub open spec fn spec_tilde_key(d: u8) -> EditorKey {
    if d == 49 || d == 55 {  // '1' / '7'
        EditorKey::Function(Function::Home)
    } else if d == 51 {  // '3'
        EditorKey::Function(Function::Delete)
    } else if d == 52 || d == 56 {  // '4' / '8'
        EditorKey::Function(Function::End)
    } else if d == 53 {  // '5'
        EditorKey::Function(Function::Up)
    } else if d == 54 {  // '6'
        EditorKey::Function(Function::Down)
    } else {
        EditorKey::Else(ESCAPE_BYTE)
    }
}

/// What `decode_next` returns in each state for each read outcome.  A read
/// that timed out (`None`) always yields a bare escape key.
pub open spec fn spec_decode_next(st: EscState, read: Option<u8>) -> Decode {
    match read {
        None => Decode::Key(EditorKey::Else(ESCAPE_BYTE)),
        Some(b) => match st {
            EscState::First => Decode::Pending(EscState::Second(b)),
            EscState::Second(b1) => if b1 == 91 {  // '['
                if 48 <= b && b <= 57 {  // digit
                    Decode::Pending(EscState::Third(b))
                } else {
                    Decode::Key(spec_bracket_key(b))
                }
            } else if b1 == 48 {  // '0'
                Decode::Key(spec_zero_key(b))
            } else {
                Decode::Key(EditorKey::Else(ESCAPE_BYTE))
            },
            EscState::Third(d) => if b == 126 {  // '~'
                Decode::Key(spec_tilde_key(d))
            } else {
                Decode::Key(EditorKey::Else(ESCAPE_BYTE))
            },
        },
    }
}

/// Decode the first byte of a key read.  The escape byte opens an escape
/// sequence; byte 127 is backspace; anything else is a literal key.
pub fn decode_first(b: u8) -> (r: Decode)
    ensures
        r == spec_decode_first(b),
{
    if b == ESCAPE_BYTE {
        Decode::Pending(EscState::First)
    } else if b == 127 {
        Decode::Key(EditorKey::Function(Function::Backspace))
    } else {
        Decode::Key(EditorKey::Else(b))
    }
}

/// Feed the decoder the outcome of one follow-up read.  `None` means the
/// read timed out, which resolves the whole sequence to a bare escape.
pub fn decode_next(st: EscState, read: Option<u8>) -> (r: Decode)
    ensures
        r == spec_decode_next(st, read),
{
    match read {
        None => Decode::Key(EditorKey::Else(ESCAPE_BYTE)),
        Some(b) => match st {
            EscState::First => Decode::Pending(EscState::Second(b)),
            EscState::Second(b1) => {
                if b1 == 91 {
                    if 48 <= b && b <= 57 {
                        Decode::Pending(EscState::Third(b))
                    } else if b == 65 {
                        Decode::Key(EditorKey::Arrow(Arrow::Up))
                    } else if b == 66 {
                        Decode::Key(EditorKey::Arrow(Arrow::Down))
                    } else if b == 67 {
                        Decode::Key(EditorKey::Arrow(Arrow::Right))
                    } else if b == 68 {
                        Decode::Key(EditorKey::Arrow(Arrow::Left))
                    } else if b == 72 {
                        Decode::Key(EditorKey::Function(Function::Home))
                    } else if b == 70 {
                        Decode::Key(EditorKey::Function(Function::End))
                    } else {
                        Decode::Key(EditorKey::Else(ESCAPE_BYTE))
                    }
                } else if b1 == 48 {
                    if b == 72 {
                        Decode::Key(EditorKey::Function(Function::Home))
                    } else if b == 70 {
                        Decode::Key(EditorKey::Function(Function::End))
                    } else {
                        Decode::Key(EditorKey::Else(ESCAPE_BYTE))
                    }
                } else {
                    Decode::Key(EditorKey::Else(ESCAPE_BYTE))
                }
            },
            EscState::Third(d) => {
                if b == 126 {
                    if d == 49 || d == 55 {
                        Decode::Key(EditorKey::Function(Function::Home))
                    } else if d == 51 {
                        Decode::Key(EditorKey::Function(Function::Delete))
                    } else if d == 52 || d == 56 {
                        Decode::Key(EditorKey::Function(Function::End))
                    } else if d == 53 {
                        Decode::Key(EditorKey::Function(Function::Up))
                    } else if d == 54 {
                        Decode::Key(EditorKey::Function(Function::Down))
                    } else {
                        Decode::Key(EditorKey::Else(ESCAPE_BYTE))
                    }
                } else {
                    Decode::Key(EditorKey::Else(ESCAPE_BYTE))
                }
            },
        },
    }
}

} // verus!
