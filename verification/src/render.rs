//! The frame renderer: one byte buffer per frame, written by the caller in
//! a single call.
//!
//! A frame hides the cursor, homes it, draws every text row (clipped to
//! the viewport, with a color escape emitted only when the highlight class
//! changes), then the inverse-video status bar and the message bar, and
//! finally repositions and shows the cursor.

use vstd::prelude::*;

use crate::editor::EditorConfig;
use crate::text::clone_bytes;
use crate::highlight::{
    spec_color_to_syntax, spec_syntax_to_color, editor_color_to_syntax, editor_syntax_to_color,
    Highlight,
};
use crate::row::spec_spaces;
use crate::text::{format_usize, spec_decimal, spec_str_bytes, str_to_bytes};
use crate::RILO_VERSION;

verus! {

pub open spec fn spec_hide_cursor() -> Seq<u8> {
    seq![27u8, 91u8, 63u8, 50u8, 53u8, 108u8]  // ESC [ ? 2 5 l
}

pub open spec fn spec_show_cursor() -> Seq<u8> {
    seq![27u8, 91u8, 63u8, 50u8, 53u8, 104u8]  // ESC [ ? 2 5 h
}

pub open spec fn spec_home_cursor() -> Seq<u8> {
    seq![27u8, 91u8, 72u8]  // ESC [ H
}

pub open spec fn spec_clear_line() -> Seq<u8> {
    seq![27u8, 91u8, 75u8]  // ESC [ K
}

pub open spec fn spec_crnl() -> Seq<u8> {
    seq![13u8, 10u8]
}

pub open spec fn spec_invert_video() -> Seq<u8> {
    seq![27u8, 91u8, 55u8, 109u8]  // ESC [ 7 m
}

pub open spec fn spec_reset_attr() -> Seq<u8> {
    seq![27u8, 91u8, 109u8]  // ESC [ m
}

pub open spec fn spec_color_reset() -> Seq<u8> {
    seq![27u8, 91u8, 51u8, 57u8, 109u8]  // ESC [ 3 9 m
}

pub open spec fn spec_color_seq(c: u8) -> Seq<u8> {
    seq![27u8, 91u8] + spec_decimal(c as nat) + seq![109u8]  // ESC [ <c> m
}

pub open spec fn spec_cursor_pos(row1: nat, col1: nat) -> Seq<u8> {
    seq![27u8, 91u8] + spec_decimal(row1) + seq![59u8] + spec_decimal(col1) + seq![72u8]
}

/// The part of a row visible through the viewport: the slice starting at
/// the column offset, clipped to the screen width.
pub open spec fn spec_visible<T>(s: Seq<T>, off: int, cols: int) -> Seq<T> {
    if off >= s.len() {
        Seq::empty()
    } else if off + cols >= s.len() {
        s.subrange(off, s.len() as int)
    } else {
        s.subrange(off, off + cols)
    }
}

/// One rendered byte: a color escape first when its class paints
/// differently from the previous byte's, then the byte itself.
pub open spec fn spec_emit_byte(b: u8, h: Highlight, cur: Highlight) -> (Seq<u8>, Highlight) {
    if h == Highlight::NORMAL {
        if cur != Highlight::NORMAL {
            (spec_color_reset() + seq![b], Highlight::NORMAL)
        } else {
            (seq![b], cur)
        }
    } else {
        let c = spec_syntax_to_color(h);
        if c != spec_syntax_to_color(cur) {
            (spec_color_seq(c) + seq![b], spec_color_to_syntax(c))
        } else {
            (seq![b], cur)
        }
    }
}

/// The visible slice of a row, emitted byte by byte from index `k`,
/// threading the current color.
pub open spec fn spec_draw_text(
    bytes: Seq<u8>,
    hl: Seq<Highlight>,
    k: int,
    cur: Highlight,
) -> (Seq<u8>, Highlight)
    decreases bytes.len() - k,
{
    if k < 0 || k >= bytes.len() {
        (Seq::empty(), cur)
    } else {
        let e = spec_emit_byte(bytes[k], hl[k], cur);
        let rest = spec_draw_text(bytes, hl, k + 1, e.1);
        (e.0 + rest.0, rest.1)
    }
}

/// The welcome banner, centered in `cols` columns (clipped when wider).
pub open spec fn spec_welcome(cols: int) -> Seq<u8> {
    let msg0 = spec_str_bytes("Rilo editor -- version ") + spec_decimal(RILO_VERSION as nat);
    let msg = if msg0.len() > cols {
        msg0.take(cols)
    } else {
        msg0
    };
    let padding = (cols - msg.len()) / 2;
    if padding > 0 {
        seq![126u8] + spec_spaces(padding - 1) + msg
    } else {
        msg
    }
}

/// One terminal text row: past the last file row a tilde (or, in an empty
/// document, the banner on one row); otherwise the visible slice of the
/// row with its colors.  Every row ends with erase-to-end and a carriage
/// return + newline.
pub open spec fn spec_draw_row(a: EditorConfig, y: int, cur: Highlight) -> (Seq<u8>, Highlight) {
    let filerow = a.off_row + y;
    if filerow >= a.numrows {
        let banner: Seq<u8> = if a.numrows == 0 && y == a.screen_rows as int / 3 {
            spec_welcome(a.screen_cols as int)
        } else {
            seq![126u8]
        };
        (banner + spec_clear_line() + spec_crnl(), cur)
    } else {
        let vis = spec_visible(a.erow@[filerow].render@, a.off_col as int, a.screen_cols as int);
        let vhl = spec_visible(a.erow@[filerow].hl@, a.off_col as int, a.screen_cols as int);
        let t = spec_draw_text(vis, vhl, 0, cur);
        (t.0 + spec_color_reset() + spec_clear_line() + spec_crnl(), t.1)
    }
}

/// All terminal text rows from `y` down, threading the color.
pub open spec fn spec_draw_rows(a: EditorConfig, y: int, cur: Highlight) -> (Seq<u8>, Highlight)
    decreases a.screen_rows - y,
{
    if y < 0 || y >= a.screen_rows as int {
        (Seq::empty(), cur)
    } else {
        let row = spec_draw_row(a, y, cur);
        let rest = spec_draw_rows(a, y + 1, row.1);
        (row.0 + rest.0, rest.1)
    }
}

/// The space padding between the two halves of the status bar: spaces
/// until the right half fits the remaining width exactly, which it does
/// only when enough room is left; otherwise spaces fill the row.
pub open spec fn spec_status_pad(len: int, cols: int, right: Seq<u8>) -> Seq<u8>
    decreases cols - len,
{
    if len >= cols {
        Seq::empty()
    } else if right.len() == cols - len {
        right
    } else {
        seq![32u8] + spec_status_pad(len + 1, cols, right)
    }
}

/// The inverse-video status bar: filename, line count and the modified
/// marker on the left (truncated to the width), the file type and the
/// cursor line on the right.
pub open spec fn spec_status_bar(a: EditorConfig) -> Seq<u8> {
    let left0 = a.filename@ + spec_str_bytes(" - ") + spec_decimal(a.numrows as nat)
        + spec_str_bytes(" lines") + (if a.dirty {
        spec_str_bytes("(modified)")
    } else {
        Seq::<u8>::empty()
    });
    let len = left0.len() as int;
    let left = if len > a.screen_cols as int {
        left0.take(a.screen_cols as int)
    } else {
        left0
    };
    let ft = match a.editor_syntax.syntax {
        Some(es) => es.file_type@,
        None => spec_str_bytes("no ft"),
    };
    let right = ft + spec_str_bytes(" | ") + spec_decimal((a.cp_y + 1) as nat) + seq![47u8]
        + spec_decimal(a.numrows as nat);
    spec_invert_video() + left + spec_status_pad(len, a.screen_cols as int, right)
        + spec_reset_attr() + spec_crnl()
}

/// The message bar: erase the line, then the status message truncated to
/// the width, but only while it is fresh.
pub open spec fn spec_message_bar(a: EditorConfig, fresh: bool) -> Seq<u8> {
    spec_clear_line() + if fresh {
        if a.status_msg@.len() > a.screen_cols as int {
            a.status_msg@.take(a.screen_cols as int)
        } else {
            a.status_msg@
        }
    } else {
        Seq::<u8>::empty()
    }
}

/// A whole frame, drawn from an already-scrolled state with starting
/// color `cur0`: hide cursor, home, text rows, status bar, message bar,
/// place the cursor inside the viewport, show it.
pub open spec fn spec_frame(a: EditorConfig, cur0: Highlight, fresh: bool) -> Seq<u8> {
    spec_hide_cursor() + spec_home_cursor() + spec_draw_rows(a, 0, cur0).0 + spec_status_bar(a)
        + spec_message_bar(a, fresh) + spec_cursor_pos(
        (a.cp_y - a.off_row + 1) as nat,
        (a.rx - a.off_col + 1) as nat,
    ) + spec_show_cursor()
}

fn emit2(abuf: &mut Vec<u8>, a: u8, b: u8)
    ensures
        final(abuf)@ == old(abuf)@ + seq![a, b],
{
    abuf.push(a);
    abuf.push(b);
    proof {
        assert(abuf@ =~= old(abuf)@ + seq![a, b]);
    }
}

fn emit3(abuf: &mut Vec<u8>, a: u8, b: u8, c: u8)
    ensures
        final(abuf)@ == old(abuf)@ + seq![a, b, c],
{
    abuf.push(a);
    abuf.push(b);
    abuf.push(c);
    proof {
        assert(abuf@ =~= old(abuf)@ + seq![a, b, c]);
    }
}

fn emit4(abuf: &mut Vec<u8>, a: u8, b: u8, c: u8, d: u8)
    ensures
        final(abuf)@ == old(abuf)@ + seq![a, b, c, d],
{
    abuf.push(a);
    abuf.push(b);
    abuf.push(c);
    abuf.push(d);
    proof {
        assert(abuf@ =~= old(abuf)@ + seq![a, b, c, d]);
    }
}

fn emit6(abuf: &mut Vec<u8>, a: u8, b: u8, c: u8, d: u8, e: u8, f: u8)
    ensures
        final(abuf)@ == old(abuf)@ + seq![a, b, c, d, e, f],
{
    abuf.push(a);
    abuf.push(b);
    abuf.push(c);
    abuf.push(d);
    abuf.push(e);
    abuf.push(f);
    proof {
        assert(abuf@ =~= old(abuf)@ + seq![a, b, c, d, e, f]);
    }
}

fn emit_color_reset(abuf: &mut Vec<u8>)
    ensures
        final(abuf)@ == old(abuf)@ + spec_color_reset(),
{
    abuf.push(27);
    abuf.push(91);
    abuf.push(51);
    abuf.push(57);
    abuf.push(109);
    proof {
        assert(abuf@ =~= old(abuf)@ + spec_color_reset());
    }
}

fn emit_color(abuf: &mut Vec<u8>, c: u8)
    ensures
        final(abuf)@ == old(abuf)@ + spec_color_seq(c),
{
    abuf.push(27);
    abuf.push(91);
    let d = format_usize(c as usize);
    abuf.extend_from_slice(d.as_slice());
    abuf.push(109);
    proof {
        assert(abuf@ =~= old(abuf)@ + spec_color_seq(c));
    }
}

fn emit_cursor_pos(abuf: &mut Vec<u8>, row1: usize, col1: usize)
    ensures
        final(abuf)@ == old(abuf)@ + spec_cursor_pos(row1 as nat, col1 as nat),
{
    abuf.push(27);
    abuf.push(91);
    let r = format_usize(row1);
    abuf.extend_from_slice(r.as_slice());
    abuf.push(59);
    let c = format_usize(col1);
    abuf.extend_from_slice(c.as_slice());
    abuf.push(72);
    proof {
        assert(abuf@ =~= old(abuf)@ + spec_cursor_pos(row1 as nat, col1 as nat));
    }
}

/// Emit one byte, preceded by a color escape when its class requires one.
fn emit_byte(abuf: &mut Vec<u8>, b: u8, h: Highlight, cur: Highlight) -> (c: Highlight)
    ensures
        final(abuf)@ == old(abuf)@ + spec_emit_byte(b, h, cur).0,
        c == spec_emit_byte(b, h, cur).1,
{
    match h {
        Highlight::NORMAL => {
            let changed = match cur {
                Highlight::NORMAL => false,
                _ => true,
            };
            if changed {
                emit_color_reset(abuf);
            }
            abuf.push(b);
            proof {
                assert(abuf@ =~= old(abuf)@ + spec_emit_byte(b, h, cur).0);
            }
            if changed {
                Highlight::NORMAL
            } else {
                cur
            }
        },
        _ => {
            let color = editor_syntax_to_color(&h);
            let cur_color = editor_syntax_to_color(&cur);
            if color != cur_color {
                emit_color(abuf, color);
                abuf.push(b);
                proof {
                    assert(abuf@ =~= old(abuf)@ + spec_emit_byte(b, h, cur).0);
                }
                editor_color_to_syntax(color)
            } else {
                abuf.push(b);
                proof {
                    assert(abuf@ =~= old(abuf)@ + spec_emit_byte(b, h, cur).0);
                }
                cur
            }
        },
    }
}

/// Emit the visible slice of one row's render form with its colors.
fn draw_text_row(
    abuf: &mut Vec<u8>,
    render: &Vec<u8>,
    hl: &Vec<Highlight>,
    off: usize,
    cols: usize,
    cur0: Highlight,
) -> (c: Highlight)
    requires
        hl@.len() == render@.len(),
    ensures
        final(abuf)@ == old(abuf)@ + spec_draw_text(
            spec_visible(render@, off as int, cols as int),
            spec_visible(hl@, off as int, cols as int),
            0,
            cur0,
        ).0,
        c == spec_draw_text(
            spec_visible(render@, off as int, cols as int),
            spec_visible(hl@, off as int, cols as int),
            0,
            cur0,
        ).1,
{
    let ghost vis = spec_visible(render@, off as int, cols as int);
    let ghost vhl = spec_visible(hl@, off as int, cols as int);
    let n = render.len();
    let vis_len: usize = if off >= n {
        0
    } else if cols >= n - off {
        n - off
    } else {
        cols
    };
    proof {
        assert(vis.len() == vis_len);
        assert(forall|m: int| 0 <= m < vis.len() ==> vis[m] == render@[off + m]);
        assert(forall|m: int| 0 <= m < vhl.len() ==> vhl[m] == hl@[off + m]);
    }
    let mut cur = cur0;
    let mut k: usize = 0;
    while k < vis_len
        invariant
            n == render@.len(),
            vis_len > 0 ==> off + vis_len <= render@.len(),
            hl@.len() == render@.len(),
            k <= vis_len,
            vis.len() == vis_len,
            vhl.len() == vis.len(),
            forall|m: int| 0 <= m < vis.len() ==> vis[m] == render@[off + m],
            forall|m: int| 0 <= m < vhl.len() ==> vhl[m] == hl@[off + m],
            old(abuf)@ + spec_draw_text(vis, vhl, 0, cur0).0 == abuf@ + spec_draw_text(
                vis,
                vhl,
                k as int,
                cur,
            ).0,
            spec_draw_text(vis, vhl, 0, cur0).1 == spec_draw_text(vis, vhl, k as int, cur).1,
        decreases vis_len - k,
    {
        let b = render[off + k];
        let h = hl[off + k];
        let ghost pre = abuf@;
        let c2 = emit_byte(abuf, b, h, cur);
        proof {
            assert(vis[k as int] == b);
            assert(vhl[k as int] == h);
            assert(abuf@ + spec_draw_text(vis, vhl, k + 1, c2).0 =~= pre + spec_emit_byte(
                b,
                h,
                cur,
            ).0 + spec_draw_text(vis, vhl, k + 1, c2).0);
            assert(spec_draw_text(vis, vhl, k as int, cur).0 =~= spec_emit_byte(b, h, cur).0
                + spec_draw_text(vis, vhl, k + 1, c2).0);
        }
        cur = c2;
        k = k + 1;
    }
    proof {
        assert(spec_draw_text(vis, vhl, k as int, cur).0 =~= Seq::<u8>::empty());
        assert(abuf@ =~= abuf@ + Seq::<u8>::empty());
        assert(abuf@ =~= old(abuf)@ + spec_draw_text(vis, vhl, 0, cur0).0);
    }
    cur
}

/// Emit the centered welcome banner.
fn draw_welcome(abuf: &mut Vec<u8>, cols: usize)
    ensures
        final(abuf)@ == old(abuf)@ + spec_welcome(cols as int),
{
    proof {
        reveal_strlit("Rilo editor -- version ");
    }
    let mut msg = str_to_bytes("Rilo editor -- version ");
    let v = format_usize(RILO_VERSION as usize);
    msg.extend_from_slice(v.as_slice());
    if msg.len() > cols {
        msg.truncate(cols);
    }
    let padding = (cols - msg.len()) / 2;
    let ghost target = spec_welcome(cols as int);
    if padding > 0 {
        abuf.push(126);
        let mut p: usize = 1;
        #[verifier::loop_isolation(false)]
        while p < padding
            invariant
                1 <= p <= padding,
                abuf@ == old(abuf)@ + seq![126u8] + spec_spaces(p - 1),
            decreases padding - p,
        {
            abuf.push(32);
            proof {
                assert(abuf@ =~= old(abuf)@ + seq![126u8] + spec_spaces(p as int));
            }
            p = p + 1;
        }
        abuf.extend_from_slice(msg.as_slice());
        proof {
            assert(abuf@ =~= old(abuf)@ + target);
        }
    } else {
        abuf.extend_from_slice(msg.as_slice());
        proof {
            assert(abuf@ =~= old(abuf)@ + target);
        }
    }
}

impl EditorConfig {
    /// Emit every terminal text row, threading the color of the last
    /// emitted byte through `current_color`.
    pub fn editor_draw_rows(&mut self, abuf: &mut Vec<u8>)
        requires
            old(self).wf(),
        ensures
            final(self).wf(),
            final(abuf)@ == old(abuf)@ + spec_draw_rows(
                *old(self),
                0,
                old(self).current_color,
            ).0,
            final(self).current_color == spec_draw_rows(*old(self), 0, old(self).current_color).1,
            *final(self) == (EditorConfig {
                current_color: final(self).current_color,
                ..*old(self)
            }),
    {
        let ghost a = *old(self);
        let rows = self.screen_rows;
        let mut cur = self.current_color;
        let mut y: u16 = 0;
        while y < rows
            invariant
                y <= rows,
                a == *old(self),
                *self == *old(self),
                rows == self.screen_rows,
                self.wf(),
                old(abuf)@ + spec_draw_rows(a, 0, a.current_color).0 == abuf@ + spec_draw_rows(
                    a,
                    y as int,
                    cur,
                ).0,
                spec_draw_rows(a, 0, a.current_color).1 == spec_draw_rows(a, y as int, cur).1,
            decreases rows - y,
        {
            let ghost pre = abuf@;
            let ghost cur_entry = cur;
            let visible_rows: usize = self.numrows - self.off_row;
            if (y as usize) < visible_rows {
                let filerow = self.off_row + y as usize;
                proof {
                    assert(filerow < self.numrows);
                    assert(self.erow@[filerow as int].wf());
                }
                let row_cur = draw_text_row(
                    abuf,
                    &self.erow[filerow].render,
                    &self.erow[filerow].hl,
                    self.off_col,
                    self.screen_cols as usize,
                    cur,
                );
                cur = row_cur;
                emit_color_reset(abuf);
            } else {
                if self.numrows == 0 && y == rows / 3 {
                    draw_welcome(abuf, self.screen_cols as usize);
                } else {
                    abuf.push(126);
                    proof {
                        assert(abuf@ =~= pre + seq![126u8]);
                    }
                }
            }
            emit3(abuf, 27, 91, 75);
            emit2(abuf, 13, 10);
            proof {
                assert(abuf@ =~= pre + spec_draw_row(a, y as int, cur_entry).0);
                assert(cur == spec_draw_row(a, y as int, cur_entry).1);
                assert(spec_draw_rows(a, y as int, cur_entry).0 =~= spec_draw_row(
                    a,
                    y as int,
                    cur_entry,
                ).0 + spec_draw_rows(a, y + 1, cur).0);
            }
            y = y + 1;
        }
        self.current_color = cur;
        proof {
            assert(spec_draw_rows(a, rows as int, cur).0 =~= Seq::<u8>::empty());
            assert(old(abuf)@ + spec_draw_rows(a, 0, a.current_color).0 =~= abuf@);
        }
    }

    /// Emit the inverse-video status bar.
    pub fn editor_draw_status_bar(&self, abuf: &mut Vec<u8>)
        requires
            self.cp_y < usize::MAX,
        ensures
            final(abuf)@ == old(abuf)@ + spec_status_bar(*self),
    {
        proof {
            reveal_strlit(" - ");
            reveal_strlit(" lines");
            reveal_strlit("(modified)");
            reveal_strlit("no ft");
            reveal_strlit(" | ");
        }
        emit4(abuf, 27, 91, 55, 109);
        let mut left = clone_bytes(&self.filename);
        let sep = str_to_bytes(" - ");
        left.extend_from_slice(sep.as_slice());
        let num = format_usize(self.numrows);
        left.extend_from_slice(num.as_slice());
        let lines = str_to_bytes(" lines");
        left.extend_from_slice(lines.as_slice());
        if self.dirty {
            let m = str_to_bytes("(modified)");
            left.extend_from_slice(m.as_slice());
        }
        let ghost left0 = self.filename@ + spec_str_bytes(" - ") + spec_decimal(
            self.numrows as nat,
        ) + spec_str_bytes(" lines") + (if self.dirty {
            spec_str_bytes("(modified)")
        } else {
            Seq::<u8>::empty()
        });
        proof {
            assert(left@ =~= left0);
        }
        let len = left.len();
        let cols = self.screen_cols as usize;
        if len > cols {
            left.truncate(cols);
        }
        abuf.extend_from_slice(left.as_slice());
        let mut right = match &self.editor_syntax.syntax {
            Some(es) => clone_bytes(&es.file_type),
            None => str_to_bytes("no ft"),
        };
        let bar = str_to_bytes(" | ");
        right.extend_from_slice(bar.as_slice());
        let ln = format_usize(self.cp_y + 1);
        right.extend_from_slice(ln.as_slice());
        right.push(47);
        let tot = format_usize(self.numrows);
        right.extend_from_slice(tot.as_slice());
        proof {
            let ft = match &self.editor_syntax.syntax {
                Some(es) => es.file_type@,
                None => spec_str_bytes("no ft"),
            };
            assert(right@ =~= ft + spec_str_bytes(" | ") + spec_decimal((self.cp_y + 1) as nat)
                + seq![47u8] + spec_decimal(self.numrows as nat));
        }
        status_pad(abuf, len, cols, &right);
        emit3(abuf, 27, 91, 109);
        emit2(abuf, 13, 10);
        proof {
            assert(abuf@ =~= old(abuf)@ + spec_status_bar(*self));
        }
    }

    /// Emit the message bar: the status message, truncated to the screen
    /// width, shown only while it is fresh.
    pub fn editor_draw_message_bar(&self, abuf: &mut Vec<u8>, fresh: bool)
        ensures
            final(abuf)@ == old(abuf)@ + spec_message_bar(*self, fresh),
    {
        emit3(abuf, 27, 91, 75);
        if fresh {
            let cols = self.screen_cols as usize;
            let mut msg = clone_bytes(&self.status_msg);
            if msg.len() > cols {
                msg.truncate(cols);
            }
            abuf.extend_from_slice(msg.as_slice());
        }
        proof {
            assert(abuf@ =~= old(abuf)@ + spec_message_bar(*self, fresh));
        }
    }

    /// Build one frame: scroll the viewport to the cursor, then compose
    /// the whole screen into one byte buffer for the caller to write in a
    /// single call.  `msg_fresh` says whether the status message is still
    /// young enough to show.
    pub fn editor_refresh_screen(&mut self, msg_fresh: bool) -> (r: Vec<u8>)
        requires
            old(self).wf(),
            old(self).screen_rows >= 1,
            old(self).screen_cols >= 1,
            old(self).numrows < usize::MAX,
        ensures
            final(self).wf(),
            r@ == spec_frame(*final(self), old(self).current_color, msg_fresh),
            final(self).rx == if old(self).cp_y < old(self).numrows {
                crate::row::spec_cx_to_rx(
                    old(self).erow@[old(self).cp_y as int].chars@,
                    old(self).cp_x as int,
                )
            } else {
                0
            },
            final(self).off_row == Self::spec_clamp_off(
                old(self).off_row as int,
                old(self).cp_y as int,
                old(self).screen_rows as int,
            ),
            final(self).off_col == Self::spec_clamp_off(
                old(self).off_col as int,
                final(self).rx as int,
                old(self).screen_cols as int,
            ),
            *final(self) == (EditorConfig {
                rx: final(self).rx,
                off_row: final(self).off_row,
                off_col: final(self).off_col,
                current_color: final(self).current_color,
                ..*old(self)
            }),
    {
        self.editor_scroll();
        let mut abuf: Vec<u8> = Vec::new();
        emit6(&mut abuf, 27, 91, 63, 50, 53, 108);
        emit3(&mut abuf, 27, 91, 72);
        let ghost scrolled = *self;
        let ghost cur0 = self.current_color;
        self.editor_draw_rows(&mut abuf);
        proof {
            lemma_draw_rows_ignores_color(scrolled, *self, 0, cur0);
        }
        self.editor_draw_status_bar(&mut abuf);
        self.editor_draw_message_bar(&mut abuf, msg_fresh);
        let row1 = self.cp_y - self.off_row + 1;
        let col1 = self.rx - self.off_col + 1;
        emit_cursor_pos(&mut abuf, row1, col1);
        emit6(&mut abuf, 27, 91, 63, 50, 53, 104);
        proof {
            assert(abuf@ =~= spec_frame(*self, cur0, msg_fresh));
        }
        abuf
    }
}

/// The text rows never read the remembered color field, only the color
/// threaded through the fold: two states equal everywhere else draw the
/// same rows.
proof fn lemma_draw_rows_ignores_color(
    a1: EditorConfig,
    a2: EditorConfig,
    y: int,
    cur: Highlight,
)
    requires
        a2 == (EditorConfig { current_color: a2.current_color, ..a1 }),
    ensures
        spec_draw_rows(a1, y, cur) == spec_draw_rows(a2, y, cur),
    decreases a1.screen_rows - y,
{
    if 0 <= y < a1.screen_rows as int {
        assert(spec_draw_row(a1, y, cur) == spec_draw_row(a2, y, cur));
        lemma_draw_rows_ignores_color(a1, a2, y + 1, spec_draw_row(a1, y, cur).1);
    }
}

/// Spaces until the right half of the status bar fits the remaining width
/// exactly, then the right half; if it never fits, spaces to the edge.
fn status_pad(abuf: &mut Vec<u8>, len: usize, cols: usize, right: &Vec<u8>)
    ensures
        final(abuf)@ == old(abuf)@ + spec_status_pad(len as int, cols as int, right@),
{
    proof {
        lemma_status_pad_closed(len as int, cols as int, right@);
    }
    if len >= cols {
        proof {
            assert(abuf@ =~= old(abuf)@ + spec_status_pad(
                len as int,
                cols as int,
                right@,
            ));
        }
        return ;
    }
    let gap = cols - len;
    let rl = right.len();
    let spaces: usize = if rl <= gap {
        gap - rl
    } else {
        gap
    };
    let mut p: usize = 0;
    while p < spaces
        invariant
            p <= spaces,
            abuf@ == old(abuf)@ + spec_spaces(p as int),
        decreases spaces - p,
    {
        abuf.push(32);
        proof {
            assert(abuf@ =~= old(abuf)@ + spec_spaces(p + 1));
        }
        p = p + 1;
    }
    if rl <= gap {
        abuf.extend_from_slice(right.as_slice());
    }
    proof {
        assert(abuf@ =~= old(abuf)@ + spec_status_pad(len as int, cols as int, right@));
    }
}

/// The closed form of the status padding: when the right half fits, the
/// leftover width becomes spaces before it; when it does not, spaces fill
/// the row.
proof fn lemma_status_pad_closed(len: int, cols: int, right: Seq<u8>)
    ensures
        len >= cols ==> spec_status_pad(len, cols, right) == Seq::<u8>::empty(),
        len < cols && right.len() <= cols - len ==> spec_status_pad(len, cols, right)
            =~= spec_spaces(cols - len - right.len()) + right,
        len < cols && right.len() > cols - len ==> spec_status_pad(len, cols, right)
            =~= spec_spaces(cols - len),
    decreases cols - len,
{
    if len < cols {
        lemma_status_pad_closed(len + 1, cols, right);
        if right.len() == cols - len {
            assert(spec_spaces(0) + right =~= right);
        } else if right.len() < cols - len {
            assert(seq![32u8] + (spec_spaces(cols - len - 1 - right.len()) + right)
                =~= spec_spaces(cols - len - right.len()) + right);
        } else {
            assert(seq![32u8] + spec_spaces(cols - len - 1) =~= spec_spaces(cols - len));
        }
    }
}

} // verus!
