//! The editor session: the document (a vector of rows), the cursor, the
//! viewport, the syntax state, the search state and the transient status
//! message, with one operation per editing command.
//!
//! Everything here is pure state transformation.  The surrounding program
//! owns the terminal: it decodes keys, feeds them in, and writes the frames
//! this module builds.

use vstd::prelude::*;

use crate::highlight::{
    spec_pattern_matches, spec_row_start_state, spec_scan_state_at, spec_syntax_like, EditorSyntax,
    EditorSyntaxInf, HLFlags, Highlight,
};
use crate::keys::{Arrow, EditorKey, Function};
use crate::row::{
    editor_row_cxtorx, spec_cx_to_rx, spec_expand, Erow,
};
use crate::text::{
    clone_bytes, format_usize, lemma_first_nl_is, lemma_strip_cr_take, spec_decimal,
    spec_first_nl, spec_serialize, spec_split_lines, spec_str_bytes, spec_strip_cr, str_to_bytes,
};
use crate::RILO_QUIT_TIMES;

verus! {

/// The highlight of one row saved aside while a search match overlays it.
#[derive(Debug)]
pub struct SavedHl {
    pub line: usize,
    pub hl: Vec<Highlight>,
}

/// The whole editor state.
#[derive(Debug)]
pub struct EditorConfig {
    /// Cursor, in content space: column within row `cp_y`.
    pub cp_x: usize,
    /// Cursor row; `numrows` is a valid sentinel meaning past the last line.
    pub cp_y: usize,
    /// Cursor column in render space, recomputed by `editor_scroll`.
    pub rx: usize,
    /// Text rows of the screen (the two bar lines already subtracted).
    pub screen_rows: u16,
    pub screen_cols: u16,
    pub erow: Vec<Erow>,
    pub numrows: usize,
    /// Topmost visible row, in row index.
    pub off_row: usize,
    /// Leftmost visible column, in render space.
    pub off_col: usize,
    pub filename: Vec<u8>,
    pub status_msg: Vec<u8>,
    pub dirty: bool,
    /// Remaining quit confirmations while dirty.
    pub quit_times: u16,
    /// Row of the previous search match, if any.
    pub last_match: Option<usize>,
    /// Search direction: +1 forward, -1 backward.
    pub direction: i32,
    /// Color of the byte most recently emitted by the renderer.
    pub current_color: Highlight,
    /// The search override: at most one row's highlight is replaced at a
    /// time, and its original is kept here.
    pub saved_hl: Option<SavedHl>,
    pub editor_syntax: EditorSyntaxInf,
    pub syntax_pattern: Vec<EditorSyntax>,
}

/// The stored bytes of every row.
pub open spec fn spec_row_contents(rows: Seq<Erow>) -> Seq<Seq<u8>> {
    rows.map_values(|r: Erow| r.chars@)
}

/// The content length of every row.
pub open spec fn spec_sizes(rows: Seq<Erow>) -> Seq<int> {
    rows.map_values(|r: Erow| r.size as int)
}

/// The render form of every row.
pub open spec fn spec_renders(rows: Seq<Erow>) -> Seq<Seq<u8>> {
    rows.map_values(|r: Erow| r.render@)
}

/// Two rows with the same text (content and render form); only the
/// highlight may differ.
pub open spec fn spec_row_same_text(a: Erow, b: Erow) -> bool {
    &&& a.chars@ == b.chars@
    &&& a.render@ == b.render@
    &&& a.size == b.size
    &&& a.rsize == b.rsize
}

/// The open-string delimiter a row scan leaves behind, given the one it
/// entered with.
pub open spec fn spec_scan_out_render(render: Seq<u8>, st0: u8, flags: HLFlags) -> u8 {
    spec_scan_state_at(render, spec_row_start_state(st0), render.len() as int, flags).in_string
}

/// The open-string delimiter in force before row `i` when a document's
/// rows are scanned in order starting from `st0`.  Without a syntax the
/// state is never touched.
pub open spec fn spec_thread_renders(
    renders: Seq<Seq<u8>>,
    syntax: Option<EditorSyntax>,
    st0: u8,
    i: int,
) -> u8
    decreases i,
{
    if i <= 0 {
        st0
    } else {
        let st = spec_thread_renders(renders, syntax, st0, i - 1);
        match syntax {
            None => st,
            Some(es) => spec_scan_out_render(renders[i - 1], st, es.flags),
        }
    }
}

/// Threading only looks at rows before `i`: two row tables that agree on
/// that prefix thread to the same state.
pub proof fn lemma_thread_prefix(
    r1: Seq<Seq<u8>>,
    r2: Seq<Seq<u8>>,
    syntax: Option<EditorSyntax>,
    st0: u8,
    i: int,
)
    requires
        0 <= i <= r1.len(),
        i <= r2.len(),
        forall|j: int| 0 <= j < i ==> r1[j] == r2[j],
    ensures
        spec_thread_renders(r1, syntax, st0, i) == spec_thread_renders(r2, syntax, st0, i),
    decreases i,
{
    if i > 0 {
        lemma_thread_prefix(r1, r2, syntax, st0, i - 1);
    }
}

/// `b` holds `a`'s rows re-highlighted in order under `syntax`, threading
/// the open-string state from row to row; text and sizes are untouched.
pub open spec fn spec_rescan_rel(
    a: EditorConfig,
    b: EditorConfig,
    syntax: Option<EditorSyntax>,
) -> bool {
    &&& b.erow@.len() == a.erow@.len()
    &&& forall|i: int|
        0 <= i < a.erow@.len() ==> spec_row_same_text(a.erow@[i], #[trigger] b.erow@[i])
    &&& forall|i: int|
        0 <= i < b.erow@.len() ==> (#[trigger] b.erow@[i]).hl@ == b.erow@[i].spec_hl_after_update(
            EditorSyntaxInf {
                syntax,
                in_string: spec_thread_renders(
                    spec_renders(b.erow@),
                    syntax,
                    a.editor_syntax.in_string,
                    i,
                ),
            },
        )
    &&& b.editor_syntax.in_string == spec_thread_renders(
        spec_renders(b.erow@),
        syntax,
        a.editor_syntax.in_string,
        b.erow@.len() as int,
    )
}

/// Fields no editing operation touches: the screen, the viewport, the file
/// and status data, and the search state.
pub open spec fn spec_same_chrome(a: EditorConfig, b: EditorConfig) -> bool {
    &&& a.screen_rows == b.screen_rows
    &&& a.screen_cols == b.screen_cols
    &&& a.off_row == b.off_row
    &&& a.off_col == b.off_col
    &&& a.rx == b.rx
    &&& a.status_msg@ == b.status_msg@
    &&& a.quit_times == b.quit_times
    &&& a.last_match == b.last_match
    &&& a.direction == b.direction
    &&& a.current_color == b.current_color
    &&& a.saved_hl == b.saved_hl
    &&& a.syntax_pattern == b.syntax_pattern
}

impl EditorConfig {
    /// The row table is consistent: the count is the vector length and
    /// every row satisfies its own invariant.
    pub open spec fn rows_wf(self) -> bool {
        &&& self.numrows == self.erow@.len()
        &&& forall|i: int| 0 <= i < self.erow@.len() ==> (#[trigger] self.erow@[i]).wf()
    }

    /// The cursor is clamped: `cp_y` at most the sentinel row, `cp_x`
    /// within the row it sits on, and zero on the sentinel row.
    pub open spec fn cursor_wf(self) -> bool {
        &&& self.cp_y <= self.numrows
        &&& (self.cp_y < self.numrows ==> self.cp_x <= self.erow@[self.cp_y as int].size)
        &&& (self.cp_y == self.numrows ==> self.cp_x == 0)
    }

    pub open spec fn wf(self) -> bool {
        &&& self.rows_wf()
        &&& self.cursor_wf()
        &&& (self.direction == 1 || self.direction == -1)
        &&& (match self.last_match {
            Some(lm) => lm < self.numrows,
            None => true,
        })
        &&& self.off_row <= self.numrows
    }

    /// A fresh editor: empty untitled document, cursor at the origin, no
    /// syntax selected, and the built-in syntax table (rust files, with
    /// numbers and strings highlighted).  The screen size is zero until
    /// `set_window_size` is called.
    pub fn new() -> (ec: EditorConfig)
        ensures
            ec.wf(),
            ec.numrows == 0,
            ec.erow@.len() == 0,
            ec.cp_x == 0,
            ec.cp_y == 0,
            ec.rx == 0,
            ec.off_row == 0,
            ec.off_col == 0,
            ec.screen_rows == 0,
            ec.screen_cols == 0,
            ec.filename@ == Seq::<u8>::empty(),
            ec.status_msg@ == Seq::<u8>::empty(),
            !ec.dirty,
            ec.quit_times == RILO_QUIT_TIMES,
            ec.last_match is None,
            ec.direction == 1,
            ec.current_color == Highlight::NONE,
            ec.saved_hl is None,
            ec.editor_syntax.syntax is None,
            ec.editor_syntax.in_string == 0,
            ec.syntax_pattern@.len() == 1,
            ec.syntax_pattern@[0].file_type@ == spec_str_bytes("rust"),
            ec.syntax_pattern@[0].file_extensions@.len() == 2,
            ec.syntax_pattern@[0].file_extensions@[0]@ == spec_str_bytes("rs"),
            ec.syntax_pattern@[0].file_extensions@[1]@ == spec_str_bytes("toml"),
            ec.syntax_pattern@[0].flags == (HLFlags { numbers: true, strings: true }),
    {
        proof {
            reveal_strlit("rust");
            reveal_strlit("rs");
            reveal_strlit("toml");
        }
        let mut exts: Vec<Vec<u8>> = Vec::new();
        exts.push(str_to_bytes("rs"));
        exts.push(str_to_bytes("toml"));
        let rust_syntax = EditorSyntax::new(
            str_to_bytes("rust"),
            exts,
            HLFlags { numbers: true, strings: true },
        );
        let mut patterns: Vec<EditorSyntax> = Vec::new();
        patterns.push(rust_syntax);
        EditorConfig {
            cp_x: 0,
            cp_y: 0,
            rx: 0,
            screen_rows: 0,
            screen_cols: 0,
            erow: Vec::new(),
            numrows: 0,
            off_row: 0,
            off_col: 0,
            filename: Vec::new(),
            status_msg: Vec::new(),
            dirty: false,
            quit_times: RILO_QUIT_TIMES,
            last_match: None,
            direction: 1,
            current_color: Highlight::NONE,
            saved_hl: None,
            editor_syntax: EditorSyntaxInf { syntax: None, in_string: 0 },
            syntax_pattern: patterns,
        }
    }

    /// Record the terminal size; the last two rows are reserved for the
    /// status and message bars.
    pub fn set_window_size(&mut self, cols: u16, rows: u16)
        requires
            rows >= 3,
            cols >= 1,
        ensures
            final(self).screen_rows == rows - 2,
            final(self).screen_cols == cols,
            *final(self) == (EditorConfig {
                screen_rows: final(self).screen_rows,
                screen_cols: final(self).screen_cols,
                ..*old(self)
            }),
    {
        self.screen_rows = rows - 2;
        self.screen_cols = cols;
    }

    /// Replace the transient status message.
    pub fn editor_set_status_message(&mut self, fmt: Vec<u8>)
        ensures
            final(self).status_msg == fmt,
            *final(self) == (EditorConfig { status_msg: final(self).status_msg, ..*old(self) }),
    {
        self.status_msg = fmt;
    }

    /// Insert a new row holding `content` at index `at`, deriving its
    /// render form and highlight (threading the open-string state).  An
    /// out-of-range index is silently ignored.
    pub fn editor_insert_row(&mut self, at: usize, content: Vec<u8>)
        requires
            old(self).rows_wf(),
        ensures
            final(self).rows_wf(),
            at > old(self).numrows ==> *final(self) == *old(self),
            at <= old(self).numrows ==> {
                &&& final(self).numrows == old(self).numrows + 1
                &&& final(self).erow@ == old(self).erow@.insert(
                    at as int,
                    final(self).erow@[at as int],
                )
                &&& final(self).erow@[at as int].chars@ == content@
                &&& final(self).erow@[at as int].wf()
                &&& final(self).erow@[at as int].hl@ == final(self).erow@[at as int].spec_hl_after_update(
                    old(self).editor_syntax,
                )
                &&& final(self).editor_syntax.syntax == old(self).editor_syntax.syntax
                &&& final(self).editor_syntax.in_string == final(self).erow@[at as int].spec_in_string_after_update(old(self).editor_syntax)
            },
            final(self).cp_x == old(self).cp_x,
            final(self).cp_y == old(self).cp_y,
            final(self).dirty == old(self).dirty,
            final(self).filename == old(self).filename,
            spec_same_chrome(*old(self), *final(self)),
    {
        if at > self.numrows {
            return ;
        }
        let size = content.len();
        let mut row = Erow { size, chars: content, rsize: 0, render: Vec::new(), hl: Vec::new() };
        row.editor_update_row(&mut self.editor_syntax);
        self.erow.insert(at, row);
        self.numrows = self.erow.len();
        proof {
            assert forall|i: int| 0 <= i < self.erow@.len() implies (#[trigger] self.erow@[i]).wf()
            by {
                if i < at {
                    assert(self.erow@[i] == old(self).erow@[i]);
                } else if i > at {
                    assert(self.erow@[i] == old(self).erow@[i - 1]);
                }
            }
        }
    }

    /// What inserting byte `c` at the cursor does to the state: on the
    /// sentinel row a fresh empty row is appended first; the byte lands at
    /// the cursor column, the cursor advances one column, and the document
    /// becomes dirty.
    pub open spec fn spec_insert_char_rel(a: EditorConfig, b: EditorConfig, c: u8) -> bool {
        let y = a.cp_y as int;
        let oldrow: Seq<u8> = if y < a.numrows {
            a.erow@[y].chars@
        } else {
            Seq::empty()
        };
        &&& b.dirty
        &&& b.cp_y == a.cp_y
        &&& b.cp_x == a.cp_x + 1
        &&& b.numrows == if a.cp_y == a.numrows {
            a.numrows + 1
        } else {
            a.numrows as int
        }
        &&& b.erow@[y].chars@ == oldrow.insert(a.cp_x as int, c)
        &&& (if a.cp_y == a.numrows {
            b.erow@ == a.erow@.push(b.erow@[y])
        } else {
            b.erow@ == a.erow@.update(y, b.erow@[y])
        })
        &&& b.erow@[y].hl@ == b.erow@[y].spec_hl_after_update(a.editor_syntax)
        &&& b.editor_syntax.syntax == a.editor_syntax.syntax
        &&& b.editor_syntax.in_string == b.erow@[y].spec_in_string_after_update(a.editor_syntax)
        &&& b.filename == a.filename
        &&& spec_same_chrome(a, b)
    }

    /// Insert byte `c` at the cursor.  On the sentinel row a fresh empty
    /// row is appended first.  The cursor advances one column and the
    /// document becomes dirty.
    pub fn editor_insert_char(&mut self, c: u8)
        requires
            old(self).wf(),
        ensures
            final(self).wf(),
            Self::spec_insert_char_rel(*old(self), *final(self), c),
    {
        if self.cp_y == self.numrows {
            let at = self.cp_y;
            self.editor_insert_row(at, Vec::new());
            proof {
                assert(self.erow@ =~= old(self).erow@.push(self.erow@[at as int]));
                assert(self.erow@[at as int].chars@ =~= Seq::<u8>::empty());
            }
        }
        let y = self.cp_y;
        let x = self.cp_x;
        let mut row = self.erow.remove(y);
        row.editor_row_insert_character(x, c, &mut self.editor_syntax);
        self.erow.insert(y, row);
        self.cp_x = self.cp_x + 1;
        self.dirty = true;
        proof {
            if old(self).cp_y == old(self).numrows {
                assert(self.erow@ =~= old(self).erow@.push(self.erow@[y as int]));
            } else {
                assert(self.erow@ =~= old(self).erow@.update(y as int, self.erow@[y as int]));
            }
            assert forall|i: int| 0 <= i < self.erow@.len() implies (#[trigger] self.erow@[i]).wf()
            by {
                if i != y {
                    assert(self.erow@[i] == old(self).erow@[i]);
                }
            }
        }
    }

    /// What deleting the byte left of the cursor does to the state.  On
    /// the sentinel row, or at column zero, nothing happens: this editor's
    /// operation set does not join lines, so backspace at the start of a
    /// line is a no-op.
    pub open spec fn spec_delete_char_rel(a: EditorConfig, b: EditorConfig) -> bool {
        &&& (a.cp_y == a.numrows ==> b == a)
        &&& (a.cp_y < a.numrows && a.cp_x == 0 ==> b == a)
        &&& (a.cp_y < a.numrows && a.cp_x > 0 ==> {
            let y = a.cp_y as int;
            &&& b.dirty
            &&& b.cp_y == a.cp_y
            &&& b.cp_x == a.cp_x - 1
            &&& b.numrows == a.numrows
            &&& b.erow@[y].chars@ == a.erow@[y].chars@.remove(a.cp_x - 1)
            &&& b.erow@ == a.erow@.update(y, b.erow@[y])
            &&& b.erow@[y].hl@ == b.erow@[y].spec_hl_after_update(a.editor_syntax)
            &&& b.editor_syntax.syntax == a.editor_syntax.syntax
            &&& b.editor_syntax.in_string == b.erow@[y].spec_in_string_after_update(
                a.editor_syntax,
            )
            &&& b.filename == a.filename
            &&& spec_same_chrome(a, b)
        })
    }

    /// Delete the byte left of the cursor.  On the sentinel row, or at
    /// column zero, nothing happens: this editor's operation set does not
    /// join lines, so backspace at the start of a line is a no-op.
    pub fn editor_delete_char(&mut self)
        requires
            old(self).wf(),
        ensures
            final(self).wf(),
            Self::spec_delete_char_rel(*old(self), *final(self)),
    {
        if self.cp_y == self.numrows {
            return ;
        }
        if self.cp_x == 0 {
            return ;
        }
        let y = self.cp_y;
        let at = self.cp_x - 1;
        let mut row = self.erow.remove(y);
        row.editor_row_delete_char(at, &mut self.editor_syntax);
        self.erow.insert(y, row);
        self.cp_x = self.cp_x - 1;
        self.dirty = true;
        proof {
            assert(self.erow@ =~= old(self).erow@.update(y as int, self.erow@[y as int]));
            assert forall|i: int| 0 <= i < self.erow@.len() implies (#[trigger] self.erow@[i]).wf()
            by {
                if i != y {
                    assert(self.erow@[i] == old(self).erow@[i]);
                }
            }
        }
    }

    /// What a line break at the cursor does to the state.  At column zero
    /// a fresh empty row is inserted above the current one; otherwise the
    /// current row keeps the text left of the cursor and a new row below
    /// receives the rest.  The cursor moves to the start of the next row.
    pub open spec fn spec_insert_new_line_rel(a: EditorConfig, b: EditorConfig) -> bool {
        &&& b.dirty
        &&& b.cp_x == 0
        &&& b.cp_y == a.cp_y + 1
        &&& b.numrows == a.numrows + 1
        &&& b.editor_syntax.syntax == a.editor_syntax.syntax
        &&& b.filename == a.filename
        &&& spec_same_chrome(a, b)
        &&& (a.cp_x == 0 ==> {
            let y = a.cp_y as int;
            &&& b.erow@ == a.erow@.insert(y, b.erow@[y])
            &&& b.erow@[y].chars@ == Seq::<u8>::empty()
            &&& b.erow@[y].hl@ == b.erow@[y].spec_hl_after_update(a.editor_syntax)
            &&& b.editor_syntax.in_string == b.erow@[y].spec_in_string_after_update(
                a.editor_syntax,
            )
        })
        &&& (a.cp_x > 0 ==> {
            let y = a.cp_y as int;
            let si1 = EditorSyntaxInf {
                syntax: a.editor_syntax.syntax,
                in_string: b.erow@[y].spec_in_string_after_update(a.editor_syntax),
            };
            &&& b.erow@[y].chars@ == a.erow@[y].chars@.take(a.cp_x as int)
            &&& b.erow@[y + 1].chars@ == a.erow@[y].chars@.skip(a.cp_x as int)
            &&& b.erow@ == a.erow@.update(y, b.erow@[y]).insert(y + 1, b.erow@[y + 1])
            &&& b.erow@[y].hl@ == b.erow@[y].spec_hl_after_update(a.editor_syntax)
            &&& b.erow@[y + 1].hl@ == b.erow@[y + 1].spec_hl_after_update(si1)
            &&& b.editor_syntax.in_string == b.erow@[y + 1].spec_in_string_after_update(si1)
        })
    }

    /// Insert a line break at the cursor.  At column zero a fresh empty
    /// row is inserted above the current one; otherwise the current row is
    /// split at the cursor.  The cursor moves to the start of the next row.
    pub fn editor_insert_new_line(&mut self)
        requires
            old(self).wf(),
        ensures
            final(self).wf(),
            Self::spec_insert_new_line_rel(*old(self), *final(self)),
    {
        if self.cp_x == 0 {
            let at = self.cp_y;
            self.editor_insert_row(at, Vec::new());
            proof {
                assert(self.erow@[at as int].chars@ =~= Seq::<u8>::empty());
            }
        } else {
            let y = self.cp_y;
            let x = self.cp_x;
            let mut row = self.erow.remove(y);
            let tail = row.chars.split_off(x);
            row.size = row.chars.len();
            row.editor_update_row(&mut self.editor_syntax);
            self.erow.insert(y, row);
            proof {
                assert(self.erow@ =~= old(self).erow@.update(y as int, self.erow@[y as int]));
                assert(self.erow@[y as int].chars@ =~= old(self).erow@[y as int].chars@.take(
                    x as int,
                ));
                assert forall|i: int| 0 <= i < self.erow@.len() implies (
                #[trigger] self.erow@[i]).wf() by {
                    if i != y {
                        assert(self.erow@[i] == old(self).erow@[i]);
                    }
                }
            }
            let at = y + 1;
            self.editor_insert_row(at, tail);
            proof {
                assert(self.erow@[y + 1].chars@ =~= old(self).erow@[y as int].chars@.skip(x as int));
            }
        }
        self.cp_y = self.cp_y + 1;
        self.cp_x = 0;
        self.dirty = true;
    }

    /// The bytes the document is saved as: every row's content followed by
    /// one newline.
    pub fn editor_rows_to_string(&self) -> (r: Vec<u8>)
        ensures
            r@ == spec_serialize(spec_row_contents(self.erow@)),
    {
        let ghost contents = spec_row_contents(self.erow@);
        let mut buf: Vec<u8> = Vec::new();
        let n = self.erow.len();
        let mut i: usize = 0;
        proof {
            assert(contents.skip(0) =~= contents);
            assert(buf@ + spec_serialize(contents) =~= spec_serialize(contents));
        }
        while i < n
            invariant
                i <= n,
                n == self.erow@.len(),
                contents == spec_row_contents(self.erow@),
                buf@ + spec_serialize(contents.skip(i as int)) == spec_serialize(contents),
            decreases n - i,
        {
            proof {
                assert(contents.skip(i as int).first() == contents[i as int]);
                assert(contents.skip(i as int).drop_first() =~= contents.skip(i + 1));
                assert(contents[i as int] == self.erow@[i as int].chars@);
            }
            buf.extend_from_slice(self.erow[i].chars.as_slice());
            buf.push(10);
            proof {
                assert(buf@ + spec_serialize(contents.skip(i + 1)) =~= spec_serialize(contents));
            }
            i = i + 1;
        }
        proof {
            assert(contents.skip(n as int) =~= Seq::<Seq<u8>>::empty());
            assert(buf@ =~= spec_serialize(contents));
        }
        buf
    }
}

/// Where a single arrow key moves the cursor, including the final clamp of
/// the column to the destination row.
pub open spec fn spec_move_cursor(x: int, y: int, sizes: Seq<int>, key: Arrow) -> (int, int) {
    let n = sizes.len() as int;
    let stepped: (int, int) = match key {
        Arrow::Left => if x != 0 {
            (x - 1, y)
        } else if y > 0 {
            (sizes[y - 1], y - 1)
        } else {
            (x, y)
        },
        Arrow::Right => if y < n {
            if x < sizes[y] {
                (x + 1, y)
            } else if x == sizes[y] {
                (0, y + 1)
            } else {
                (x, y)
            }
        } else {
            (x, y)
        },
        Arrow::Up => if y != 0 {
            (x, y - 1)
        } else {
            (x, y)
        },
        Arrow::Down => if y < n {
            (x, y + 1)
        } else {
            (x, y)
        },
    };
    if stepped.1 >= n {
        (0, stepped.1)
    } else if stepped.0 > sizes[stepped.1] {
        (sizes[stepped.1], stepped.1)
    } else {
        stepped
    }
}

/// `n` repetitions of the same arrow key.
pub open spec fn spec_move_n(x: int, y: int, sizes: Seq<int>, key: Arrow, n: nat) -> (int, int)
    decreases n,
{
    if n == 0 {
        (x, y)
    } else {
        let stepped = spec_move_cursor(x, y, sizes, key);
        spec_move_n(stepped.0, stepped.1, sizes, key, (n - 1) as nat)
    }
}

impl EditorConfig {
    /// What one arrow keypress does to the state: the cursor moves as
    /// `spec_move_cursor` says and nothing else changes.
    pub open spec fn spec_move_rel(a: EditorConfig, b: EditorConfig, k: Arrow) -> bool {
        &&& (b.cp_x as int, b.cp_y as int) == spec_move_cursor(
            a.cp_x as int,
            a.cp_y as int,
            spec_sizes(a.erow@),
            k,
        )
        &&& b == (EditorConfig { cp_x: b.cp_x, cp_y: b.cp_y, ..a })
    }

    /// Move the cursor one step.  Left at column zero climbs to the end of
    /// the previous row; right past the end of a row descends to the start
    /// of the next; the column is clamped to the destination row.
    pub fn editor_move_cursor(&mut self, key: &Arrow)
        requires
            old(self).rows_wf(),
            old(self).cp_y <= old(self).numrows,
        ensures
            (final(self).cp_x as int, final(self).cp_y as int) == spec_move_cursor(
                old(self).cp_x as int,
                old(self).cp_y as int,
                spec_sizes(old(self).erow@),
                *key,
            ),
            *final(self) == (EditorConfig {
                cp_x: final(self).cp_x,
                cp_y: final(self).cp_y,
                ..*old(self)
            }),
            final(self).cp_y <= final(self).numrows,
            final(self).cp_y < final(self).numrows ==> final(self).cp_x <= final(self).erow@[final(self).cp_y as int].size,
            final(self).cp_y == final(self).numrows ==> final(self).cp_x == 0,
            old(self).wf() ==> final(self).wf(),
    {
        let row_len: usize = if self.cp_y < self.numrows {
            self.erow[self.cp_y].size
        } else {
            0
        };
        match key {
            Arrow::Left => {
                if self.cp_x != 0 {
                    self.cp_x = self.cp_x - 1;
                } else if self.cp_y > 0 {
                    self.cp_y = self.cp_y - 1;
                    self.cp_x = self.erow[self.cp_y].size;
                }
            },
            Arrow::Right => {
                if self.cp_y < self.numrows {
                    if self.cp_x < row_len {
                        self.cp_x = self.cp_x + 1;
                    } else if self.cp_x == row_len {
                        self.cp_y = self.cp_y + 1;
                        self.cp_x = 0;
                    }
                }
            },
            Arrow::Up => {
                if self.cp_y != 0 {
                    self.cp_y = self.cp_y - 1;
                }
            },
            Arrow::Down => {
                if self.cp_y < self.numrows {
                    self.cp_y = self.cp_y + 1;
                }
            },
        }
        if self.cp_y >= self.numrows {
            self.cp_x = 0;
        } else if self.cp_x > self.erow[self.cp_y].size {
            self.cp_x = self.erow[self.cp_y].size;
        }
    }

    /// Match `filename` against every syntax definition; the last match
    /// wins.
    pub open spec fn spec_select_syntax(patterns: Seq<EditorSyntax>, filename: Seq<u8>) -> Option<
        int,
    >
        decreases patterns.len(),
    {
        if patterns.len() == 0 {
            None
        } else if spec_pattern_matches(patterns.last(), filename) {
            Some(patterns.len() - 1)
        } else {
            Self::spec_select_syntax(patterns.drop_last(), filename)
        }
    }

    /// Re-select the syntax from the current filename and re-scan the
    /// whole document once, threading the open-string state row by row.
    /// An empty filename deselects without re-scanning.
    pub fn editor_select_syntax_highlight(&mut self)
        requires
            old(self).rows_wf(),
        ensures
            final(self).rows_wf(),
            old(self).filename@.len() == 0 ==> final(self).editor_syntax.syntax is None
                && final(self).erow == old(self).erow && final(self).editor_syntax.in_string == old(
                self,
            ).editor_syntax.in_string,
            old(self).filename@.len() > 0 ==> {
                &&& (match Self::spec_select_syntax(old(self).syntax_pattern@, old(self).filename@) {
                    None => final(self).editor_syntax.syntax is None,
                    Some(k) => match final(self).editor_syntax.syntax {
                        Some(s) => spec_syntax_like(s, old(self).syntax_pattern@[k]),
                        None => false,
                    },
                })
                &&& spec_rescan_rel(*old(self), *final(self), final(self).editor_syntax.syntax)
            },
            final(self).numrows == old(self).numrows,
            final(self).cp_x == old(self).cp_x,
            final(self).cp_y == old(self).cp_y,
            final(self).dirty == old(self).dirty,
            final(self).filename == old(self).filename,
            spec_same_chrome(*old(self), *final(self)),
            old(self).wf() ==> final(self).wf(),
    {
        self.editor_syntax.syntax = None;
        if self.filename.len() == 0 {
            return ;
        }
        let n = self.syntax_pattern.len();
        let mut chosen: Option<usize> = None;
        let mut i: usize = 0;
        proof {
            assert(self.syntax_pattern@.take(0) =~= Seq::<EditorSyntax>::empty());
        }
        while i < n
            invariant
                i <= n,
                n == self.syntax_pattern@.len(),
                self.filename@.len() > 0,
                match chosen {
                    None => Self::spec_select_syntax(
                        self.syntax_pattern@.take(i as int),
                        self.filename@,
                    ) is None,
                    Some(k) => k < i && Self::spec_select_syntax(
                        self.syntax_pattern@.take(i as int),
                        self.filename@,
                    ) == Some(k as int),
                },
            decreases n - i,
        {
            proof {
                assert(self.syntax_pattern@.take(i + 1).drop_last() =~= self.syntax_pattern@.take(
                    i as int,
                ));
                assert(self.syntax_pattern@.take(i + 1).last() == self.syntax_pattern@[i as int]);
            }
            if self.syntax_pattern[i].much_type(&self.filename) {
                chosen = Some(i);
            }
            i = i + 1;
        }
        proof {
            assert(self.syntax_pattern@.take(n as int) =~= self.syntax_pattern@);
        }
        match chosen {
            None => {},
            Some(k) => {
                let dup = self.syntax_pattern[k].duplicate();
                self.editor_syntax.syntax = Some(dup);
            },
        }
        self.rescan_all_rows();
    }

    /// Re-highlight every row in order under the current syntax, threading
    /// the open-string state across rows.
    fn rescan_all_rows(&mut self)
        requires
            old(self).rows_wf(),
        ensures
            final(self).rows_wf(),
            final(self).editor_syntax.syntax == old(self).editor_syntax.syntax,
            spec_rescan_rel(*old(self), *final(self), old(self).editor_syntax.syntax),
            final(self).numrows == old(self).numrows,
            final(self).cp_x == old(self).cp_x,
            final(self).cp_y == old(self).cp_y,
            final(self).dirty == old(self).dirty,
            final(self).filename == old(self).filename,
            final(self).syntax_pattern == old(self).syntax_pattern,
            spec_same_chrome(*old(self), *final(self)),
            old(self).wf() ==> final(self).wf(),
    {
        let ghost syn = self.editor_syntax.syntax;
        let ghost st0 = self.editor_syntax.in_string;
        let m = self.numrows;
        let mut r: usize = 0;
        while r < m
            invariant
                r <= m,
                m == self.erow@.len(),
                self.rows_wf(),
                self.editor_syntax.syntax == syn,
                self.erow@.len() == old(self).erow@.len(),
                forall|j: int|
                    0 <= j < m ==> spec_row_same_text(old(self).erow@[j], #[trigger] self.erow@[j]),
                forall|j: int|
                    r <= j < m ==> (#[trigger] self.erow@[j]).hl == old(self).erow@[j].hl,
                forall|j: int|
                    0 <= j < r ==> (#[trigger] self.erow@[j]).hl@
                        == self.erow@[j].spec_hl_after_update(
                        EditorSyntaxInf {
                            syntax: syn,
                            in_string: spec_thread_renders(spec_renders(self.erow@), syn, st0, j),
                        },
                    ),
                self.editor_syntax.in_string == spec_thread_renders(
                    spec_renders(self.erow@),
                    syn,
                    st0,
                    r as int,
                ),
                self.cp_x == old(self).cp_x,
                self.cp_y == old(self).cp_y,
                self.numrows == old(self).numrows,
                self.dirty == old(self).dirty,
                self.filename == old(self).filename,
                self.syntax_pattern == old(self).syntax_pattern,
                spec_same_chrome(*old(self), *self),
            decreases m - r,
        {
            let ghost prev = *self;
            let mut row = self.erow.remove(r);
            row.editor_update_syntax(&mut self.editor_syntax);
            self.erow.insert(r, row);
            proof {
                assert(self.erow@ =~= prev.erow@.update(r as int, self.erow@[r as int]));
                assert(spec_renders(self.erow@) =~= spec_renders(prev.erow@));
                assert(self.erow@[r as int].hl@.len() == self.erow@[r as int].render@.len());
                assert forall|j: int| 0 <= j < m implies (#[trigger] self.erow@[j]).wf() by {
                    if j != r {
                        assert(self.erow@[j] == prev.erow@[j]);
                    }
                }
            }
            r = r + 1;
        }
    }

    /// Format the byte count reported after a successful save.
    pub open spec fn spec_save_message(nbytes: nat) -> Seq<u8> {
        spec_decimal(nbytes) + spec_str_bytes(" bytes written to disk")
    }

    /// Record a completed save of `nbytes` bytes: report it in the status
    /// message, clear the dirty flag, and re-arm the quit countdown.
    pub fn editor_save_done(&mut self, nbytes: usize)
        ensures
            final(self).status_msg@ == Self::spec_save_message(nbytes as nat),
            !final(self).dirty,
            final(self).quit_times == RILO_QUIT_TIMES,
            *final(self) == (EditorConfig {
                status_msg: final(self).status_msg,
                dirty: false,
                quit_times: RILO_QUIT_TIMES,
                ..*old(self)
            }),
    {
        proof {
            reveal_strlit(" bytes written to disk");
        }
        let mut m = format_usize(nbytes);
        let suffix = str_to_bytes(" bytes written to disk");
        m.extend_from_slice(suffix.as_slice());
        proof {
            assert(m@ =~= Self::spec_save_message(nbytes as nat));
        }
        self.status_msg = m;
        self.dirty = false;
        self.quit_times = RILO_QUIT_TIMES;
    }

    /// Populate an empty document from a file's bytes: remember the name,
    /// select a syntax for it, and append one row per line (splitting at
    /// newlines, stripping trailing carriage returns, and discarding the
    /// empty text after a terminating newline), scanning each row as it
    /// arrives with the open-string state threaded in row order.
    pub fn editor_open(&mut self, filename: &Vec<u8>, data: &Vec<u8>)
        requires
            old(self).wf(),
            old(self).numrows == 0,
        ensures
            final(self).wf(),
            final(self).filename@ == filename@,
            spec_row_contents(final(self).erow@) == spec_split_lines(data@),
            filename@.len() == 0 ==> final(self).editor_syntax.syntax is None,
            filename@.len() > 0 ==> (match Self::spec_select_syntax(
                old(self).syntax_pattern@,
                filename@,
            ) {
                None => final(self).editor_syntax.syntax is None,
                Some(k) => match final(self).editor_syntax.syntax {
                    Some(s) => spec_syntax_like(s, old(self).syntax_pattern@[k]),
                    None => false,
                },
            }),
            forall|i: int|
                0 <= i < final(self).erow@.len() ==> (#[trigger] final(self).erow@[i]).hl@
                    == final(self).erow@[i].spec_hl_after_update(
                    EditorSyntaxInf {
                        syntax: final(self).editor_syntax.syntax,
                        in_string: spec_thread_renders(
                            spec_renders(final(self).erow@),
                            final(self).editor_syntax.syntax,
                            old(self).editor_syntax.in_string,
                            i,
                        ),
                    },
                ),
            final(self).editor_syntax.in_string == spec_thread_renders(
                spec_renders(final(self).erow@),
                final(self).editor_syntax.syntax,
                old(self).editor_syntax.in_string,
                final(self).erow@.len() as int,
            ),
            final(self).cp_x == old(self).cp_x,
            final(self).cp_y == old(self).cp_y,
            final(self).dirty == old(self).dirty,
            spec_same_chrome(*old(self), *final(self)),
    {
        self.filename = clone_bytes(filename);
        self.editor_select_syntax_highlight();
        let ghost syn = self.editor_syntax.syntax;
        let ghost st0 = old(self).editor_syntax.in_string;
        proof {
            assert(spec_row_contents(self.erow@) =~= Seq::<Seq<u8>>::empty());
            assert(data@.skip(0) =~= data@);
            assert(Seq::<Seq<u8>>::empty() + spec_split_lines(data@) =~= spec_split_lines(data@));
        }
        let n = data.len();
        let mut pos: usize = 0;
        while pos < n
            invariant
                pos <= n,
                n == data@.len(),
                self.wf(),
                self.editor_syntax.syntax == syn,
                self.filename@ == filename@,
                spec_row_contents(self.erow@) + spec_split_lines(data@.skip(pos as int))
                    == spec_split_lines(data@),
                pos > 0 ==> self.erow@.len() == spec_split_lines(data@).len()
                    - spec_split_lines(data@.skip(pos as int)).len(),
                pos == 0 ==> self.erow@.len() == 0,
                forall|i: int|
                    0 <= i < self.erow@.len() ==> (#[trigger] self.erow@[i]).hl@
                        == self.erow@[i].spec_hl_after_update(
                        EditorSyntaxInf {
                            syntax: syn,
                            in_string: spec_thread_renders(spec_renders(self.erow@), syn, st0, i),
                        },
                    ),
                self.editor_syntax.in_string == spec_thread_renders(
                    spec_renders(self.erow@),
                    syn,
                    st0,
                    self.erow@.len() as int,
                ),
                self.cp_x == old(self).cp_x,
                self.cp_y == old(self).cp_y,
                self.dirty == old(self).dirty,
                spec_same_chrome(*old(self), *self),
            decreases n - pos,
        {
            // Find the end of this line.
            let mut end: usize = pos;
            while end < n && data[end] != 10
                invariant
                    pos <= end <= n,
                    n == data@.len(),
                    forall|j: int| pos <= j < end ==> data@[j] != 10,
                decreases n - end,
            {
                end = end + 1;
            }
            // Strip trailing carriage returns.
            let mut ll: usize = end;
            while ll > pos && data[ll - 1] == 13
                invariant
                    pos <= ll <= end <= n,
                    n == data@.len(),
                    forall|m: int| ll <= m < end ==> data@[m] == 13,
                decreases ll,
            {
                ll = ll - 1;
            }
            // Copy out the line.
            let mut line: Vec<u8> = Vec::new();
            let mut j: usize = pos;
            while j < ll
                invariant
                    pos <= j <= ll <= n,
                    n == data@.len(),
                    line@ == data@.subrange(pos as int, j as int),
                decreases ll - j,
            {
                line.push(data[j]);
                proof {
                    assert(line@ =~= data@.subrange(pos as int, j + 1));
                }
                j = j + 1;
            }
            proof {
                let tail = data@.skip(pos as int);
                let k = end - pos;
                assert forall|jj: int| 0 <= jj < k implies tail[jj] != 10 by {
                    assert(tail[jj] == data@[pos + jj]);
                }
                if k < tail.len() {
                    assert(tail[k] == data@[end as int]);
                }
                lemma_first_nl_is(tail, k);
                let seg = tail.take(k);
                assert forall|m: int| ll - pos <= m < seg.len() implies seg[m] == 13 by {
                    assert(seg[m] == data@[pos + m]);
                }
                if ll > pos {
                    assert(seg[ll - pos - 1] == data@[ll - 1]);
                }
                lemma_strip_cr_take(seg, ll - pos);
                assert(seg.take(ll - pos) =~= data@.subrange(pos as int, ll as int));
                assert(spec_strip_cr(seg) == line@);
            }
            let ghost rows_before = self.erow@;
            let at = self.numrows;
            self.editor_insert_row(at, line);
            proof {
                assert(self.erow@ =~= rows_before.push(self.erow@[at as int]));
                assert(spec_renders(self.erow@) =~= spec_renders(rows_before).push(
                    self.erow@[at as int].render@,
                ));
                lemma_thread_prefix(
                    spec_renders(rows_before),
                    spec_renders(self.erow@),
                    syn,
                    st0,
                    at as int,
                );
                assert forall|i: int|
                    0 <= i < self.erow@.len() implies (#[trigger] self.erow@[i]).hl@
                    == self.erow@[i].spec_hl_after_update(
                    EditorSyntaxInf {
                        syntax: syn,
                        in_string: spec_thread_renders(spec_renders(self.erow@), syn, st0, i),
                    },
                ) by {
                    if i < at {
                        assert(self.erow@[i] == rows_before[i]);
                        lemma_thread_prefix(
                            spec_renders(rows_before),
                            spec_renders(self.erow@),
                            syn,
                            st0,
                            i,
                        );
                    }
                }
                assert(spec_row_contents(self.erow@) =~= spec_row_contents(rows_before).push(
                    line@,
                ));
                // One line consumed: relate the suffix split to the rows.
                let tail = data@.skip(pos as int);
                if end < n {
                    assert(tail.skip(end - pos + 1) =~= data@.skip(end + 1));
                    assert(spec_split_lines(tail) =~= seq![line@] + spec_split_lines(
                        data@.skip(end + 1),
                    ));
                    assert(spec_row_contents(self.erow@) + spec_split_lines(data@.skip(end + 1))
                        =~= spec_row_contents(rows_before) + spec_split_lines(tail));
                } else {
                    assert(spec_split_lines(tail) =~= seq![line@]);
                    assert(data@.skip(n as int) =~= Seq::<u8>::empty());
                    assert(spec_row_contents(self.erow@) + spec_split_lines(data@.skip(n as int))
                        =~= spec_row_contents(rows_before) + spec_split_lines(tail));
                }
            }
            if end < n {
                pos = end + 1;
            } else {
                pos = n;
            }
        }
        proof {
            assert(data@.skip(n as int) =~= Seq::<u8>::empty());
            assert(spec_row_contents(self.erow@) + spec_split_lines(Seq::<u8>::empty())
                =~= spec_row_contents(self.erow@));
        }
    }

    /// How a one-dimensional offset follows the cursor: pulled up to the
    /// cursor when the cursor is above the window, pushed down just enough
    /// when it is below, and untouched otherwise.
    pub open spec fn spec_clamp_off(off: int, pos: int, win: int) -> int {
        if pos < off {
            pos
        } else if pos >= off + win {
            pos - win + 1
        } else {
            off
        }
    }

    /// Recompute the render-space cursor column and both scroll offsets so
    /// that the cursor lies inside the visible window.
    pub fn editor_scroll(&mut self)
        requires
            old(self).wf(),
            old(self).screen_rows >= 1,
            old(self).screen_cols >= 1,
        ensures
            final(self).wf(),
            final(self).rx == if old(self).cp_y < old(self).numrows {
                spec_cx_to_rx(
                    old(self).erow@[old(self).cp_y as int].chars@,
                    old(self).cp_x as int,
                )
            } else {
                0
            },
            final(self).off_row == Self::spec_clamp_off(
                old(self).off_row as int,
                old(self).cp_y as int,
                old(self).screen_rows as int,
            ),
            final(self).off_col == Self::spec_clamp_off(
                old(self).off_col as int,
                final(self).rx as int,
                old(self).screen_cols as int,
            ),
            final(self).off_row <= old(self).cp_y < final(self).off_row + final(self).screen_rows,
            final(self).off_col <= final(self).rx < final(self).off_col + final(self).screen_cols,
            *final(self) == (EditorConfig {
                rx: final(self).rx,
                off_row: final(self).off_row,
                off_col: final(self).off_col,
                ..*old(self)
            }),
    {
        self.rx = 0;
        if self.cp_y < self.numrows {
            proof {
                assert(self.erow@[self.cp_y as int].wf());
                assert(spec_expand(self.erow@[self.cp_y as int].chars@).len()
                    == self.erow@[self.cp_y as int].render@.len());
            }
            self.rx = editor_row_cxtorx(&self.erow[self.cp_y].chars, self.cp_x);
        }
        if self.cp_y < self.off_row {
            self.off_row = self.cp_y;
        }
        if self.cp_y - self.off_row >= self.screen_rows as usize {
            self.off_row = self.cp_y - self.screen_rows as usize + 1;
        }
        if self.rx < self.off_col {
            self.off_col = self.rx;
        }
        if self.rx - self.off_col >= self.screen_cols as usize {
            self.off_col = self.rx - self.screen_cols as usize + 1;
        }
    }
}

/// One editing keystroke of the character-editing law: inserting a byte
/// at the cursor or deleting the byte left of it.
#[derive(Clone, Copy, Debug, PartialEq, Eq, Structural)]
pub enum EditOp {
    Insert(u8),
    Delete,
}

/// A single-row document reduced to its essentials: the row's bytes and
/// the cursor column.
pub open spec fn spec_apply_edit(st: (Seq<u8>, int), op: EditOp) -> (Seq<u8>, int) {
    match op {
        EditOp::Insert(c) => (
            st.0.insert(
                if st.1 < 0 {
                    0
                } else if st.1 > st.0.len() {
                    st.0.len() as int
                } else {
                    st.1
                },
                c,
            ),
            st.1 + 1,
        ),
        EditOp::Delete => if st.1 >= 1 {
            (st.0.remove(st.1 - 1), st.1 - 1)
        } else {
            st
        },
    }
}

/// The single-row document after a sequence of edits, starting empty.
pub open spec fn spec_edits_state(ops: Seq<EditOp>) -> (Seq<u8>, int)
    decreases ops.len(),
{
    if ops.len() == 0 {
        (Seq::empty(), 0)
    } else {
        spec_apply_edit(spec_edits_state(ops.drop_last()), ops.last())
    }
}

/// The net number of bytes a sequence of edits leaves behind: each insert
/// adds one, each delete removes one unless nothing is left.
pub open spec fn spec_net_len(ops: Seq<EditOp>) -> int
    decreases ops.len(),
{
    if ops.len() == 0 {
        0
    } else {
        let n = spec_net_len(ops.drop_last());
        match ops.last() {
            EditOp::Insert(c) => n + 1,
            EditOp::Delete => if n > 0 {
                n - 1
            } else {
                n
            },
        }
    }
}

/// For every sequence of inserts and deletes applied to an empty
/// document, the row's length is exactly the net number of inserted
/// bytes, and the cursor always sits at the end of the row.
pub proof fn lemma_edit_length(ops: Seq<EditOp>)
    ensures
        spec_edits_state(ops).0.len() == spec_net_len(ops),
        spec_edits_state(ops).1 == spec_net_len(ops),
    decreases ops.len(),
{
    if ops.len() > 0 {
        lemma_edit_length(ops.drop_last());
    }
}

/// An editor holding at most the one row the editing law speaks of, with
/// the cursor on it, abstracted to that row's bytes and the cursor column.
pub open spec fn spec_single_row_state(e: EditorConfig, st: (Seq<u8>, int)) -> bool {
    &&& e.cp_y == 0
    &&& e.cp_x == st.1
    &&& (if e.numrows == 0 {
        st.0 == Seq::<u8>::empty()
    } else {
        e.numrows == 1 && e.erow@[0].chars@ == st.0
    })
}

/// Inserting a byte takes a single-row document from `st` to
/// `spec_apply_edit(st, Insert(c))`: the exec insert matches the model.
pub proof fn lemma_insert_char_models_edit(
    a: EditorConfig,
    b: EditorConfig,
    st: (Seq<u8>, int),
    c: u8,
)
    requires
        a.wf(),
        spec_single_row_state(a, st),
        EditorConfig::spec_insert_char_rel(a, b, c),
    ensures
        spec_single_row_state(b, spec_apply_edit(st, EditOp::Insert(c))),
{
    if a.numrows == 0 {
        assert(b.erow@[0].chars@ == Seq::<u8>::empty().insert(0, c));
    }
}

/// Deleting takes a single-row document from `st` to
/// `spec_apply_edit(st, Delete)`: the exec delete matches the model.
pub proof fn lemma_delete_char_models_edit(a: EditorConfig, b: EditorConfig, st: (Seq<u8>, int))
    requires
        a.wf(),
        spec_single_row_state(a, st),
        EditorConfig::spec_delete_char_rel(a, b),
    ensures
        spec_single_row_state(b, spec_apply_edit(st, EditOp::Delete)),
{
}

/// The outcome of one prompt keystroke.
#[derive(Clone, Copy, Debug, PartialEq, Eq, Structural)]
pub enum PromptStep {
    Continue,
    Submit,
    Cancel,
}

/// What the caller of `editor_process_keypress` must do next.
#[derive(Clone, Copy, Debug, PartialEq, Eq, Structural)]
pub enum KeyAction {
    Continue,
    Quit,
    Save,
    Find,
}

/// The prompt buffer after one keystroke: backspace, delete and the
/// control-h byte remove the last byte; enter and escape leave it alone;
/// any other byte below 128 (except the control-c byte) is appended.
pub open spec fn spec_prompt_pop(buf: Seq<u8>) -> Seq<u8> {
    if buf.len() > 0 {
        buf.drop_last()
    } else {
        buf
    }
}

pub open spec fn spec_prompt_buf(buf: Seq<u8>, key: EditorKey) -> Seq<u8> {
    match key {
        EditorKey::Function(Function::Backspace) => spec_prompt_pop(buf),
        EditorKey::Function(Function::Delete) => spec_prompt_pop(buf),
        EditorKey::Else(val) => if val == 13 || val == 27 {
            buf
        } else if val == 8 {
            spec_prompt_pop(buf)
        } else if val != 3 && val < 128 {
            buf.push(val)
        } else {
            buf
        },
        _ => buf,
    }
}

/// How a prompt keystroke resolves: enter submits a non-empty buffer,
/// escape cancels, anything else keeps the prompt open.
pub open spec fn spec_prompt_outcome(buf: Seq<u8>, key: EditorKey) -> PromptStep {
    match key {
        EditorKey::Else(val) => if val == 13 {
            if buf.len() > 0 {
                PromptStep::Submit
            } else {
                PromptStep::Continue
            }
        } else if val == 27 {
            PromptStep::Cancel
        } else {
            PromptStep::Continue
        },
        _ => PromptStep::Continue,
    }
}

/// A prompt template instantiated with the current buffer: an opening
/// brace stands for the buffer, a closing brace is dropped, every other
/// byte is copied.
pub open spec fn spec_prompt_message(prompt: Seq<u8>, buf: Seq<u8>) -> Seq<u8>
    decreases prompt.len(),
{
    if prompt.len() == 0 {
        Seq::empty()
    } else {
        let rest = spec_prompt_message(prompt.drop_first(), buf);
        if prompt.first() == 123 {
            buf + rest
        } else if prompt.first() == 125 {
            rest
        } else {
            seq![prompt.first()] + rest
        }
    }
}

/// Build the status line shown while a prompt is open.
pub fn editor_prompt_message(prompt: &Vec<u8>, buf: &Vec<u8>) -> (r: Vec<u8>)
    ensures
        r@ == spec_prompt_message(prompt@, buf@),
{
    let n = prompt.len();
    let mut out: Vec<u8> = Vec::new();
    let mut i: usize = 0;
    proof {
        assert(prompt@.skip(0) =~= prompt@);
        assert(out@ + spec_prompt_message(prompt@, buf@) =~= spec_prompt_message(prompt@, buf@));
    }
    while i < n
        invariant
            i <= n,
            n == prompt@.len(),
            out@ + spec_prompt_message(prompt@.skip(i as int), buf@) == spec_prompt_message(
                prompt@,
                buf@,
            ),
        decreases n - i,
    {
        proof {
            assert(prompt@.skip(i as int).first() == prompt@[i as int]);
            assert(prompt@.skip(i as int).drop_first() =~= prompt@.skip(i + 1));
        }
        let c = prompt[i];
        if c == 123 {
            out.extend_from_slice(buf.as_slice());
        } else if c == 125 {
        } else {
            out.push(c);
        }
        proof {
            assert(out@ + spec_prompt_message(prompt@.skip(i + 1), buf@) =~= spec_prompt_message(
                prompt@,
                buf@,
            ));
        }
        i = i + 1;
    }
    proof {
        assert(prompt@.skip(n as int) =~= Seq::<u8>::empty());
        assert(out@ =~= out@ + spec_prompt_message(Seq::<u8>::empty(), buf@));
    }
    out
}

impl EditorConfig {
    /// One keystroke of an interactive prompt: edit the buffer, decide
    /// whether the prompt continues, submits or is cancelled, and, for the
    /// search prompt (`find`), run the search callback on the updated
    /// buffer.  The caller owns the prompt loop: it shows the prompt
    /// message, reads keys, and clears the status line when the prompt
    /// ends.
    pub fn editor_prompt(&mut self, buf: &mut Vec<u8>, key: &EditorKey, find: bool) -> (r:
        PromptStep)
        requires
            old(self).wf(),
        ensures
            final(self).wf(),
            final(buf)@ == spec_prompt_buf(old(buf)@, *key),
            r == spec_prompt_outcome(old(buf)@, *key),
            find ==> crate::search::spec_find_callback_rel(
                *old(self),
                *final(self),
                final(buf)@,
                *key,
            ),
            !find ==> *final(self) == *old(self),
    {
        let mut outcome = PromptStep::Continue;
        match key {
            EditorKey::Function(Function::Backspace) | EditorKey::Function(Function::Delete) => {
                buf.pop();
            },
            EditorKey::Else(val) => {
                if *val == 13 {
                    if buf.len() != 0 {
                        outcome = PromptStep::Submit;
                    }
                } else if *val == 27 {
                    outcome = PromptStep::Cancel;
                } else if *val == 8 {
                    buf.pop();
                } else if *val != 3 && *val < 128 {
                    buf.push(*val);
                }
            },
            _ => {},
        }
        if find {
            self.editor_find_callback(buf, key);
        }
        outcome
    }

    /// The warning shown while quitting with unsaved changes.
    pub open spec fn spec_quit_warning(remaining: nat) -> Seq<u8> {
        spec_str_bytes("WARNING!!! File has unsaved changes. Press Ctrl-Q ") + spec_decimal(
            remaining,
        ) + spec_str_bytes(" more times to quit.")
    }

    /// Dispatch one decoded key.  Arrows and function keys move the
    /// cursor, enter breaks the line, backspace-like keys delete, and the
    /// control bytes for quit, save and find either end the session or ask
    /// the caller to run the save or search flow.  Quitting a dirty
    /// document takes repeated presses: each one counts down and warns,
    /// and the last one quits.
    pub fn editor_process_keypress(&mut self, key: &EditorKey) -> (r: KeyAction)
        requires
            old(self).wf(),
            old(self).screen_rows >= 1,
        ensures
            final(self).wf(),
            match *key {
                EditorKey::Arrow(arw) => r == KeyAction::Continue && Self::spec_move_rel(
                    *old(self),
                    *final(self),
                    arw,
                ),
                EditorKey::Function(f) => r == KeyAction::Continue && match f {
                    Function::Home => *final(self) == (EditorConfig {
                        cp_x: 0,
                        ..*old(self)
                    }),
                    Function::End => if old(self).cp_y < old(self).numrows {
                        *final(self) == (EditorConfig {
                            cp_x: old(self).erow@[old(self).cp_y as int].size,
                            ..*old(self)
                        })
                    } else {
                        *final(self) == *old(self)
                    },
                    Function::Delete => exists|mid: EditorConfig|
                        #[trigger] Self::spec_move_rel(*old(self), mid, Arrow::Right)
                            && Self::spec_delete_char_rel(mid, *final(self)),
                    Function::Backspace => Self::spec_delete_char_rel(*old(self), *final(self)),
                    Function::Up => (final(self).cp_x as int, final(self).cp_y as int)
                        == spec_move_n(
                        old(self).cp_x as int,
                        old(self).off_row as int,
                        spec_sizes(old(self).erow@),
                        Arrow::Up,
                        old(self).screen_rows as nat,
                    ) && *final(self) == (EditorConfig {
                        cp_x: final(self).cp_x,
                        cp_y: final(self).cp_y,
                        ..*old(self)
                    }),
                    Function::Down => ({
                        let bottom: int = if old(self).off_row + old(self).screen_rows - 1 > old(
                            self,
                        ).numrows {
                            old(self).numrows as int
                        } else {
                            old(self).off_row + old(self).screen_rows - 1
                        };
                        (final(self).cp_x as int, final(self).cp_y as int) == spec_move_n(
                            old(self).cp_x as int,
                            bottom,
                            spec_sizes(old(self).erow@),
                            Arrow::Down,
                            old(self).screen_rows as nat,
                        ) && *final(self) == (EditorConfig {
                            cp_x: final(self).cp_x,
                            cp_y: final(self).cp_y,
                            ..*old(self)
                        })
                    }),
                },
                EditorKey::Else(val) => {
                    if val == 17 {  // Ctrl-Q
                        if old(self).dirty && old(self).quit_times > 1 {
                            &&& r == KeyAction::Continue
                            &&& final(self).quit_times == old(self).quit_times - 1
                            &&& final(self).status_msg@ == Self::spec_quit_warning(
                                (old(self).quit_times - 1) as nat,
                            )
                            &&& *final(self) == (EditorConfig {
                                quit_times: final(self).quit_times,
                                status_msg: final(self).status_msg,
                                ..*old(self)
                            })
                        } else {
                            r == KeyAction::Quit && *final(self) == *old(self)
                        }
                    } else if val == 8 {  // Ctrl-H
                        r == KeyAction::Continue && Self::spec_delete_char_rel(
                            *old(self),
                            *final(self),
                        )
                    } else if val == 6 {  // Ctrl-F
                        r == KeyAction::Find && *final(self) == *old(self)
                    } else if val == 19 {  // Ctrl-S
                        r == KeyAction::Save && *final(self) == *old(self)
                    } else if val == 13 {  // Enter
                        r == KeyAction::Continue && Self::spec_insert_new_line_rel(
                            *old(self),
                            *final(self),
                        )
                    } else if val == 27 {  // Escape
                        r == KeyAction::Continue && *final(self) == *old(self)
                    } else {
                        r == KeyAction::Continue && Self::spec_insert_char_rel(
                            *old(self),
                            *final(self),
                            val,
                        )
                    }
                },
            },
    {
        match key {
            EditorKey::Arrow(arrow) => {
                self.editor_move_cursor(arrow);
                KeyAction::Continue
            },
            EditorKey::Function(func) => {
                match func {
                    Function::Home => {
                        self.cp_x = 0;
                    },
                    Function::End => {
                        if self.cp_y < self.numrows {
                            self.cp_x = self.erow[self.cp_y].size;
                        }
                    },
                    Function::Delete => {
                        self.editor_move_cursor(&Arrow::Right);
                        let ghost mid = *self;
                        self.editor_delete_char();
                        proof {
                            assert(Self::spec_move_rel(*old(self), mid, Arrow::Right));
                        }
                    },
                    Function::Backspace => {
                        self.editor_delete_char();
                    },
                    Function::Up | Function::Down => {
                        let going_up = match func {
                            Function::Up => true,
                            _ => false,
                        };
                        let arrow = if going_up {
                            Arrow::Up
                        } else {
                            Arrow::Down
                        };
                        if going_up {
                            self.cp_y = self.off_row;
                        } else {
                            let span = (self.screen_rows - 1) as usize;
                            if span > self.numrows - self.off_row {
                                self.cp_y = self.numrows;
                            } else {
                                self.cp_y = self.off_row + span;
                            }
                        }
                        let ghost x0 = self.cp_x as int;
                        let ghost y0 = self.cp_y as int;
                        let ghost sizes = spec_sizes(self.erow@);
                        let times = self.screen_rows;
                        let mut t: u16 = 0;
                        while t < times
                            invariant
                                t <= times,
                                times >= 1,
                                self.rows_wf(),
                                self.cp_y <= self.numrows,
                                t > 0 ==> (self.cp_y < self.numrows ==> self.cp_x
                                    <= self.erow@[self.cp_y as int].size),
                                t > 0 ==> (self.cp_y == self.numrows ==> self.cp_x == 0),
                                spec_move_n(x0, y0, sizes, arrow, times as nat) == spec_move_n(
                                    self.cp_x as int,
                                    self.cp_y as int,
                                    sizes,
                                    arrow,
                                    (times - t) as nat,
                                ),
                                sizes == spec_sizes(self.erow@),
                                *self == (EditorConfig {
                                    cp_x: self.cp_x,
                                    cp_y: self.cp_y,
                                    ..*old(self)
                                }),
                            decreases times - t,
                        {
                            self.editor_move_cursor(&arrow);
                            t = t + 1;
                        }
                    },
                }
                KeyAction::Continue
            },
            EditorKey::Else(val) => {
                if *val == 17 {
                    if self.dirty && self.quit_times > 1 {
                        proof {
                            reveal_strlit("WARNING!!! File has unsaved changes. Press Ctrl-Q ");
                            reveal_strlit(" more times to quit.");
                        }
                        self.quit_times = self.quit_times - 1;
                        let mut m = str_to_bytes(
                            "WARNING!!! File has unsaved changes. Press Ctrl-Q ",
                        );
                        let num = format_usize(self.quit_times as usize);
                        m.extend_from_slice(num.as_slice());
                        let suffix = str_to_bytes(" more times to quit.");
                        m.extend_from_slice(suffix.as_slice());
                        proof {
                            assert(m@ =~= Self::spec_quit_warning(self.quit_times as nat));
                        }
                        self.status_msg = m;
                        KeyAction::Continue
                    } else {
                        KeyAction::Quit
                    }
                } else if *val == 8 {
                    self.editor_delete_char();
                    KeyAction::Continue
                } else if *val == 6 {
                    KeyAction::Find
                } else if *val == 19 {
                    KeyAction::Save
                } else if *val == 13 {
                    self.editor_insert_new_line();
                    KeyAction::Continue
                } else if *val == 27 {
                    KeyAction::Continue
                } else {
                    self.editor_insert_char(*val);
                    KeyAction::Continue
                }
            },
        }
    }
}

} // verus!
