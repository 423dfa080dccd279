//! The incremental search controller.
//!
//! Each keystroke of an active search calls `editor_find_callback` with the
//! accumulated query.  The callback first undoes the previous match's
//! highlight override, then interprets the key (arrows steer the direction,
//! enter and escape end the search), and finally walks the rows circularly
//! from the previous match looking for the query in their render forms.
//! The first hit receives the cursor, a forced scroll, and a `MATCH`
//! overlay whose replaced highlight is saved for the next restore.

use vstd::prelude::*;

use crate::editor::{spec_renders, spec_row_same_text, EditorConfig, SavedHl};
use crate::highlight::{clone_hl, Highlight};
use crate::keys::{Arrow, EditorKey};
use crate::row::{
    editor_row_rxtocx, lemma_rx_to_cx_range, spec_expand, spec_rx_to_cx,
};
use crate::text::{find_substring, spec_first_match};

verus! {

/// One circular step through the rows: past the last row wraps to the
/// first, before the first wraps to the last.
pub open spec fn spec_wrap_step(cur: int, dir: int, n: int) -> int {
    let nx = cur + dir;
    if nx < 0 {
        n - 1
    } else if nx >= n {
        0
    } else {
        nx
    }
}

/// Search the rows circularly: starting after `cur`, step `dir` through at
/// most `fuel` rows and return the first row holding the query, with the
/// match's byte offset in that row's render form.
pub open spec fn spec_search_rows(
    renders: Seq<Seq<u8>>,
    cur: int,
    dir: int,
    q: Seq<u8>,
    fuel: nat,
) -> Option<(int, int)>
    decreases fuel,
{
    if fuel == 0 {
        None
    } else {
        let nxt = spec_wrap_step(cur, dir, renders.len() as int);
        match spec_first_match(renders[nxt], q) {
            Some(pt) => Some((nxt, pt)),
            None => spec_search_rows(renders, nxt, dir, q, (fuel - 1) as nat),
        }
    }
}

/// How a key steers the search: arrows choose the direction and keep the
/// previous match as starting point; any other key restarts from the top.
pub open spec fn spec_search_dir(pre_lm: Option<usize>, key: EditorKey) -> (int, Option<usize>) {
    match key {
        EditorKey::Arrow(Arrow::Right) | EditorKey::Arrow(Arrow::Down) => (1, pre_lm),
        EditorKey::Arrow(Arrow::Left) | EditorKey::Arrow(Arrow::Up) => (-1, pre_lm),
        _ => (1, None),
    }
}

/// Whether the pending highlight override can be undone: its row still
/// exists and the saved classes still fit that row's render form.
pub open spec fn spec_restore_applies(a: EditorConfig) -> bool {
    match a.saved_hl {
        Some(s) => s.line < a.numrows && s.hl@.len() == a.erow@[s.line as int].render@.len(),
        None => false,
    }
}

/// Row `i`'s highlight once the pending override is undone.
pub open spec fn spec_restored_hl(a: EditorConfig, i: int) -> Seq<Highlight> {
    match a.saved_hl {
        Some(s) => if spec_restore_applies(a) && s.line == i {
            s.hl@
        } else {
            a.erow@[i].hl@
        },
        None => a.erow@[i].hl@,
    }
}

/// `hl` with the classes in `[pt, pt + n)` replaced by `MATCH`.
pub open spec fn spec_overlay(hl: Seq<Highlight>, pt: int, n: int) -> Seq<Highlight> {
    Seq::new(
        hl.len(),
        |i: int| if pt <= i < pt + n {
            Highlight::MATCH
        } else {
            hl[i]
        },
    )
}

/// Fields the search callback never touches.
pub open spec fn spec_search_same(a: EditorConfig, b: EditorConfig) -> bool {
    &&& b.numrows == a.numrows
    &&& b.erow@.len() == a.erow@.len()
    &&& (forall|i: int|
        0 <= i < a.erow@.len() ==> spec_row_same_text(a.erow@[i], #[trigger] b.erow@[i]))
    &&& b.screen_rows == a.screen_rows
    &&& b.screen_cols == a.screen_cols
    &&& b.off_col == a.off_col
    &&& b.rx == a.rx
    &&& b.filename == a.filename
    &&& b.status_msg == a.status_msg
    &&& b.dirty == a.dirty
    &&& b.quit_times == a.quit_times
    &&& b.current_color == a.current_color
    &&& b.editor_syntax == a.editor_syntax
    &&& b.syntax_pattern == a.syntax_pattern
}

/// What one search callback does to the state, given the query and the key.
pub open spec fn spec_find_callback_rel(
    a: EditorConfig,
    b: EditorConfig,
    q: Seq<u8>,
    key: EditorKey,
) -> bool {
    let dl = spec_search_dir(a.last_match, key);
    let lm = dl.1;
    let dir: int = if lm is None {
        1
    } else {
        dl.0
    };
    let ending = key == EditorKey::Else(13u8) || key == EditorKey::Else(27u8);
    let start: int = match lm {
        None => -1,
        Some(l) => l as int,
    };
    let res = spec_search_rows(spec_renders(a.erow@), start, dir, q, a.numrows as nat);
    &&& spec_search_same(a, b)
    &&& (if ending {
        // The search ends: only the restore and the reset happen.
        &&& b.last_match is None
        &&& b.direction == 1
        &&& b.saved_hl is None
        &&& b.cp_x == a.cp_x
        &&& b.cp_y == a.cp_y
        &&& b.off_row == a.off_row
        &&& (forall|i: int|
            0 <= i < b.erow@.len() ==> (#[trigger] b.erow@[i]).hl@ == spec_restored_hl(a, i))
    } else {
        match res {
            None => {
                &&& b.last_match == lm
                &&& b.direction == dir
                &&& b.saved_hl is None
                &&& b.cp_x == a.cp_x
                &&& b.cp_y == a.cp_y
                &&& b.off_row == a.off_row
                &&& (forall|i: int|
                    0 <= i < b.erow@.len() ==> (#[trigger] b.erow@[i]).hl@ == spec_restored_hl(
                        a,
                        i,
                    ))
            },
            Some((r, pt)) => {
                &&& (match b.last_match {
                    Some(l) => l == r,
                    None => false,
                })
                &&& b.direction == dir
                &&& b.cp_y == r
                &&& b.cp_x == spec_rx_to_cx(a.erow@[r].chars@, pt)
                &&& b.off_row == a.numrows
                &&& (match b.saved_hl {
                    Some(s) => s.line == r && s.hl@ == spec_restored_hl(a, r),
                    None => false,
                })
                &&& (forall|i: int|
                    0 <= i < b.erow@.len() && i != r ==> (#[trigger] b.erow@[i]).hl@
                        == spec_restored_hl(a, i))
                &&& b.erow@[r].hl@ == spec_overlay(spec_restored_hl(a, r), pt, q.len() as int)
            },
        }
    })
}

impl EditorConfig {
    /// Undo the pending search override, restoring the saved highlight of
    /// its row when it still fits, and forget it.
    fn restore_saved_hl(&mut self)
        requires
            old(self).rows_wf(),
        ensures
            final(self).rows_wf(),
            final(self).saved_hl is None,
            final(self).erow@.len() == old(self).erow@.len(),
            forall|i: int|
                0 <= i < old(self).erow@.len() ==> spec_row_same_text(
                    old(self).erow@[i],
                    #[trigger] final(self).erow@[i],
                ),
            forall|i: int|
                0 <= i < final(self).erow@.len() ==> (#[trigger] final(self).erow@[i]).hl@
                    == spec_restored_hl(*old(self), i),
            *final(self) == (EditorConfig {
                saved_hl: None,
                erow: final(self).erow,
                ..*old(self)
            }),
    {
        let applies: bool;
        let mut line: usize = 0;
        match &self.saved_hl {
            None => {
                applies = false;
            },
            Some(s) => {
                line = s.line;
                applies = s.line < self.numrows && s.hl.len() == self.erow[s.line].render.len();
            },
        }
        if applies {
            let hl_copy = match &self.saved_hl {
                Some(s) => clone_hl(&s.hl),
                None => {
                    proof {
                        assert(false);
                    }
                    Vec::new()
                },
            };
            let mut row = self.erow.remove(line);
            row.hl = hl_copy;
            self.erow.insert(line, row);
            proof {
                assert(self.erow@ =~= old(self).erow@.update(
                    line as int,
                    self.erow@[line as int],
                ));
                assert forall|i: int| 0 <= i < self.erow@.len() implies (
                #[trigger] self.erow@[i]).wf() by {
                    if i != line {
                        assert(self.erow@[i] == old(self).erow@[i]);
                    }
                }
            }
        }
        self.saved_hl = None;
    }

    /// One step of the incremental search, driven by the latest key and
    /// the accumulated query.  Restores the previous override, steers the
    /// direction, and on a continuing search finds and highlights the next
    /// row whose render form contains the query.
    #[verifier::rlimit(100)]
    pub fn editor_find_callback(&mut self, query: &Vec<u8>, key: &EditorKey)
        requires
            old(self).wf(),
        ensures
            final(self).wf(),
            spec_find_callback_rel(*old(self), *final(self), query@, *key),
    {
        let ghost a = *old(self);
        self.restore_saved_hl();
        let mut ending = false;
        match key {
            EditorKey::Arrow(Arrow::Right) | EditorKey::Arrow(Arrow::Down) => {
                self.direction = 1;
            },
            EditorKey::Arrow(Arrow::Left) | EditorKey::Arrow(Arrow::Up) => {
                self.direction = -1;
            },
            EditorKey::Else(val) => {
                self.last_match = None;
                self.direction = 1;
                if *val == 13 || *val == 27 {
                    ending = true;
                }
            },
            _ => {
                self.last_match = None;
                self.direction = 1;
            },
        }
        if ending {
            return ;
        }
        if self.last_match.is_none() {
            self.direction = 1;
        }
        let ghost dir = self.direction as int;
        let ghost lm0 = self.last_match;
        let ghost start: int = match lm0 {
            None => -1,
            Some(l) => l as int,
        };
        let ghost renders = spec_renders(self.erow@);
        proof {
            assert(renders =~= spec_renders(a.erow@));
        }
        let n = self.numrows;
        let mut cur_opt: Option<usize> = self.last_match;
        let mut i: usize = 0;
        while i < n
            invariant
                i <= n,
                n == self.numrows,
                self.wf(),
                self.direction as int == dir,
                self.last_match == lm0,
                dir == 1 || dir == -1,
                !(*key == EditorKey::Else(13u8) || *key == EditorKey::Else(27u8)),
                lm0 == spec_search_dir(a.last_match, *key).1,
                dir == if lm0 is None {
                    1int
                } else {
                    spec_search_dir(a.last_match, *key).0
                },
                start == match lm0 {
                    None => -1int,
                    Some(l) => l as int,
                },
                a == *old(self),
                renders == spec_renders(self.erow@),
                renders == spec_renders(a.erow@),
                match cur_opt {
                    None => dir == 1,
                    Some(c) => c < n,
                },
                spec_search_rows(renders, start, dir, query@, n as nat) == spec_search_rows(
                    renders,
                    match cur_opt {
                        None => -1int,
                        Some(c) => c as int,
                    },
                    dir,
                    query@,
                    (n - i) as nat,
                ),
                *self == (EditorConfig {
                    saved_hl: None,
                    erow: self.erow,
                    last_match: self.last_match,
                    direction: self.direction,
                    ..a
                }),
                self.saved_hl is None,
                self.erow@.len() == a.erow@.len(),
                forall|j: int|
                    0 <= j < a.erow@.len() ==> spec_row_same_text(
                        a.erow@[j],
                        #[trigger] self.erow@[j],
                    ),
                forall|j: int|
                    0 <= j < self.erow@.len() ==> (#[trigger] self.erow@[j]).hl@
                        == spec_restored_hl(a, j),
            decreases n - i,
        {
            let next: usize = match cur_opt {
                None => 0,
                Some(c) => {
                    if self.direction == 1 {
                        if c + 1 >= n {
                            0
                        } else {
                            c + 1
                        }
                    } else {
                        if c == 0 {
                            n - 1
                        } else {
                            c - 1
                        }
                    }
                },
            };
            proof {
                assert(next as int == spec_wrap_step(
                    match cur_opt {
                        None => -1int,
                        Some(c) => c as int,
                    },
                    dir,
                    n as int,
                ));
                assert(renders[next as int] == self.erow@[next as int].render@);
            }
            let ghost cur_int: int = match cur_opt {
                None => -1int,
                Some(c) => c as int,
            };
            let found = find_substring(&self.erow[next].render, query);
            match found {
                Some(pt) => {
                    proof {
                        assert(spec_search_rows(renders, cur_int, dir, query@, (n - i) as nat)
                            == Some((next as int, pt as int)));
                        assert(spec_search_rows(renders, start, dir, query@, n as nat) == Some((
                            next as int,
                            pt as int,
                        )));
                    }
                    self.last_match = Some(next);
                    self.cp_y = next;
                    proof {
                        assert(self.erow@[next as int].wf());
                        assert(spec_expand(self.erow@[next as int].chars@).len()
                            == self.erow@[next as int].render@.len());
                        lemma_rx_to_cx_range(self.erow@[next as int].chars@, pt as int);
                    }
                    self.cp_x = editor_row_rxtocx(&self.erow[next].chars, pt);
                    self.off_row = self.numrows;
                    let ghost before_overlay = *self;
                    let mut row = self.erow.remove(next);
                    let saved_copy = clone_hl(&row.hl);
                    self.saved_hl = Some(SavedHl { line: next, hl: saved_copy });
                    let qn = query.len();
                    let rl = row.render.len();
                    let mut k: usize = 0;
                    while k < qn
                        invariant
                            k <= qn,
                            qn == query@.len(),
                            next < before_overlay.erow@.len(),
                            pt + qn <= rl,
                            rl == row.render@.len(),
                            row.hl@.len() == row.render@.len(),
                            row.chars == before_overlay.erow@[next as int].chars,
                            row.render == before_overlay.erow@[next as int].render,
                            row.size == before_overlay.erow@[next as int].size,
                            row.rsize == before_overlay.erow@[next as int].rsize,
                            forall|m: int|
                                0 <= m < row.hl@.len() ==> row.hl@[m] == (if pt <= m < pt + k {
                                    Highlight::MATCH
                                } else {
                                    before_overlay.erow@[next as int].hl@[m]
                                }),
                        decreases qn - k,
                    {
                        row.hl.set(pt + k, Highlight::MATCH);
                        k = k + 1;
                    }
                    self.erow.insert(next, row);
                    proof {
                        assert(self.erow@ =~= before_overlay.erow@.update(
                            next as int,
                            self.erow@[next as int],
                        ));
                        assert(self.erow@[next as int].hl@ =~= spec_overlay(
                            spec_restored_hl(a, next as int),
                            pt as int,
                            query@.len() as int,
                        ));
                        assert forall|j: int| 0 <= j < self.erow@.len() implies (
                        #[trigger] self.erow@[j]).wf() by {
                            if j != next {
                                assert(self.erow@[j] == before_overlay.erow@[j]);
                            }
                        }
                        assert forall|j: int| 0 <= j < a.erow@.len() implies spec_row_same_text(
                            a.erow@[j],
                            #[trigger] self.erow@[j],
                        ) by {
                            if j != next {
                                assert(self.erow@[j] == before_overlay.erow@[j]);
                                assert(spec_row_same_text(a.erow@[j], before_overlay.erow@[j]));
                            } else {
                                assert(spec_row_same_text(
                                    a.erow@[next as int],
                                    before_overlay.erow@[next as int],
                                ));
                            }
                        }
                        assert forall|j: int|
                            0 <= j < self.erow@.len() && j != next implies (
                        #[trigger] self.erow@[j]).hl@ == spec_restored_hl(a, j) by {
                            assert(self.erow@[j] == before_overlay.erow@[j]);
                        }
                        assert(spec_find_callback_rel(a, *self, query@, *key));
                    }
                    return ;
                },
                None => {
                    proof {
                        assert(spec_search_rows(renders, cur_int, dir, query@, (n - i) as nat)
                            == spec_search_rows(renders, next as int, dir, query@, (n - i
                            - 1) as nat));
                    }
                    cur_opt = Some(next);
                },
            }
            i = i + 1;
        }
        proof {
            assert(spec_search_rows(
                renders,
                match cur_opt {
                    None => -1int,
                    Some(c) => c as int,
                },
                dir,
                query@,
                0nat,
            ) is None);
        }
    }

    /// The cursor and viewport to restore if the search is cancelled.
    pub fn editor_find_begin(&self) -> (s: (usize, usize, usize, usize))
        ensures
            s == (self.cp_x, self.cp_y, self.off_col, self.off_row),
    {
        (self.cp_x, self.cp_y, self.off_col, self.off_row)
    }

    /// End a search session: a cancelled search restores the cursor and
    /// viewport saved at entry, a submitted one keeps the match position.
    pub fn editor_find_end(&mut self, saved: (usize, usize, usize, usize), cancelled: bool)
        requires
            old(self).wf(),
            cancelled ==> saved.1 <= old(self).numrows,
            cancelled && saved.1 < old(self).numrows ==> saved.0 <= old(self).erow@[saved.1 as int].size,
            cancelled && saved.1 == old(self).numrows ==> saved.0 == 0,
            cancelled ==> saved.3 <= old(self).numrows,
        ensures
            final(self).wf(),
            cancelled ==> *final(self) == (EditorConfig {
                cp_x: saved.0,
                cp_y: saved.1,
                off_col: saved.2,
                off_row: saved.3,
                ..*old(self)
            }),
            !cancelled ==> *final(self) == *old(self),
    {
        if cancelled {
            self.cp_x = saved.0;
            self.cp_y = saved.1;
            self.off_col = saved.2;
            self.off_row = saved.3;
        }
    }
}

} // verus!
