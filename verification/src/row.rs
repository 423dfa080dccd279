//! One line of the document: its stored bytes, its tab-expanded render
//! form, and one highlight class per rendered byte.

use vstd::prelude::*;

use crate::highlight::{
    spec_class_at, spec_row_start_state, spec_scan_classes, spec_scan_state_at, scan_row,
    EditorSyntaxInf, HLFlags, Highlight,
};

verus! {

/// How many columns a tab starting at render column `col` occupies: it
/// advances to the next multiple of the tab stop.
pub open spec fn spec_tab_cols(col: int) -> int {
    8 - (col % 8)
}

/// A run of `n` spaces.
pub open spec fn spec_spaces(n: int) -> Seq<u8> {
    Seq::new(n as nat, |i: int| 32u8)
}

/// The render form of a row: every byte copied, except that a tab becomes
/// the spaces that pad to the next tab stop.
pub open spec fn spec_expand(s: Seq<u8>) -> Seq<u8>
    decreases s.len(),
{
    if s.len() == 0 {
        Seq::empty()
    } else {
        let pre = spec_expand(s.drop_last());
        if s.last() == 9 {
            pre + spec_spaces(spec_tab_cols(pre.len() as int))
        } else {
            pre.push(s.last())
        }
    }
}

/// The render-space column of content-space column `cx`: the rendered
/// width of the content up to `cx`.
pub open spec fn spec_cx_to_rx(s: Seq<u8>, cx: int) -> int {
    spec_expand(s.take(cx)).len() as int
}

/// The content-space column for render-space column `rx`, scanning from
/// content column `cx`: the first content column whose cumulative rendered
/// width exceeds `rx`, or the row length if none does.
pub open spec fn spec_rx_to_cx_from(s: Seq<u8>, rx: int, cx: int) -> int
    decreases s.len() - cx,
{
    if cx < 0 || cx >= s.len() {
        s.len() as int
    } else if spec_cx_to_rx(s, cx + 1) > rx {
        cx
    } else {
        spec_rx_to_cx_from(s, rx, cx + 1)
    }
}

pub open spec fn spec_rx_to_cx(s: Seq<u8>, rx: int) -> int {
    spec_rx_to_cx_from(s, rx, 0)
}

/// Expanding one more byte never shortens the render form, and lengthens
/// it by at most the tab stop.
pub proof fn lemma_expand_step_len(s: Seq<u8>)
    requires
        s.len() > 0,
    ensures
        spec_expand(s.drop_last()).len() < spec_expand(s).len(),
        spec_expand(s).len() <= spec_expand(s.drop_last()).len() + 8,
{
    let pre = spec_expand(s.drop_last());
    assert(0 <= pre.len() % 8 < 8);
}

/// Rendered prefixes grow with the prefix: the width of `take(i)` is at
/// most the width of `take(j)` for `i <= j`.
pub proof fn lemma_expand_prefix_mono(s: Seq<u8>, i: int, j: int)
    requires
        0 <= i <= j <= s.len(),
    ensures
        spec_expand(s.take(i)).len() <= spec_expand(s.take(j)).len(),
    decreases j - i,
{
    if i < j {
        lemma_expand_prefix_mono(s, i, j - 1);
        assert(s.take(j).drop_last() =~= s.take(j - 1));
        lemma_expand_step_len(s.take(j));
    }
}

/// The render form is at least as long as the content; with no tabs it has
/// exactly the content's length (and is the content itself).
pub proof fn lemma_expand_len(s: Seq<u8>)
    ensures
        spec_expand(s).len() >= s.len(),
        (forall|i: int| 0 <= i < s.len() ==> s[i] != 9) ==> spec_expand(s) == s,
    decreases s.len(),
{
    if s.len() > 0 {
        lemma_expand_len(s.drop_last());
        lemma_expand_step_len(s);
        if forall|i: int| 0 <= i < s.len() ==> s[i] != 9 {
            assert(forall|i: int| 0 <= i < s.drop_last().len() ==> s.drop_last()[i] != 9);
            assert(s.last() != 9);
            assert(spec_expand(s.drop_last()).push(s.last()) =~= s);
        }
    }
}

/// One line of the document.  `chars` holds the stored bytes (no trailing
/// newline), `render` the tab-expanded form, `hl` one class per rendered
/// byte; `size` and `rsize` cache the two lengths.
#[derive(Debug)]
pub struct Erow {
    pub size: usize,
    pub chars: Vec<u8>,
    pub rsize: usize,
    pub render: Vec<u8>,
    pub hl: Vec<Highlight>,
}

impl Erow {
    /// The row invariant: cached sizes agree, the render form is the tab
    /// expansion of the content, and there is one class per rendered byte.
    pub open spec fn wf(self) -> bool {
        &&& self.size == self.chars@.len()
        &&& self.rsize == self.render@.len()
        &&& self.render@ == spec_expand(self.chars@)
        &&& self.hl@.len() == self.render@.len()
    }

    /// The classes the scanner assigns to this row's render form, entered
    /// with open-string state `in_string` under `flags`.
    pub open spec fn spec_scanned_hl(self, in_string: u8, flags: HLFlags) -> Seq<Highlight> {
        spec_scan_classes(self.render@, spec_row_start_state(in_string), flags)
    }

    /// The open-string state this row's scan leaves behind.
    pub open spec fn spec_scan_out(self, in_string: u8, flags: HLFlags) -> u8 {
        spec_scan_state_at(
            self.render@,
            spec_row_start_state(in_string),
            self.render@.len() as int,
            flags,
        ).in_string
    }

    /// The highlight the row gets under syntax state `si`: all-normal when
    /// no syntax is selected, the scanner's classes otherwise.
    pub open spec fn spec_hl_after_update(self, si: EditorSyntaxInf) -> Seq<Highlight> {
        match si.syntax {
            None => Seq::new(self.render@.len(), |i: int| Highlight::NORMAL),
            Some(es) => self.spec_scanned_hl(si.in_string, es.flags),
        }
    }

    /// The syntax state left after highlighting the row under `si`: the
    /// scan may open or close a string, and without a syntax the state is
    /// untouched.
    pub open spec fn spec_in_string_after_update(self, si: EditorSyntaxInf) -> u8 {
        match si.syntax {
            None => si.in_string,
            Some(es) => self.spec_scan_out(si.in_string, es.flags),
        }
    }

    /// Recompute the render form from the content, then re-highlight the
    /// row, threading the open-string state through `si`.
    pub fn editor_update_row(&mut self, si: &mut EditorSyntaxInf)
        ensures
            final(self).chars == old(self).chars,
            final(self).size == old(self).size,
            final(self).render@ == spec_expand(old(self).chars@),
            final(self).rsize == final(self).render@.len(),
            final(self).hl@ == final(self).spec_hl_after_update(*old(si)),
            old(self).size == old(self).chars@.len() ==> final(self).wf(),
            final(si).syntax == old(si).syntax,
            final(si).in_string == final(self).spec_in_string_after_update(*old(si)),
    {
        let n = self.chars.len();
        let mut new_vec: Vec<u8> = Vec::new();
        let mut i: usize = 0;
        while i < n
            invariant
                n == self.chars@.len(),
                i <= n,
                new_vec@ == spec_expand(self.chars@.take(i as int)),
            decreases n - i,
        {
            let ghost pre = new_vec@;
            proof {
                assert(self.chars@.take(i + 1).drop_last() =~= self.chars@.take(i as int));
            }
            if self.chars[i] == 9 {
                proof {
                    assert(0 <= pre.len() % 8 < 8);
                }
                new_vec.push(32);
                proof {
                    assert(new_vec@ =~= pre + spec_spaces(1));
                }
                while new_vec.len() % 8 != 0
                    invariant
                        pre.len() < new_vec@.len() <= pre.len() + spec_tab_cols(pre.len() as int),
                        new_vec@ == pre + spec_spaces(new_vec@.len() - pre.len()),
                    decreases pre.len() + 8 - new_vec@.len(),
                {
                    proof {
                        assert(pre + spec_spaces(new_vec@.len() - pre.len() + 1) =~= (pre
                            + spec_spaces(new_vec@.len() - pre.len())).push(32u8));
                        assert(0 <= pre.len() % 8 < 8);
                    }
                    new_vec.push(32);
                }
                proof {
                    assert(new_vec@.len() == pre.len() + spec_tab_cols(pre.len() as int));
                    assert(new_vec@ =~= spec_expand(self.chars@.take(i + 1)));
                }
            } else {
                proof {
                    assert(pre.push(self.chars@[i as int]) =~= spec_expand(self.chars@.take(i + 1)));
                }
                new_vec.push(self.chars[i]);
            }
            i = i + 1;
        }
        proof {
            assert(self.chars@.take(n as int) =~= self.chars@);
        }
        self.render = new_vec;
        self.rsize = self.render.len();
        self.editor_update_syntax(si);
    }

    /// Rewrite `hl` in place, classifying every rendered byte; threads the
    /// open-string state through `si`.  Without a selected syntax every
    /// class is normal and `si` is untouched.
    pub fn editor_update_syntax(&mut self, si: &mut EditorSyntaxInf)
        ensures
            final(self).chars == old(self).chars,
            final(self).size == old(self).size,
            final(self).render == old(self).render,
            final(self).rsize == old(self).rsize,
            final(self).hl@ == old(self).spec_hl_after_update(*old(si)),
            final(si).syntax == old(si).syntax,
            final(si).in_string == old(self).spec_in_string_after_update(*old(si)),
    {
        match &si.syntax {
            None => {
                let mut hl: Vec<Highlight> = Vec::new();
                let n = self.render.len();
                let mut i: usize = 0;
                while i < n
                    invariant
                        i <= n,
                        hl@ =~= Seq::new(i as nat, |j: int| Highlight::NORMAL),
                    decreases n - i,
                {
                    hl.push(Highlight::NORMAL);
                    proof {
                        assert(hl@ =~= Seq::new((i + 1) as nat, |j: int| Highlight::NORMAL));
                    }
                    i = i + 1;
                }
                self.hl = hl;
            },
            Some(es) => {
                let flags = es.flags;
                let (hl, out) = scan_row(&self.render, si.in_string, flags);
                self.hl = hl;
                si.in_string = out;
            },
        }
    }

    /// Insert byte `c` at content column `at` (clamped to the row end) and
    /// re-derive the render form and highlight.
    pub fn editor_row_insert_character(&mut self, at: usize, c: u8, si: &mut EditorSyntaxInf)
        requires
            old(self).size == old(self).chars@.len(),
        ensures
            final(self).chars@ == old(self).chars@.insert(
                if at > old(self).chars@.len() { old(self).chars@.len() as int } else { at as int },
                c,
            ),
            final(self).size == old(self).size + 1,
            final(self).wf(),
            final(self).hl@ == final(self).spec_hl_after_update(*old(si)),
            final(si).syntax == old(si).syntax,
            final(si).in_string == final(self).spec_in_string_after_update(*old(si)),
    {
        let pos = if at > self.size {
            self.size
        } else {
            at
        };
        self.chars.insert(pos, c);
        self.size = self.chars.len();
        self.editor_update_row(si);
    }

    /// Remove the byte at content column `at` and re-derive the render form
    /// and highlight.
    pub fn editor_row_delete_char(&mut self, at: usize, si: &mut EditorSyntaxInf)
        requires
            old(self).size == old(self).chars@.len(),
            at < old(self).chars@.len(),
        ensures
            final(self).chars@ == old(self).chars@.remove(at as int),
            final(self).size == old(self).size - 1,
            final(self).wf(),
            final(self).hl@ == final(self).spec_hl_after_update(*old(si)),
            final(si).syntax == old(si).syntax,
            final(si).in_string == final(self).spec_in_string_after_update(*old(si)),
    {
        self.chars.remove(at);
        self.size = self.chars.len();
        self.editor_update_row(si);
    }
}

/// The render-space column of content column `cx`: one column per plain
/// byte, and each tab advances to the next tab stop.
pub fn editor_row_cxtorx(chars: &Vec<u8>, cx: usize) -> (rx: usize)
    requires
        cx <= chars@.len(),
        spec_expand(chars@).len() <= usize::MAX,
    ensures
        rx == spec_cx_to_rx(chars@, cx as int),
{
    let mut rx: usize = 0;
    let mut i: usize = 0;
    while i < cx
        invariant
            i <= cx <= chars@.len(),
            spec_expand(chars@).len() <= usize::MAX,
            rx == spec_cx_to_rx(chars@, i as int),
        decreases cx - i,
    {
        proof {
            assert(chars@.take(i + 1).drop_last() =~= chars@.take(i as int));
            lemma_expand_prefix_mono(chars@, i + 1, chars@.len() as int);
            assert(chars@.take(chars@.len() as int) =~= chars@);
        }
        if chars[i] == 9 {
            rx = rx + (8 - rx % 8);
        } else {
            rx = rx + 1;
        }
        i = i + 1;
    }
    rx
}

/// The content-space column whose rendered span covers render column `rx`:
/// the first content column whose cumulative width exceeds `rx`, or the row
/// length when the row is narrower than `rx`.
pub fn editor_row_rxtocx(chars: &Vec<u8>, rx: usize) -> (cx: usize)
    requires
        spec_expand(chars@).len() <= usize::MAX,
    ensures
        cx == spec_rx_to_cx(chars@, rx as int),
{
    let n = chars.len();
    let mut cur_rx: usize = 0;
    let mut cx: usize = 0;
    while cx < n
        invariant
            cx <= n,
            n == chars@.len(),
            spec_expand(chars@).len() <= usize::MAX,
            cur_rx == spec_cx_to_rx(chars@, cx as int),
            spec_rx_to_cx(chars@, rx as int) == spec_rx_to_cx_from(chars@, rx as int, cx as int),
        decreases n - cx,
    {
        proof {
            assert(chars@.take(cx + 1).drop_last() =~= chars@.take(cx as int));
            lemma_expand_prefix_mono(chars@, cx + 1, chars@.len() as int);
            assert(chars@.take(chars@.len() as int) =~= chars@);
        }
        if chars[cx] == 9 {
            cur_rx = cur_rx + (8 - cur_rx % 8);
        } else {
            cur_rx = cur_rx + 1;
        }
        if cur_rx > rx {
            return cx;
        }
        cx = cx + 1;
    }
    cx
}

/// A well-formed row's render form is never shorter than its content,
/// and a tab-free row renders to exactly its content.  (The converse does
/// not hold: a tab that lands one column before a tab stop widens the row
/// by a single column, so equal lengths do not rule tabs out.)
pub proof fn lemma_row_render_len(r: Erow)
    requires
        r.wf(),
    ensures
        r.render@.len() >= r.chars@.len(),
        (forall|i: int| 0 <= i < r.chars@.len() ==> r.chars@[i] != 9) ==> r.render@
            == r.chars@,
{
    lemma_expand_len(r.chars@);
}

/// The content column for any render column is within the row.
pub proof fn lemma_rx_to_cx_range(s: Seq<u8>, rx: int)
    ensures
        0 <= spec_rx_to_cx(s, rx) <= s.len(),
{
    lemma_rx_to_cx_from_range(s, rx, 0);
}

proof fn lemma_rx_to_cx_from_range(s: Seq<u8>, rx: int, cx: int)
    requires
        0 <= cx <= s.len(),
    ensures
        cx <= spec_rx_to_cx_from(s, rx, cx) <= s.len(),
    decreases s.len() - cx,
{
    if cx < s.len() && !(spec_cx_to_rx(s, cx + 1) > rx) {
        lemma_rx_to_cx_from_range(s, rx, cx + 1);
    }
}

/// Render-column arithmetic round-trips on tab-free content: for every
/// content column of such a row, converting to a render column and back
/// gives the column itself.
pub proof fn lemma_render_column_inverse(s: Seq<u8>, cx: int)
    requires
        0 <= cx <= s.len(),
        forall|i: int| 0 <= i < s.len() ==> s[i] != 9,
    ensures
        spec_rx_to_cx(s, spec_cx_to_rx(s, cx)) == cx,
{
    lemma_tabfree_prefix_widths(s);
    lemma_rx_to_cx_tabfree_from(s, cx, 0);
}

/// On tab-free content every prefix renders to itself, so its width is its
/// length.
proof fn lemma_tabfree_prefix_widths(s: Seq<u8>)
    requires
        forall|i: int| 0 <= i < s.len() ==> s[i] != 9,
    ensures
        forall|k: int| 0 <= k <= s.len() ==> spec_cx_to_rx(s, k) == k,
{
    assert forall|k: int| 0 <= k <= s.len() implies spec_cx_to_rx(s, k) == k by {
        assert(forall|i: int| 0 <= i < s.take(k).len() ==> s.take(k)[i] != 9);
        lemma_expand_len(s.take(k));
    }
}

proof fn lemma_rx_to_cx_tabfree_from(s: Seq<u8>, cx: int, j: int)
    requires
        0 <= j <= cx <= s.len(),
        forall|k: int| 0 <= k <= s.len() ==> spec_cx_to_rx(s, k) == k,
    ensures
        spec_rx_to_cx_from(s, cx, j) == cx,
    decreases cx - j,
{
    if j < s.len() {
        if spec_cx_to_rx(s, j + 1) > cx {
            // width j+1 > cx means j >= cx, so j == cx.
        } else {
            lemma_rx_to_cx_tabfree_from(s, cx, j + 1);
        }
    }
}

} // verus!
