//! Highlight classes and the per-row syntax scanner.
//!
//! The scanner walks a row's rendered bytes left to right and assigns one
//! highlight class per byte.  The only state carried from one row to the
//! next is the open-string delimiter (`in_string`): a quoted string that was
//! not closed on an earlier row continues on this one.

use vstd::prelude::*;

verus! {

/// The semantic color category of one rendered byte.
#[allow(non_camel_case_types)]
#[derive(Clone, Copy, Debug, PartialEq, Eq, Structural)]
pub enum Highlight {
    NONE,
    NORMAL,
    NUMBER,
    MATCH,
    STRING,
}

/// Which highlight rules a syntax enables.
#[derive(Clone, Copy, Debug, PartialEq, Eq, Structural)]
pub struct HLFlags {
    pub numbers: bool,
    pub strings: bool,
}

/// A syntax definition: a display name, the filename extensions it applies
/// to, and the rules it enables.
#[derive(Debug)]
pub struct EditorSyntax {
    pub file_type: Vec<u8>,
    pub file_extensions: Vec<Vec<u8>>,
    pub flags: HLFlags,
}

/// The highlighting state of a document: the selected syntax, if any, and
/// the delimiter of a string left open by the most recently scanned row
/// (0 when no string is open).
#[derive(Debug)]
pub struct EditorSyntaxInf {
    pub syntax: Option<EditorSyntax>,
    pub in_string: u8,
}

/// The scanner state between two bytes of a row.  `esc` is set while the
/// byte after a backslash inside a string is pending; `prev_sep` and
/// `prev_num` record whether the previous byte was a separator and whether
/// it was classified as a number.
#[derive(Clone, Copy, Debug, PartialEq, Eq, Structural)]
pub struct ScanState {
    pub in_string: u8,
    pub esc: bool,
    pub prev_sep: bool,
    pub prev_num: bool,
}

/// The scanner state at the start of a row, continuing an open string.
pub open spec fn spec_row_start_state(in_string: u8) -> ScanState {
    ScanState { in_string, esc: false, prev_sep: true, prev_num: false }
}

/// The fixed separator set: space , . ( ) + - / * = ~ % < > [ ] ;
pub open spec fn spec_is_separator(b: u8) -> bool {
    b == 32 || b == 44 || b == 46 || b == 40 || b == 41 || b == 43 || b == 45 || b == 47 || b == 42
        || b == 61 || b == 126 || b == 37 || b == 60 || b == 62 || b == 91 || b == 93 || b == 59
}

pub open spec fn spec_is_digit(b: u8) -> bool {
    48 <= b && b <= 57
}

/// Classify one byte and produce the state for the next byte.  `has_next`
/// says whether another byte follows on this row (a backslash escapes the
/// next byte only when one exists).
pub open spec fn spec_scan_byte(st: ScanState, b: u8, has_next: bool, flags: HLFlags) -> (
    Highlight,
    ScanState,
) {
    if flags.strings && st.esc {
        // The byte after a backslash inside a string: always string-colored.
        (
            Highlight::STRING,
            ScanState { in_string: st.in_string, esc: false, prev_sep: st.prev_sep, prev_num: false },
        )
    } else if flags.strings && st.in_string != 0 {
        if b == 92 && has_next {  // '\\'
            (
                Highlight::STRING,
                ScanState { in_string: st.in_string, esc: true, prev_sep: st.prev_sep, prev_num: false },
            )
        } else if b == st.in_string {
            // Closing delimiter.
            (Highlight::STRING, ScanState { in_string: 0, esc: false, prev_sep: true, prev_num: false })
        } else {
            (
                Highlight::STRING,
                ScanState { in_string: st.in_string, esc: false, prev_sep: true, prev_num: false },
            )
        }
    } else if flags.strings && (b == 34 || b == 39) {  // '"' or '\''
        (
            Highlight::STRING,
            ScanState { in_string: b, esc: false, prev_sep: st.prev_sep, prev_num: false },
        )
    } else if flags.numbers && spec_is_digit(b) && (st.prev_num || st.prev_sep) {
        (
            Highlight::NUMBER,
            ScanState { in_string: st.in_string, esc: false, prev_sep: false, prev_num: true },
        )
    } else {
        (
            Highlight::NORMAL,
            ScanState { in_string: st.in_string, esc: false, prev_sep: spec_is_separator(b), prev_num: false },
        )
    }
}

/// The scanner state reached after the first `i` bytes of `r`.
pub open spec fn spec_scan_state_at(r: Seq<u8>, st0: ScanState, i: int, flags: HLFlags) -> ScanState
    decreases i,
{
    if i <= 0 {
        st0
    } else {
        spec_scan_byte(spec_scan_state_at(r, st0, i - 1, flags), r[i - 1], i < r.len(), flags).1
    }
}

/// The class the scanner assigns to byte `i` of `r`.
pub open spec fn spec_class_at(r: Seq<u8>, st0: ScanState, i: int, flags: HLFlags) -> Highlight {
    spec_scan_byte(spec_scan_state_at(r, st0, i, flags), r[i], i + 1 < r.len(), flags).0
}

/// The whole classification of a row.
pub open spec fn spec_scan_classes(r: Seq<u8>, st0: ScanState, flags: HLFlags) -> Seq<Highlight> {
    Seq::new(r.len(), |i: int| spec_class_at(r, st0, i, flags))
}

/// Classify every byte of a rendered row.  Returns the classes and the
/// string delimiter still open at the end of the row.
pub fn scan_row(render: &Vec<u8>, in_string: u8, flags: HLFlags) -> (r: (Vec<Highlight>, u8))
    ensures
        r.0@ == spec_scan_classes(render@, spec_row_start_state(in_string), flags),
        r.1 == spec_scan_state_at(
            render@,
            spec_row_start_state(in_string),
            render@.len() as int,
            flags,
        ).in_string,
{
    let ghost st0 = spec_row_start_state(in_string);
    let mut st = ScanState { in_string, esc: false, prev_sep: true, prev_num: false };
    let mut hl: Vec<Highlight> = Vec::new();
    let n = render.len();
    let mut i: usize = 0;
    while i < n
        invariant
            n == render@.len(),
            i <= n,
            st == spec_scan_state_at(render@, st0, i as int, flags),
            hl@.len() == i,
            forall|j: int| 0 <= j < i ==> hl@[j] == spec_class_at(render@, st0, j, flags),
        decreases n - i,
    {
        let b = render[i];
        let has_next = i + 1 < n;
        let (cls, st2) = scan_byte(st, b, has_next, flags);
        hl.push(cls);
        st = st2;
        i = i + 1;
    }
    proof {
        assert(hl@ =~= spec_scan_classes(render@, st0, flags));
    }
    (hl, st.in_string)
}

/// One scanner step, matching `spec_scan_byte` exactly.
fn scan_byte(st: ScanState, b: u8, has_next: bool, flags: HLFlags) -> (r: (Highlight, ScanState))
    ensures
        r == spec_scan_byte(st, b, has_next, flags),
{
    if flags.strings && st.esc {
        (
            Highlight::STRING,
            ScanState { in_string: st.in_string, esc: false, prev_sep: st.prev_sep, prev_num: false },
        )
    } else if flags.strings && st.in_string != 0 {
        if b == 92 && has_next {
            (
                Highlight::STRING,
                ScanState { in_string: st.in_string, esc: true, prev_sep: st.prev_sep, prev_num: false },
            )
        } else if b == st.in_string {
            (Highlight::STRING, ScanState { in_string: 0, esc: false, prev_sep: true, prev_num: false })
        } else {
            (
                Highlight::STRING,
                ScanState { in_string: st.in_string, esc: false, prev_sep: true, prev_num: false },
            )
        }
    } else if flags.strings && (b == 34 || b == 39) {
        (
            Highlight::STRING,
            ScanState { in_string: b, esc: false, prev_sep: st.prev_sep, prev_num: false },
        )
    } else if flags.numbers && 48 <= b && b <= 57 && (st.prev_num || st.prev_sep) {
        (
            Highlight::NUMBER,
            ScanState { in_string: st.in_string, esc: false, prev_sep: false, prev_num: true },
        )
    } else {
        let sep = b == 32 || b == 44 || b == 46 || b == 40 || b == 41 || b == 43 || b == 45
            || b == 47 || b == 42 || b == 61 || b == 126 || b == 37 || b == 60 || b == 62 || b == 91
            || b == 93 || b == 59;
        (
            Highlight::NORMAL,
            ScanState { in_string: st.in_string, esc: false, prev_sep: sep, prev_num: false },
        )
    }
}

/// The terminal color code of a highlight class.
pub open spec fn spec_syntax_to_color(hl: Highlight) -> u8 {
    match hl {
        Highlight::NUMBER => 31,
        Highlight::MATCH => 34,
        Highlight::STRING => 35,
        _ => 37,
    }
}

pub fn editor_syntax_to_color(hl: &Highlight) -> (c: u8)
    ensures
        c == spec_syntax_to_color(*hl),
{
    match hl {
        Highlight::NUMBER => 31,
        Highlight::MATCH => 34,
        Highlight::STRING => 35,
        _ => 37,
    }
}

/// The highlight class a terminal color code stands for.
pub open spec fn spec_color_to_syntax(color: u8) -> Highlight {
    if color == 31 {
        Highlight::NUMBER
    } else if color == 34 {
        Highlight::MATCH
    } else if color == 35 {
        Highlight::STRING
    } else {
        Highlight::NORMAL
    }
}

pub fn editor_color_to_syntax(color: u8) -> (hl: Highlight)
    ensures
        hl == spec_color_to_syntax(color),
{
    if color == 31 {
        Highlight::NUMBER
    } else if color == 34 {
        Highlight::MATCH
    } else if color == 35 {
        Highlight::STRING
    } else {
        Highlight::NORMAL
    }
}

/// The filename extension that syntax selection matches on: the bytes after
/// the last dot, or `None` when the name has no dot.
pub open spec fn spec_file_ext(name: Seq<u8>) -> Option<Seq<u8>>
    decreases name.len(),
{
    if name.len() == 0 {
        None
    } else if name.last() == 46 {  // '.'
        Some(Seq::empty())
    } else {
        match spec_file_ext(name.drop_last()) {
            None => None,
            Some(e) => Some(e.push(name.last())),
        }
    }
}

/// A syntax applies to a filename exactly when the name's extension (the
/// bytes after its last dot) equals one of the syntax's extensions.
pub open spec fn spec_pattern_matches(p: EditorSyntax, filename: Seq<u8>) -> bool {
    exists|k: int|
        0 <= k < p.file_extensions@.len() && Some(p.file_extensions@[k]@) == spec_file_ext(
            filename,
        )
}

/// Two syntax definitions with the same contents.
pub open spec fn spec_syntax_like(a: EditorSyntax, b: EditorSyntax) -> bool {
    &&& a.file_type@ == b.file_type@
    &&& a.flags == b.flags
    &&& a.file_extensions@.len() == b.file_extensions@.len()
    &&& forall|k: int|
        0 <= k < a.file_extensions@.len() ==> (#[trigger] a.file_extensions@[k])@
            == b.file_extensions@[k]@
}

impl EditorSyntax {
    /// Build a syntax definition.
    pub fn new(f_type: Vec<u8>, f_ext: Vec<Vec<u8>>, hf: HLFlags) -> (s: EditorSyntax)
        ensures
            s.file_type == f_type,
            s.file_extensions == f_ext,
            s.flags == hf,
    {
        EditorSyntax { file_type: f_type, file_extensions: f_ext, flags: hf }
    }

    /// A field-for-field copy.
    pub fn duplicate(&self) -> (r: EditorSyntax)
        ensures
            spec_syntax_like(r, *self),
    {
        let mut exts: Vec<Vec<u8>> = Vec::new();
        let n = self.file_extensions.len();
        let mut k: usize = 0;
        while k < n
            invariant
                k <= n,
                n == self.file_extensions@.len(),
                exts@.len() == k,
                forall|j: int|
                    0 <= j < k ==> (#[trigger] exts@[j])@ == self.file_extensions@[j]@,
            decreases n - k,
        {
            let mut e: Vec<u8> = Vec::new();
            e.extend_from_slice(self.file_extensions[k].as_slice());
            proof {
                assert(e@ =~= self.file_extensions@[k as int]@);
            }
            exts.push(e);
            k = k + 1;
        }
        let mut ft: Vec<u8> = Vec::new();
        ft.extend_from_slice(self.file_type.as_slice());
        proof {
            assert(ft@ =~= self.file_type@);
        }
        EditorSyntax { file_type: ft, file_extensions: exts, flags: self.flags }
    }

    /// Does this syntax apply to `filename`?  True exactly when the name has
    /// an extension equal to one of `file_extensions`.
    pub fn much_type(&self, filename: &Vec<u8>) -> (r: bool)
        ensures
            r <==> spec_pattern_matches(*self, filename@),
    {
        match file_ext_of(filename) {
            None => false,
            Some(ext) => {
                let n = self.file_extensions.len();
                let mut k: usize = 0;
                let mut found = false;
                while k < n
                    invariant
                        n == self.file_extensions@.len(),
                        k <= n,
                        Some(ext@) == spec_file_ext(filename@),
                        found <==> exists|j: int|
                            0 <= j < k && self.file_extensions@[j]@ == ext@,
                    decreases n - k,
                {
                    if bytes_eq(&self.file_extensions[k], &ext) {
                        found = true;
                    }
                    k = k + 1;
                }
                found
            },
        }
    }
}

/// The extension of a filename: the bytes after the last dot.
pub fn file_ext_of(name: &Vec<u8>) -> (r: Option<Vec<u8>>)
    ensures
        match r {
            None => spec_file_ext(name@) is None,
            Some(e) => Some(e@) == spec_file_ext(name@),
        },
{
    let n = name.len();
    // Find the last dot.
    let mut i: usize = n;
    while i > 0
        invariant
            i <= n,
            n == name@.len(),
            forall|j: int| i <= j < n ==> name@[j] != 46,
        decreases i,
    {
        if name[i - 1] == 46 {
            // Extension is name[i..].
            let mut ext: Vec<u8> = Vec::new();
            let mut j: usize = i;
            while j < n
                invariant
                    i <= j <= n,
                    n == name@.len(),
                    ext@ == name@.subrange(i as int, j as int),
                decreases n - j,
            {
                ext.push(name[j]);
                proof {
                    assert(ext@ =~= name@.subrange(i as int, j + 1));
                }
                j = j + 1;
            }
            proof {
                lemma_file_ext_after_dot(name@, i as int);
            }
            return Some(ext);
        }
        i = i - 1;
    }
    proof {
        lemma_file_ext_no_dot(name@);
    }
    None
}

/// Copy a highlight vector.
pub fn clone_hl(v: &Vec<Highlight>) -> (r: Vec<Highlight>)
    ensures
        r@ == v@,
{
    let n = v.len();
    let mut r: Vec<Highlight> = Vec::new();
    let mut i: usize = 0;
    while i < n
        invariant
            i <= n,
            n == v@.len(),
            r@ == v@.take(i as int),
        decreases n - i,
    {
        r.push(v[i]);
        proof {
            assert(r@ =~= v@.take(i + 1));
        }
        i = i + 1;
    }
    proof {
        assert(v@.take(n as int) =~= v@);
    }
    r
}

/// Byte-vector equality.
pub fn bytes_eq(a: &Vec<u8>, b: &Vec<u8>) -> (r: bool)
    ensures
        r <==> a@ == b@,
{
    if a.len() != b.len() {
        proof {
            assert(a@.len() != b@.len());
        }
        return false;
    }
    let n = a.len();
    let mut i: usize = 0;
    while i < n
        invariant
            i <= n,
            n == a@.len(),
            n == b@.len(),
            forall|j: int| 0 <= j < i ==> a@[j] == b@[j],
        decreases n - i,
    {
        if a[i] != b[i] {
            return false;
        }
        i = i + 1;
    }
    proof {
        assert(a@ =~= b@);
    }
    true
}

/// If `name[d-1]` is the last dot of `name`, the extension is `name[d..]`.
proof fn lemma_file_ext_after_dot(name: Seq<u8>, d: int)
    requires
        1 <= d <= name.len(),
        name[d - 1] == 46,
        forall|j: int| d <= j < name.len() ==> name[j] != 46,
    ensures
        spec_file_ext(name) == Some(name.subrange(d, name.len() as int)),
    decreases name.len(),
{
    if d == name.len() {
        assert(name.last() == 46);
        assert(name.subrange(d, name.len() as int) =~= Seq::<u8>::empty());
    } else {
        assert(name.last() != 46);
        lemma_file_ext_after_dot(name.drop_last(), d);
        assert(name.drop_last().subrange(d, name.len() - 1).push(name.last()) =~= name.subrange(
            d,
            name.len() as int,
        ));
    }
}

/// A name with no dot has no extension.
proof fn lemma_file_ext_no_dot(name: Seq<u8>)
    requires
        forall|j: int| 0 <= j < name.len() ==> name[j] != 46,
    ensures
        spec_file_ext(name) is None,
    decreases name.len(),
{
    if name.len() > 0 {
        lemma_file_ext_no_dot(name.drop_last());
    }
}

} // verus!
