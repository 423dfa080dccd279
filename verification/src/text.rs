//! Plain-text helpers: decimal formatting, substring search, and the
//! line-oriented encoding used when a document is read from or written to
//! a byte buffer.

use vstd::prelude::*;

verus! {

/// The decimal digits of `n`, most significant first.
pub open spec fn spec_decimal(n: nat) -> Seq<u8>
    decreases n,
{
    if n < 10 {
        seq![(48 + n) as u8]
    } else {
        spec_decimal(n / 10).push((48 + n % 10) as u8)
    }
}

/// Format `n` in decimal.
pub fn format_usize(n: usize) -> (r: Vec<u8>)
    ensures
        r@ == spec_decimal(n as nat),
    decreases n,
{
    if n < 10 {
        let mut v: Vec<u8> = Vec::new();
        v.push(48 + n as u8);
        proof {
            assert(v@ =~= spec_decimal(n as nat));
        }
        v
    } else {
        let mut v = format_usize(n / 10);
        v.push(48 + (n % 10) as u8);
        proof {
            assert(v@ =~= spec_decimal(n as nat));
        }
        v
    }
}

/// `needle` occurs in `hay` starting at `i`.
pub open spec fn spec_match_at(hay: Seq<u8>, needle: Seq<u8>, i: int) -> bool {
    0 <= i && i + needle.len() <= hay.len() && hay.subrange(i, i + needle.len() as int) == needle
}

/// The first position at or after `i` where `needle` occurs in `hay`.
pub open spec fn spec_first_match_from(hay: Seq<u8>, q: Seq<u8>, i: int) -> Option<int>
    decreases hay.len() + 1 - i,
{
    if i < 0 || i + q.len() > hay.len() {
        None
    } else if spec_match_at(hay, q, i) {
        Some(i)
    } else {
        spec_first_match_from(hay, q, i + 1)
    }
}

/// The first position where `needle` occurs in `hay`.
pub open spec fn spec_first_match(hay: Seq<u8>, q: Seq<u8>) -> Option<int> {
    spec_first_match_from(hay, q, 0)
}

/// Find the first occurrence of `needle` in `hay`.  An empty needle
/// matches at position 0.
pub fn find_substring(hay: &Vec<u8>, needle: &Vec<u8>) -> (r: Option<usize>)
    ensures
        match r {
            Some(i) => spec_match_at(hay@, needle@, i as int) && (forall|j: int|
                0 <= j < i ==> !spec_match_at(hay@, needle@, j)) && spec_first_match(hay@, needle@)
                == Some(i as int),
            None => (forall|j: int| !spec_match_at(hay@, needle@, j)) && spec_first_match(
                hay@,
                needle@,
            ) is None,
        },
{
    let hn = hay.len();
    let nn = needle.len();
    if nn > hn {
        proof {
            assert(forall|j: int| !spec_match_at(hay@, needle@, j));
        }
        return None;
    }
    let mut i: usize = 0;
    while i <= hn - nn
        invariant
            nn <= hn,
            hn == hay@.len(),
            nn == needle@.len(),
            i <= hn - nn + 1,
            forall|j: int| 0 <= j < i ==> !spec_match_at(hay@, needle@, j),
            spec_first_match(hay@, needle@) == spec_first_match_from(hay@, needle@, i as int),
        decreases hn - nn - i + 1,
    {
        let mut k: usize = 0;
        let mut all_eq = true;
        while k < nn
            invariant
                i + nn <= hn,
                hn == hay@.len(),
                nn == needle@.len(),
                k <= nn,
                all_eq <==> (forall|m: int| 0 <= m < k ==> hay@[i + m] == needle@[m]),
            decreases nn - k,
        {
            if hay[i + k] != needle[k] {
                all_eq = false;
                k = nn;
            } else {
                k = k + 1;
            }
        }
        if all_eq {
            proof {
                assert(hay@.subrange(i as int, i + nn) =~= needle@);
            }
            return Some(i);
        }
        proof {
            assert(!spec_match_at(hay@, needle@, i as int)) by {
                if spec_match_at(hay@, needle@, i as int) {
                    assert(forall|m: int|
                        0 <= m < nn ==> #[trigger] hay@.subrange(i as int, i + nn)[m] == hay@[i
                            + m]);
                }
            }
        }
        i = i + 1;
    }
    proof {
        assert(forall|j: int| j > hn - nn ==> !spec_match_at(hay@, needle@, j));
    }
    None
}

/// The view of an ASCII string literal as bytes.
pub open spec fn spec_str_bytes(s: &str) -> Seq<u8> {
    Seq::new(s@.len(), |i: int| s@[i] as u8)
}

/// Copy an ASCII string into a byte vector.
pub fn str_to_bytes(s: &str) -> (r: Vec<u8>)
    requires
        vstd::string::is_ascii(s),
    ensures
        r@ == spec_str_bytes(s),
{
    proof {
        vstd::string::is_ascii_spec_bytes(s);
    }
    let r = s.as_bytes_vec();
    proof {
        assert(r@ =~= spec_str_bytes(s));
    }
    r
}

/// The byte form a document is saved as: every row's bytes followed by one
/// newline.
pub open spec fn spec_serialize(rows: Seq<Seq<u8>>) -> Seq<u8>
    decreases rows.len(),
{
    if rows.len() == 0 {
        Seq::empty()
    } else {
        rows.first() + seq![10u8] + spec_serialize(rows.drop_first())
    }
}

/// The position of the first newline byte in `s`, or `s.len()` if none.
pub open spec fn spec_first_nl(s: Seq<u8>) -> int
    decreases s.len(),
{
    if s.len() == 0 {
        0
    } else if s.first() == 10 {
        0
    } else {
        1 + spec_first_nl(s.drop_first())
    }
}

/// `s` with every trailing carriage return removed.
pub open spec fn spec_strip_cr(s: Seq<u8>) -> Seq<u8>
    decreases s.len(),
{
    if s.len() > 0 && s.last() == 13 {
        spec_strip_cr(s.drop_last())
    } else {
        s
    }
}

/// The rows a byte buffer is read as: lines are split at newlines, each
/// line loses its trailing carriage returns, and an empty final line (the
/// text after a terminating newline) yields no row.
pub open spec fn spec_split_lines(s: Seq<u8>) -> Seq<Seq<u8>>
    decreases s.len(),
    via spec_split_lines_decreases
{
    if s.len() == 0 {
        Seq::empty()
    } else {
        let k = spec_first_nl(s);
        let line = spec_strip_cr(s.take(k));
        if k < s.len() {
            seq![line] + spec_split_lines(s.skip(k + 1))
        } else {
            seq![line]
        }
    }
}

#[via_fn]
proof fn spec_split_lines_decreases(s: Seq<u8>) {
    lemma_first_nl_range(s);
}

pub proof fn lemma_first_nl_range(s: Seq<u8>)
    ensures
        0 <= spec_first_nl(s) <= s.len(),
        forall|j: int| 0 <= j < spec_first_nl(s) ==> s[j] != 10,
        spec_first_nl(s) < s.len() ==> s[spec_first_nl(s)] == 10,
    decreases s.len(),
{
    if s.len() > 0 && s.first() != 10 {
        lemma_first_nl_range(s.drop_first());
        assert forall|j: int| 0 <= j < spec_first_nl(s) implies s[j] != 10 by {
            if j > 0 {
                assert(s[j] == s.drop_first()[j - 1]);
            }
        }
    }
}

/// In a buffer that begins with a newline-free line followed by a newline,
/// that newline is the first one.
proof fn lemma_first_nl_of_line(line: Seq<u8>, rest: Seq<u8>)
    requires
        forall|j: int| 0 <= j < line.len() ==> line[j] != 10,
    ensures
        spec_first_nl(line + seq![10u8] + rest) == line.len(),
    decreases line.len(),
{
    let s = line + seq![10u8] + rest;
    if line.len() == 0 {
        assert(s.first() == 10);
    } else {
        assert(s.first() == line.first());
        assert(s.first() != 10);
        lemma_first_nl_of_line(line.drop_first(), rest);
        assert(s.drop_first() =~= line.drop_first() + seq![10u8] + rest);
    }
}

/// A sequence with no trailing carriage return is untouched by the strip.
proof fn lemma_strip_cr_clean(s: Seq<u8>)
    requires
        s.len() == 0 || s.last() != 13,
    ensures
        spec_strip_cr(s) == s,
{
}

/// The first-newline position is characterized by its prefix: if nothing
/// before `k` is a newline and `k` is one (or the end), then `k` is it.
pub proof fn lemma_first_nl_is(s: Seq<u8>, k: int)
    requires
        0 <= k <= s.len(),
        forall|j: int| 0 <= j < k ==> s[j] != 10,
        k < s.len() ==> s[k] == 10,
    ensures
        spec_first_nl(s) == k,
    decreases k,
{
    if s.len() == 0 {
    } else if k == 0 {
    } else {
        assert(s.first() != 10);
        assert forall|j: int| 0 <= j < k - 1 implies s.drop_first()[j] != 10 by {
            assert(s.drop_first()[j] == s[j + 1]);
        }
        if k - 1 < s.drop_first().len() {
            assert(s.drop_first()[k - 1] == s[k]);
        }
        lemma_first_nl_is(s.drop_first(), k - 1);
    }
}

/// Stripping trailing carriage returns keeps exactly the prefix before
/// them: if everything from `j` on is a carriage return and `j` is not
/// preceded by one, the strip yields `take(j)`.
pub proof fn lemma_strip_cr_take(s: Seq<u8>, j: int)
    requires
        0 <= j <= s.len(),
        forall|m: int| j <= m < s.len() ==> s[m] == 13,
        j > 0 ==> s[j - 1] != 13,
    ensures
        spec_strip_cr(s) == s.take(j),
    decreases s.len(),
{
    if s.len() == j {
        assert(s.take(j) =~= s);
    } else {
        assert(s.last() == 13);
        assert forall|m: int| j <= m < s.drop_last().len() implies s.drop_last()[m] == 13 by {
            assert(s.drop_last()[m] == s[m]);
        }
        lemma_strip_cr_take(s.drop_last(), j);
        assert(s.drop_last().take(j) =~= s.take(j));
    }
}

/// Copy a byte vector.
pub fn clone_bytes(v: &Vec<u8>) -> (r: Vec<u8>)
    ensures
        r@ == v@,
{
    let mut r: Vec<u8> = Vec::new();
    r.extend_from_slice(v.as_slice());
    proof {
        assert(r@ =~= v@);
    }
    r
}

/// Reading back a saved document reproduces its rows, provided no row
/// contains a newline and no row ends with a carriage return.
pub proof fn lemma_save_open_round_trip(rows: Seq<Seq<u8>>)
    requires
        forall|i: int, j: int|
            0 <= i < rows.len() && 0 <= j < rows[i].len() ==> #[trigger] rows[i][j] != 10,
        forall|i: int|
            0 <= i < rows.len() && rows[i].len() > 0 ==> (#[trigger] rows[i]).last() != 13,
    ensures
        spec_split_lines(spec_serialize(rows)) == rows,
    decreases rows.len(),
{
    if rows.len() == 0 {
    } else {
        let line = rows.first();
        let rest = spec_serialize(rows.drop_first());
        let s = spec_serialize(rows);
        assert(s =~= line + seq![10u8] + rest);
        assert(forall|j: int| 0 <= j < line.len() ==> line[j] != 10) by {
            assert(forall|j: int| 0 <= j < line.len() ==> #[trigger] rows[0][j] != 10);
        }
        lemma_first_nl_of_line(line, rest);
        assert(s.len() > 0);
        let k = spec_first_nl(s);
        assert(k == line.len());
        assert(s.take(k) =~= line);
        lemma_strip_cr_clean(line);
        assert(k < s.len());
        assert(s.skip(k + 1) =~= rest);
        assert(forall|i: int, j: int|
            0 <= i < rows.drop_first().len() && 0 <= j < rows.drop_first()[i].len()
                ==> #[trigger] rows.drop_first()[i][j] != 10) by {
            assert(forall|i: int|
                0 <= i < rows.drop_first().len() ==> #[trigger] rows.drop_first()[i] == rows[i
                    + 1]);
        }
        assert(forall|i: int|
            0 <= i < rows.drop_first().len() && rows.drop_first()[i].len() > 0 ==> (
            #[trigger] rows.drop_first()[i]).last() != 13) by {
            assert(forall|i: int|
                0 <= i < rows.drop_first().len() ==> rows.drop_first()[i] == rows[i + 1]);
        }
        lemma_save_open_round_trip(rows.drop_first());
        assert(spec_split_lines(s) =~= rows);
    }
}

} // verus!
