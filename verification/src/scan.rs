//! Character-level scanning helpers shared by the header, timecode and
//! payload parsers: string equality, tag matching, and runs of characters
//! delimited by line breaks or by the end of the input.

use vstd::prelude::*;

verus! {

/// Exact character-sequence equality of two string slices.
pub fn str_eq(a: &str, b: &str) -> (r: bool)
    ensures
        r == (a@ == b@),
{
    let an: usize = a.unicode_len();
    let bn: usize = b.unicode_len();
    if an != bn {
        return false;
    }
    let mut i: usize = 0;
    while i < an
        invariant
            i <= an,
            an == a@.len(),
            an == b@.len(),
            forall|k: int| 0 <= k < i ==> a@[k] == b@[k],
        decreases an - i,
    {
        if a.get_char(i) != b.get_char(i) {
            return false;
        }
        i = i + 1;
    }
    proof {
        assert(a@ =~= b@);
    }
    true
}

/// A character that ends the content of a line.
pub open spec fn is_line_break(c: char) -> bool {
    c == '\n' || c == '\r'
}

/// The first index at or after `pos` holding a line-break character, or the
/// length of `s` if there is none: the exclusive end of the line content
/// starting at `pos`.
pub open spec fn line_content_end(s: Seq<char>, pos: int) -> int
    decreases s.len() - pos
    when 0 <= pos <= s.len()
{
    if pos >= s.len() {
        s.len() as int
    } else if is_line_break(s[pos]) {
        pos
    } else {
        line_content_end(s, pos + 1)
    }
}

pub proof fn lemma_line_content_end(s: Seq<char>, pos: int)
    requires
        0 <= pos <= s.len(),
    ensures
        pos <= line_content_end(s, pos) <= s.len(),
        forall|k: int| pos <= k < line_content_end(s, pos) ==> !is_line_break(s[k]),
        line_content_end(s, pos) < s.len() ==> is_line_break(s[line_content_end(s, pos)]),
    decreases s.len() - pos,
{
    if pos < s.len() && !is_line_break(s[pos]) {
        lemma_line_content_end(s, pos + 1);
    }
}

pub proof fn lemma_line_content_end_at(s: Seq<char>, pos: int, e: int)
    requires
        0 <= pos <= e <= s.len(),
        forall|k: int| pos <= k < e ==> !is_line_break(s[k]),
        e < s.len() ==> is_line_break(s[e]),
    ensures
        line_content_end(s, pos) == e,
    decreases e - pos,
{
    if pos < e {
        lemma_line_content_end_at(s, pos + 1, e);
    }
}

/// Scans forward from `pos` to the end of the current line's content.
pub fn find_line_content_end(s: &str, n: usize, pos: usize) -> (e: usize)
    requires
        n == s@.len(),
        pos <= n,
    ensures
        e == line_content_end(s@, pos as int),
        pos <= e <= n,
{
    let mut i: usize = pos;
    while i < n
        invariant
            pos <= i <= n,
            n == s@.len(),
            forall|k: int| pos <= k < i ==> !is_line_break(s@[k]),
        decreases n - i,
    {
        let c = s.get_char(i);
        if c == '\n' || c == '\r' {
            proof {
                lemma_line_content_end_at(s@, pos as int, i as int);
            }
            return i;
        }
        i = i + 1;
    }
    proof {
        lemma_line_content_end_at(s@, pos as int, n as int);
    }
    n
}

/// The position just past a line ending (`"\n"` or `"\r\n"`) at `pos`, or
/// `None` if no line ending stands there.
pub open spec fn line_ending_after(s: Seq<char>, pos: int) -> Option<int> {
    if 0 <= pos < s.len() && s[pos] == '\n' {
        Some(pos + 1)
    } else if 0 <= pos && pos + 1 < s.len() && s[pos] == '\r' && s[pos + 1] == '\n' {
        Some(pos + 2)
    } else {
        None
    }
}

/// Consumes a line ending at `pos` if one stands there.
pub fn take_line_ending(s: &str, n: usize, pos: usize) -> (r: Option<usize>)
    requires
        n == s@.len(),
        pos <= n,
    ensures
        match r {
            Some(e) => line_ending_after(s@, pos as int) == Some(e as int) && pos < e <= n,
            None => line_ending_after(s@, pos as int) is None,
        },
{
    if pos < n {
        let c = s.get_char(pos);
        if c == '\n' {
            return Some(pos + 1);
        }
        if c == '\r' && pos + 1 < n {
            if s.get_char(pos + 1) == '\n' {
                return Some(pos + 2);
            }
        }
    }
    None
}

/// `tag` occurs in `s` starting exactly at `pos`.
pub open spec fn has_tag(s: Seq<char>, pos: int, tag: Seq<char>) -> bool {
    &&& 0 <= pos
    &&& pos + tag.len() <= s.len()
    &&& s.subrange(pos, pos + tag.len()) == tag
}

/// Tests whether `tag` occurs in `s` starting exactly at `pos`.
pub fn match_tag(s: &str, n: usize, pos: usize, tag: &str) -> (r: bool)
    requires
        n == s@.len(),
        pos <= n,
    ensures
        r == has_tag(s@, pos as int, tag@),
{
    let tn: usize = tag.unicode_len();
    if n - pos < tn {
        return false;
    }
    let mut i: usize = 0;
    while i < tn
        invariant
            i <= tn,
            tn == tag@.len(),
            pos + tn <= n,
            n == s@.len(),
            forall|k: int| 0 <= k < i ==> s@[pos + k] == tag@[k],
        decreases tn - i,
    {
        if s.get_char(pos + i) != tag.get_char(i) {
            proof {
                assert(s@.subrange(pos as int, pos as int + tag@.len())[i as int] == s@[pos + i]);
            }
            return false;
        }
        i = i + 1;
    }
    proof {
        assert(s@.subrange(pos as int, pos as int + tag@.len()) =~= tag@);
    }
    true
}

/// An ASCII decimal digit.
pub open spec fn is_ascii_digit(c: char) -> bool {
    48 <= c as int <= 57
}

/// The value of an ASCII decimal digit character.
pub open spec fn digit_val(c: char) -> nat
    recommends
        is_ascii_digit(c),
{
    (c as int - 48) as nat
}

/// The first index at or after `pos` holding a non-digit character, or the
/// length of `s`: the exclusive end of the digit run starting at `pos`.
pub open spec fn digit_run_end(s: Seq<char>, pos: int) -> int
    decreases s.len() - pos
    when 0 <= pos <= s.len()
{
    if pos >= s.len() {
        s.len() as int
    } else if !is_ascii_digit(s[pos]) {
        pos
    } else {
        digit_run_end(s, pos + 1)
    }
}

pub proof fn lemma_digit_run_end(s: Seq<char>, pos: int)
    requires
        0 <= pos <= s.len(),
    ensures
        pos <= digit_run_end(s, pos) <= s.len(),
        forall|k: int| pos <= k < digit_run_end(s, pos) ==> is_ascii_digit(s[k]),
        digit_run_end(s, pos) < s.len() ==> !is_ascii_digit(s[digit_run_end(s, pos)]),
    decreases s.len() - pos,
{
    if pos < s.len() && is_ascii_digit(s[pos]) {
        lemma_digit_run_end(s, pos + 1);
    }
}

pub proof fn lemma_digit_run_end_at(s: Seq<char>, pos: int, e: int)
    requires
        0 <= pos <= e <= s.len(),
        forall|k: int| pos <= k < e ==> is_ascii_digit(s[k]),
        e < s.len() ==> !is_ascii_digit(s[e]),
    ensures
        digit_run_end(s, pos) == e,
    decreases e - pos,
{
    if pos < e {
        lemma_digit_run_end_at(s, pos + 1, e);
    }
}

/// Scans forward from `pos` to the end of the digit run starting there.
pub fn find_digit_run_end(s: &str, n: usize, pos: usize) -> (e: usize)
    requires
        n == s@.len(),
        pos <= n,
    ensures
        e == digit_run_end(s@, pos as int),
        pos <= e <= n,
{
    let mut i: usize = pos;
    while i < n
        invariant
            pos <= i <= n,
            n == s@.len(),
            forall|k: int| pos <= k < i ==> is_ascii_digit(s@[k]),
        decreases n - i,
    {
        let c = s.get_char(i);
        let cu: u32 = c as u32;
        if cu < 48 || cu > 57 {
            proof {
                lemma_digit_run_end_at(s@, pos as int, i as int);
            }
            return i;
        }
        i = i + 1;
    }
    proof {
        lemma_digit_run_end_at(s@, pos as int, n as int);
    }
    n
}

/// The number denoted by a sequence of decimal digit characters, most
/// significant digit first.
pub open spec fn digits_val(s: Seq<char>) -> nat
    decreases s.len(),
{
    if s.len() == 0 {
        0
    } else {
        digits_val(s.drop_last()) * 10 + digit_val(s.last())
    }
}

/// A digit string never denotes less than any of its prefixes.
pub proof fn lemma_digits_val_prefix_le(s: Seq<char>, i: int)
    requires
        0 <= i <= s.len(),
    ensures
        digits_val(s.subrange(0, i)) <= digits_val(s),
    decreases s.len(),
{
    if i == s.len() {
        assert(s.subrange(0, i) =~= s);
    } else {
        lemma_digits_val_prefix_le(s.drop_last(), i);
        assert(s.drop_last().subrange(0, i) =~= s.subrange(0, i));
    }
}

/// The maximal decimal number starting at `pos`: `None` if no digit stands
/// at `pos` or if the digit run denotes more than `u32::MAX`, else the value
/// with the position just past the run.
pub open spec fn spec_parse_number(s: Seq<char>, pos: int) -> Option<(u32, int)> {
    let end = digit_run_end(s, pos);
    if end == pos {
        None
    } else if digits_val(s.subrange(pos, end)) > u32::MAX {
        None
    } else {
        Some((digits_val(s.subrange(pos, end)) as u32, end))
    }
}

/// Parses the maximal run of decimal digits at `pos` as a `u32`.
pub fn parse_number(s: &str, n: usize, pos: usize) -> (r: Option<(u32, usize)>)
    requires
        n == s@.len(),
        pos <= n,
    ensures
        match r {
            Some(p) => spec_parse_number(s@, pos as int) == Some((p.0, p.1 as int)) && pos < p.1
                <= n,
            None => spec_parse_number(s@, pos as int) is None,
        },
{
    proof {
        lemma_digit_run_end(s@, pos as int);
    }
    let end: usize = find_digit_run_end(s, n, pos);
    if end == pos {
        return None;
    }
    let ghost run = s@.subrange(pos as int, end as int);
    let mut i: usize = pos;
    let mut v: u32 = 0;
    while i < end
        invariant
            pos <= i <= end <= n,
            n == s@.len(),
            end == digit_run_end(s@, pos as int),
            run == s@.subrange(pos as int, end as int),
            forall|k: int| pos <= k < end ==> is_ascii_digit(s@[k]),
            v == digits_val(s@.subrange(pos as int, i as int)),
        decreases end - i,
    {
        let c = s.get_char(i);
        proof {
            assert(is_ascii_digit(s@[i as int]));
        }
        let d: u32 = (c as u32) - 48;
        let nv: u64 = (v as u64) * 10 + (d as u64);
        proof {
            assert(s@.subrange(pos as int, i + 1).drop_last() =~= s@.subrange(
                pos as int,
                i as int,
            ));
            assert(digits_val(s@.subrange(pos as int, i + 1)) == nv);
        }
        if nv > 0xFFFF_FFFFu64 {
            proof {
                lemma_digits_val_prefix_le(run, i + 1 - pos);
                assert(run.subrange(0, i + 1 - pos) =~= s@.subrange(pos as int, i + 1));
            }
            return None;
        }
        v = nv as u32;
        i = i + 1;
    }
    Some((v, end))
}

} // verus!
