//! Scanning primitives shared by the line-oriented command languages (the
//! Moore shell and Brief Control): white space with `//` comments,
//! identifiers, quoted strings, digit runs, and byte offsets of positions.

use vstd::prelude::*;
use crate::text::{is_ws, is_whitespace, is_ascii_alnum, ascii_alnum, is_ascii_digit, ascii_digit};

verus! {

/// Characters that continue an identifier.
pub open spec fn is_ident_char(c: char) -> bool {
    is_ascii_alnum(c) || c == '_'
}

pub fn ident_char(c: char) -> (b: bool)
    ensures
        b == is_ident_char(c),
{
    ascii_alnum(c) || c == '_'
}

/// Where the `//` comment starting at `pos` ends: just past the next `\n`,
/// or the end of the text.
pub open spec fn comment_end(s: Seq<char>, pos: int) -> int
    decreases s.len() - pos,
{
    if pos >= s.len() {
        s.len() as int
    } else if s[pos] == '\n' {
        pos + 1
    } else {
        comment_end(s, pos + 1)
    }
}

/// The position of the first character at or after `pos` that is neither
/// white space nor part of a `//` comment.
pub open spec fn skip_ws(s: Seq<char>, pos: int) -> int
    decreases s.len() - pos, 1int,
{
    if pos < 0 || pos >= s.len() {
        pos
    } else if pos + 1 < s.len() && s[pos] == '/' && s[pos + 1] == '/' {
        proof {
            lemma_comment_end(s, pos + 2);
        }
        skip_ws(s, comment_end(s, pos + 2))
    } else if is_ws(s[pos]) {
        skip_ws(s, pos + 1)
    } else {
        pos
    }
}

/// The end of the run of identifier characters starting at `pos`.
pub open spec fn ident_end(s: Seq<char>, pos: int) -> int
    decreases s.len() - pos,
{
    if 0 <= pos < s.len() && is_ident_char(s[pos]) {
        ident_end(s, pos + 1)
    } else {
        pos
    }
}

/// The end of the run of ASCII digits starting at `pos`.
pub open spec fn digits_end(s: Seq<char>, pos: int) -> int
    decreases s.len() - pos,
{
    if 0 <= pos < s.len() && is_ascii_digit(s[pos]) {
        digits_end(s, pos + 1)
    } else {
        pos
    }
}

/// The position of the first `"` at or after `pos`.
pub open spec fn quote_at_or_after(s: Seq<char>, pos: int) -> Option<int>
    decreases s.len() - pos,
{
    if pos < 0 || pos >= s.len() {
        None
    } else if s[pos] == '"' {
        Some(pos)
    } else {
        quote_at_or_after(s, pos + 1)
    }
}

pub proof fn lemma_comment_end(s: Seq<char>, pos: int)
    ensures
        comment_end(s, pos) > pos || (pos >= s.len() && comment_end(s, pos) == s.len()),
        comment_end(s, pos) <= s.len() || pos > s.len(),
    decreases s.len() - pos,
{
    if pos < s.len() && s[pos] != '\n' {
        lemma_comment_end(s, pos + 1);
    }
}

pub proof fn lemma_skip_ws(s: Seq<char>, pos: int)
    requires
        0 <= pos <= s.len(),
    ensures
        pos <= skip_ws(s, pos) <= s.len(),
        skip_ws(s, pos) < s.len() ==> !is_ws(s[skip_ws(s, pos)]),
    decreases s.len() - pos,
{
    if pos < s.len() {
        if pos + 1 < s.len() && s[pos] == '/' && s[pos + 1] == '/' {
            lemma_comment_end(s, pos + 2);
            lemma_skip_ws(s, comment_end(s, pos + 2));
        } else if is_ws(s[pos]) {
            lemma_skip_ws(s, pos + 1);
        }
    }
}

pub proof fn lemma_ident_end(s: Seq<char>, pos: int)
    requires
        0 <= pos <= s.len(),
    ensures
        pos <= ident_end(s, pos) <= s.len(),
        forall|k: int| pos <= k < ident_end(s, pos) ==> is_ident_char(#[trigger] s[k]),
    decreases s.len() - pos,
{
    if pos < s.len() && is_ident_char(s[pos]) {
        lemma_ident_end(s, pos + 1);
    }
}

pub proof fn lemma_digits_end(s: Seq<char>, pos: int)
    requires
        0 <= pos <= s.len(),
    ensures
        pos <= digits_end(s, pos) <= s.len(),
        forall|k: int| pos <= k < digits_end(s, pos) ==> is_ascii_digit(#[trigger] s[k]),
    decreases s.len() - pos,
{
    if pos < s.len() && is_ascii_digit(s[pos]) {
        lemma_digits_end(s, pos + 1);
    }
}

pub proof fn lemma_quote(s: Seq<char>, pos: int)
    requires
        0 <= pos,
    ensures
        quote_at_or_after(s, pos) matches Some(q) ==> pos <= q < s.len() && s[q] == '"',
    decreases s.len() - pos,
{
    if pos < s.len() && s[pos] != '"' {
        lemma_quote(s, pos + 1);
    }
}

/// Skips white space and `//` comments from `pos`.
pub fn skip_ws_exec(s: &[char], pos: usize) -> (r: usize)
    requires
        pos <= s@.len(),
    ensures
        r as int == skip_ws(s@, pos as int),
{
    let n = s.len();
    let mut p = pos;
    while p < n
        invariant
            n == s@.len(),
            pos <= p <= n,
            skip_ws(s@, pos as int) == skip_ws(s@, p as int),
        decreases n - p, 1int,
    {
        if p + 1 < n && s[p] == '/' && s[p + 1] == '/' {
            let mut q = p + 2;
            while q < n && s[q] != '\n'
                invariant
                    n == s@.len(),
                    p + 2 <= q <= n,
                    comment_end(s@, p + 2) == comment_end(s@, q as int),
                decreases n - q,
            {
                q = q + 1;
            }
            if q < n {
                q = q + 1;
            }
            p = q;
        } else if is_whitespace(s[p]) {
            p = p + 1;
        } else {
            return p;
        }
    }
    p
}

/// The end of the identifier run starting at `pos`.
pub fn ident_end_exec(s: &[char], pos: usize) -> (r: usize)
    requires
        pos <= s@.len(),
    ensures
        r as int == ident_end(s@, pos as int),
{
    let n = s.len();
    let mut p = pos;
    while p < n && ident_char(s[p])
        invariant
            n == s@.len(),
            pos <= p <= n,
            ident_end(s@, pos as int) == ident_end(s@, p as int),
        decreases n - p,
    {
        p = p + 1;
    }
    p
}

/// The end of the digit run starting at `pos`.
pub fn digits_end_exec(s: &[char], pos: usize) -> (r: usize)
    requires
        pos <= s@.len(),
    ensures
        r as int == digits_end(s@, pos as int),
{
    let n = s.len();
    let mut p = pos;
    while p < n && ascii_digit(s[p])
        invariant
            n == s@.len(),
            pos <= p <= n,
            digits_end(s@, pos as int) == digits_end(s@, p as int),
        decreases n - p,
    {
        p = p + 1;
    }
    p
}

/// The first `"` at or after `pos`.
pub fn quote_exec(s: &[char], pos: usize) -> (r: Option<usize>)
    requires
        pos <= s@.len(),
    ensures
        match r {
            Some(q) => quote_at_or_after(s@, pos as int) == Some(q as int),
            None => quote_at_or_after(s@, pos as int) == None::<int>,
        },
{
    let n = s.len();
    let mut p = pos;
    while p < n
        invariant
            n == s@.len(),
            pos <= p <= n,
            quote_at_or_after(s@, pos as int) == quote_at_or_after(s@, p as int),
        decreases n - p,
    {
        if s[p] == '"' {
            return Some(p);
        }
        p = p + 1;
    }
    None
}

/// The number of bytes the UTF-8 encoding of `c` takes.
pub open spec fn utf8_len(c: char) -> nat {
    if (c as u32) < 0x80 {
        1
    } else if (c as u32) < 0x800 {
        2
    } else if (c as u32) < 0x10000 {
        3
    } else {
        4
    }
}

/// The byte offset, in UTF-8, of character position `i`.
pub open spec fn byte_offset(s: Seq<char>, i: int) -> nat
    decreases i,
{
    if i <= 0 || s.len() == 0 {
        0
    } else if i > s.len() {
        byte_offset(s, s.len() as int)
    } else {
        byte_offset(s, i - 1) + utf8_len(s[i - 1])
    }
}

proof fn lemma_byte_offset_bound(s: Seq<char>, i: int)
    requires
        0 <= i <= s.len(),
    ensures
        byte_offset(s, i) <= 4 * i,
    decreases i,
{
    if i > 0 {
        lemma_byte_offset_bound(s, i - 1);
    }
}

/// The UTF-8 byte offset of position `i` (what a byte-indexed scanner would
/// report as its position).
pub fn byte_offset_exec(s: &[char], i: usize) -> (r: usize)
    requires
        i <= s@.len(),
        4 * s@.len() <= usize::MAX,
    ensures
        r as nat == byte_offset(s@, i as int),
{
    let mut k: usize = 0;
    let mut b: usize = 0;
    while k < i
        invariant
            i <= s@.len(),
            4 * s@.len() <= usize::MAX,
            k <= i,
            b as nat == byte_offset(s@, k as int),
        decreases i - k,
    {
        proof { lemma_byte_offset_bound(s@, k as int); }
        let c = s[k] as u32;
        let w: usize = if c < 0x80 { 1 } else if c < 0x800 { 2 } else if c < 0x10000 { 3 } else { 4 };
        b = b + w;
        k = k + 1;
    }
    b
}

} // verus!
