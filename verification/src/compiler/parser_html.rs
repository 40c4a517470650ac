//! The HTML view of a reactive struct, read from the source bytes: from a
//! `<` to the end of its opening tag where that tag closes itself, else to
//! the matching closing tag (tags of the same name nest).

use vstd::prelude::*;
use vstd::utf8::{valid_utf8, decode_utf8, encode_utf8};
use vstd::string::StringSliceAdditionalSpecFns;
use crate::text::{owned, push_char, push_chars, chars_of, unicode_alphanumeric, is_alphanumeric};
use crate::compiler::errors::SyntaxError;
use crate::compiler::parser::span_of;
use crate::ffi_lib::native::string_from_utf8;

verus! {

/// The first position at or after `i` holding the byte `x`.
pub open spec fn find_byte(b: Seq<u8>, i: int, x: u8) -> Option<int>
    decreases b.len() - i,
{
    if i < 0 || i >= b.len() {
        None
    } else if b[i] == x {
        Some(i)
    } else {
        find_byte(b, i + 1, x)
    }
}

/// The bytes `pat` stand in `b` from `p`.
pub open spec fn bytes_at(b: Seq<u8>, p: int, pat: Seq<u8>) -> bool {
    0 <= p && p + pat.len() <= b.len() && b.subrange(p, p + pat.len()) == pat
}

/// How many bytes the character that starts with the byte `x` takes.
pub open spec fn char_width(x: u8) -> int {
    if x < 0x80 {
        1
    } else if x < 0xE0 {
        2
    } else if x < 0xF0 {
        3
    } else {
        4
    }
}

/// Characters of a tag name (alphanumeric or `-`) from `i` on, after `acc`.
pub open spec fn name_chars(cs: Seq<char>, i: int, acc: Seq<char>) -> Seq<char>
    decreases cs.len() - i,
{
    if i < 0 || i >= cs.len() {
        acc
    } else if unicode_alphanumeric(cs[i]) || cs[i] == '-' {
        name_chars(cs, i + 1, acc.push(cs[i]))
    } else {
        acc
    }
}

/// The name of the opening tag `tag` (empty for a closing tag or a `<!...>`).
pub open spec fn html_tag_name(tag: Seq<char>) -> Seq<char> {
    let s: int = if tag.len() > 0 && tag[0] == '<' { 1 } else { 0 };
    if tag.len() > s && (tag[s] == '/' || tag[s] == '!') {
        seq![]
    } else {
        name_chars(tag, s, seq![])
    }
}

/// A byte after `<name` that makes it an opening tag.
pub open spec fn opens_tag(x: u8) -> bool {
    x == 0x3E || x == 0x20 || x == 0x09 || x == 0x0A
}

/// The end of the closing tag `cb` that brings the nesting `depth` of tags
/// opened by `ob` to zero, scanning from `p` one character at a time.
pub open spec fn html_close(b: Seq<u8>, p: int, depth: nat, cb: Seq<u8>, ob: Seq<u8>) -> Option<int>
    decreases b.len() - p,
{
    if p < 0 || p >= b.len() || cb.len() == 0 || ob.len() == 0 {
        None
    } else if bytes_at(b, p, cb) {
        if depth <= 1 {
            Some(p + cb.len())
        } else {
            html_close(b, p + cb.len(), (depth - 1) as nat, cb, ob)
        }
    } else if bytes_at(b, p, ob) {
        let q = p + ob.len();
        let d: nat = if q < b.len() && opens_tag(b[q]) { depth + 1 } else { depth };
        html_close(b, q, d, cb, ob)
    } else if p + char_width(b[p]) >= b.len() {
        None
    } else {
        html_close(b, p + char_width(b[p]), depth, cb, ob)
    }
}

/// The HTML block that starts at byte `start` of the source bytes `b`, and
/// the position after it. Where the opening tag ends with `/>` the block is
/// that tag. There is none where no `>` follows, where the tag has no name,
/// where its closing tag is missing, or where the bytes taken are not text.
pub open spec fn html_block(b: Seq<u8>, start: int) -> Option<(Seq<char>, int)> {
    match find_byte(b, start, 0x3E) {
        None => None,
        Some(g) => {
            let tagb = b.subrange(start, g + 1);
            if !valid_utf8(tagb) {
                None
            } else if g - 1 >= start && b[g - 1] == 0x2F {
                Some((decode_utf8(tagb), g + 1))
            } else {
                let name = html_tag_name(decode_utf8(tagb));
                if name.len() == 0 {
                    None
                } else {
                    let cb = encode_utf8(seq!['<', '/'] + name + seq!['>']);
                    let ob = encode_utf8(seq!['<'] + name);
                    match html_close(b, g + 1, 1, cb, ob) {
                        None => None,
                        Some(e) => if valid_utf8(b.subrange(start, e)) {
                            Some((decode_utf8(b.subrange(start, e)), e))
                        } else {
                            None
                        },
                    }
                }
            }
        },
    }
}

fn byte_range(b: &[u8], i: usize, j: usize) -> (v: Vec<u8>)
    requires
        i <= j <= b@.len(),
    ensures
        v@ == b@.subrange(i as int, j as int),
{
    let mut v: Vec<u8> = Vec::new();
    let mut k: usize = i;
    while k < j
        invariant
            i <= k <= j,
            j <= b@.len(),
            v@ == b@.subrange(i as int, k as int),
        decreases j - k,
    {
        assert(b@.subrange(i as int, k + 1) =~= b@.subrange(i as int, k as int).push(b@[k as int]));
        v.push(b[k]);
        k = k + 1;
    }
    v
}

fn bytes_match(b: &[u8], p: usize, pat: &[u8]) -> (r: bool)
    ensures
        r == bytes_at(b@, p as int, pat@),
{
    let n = b.len();
    if p > n || pat.len() > n - p {
        return false;
    }
    let mut k: usize = 0;
    while k < pat.len()
        invariant
            n == b@.len(),
            p + pat@.len() <= b@.len(),
            k <= pat@.len(),
            forall|m: int| 0 <= m < k ==> b@[p + m] == pat@[m],
        decreases pat@.len() - k,
    {
        if b[p + k] != pat[k] {
            assert(b@.subrange(p as int, p + pat@.len())[k as int] != pat@[k as int]);
            return false;
        }
        k = k + 1;
    }
    assert(b@.subrange(p as int, p + pat@.len()) =~= pat@);
    true
}

fn char_width_exec(x: u8) -> (w: usize)
    ensures
        w == char_width(x),
{
    if x < 0x80 {
        1
    } else if x < 0xE0 {
        2
    } else if x < 0xF0 {
        3
    } else {
        4
    }
}

fn find_gt(b: &[u8], start: usize) -> (r: Option<usize>)
    ensures
        match find_byte(b@, start as int, 0x3E) {
            Some(g) => r matches Some(x) && x == g,
            None => r is None,
        },
        r matches Some(x) ==> start <= x < b@.len(),
{
    let mut i: usize = start;
    while i < b.len()
        invariant
            start <= i,
            find_byte(b@, i as int, 0x3E) == find_byte(b@, start as int, 0x3E),
        decreases b@.len() - i,
    {
        if b[i] == 0x3E {
            return Some(i);
        }
        i = i + 1;
    }
    None
}

fn html_close_exec(b: &[u8], start: usize, cb: &[u8], ob: &[u8]) -> (r: Option<usize>)
    requires
        1 <= start,
    ensures
        match html_close(b@, start as int, 1, cb@, ob@) {
            Some(e) => r matches Some(x) && x == e,
            None => r is None,
        },
        r matches Some(x) ==> start <= x <= b@.len(),
{
    if cb.len() == 0 || ob.len() == 0 {
        return None;
    }
    let n = b.len();
    let mut p: usize = start;
    let mut depth: usize = 1;
    while p < n
        invariant
            n == b@.len(),
            start <= p,
            depth >= 1,
            depth + b@.len() - p <= usize::MAX,
            cb@.len() > 0,
            ob@.len() > 0,
            html_close(b@, p as int, depth as nat, cb@, ob@) == html_close(b@, start as int, 1, cb@, ob@),
        decreases b@.len() - p,
    {
        if bytes_match(b, p, cb) {
            if depth == 1 {
                return Some(p + cb.len());
            }
            depth = depth - 1;
            p = p + cb.len();
        } else if bytes_match(b, p, ob) {
            let q = p + ob.len();
            if q < b.len() && (b[q] == 0x3E || b[q] == 0x20 || b[q] == 0x09 || b[q] == 0x0A) {
                depth = depth + 1;
            }
            p = q;
        } else {
            let w = char_width_exec(b[p]);
            if w >= n - p {
                return None;
            } else {
                p = p + w;
            }
        }
    }
    None
}

fn html_err(src: &str, start: usize, reason: String) -> (e: SyntaxError) {
    SyntaxError::InvalidStatement { reason: reason, span: span_of(src, start, start) }
}

/// The HTML block of a reactive struct's view that starts at byte `start`
/// of `src` (see `html_block`), and the byte position after it.
pub fn scan_html_block(src: &str, start: usize) -> (r: Result<(String, usize), SyntaxError>)
    ensures
        match html_block(src.spec_bytes(), start as int) {
            Some((h, e)) => r matches Ok((x, q)) && x@ == h && q == e,
            None => r is Err,
        },
{
    let b = src.as_bytes();
    let n = b.len();
    let g = match find_gt(b, start) {
        Some(g) => g,
        None => return Err(html_err(src, start, owned("Unclosed HTML tag in rstruct (no closing >)"))),
    };
    let tag = match string_from_utf8(byte_range(b, start, g + 1)) {
        Some(t) => t,
        None => return Err(html_err(src, start, owned("Invalid UTF-8 in rstruct view"))),
    };
    if g > start && b[g - 1] == 0x2F {
        return Ok((tag, g + 1));
    }
    let cs = chars_of(tag.as_str());
    let s: usize = if cs.len() > 0 && cs[0] == '<' { 1 } else { 0 };
    let mut name: Vec<char> = Vec::new();
    if !(cs.len() > s && (cs[s] == '/' || cs[s] == '!')) {
        let mut i: usize = s;
        while i < cs.len() && (is_alphanumeric(cs[i]) || cs[i] == '-')
            invariant
                s <= i <= cs@.len(),
                name_chars(cs@, i as int, name@) == name_chars(cs@, s as int, seq![]),
            decreases cs@.len() - i,
        {
            name.push(cs[i]);
            i = i + 1;
        }
    }
    assert(name@ == html_tag_name(cs@));
    if name.len() == 0 {
        return Err(html_err(src, start, owned("Could not parse HTML tag in rstruct (no tag name)")));
    }
    let mut close = String::new();
    push_char(&mut close, '<');
    push_char(&mut close, '/');
    push_chars(&mut close, name.as_slice());
    push_char(&mut close, '>');
    let mut open = String::new();
    push_char(&mut open, '<');
    push_chars(&mut open, name.as_slice());
    assert(close@ =~= seq!['<', '/'] + name@ + seq!['>']);
    assert(open@ =~= seq!['<'] + name@);
    let cb = close.as_str().as_bytes();
    let ob = open.as_str().as_bytes();
    let e = match html_close_exec(b, g + 1, cb, ob) {
        Some(e) => e,
        None => {
            let mut reason = owned("Unclosed HTML tag in rstruct (missing ");
            reason.append(close.as_str());
            reason.append(")");
            return Err(html_err(src, start, reason));
        },
    };
    match string_from_utf8(byte_range(b, start, e)) {
        Some(t) => Ok((t, e)),
        None => Err(html_err(src, start, owned("Invalid UTF-8 in rstruct view"))),
    }
}

} // verus!
