//! The native library that Brief programs reach through the FFI: integer,
//! string and encoding helpers. Every function answers with a `Result`, as a
//! foreign call does; most of them always answer `Ok`.

use vstd::prelude::*;
use vstd::utf8::encode_utf8;
use crate::text::{
    owned, chars_of, string_of, push_char, push_chars, lowercase, to_lowercase, eq_str, hex_padded,
    push_hex_padded, replace_all, replace_str, is_ws, is_whitespace, unicode_alphabetic, unicode_alphanumeric,
    is_alphabetic, is_alphanumeric, words, words_of, views, joined, string_views, join_strings, starts_with,
    find, lemma_find, find_slice, occurs_pred, occurs_at_exec, copy_chars,
};
use crate::compiler::symbolic::{trunc_div, div_trunc};

verus! {

// ---------------------------------------------------------------------------
// Integers

/// The remainder of Rust's `%`: it has the sign of the dividend.
pub open spec fn trunc_rem(a: int, b: int) -> int {
    a - b * trunc_div(a, b)
}

fn rem_trunc(a: i64, b: i64) -> (r: i64)
    requires
        b != 0,
    ensures
        r == trunc_rem(a as int, b as int),
{
    let a2 = a as i128;
    let b2 = b as i128;
    let ma: u128 = if a2 < 0 { (-a2) as u128 } else { a2 as u128 };
    let mb: u128 = if b2 < 0 { (-b2) as u128 } else { b2 as u128 };
    let m = ma % mb;
    let q = ma / mb;
    proof {
        vstd::arithmetic::div_mod::lemma_fundamental_div_mod(ma as int, mb as int);
        assert(ma as int == mb * q + m);
        assert(m < mb);
        if (a < 0) != (b < 0) {
            assert(trunc_div(a as int, b as int) == -(q as int));
        } else {
            assert(trunc_div(a as int, b as int) == q as int);
        }
        if b < 0 {
            assert(b as int == -(mb as int));
        } else {
            assert(b as int == mb as int);
        }
        if a < 0 {
            assert(a as int == -(ma as int));
            assert(b as int * trunc_div(a as int, b as int) == -(mb as int * q as int)) by (nonlinear_arith)
                requires
                    b as int == -(mb as int) || b as int == mb as int,
                    (b < 0) ==> b as int == -(mb as int),
                    (b >= 0) ==> b as int == mb as int,
                    (a < 0) != (b < 0) ==> trunc_div(a as int, b as int) == -(q as int),
                    (a < 0) == (b < 0) ==> trunc_div(a as int, b as int) == q as int,
                    a < 0,
            ;
        } else {
            assert(a as int == ma as int);
            assert(b as int * trunc_div(a as int, b as int) == mb as int * q as int) by (nonlinear_arith)
                requires
                    (b < 0) ==> b as int == -(mb as int),
                    (b >= 0) ==> b as int == mb as int,
                    (a < 0) != (b < 0) ==> trunc_div(a as int, b as int) == -(q as int),
                    (a < 0) == (b < 0) ==> trunc_div(a as int, b as int) == q as int,
                    a >= 0,
            ;
        }
    }
    if a < 0 {
        -(m as i128) as i64
    } else {
        m as i64
    }
}

/// The remainder of `a` by `b`, with the sign of `a`; an error for a zero
/// divisor.
pub fn __div_rem(a: i64, b: i64) -> (r: Result<i64, String>)
    requires
        !(a == i64::MIN && b == -1),
    ensures
        match r {
            Ok(v) => b != 0 && v == trunc_rem(a as int, b as int),
            Err(m) => b == 0 && m@ == "Division by zero"@,
        },
{
    if b == 0 {
        Err(owned("Division by zero"))
    } else {
        Ok(rem_trunc(a, b))
    }
}

/// The sign of `n`: -1, 0 or 1.
pub fn __signum(n: i64) -> (r: Result<i64, String>)
    ensures
        r == Ok::<i64, String>(if n < 0 { -1i64 } else if n == 0 { 0i64 } else { 1i64 }),
{
    Ok(if n < 0 { -1 } else if n == 0 { 0 } else { 1 })
}


/// The greatest common divisor of two natural numbers; that of 0 and 0 is 0.
pub open spec fn gcd(a: nat, b: nat) -> nat
    decreases b,
{
    if b == 0 {
        a
    } else {
        gcd(b, a % b)
    }
}

/// The least common multiple of two natural numbers; 0 where one is 0.
pub open spec fn lcm(a: nat, b: nat) -> nat {
    if gcd(a, b) == 0 {
        0
    } else {
        a * b / gcd(a, b)
    }
}

/// The magnitude of an integer, as a natural number.
pub open spec fn magnitude(a: i64) -> nat {
    crate::compiler::symbolic::abs(a as int) as nat
}

/// `num::integer::gcd` on `i64` (Stein's algorithm): the greatest common
/// divisor of the magnitudes, never negative. The source overflows (`abs`
/// of `i64::MIN`) exactly where that divisor is 2^63, so those inputs are
/// left out.
#[verifier::external_body]
fn num_gcd(a: i64, b: i64) -> (r: i64)
    requires
        gcd(magnitude(a), magnitude(b)) <= i64::MAX,
    ensures
        r as int == gcd(magnitude(a), magnitude(b)),
{
    num::integer::gcd(a, b)
}

/// `num::integer::lcm` on `i64`: 0 where both are 0, else `a * (b / gcd)`
/// made non-negative, which is the least common multiple of the
/// magnitudes. Inputs where the divisor or the multiple does not fit in an
/// `i64` overflow in the source and are left out.
#[verifier::external_body]
fn num_lcm(a: i64, b: i64) -> (r: i64)
    requires
        (a == 0 && b == 0) || (gcd(magnitude(a), magnitude(b)) <= i64::MAX && lcm(magnitude(a), magnitude(b))
            <= i64::MAX),
    ensures
        r as int == lcm(magnitude(a), magnitude(b)),
{
    num::integer::lcm(a, b)
}

/// The greatest common divisor of `|a|` and `|b|`.
pub fn __gcd(a: i64, b: i64) -> (r: Result<i64, String>)
    requires
        gcd(magnitude(a), magnitude(b)) <= i64::MAX,
    ensures
        r matches Ok(v) && v as int == gcd(magnitude(a), magnitude(b)),
{
    Ok(num_gcd(a, b))
}

/// The least common multiple of `|a|` and `|b|`.
pub fn __lcm(a: i64, b: i64) -> (r: Result<i64, String>)
    requires
        (a == 0 && b == 0) || (gcd(magnitude(a), magnitude(b)) <= i64::MAX && lcm(magnitude(a), magnitude(b))
            <= i64::MAX),
    ensures
        r matches Ok(v) && v as int == lcm(magnitude(a), magnitude(b)),
{
    Ok(num_lcm(a, b))
}
// ---------------------------------------------------------------------------
// Escapes

/// A control character: the general category Cc, which is U+0000 to U+001F
/// and U+007F to U+009F.
pub open spec fn is_control(c: char) -> bool {
    (c as u32) <= 0x1f || (0x7f <= (c as u32) && (c as u32) <= 0x9f)
}

fn control(c: char) -> (b: bool)
    ensures
        b == is_control(c),
{
    let u = c as u32;
    u <= 0x1f || (0x7f <= u && u <= 0x9f)
}

/// How `__escape` writes one character.
pub open spec fn escape_char(c: char) -> Seq<char> {
    if c == '"' {
        seq!['\\', '"']
    } else if c == '\\' {
        seq!['\\', '\\']
    } else if c == '\n' {
        seq!['\\', 'n']
    } else if c == '\r' {
        seq!['\\', 'r']
    } else if c == '\t' {
        seq!['\\', 't']
    } else if is_control(c) {
        seq!['\\', 'u'] + hex_padded((c as u32) as nat, false, 4)
    } else {
        seq![c]
    }
}

/// The escaped form of a string, character by character.
pub open spec fn escaped(s: Seq<char>) -> Seq<char>
    decreases s.len(),
{
    if s.len() == 0 {
        Seq::empty()
    } else {
        escape_char(s[0]) + escaped(s.subrange(1, s.len() as int))
    }
}

/// Escapes quotes, backslashes and control characters, as a string literal
/// writes them.
pub fn __escape(s: String) -> (r: Result<String, String>)
    ensures
        r matches Ok(t) && t@ == escaped(s@),
{
    let cs = chars_of(s.as_str());
    let n = cs.len();
    let mut out = String::new();
    let mut i: usize = 0;
    assert(cs@.subrange(0, n as int) =~= cs@);
    while i < n
        invariant
            n == cs@.len(),
            cs@ == s@,
            i <= n,
            escaped(s@) == out@ + escaped(cs@.subrange(i as int, n as int)),
        decreases n - i,
    {
        let c = cs[i];
        let ghost before = out@;
        if c == '"' {
            push_char(&mut out, '\\');
            push_char(&mut out, '"');
        } else if c == '\\' {
            push_char(&mut out, '\\');
            push_char(&mut out, '\\');
        } else if c == '\n' {
            push_char(&mut out, '\\');
            push_char(&mut out, 'n');
        } else if c == '\r' {
            push_char(&mut out, '\\');
            push_char(&mut out, 'r');
        } else if c == '\t' {
            push_char(&mut out, '\\');
            push_char(&mut out, 't');
        } else if control(c) {
            push_char(&mut out, '\\');
            push_char(&mut out, 'u');
            push_hex_padded(&mut out, c as u32 as u64, false, 4);
        } else {
            push_char(&mut out, c);
        }
        assert(out@ =~= before + escape_char(c));
        assert(cs@.subrange(i as int, n as int).subrange(1, n - i) =~= cs@.subrange(i + 1, n as int));
        i = i + 1;
    }
    assert(escaped(cs@.subrange(n as int, n as int)) =~= Seq::<char>::empty());
    assert(out@ + Seq::<char>::empty() =~= out@);
    Ok(out)
}

/// The character that a backslash followed by `c` stands for.
pub open spec fn unescape_of(c: char) -> char {
    if c == 'n' {
        '\n'
    } else if c == 'r' {
        '\r'
    } else if c == 't' {
        '\t'
    } else {
        c
    }
}

/// Reads escapes: a backslash and the character after it become one
/// character (`\n`, `\r`, `\t` the control characters, any other the
/// character itself); a backslash at the end stays.
pub open spec fn unescaped(s: Seq<char>) -> Seq<char>
    decreases s.len(),
{
    if s.len() == 0 {
        Seq::empty()
    } else if s[0] == '\\' {
        if s.len() == 1 {
            seq!['\\']
        } else {
            seq![unescape_of(s[1])] + unescaped(s.subrange(2, s.len() as int))
        }
    } else {
        seq![s[0]] + unescaped(s.subrange(1, s.len() as int))
    }
}

/// Reads the escapes of a string (see `unescaped`).
pub fn __unescape(s: String) -> (r: Result<String, String>)
    ensures
        r matches Ok(t) && t@ == unescaped(s@),
{
    let cs = chars_of(s.as_str());
    let n = cs.len();
    let mut out = String::new();
    let mut i: usize = 0;
    assert(cs@.subrange(0, n as int) =~= cs@);
    while i < n
        invariant
            n == cs@.len(),
            cs@ == s@,
            i <= n,
            unescaped(s@) == out@ + unescaped(cs@.subrange(i as int, n as int)),
        decreases n - i,
    {
        let c = cs[i];
        let ghost rest = cs@.subrange(i as int, n as int);
        if c == '\\' {
            if i + 1 < n {
                let d = cs[i + 1];
                let e = if d == 'n' { '\n' } else if d == 'r' { '\r' } else if d == 't' { '\t' } else { d };
                push_char(&mut out, e);
                assert(rest.subrange(2, rest.len() as int) =~= cs@.subrange(i + 2, n as int));
                i = i + 2;
            } else {
                push_char(&mut out, '\\');
                assert(cs@.subrange(i + 1, n as int) =~= Seq::<char>::empty());
                i = i + 1;
            }
        } else {
            push_char(&mut out, c);
            assert(rest.subrange(1, rest.len() as int) =~= cs@.subrange(i + 1, n as int));
            i = i + 1;
        }
    }
    assert(unescaped(cs@.subrange(n as int, n as int)) =~= Seq::<char>::empty());
    assert(out@ + Seq::<char>::empty() =~= out@);
    Ok(out)
}

/// A character that escaping writes as a backslash sequence that reading
/// escapes does not undo: a control character other than newline, carriage
/// return and tab.
pub open spec fn escape_is_lossy(c: char) -> bool {
    is_control(c) && c != '\n' && c != '\r' && c != '\t'
}

/// Reading the escapes of an escaped string gives the string back, unless
/// it holds a control character other than newline, carriage return and
/// tab (which is written as `\uXXXX`).
pub proof fn law_unescape_escape(s: Seq<char>)
    requires
        forall|i: int| 0 <= i < s.len() ==> !escape_is_lossy(#[trigger] s[i]),
    ensures
        unescaped(escaped(s)) == s,
    decreases s.len(),
{
    if s.len() > 0 {
        let c = s[0];
        let rest = s.subrange(1, s.len() as int);
        assert forall|i: int| 0 <= i < rest.len() implies !escape_is_lossy(#[trigger] rest[i]) by {
            assert(rest[i] == s[i + 1]);
        }
        law_unescape_escape(rest);
        let e = escaped(rest);
        assert(!escape_is_lossy(s[0]));
        let w = escape_char(c) + e;
        assert(escaped(s) == w);
        if c == '"' || c == '\\' || c == '\n' || c == '\r' || c == '\t' {
            assert(w.subrange(2, w.len() as int) =~= e);
            assert(w[0] == '\\');
        } else {
            assert(escape_char(c) == seq![c]);
            assert(w.subrange(1, w.len() as int) =~= e);
        }
        assert(unescaped(w) =~= s);
    }
}

// ---------------------------------------------------------------------------
// Quotes

/// `s` between double quotes.
pub fn __quote(s: String) -> (r: Result<String, String>)
    ensures
        r matches Ok(t) && t@ == seq!['"'] + s@ + seq!['"'],
{
    let mut out = String::new();
    push_char(&mut out, '"');
    out.append(s.as_str());
    push_char(&mut out, '"');
    assert(out@ =~= seq!['"'] + s@ + seq!['"']);
    Ok(out)
}

/// `s` without the double quotes around it, where it has them (at least two
/// characters, the first and the last a double quote); else `s` itself.
pub open spec fn unquoted(s: Seq<char>) -> Seq<char> {
    if s.len() >= 2 && s[0] == '"' && s.last() == '"' {
        s.subrange(1, s.len() - 1)
    } else {
        s
    }
}

/// Removes the double quotes around `s` (see `unquoted`).
pub fn __unquote(s: String) -> (r: Result<String, String>)
    ensures
        r matches Ok(t) && t@ == unquoted(s@),
{
    let cs = chars_of(s.as_str());
    let n = cs.len();
    if n >= 2 && cs[0] == '"' && cs[n - 1] == '"' {
        let inner = string_of(&cs.as_slice()[1..n - 1]);
        assert(cs@.subrange(1, n - 1) =~= s@.subrange(1, s@.len() - 1));
        Ok(inner)
    } else {
        Ok(s)
    }
}

/// Removing the quotes that quoting added gives the string back.
pub proof fn law_unquote_quote(s: Seq<char>)
    ensures
        unquoted(seq!['"'] + s + seq!['"']) == s,
{
    let q = seq!['"'] + s + seq!['"'];
    assert(q.subrange(1, q.len() - 1) =~= s);
}


// ---------------------------------------------------------------------------
// Lengths and truncation

/// The length of a string in bytes: the length of its UTF-8 encoding.
pub open spec fn byte_len(s: Seq<char>) -> int {
    encode_utf8(s).len() as int
}

/// The first `k` characters of `s`, or all of them where it has fewer.
pub open spec fn take_upto(s: Seq<char>, k: int) -> Seq<char> {
    if k < s.len() {
        s.subrange(0, k)
    } else {
        s
    }
}

fn prefix_string(cs: &Vec<char>, k: usize) -> (r: String)
    ensures
        r@ == take_upto(cs@, k as int),
{
    let n = if k < cs.len() { k } else { cs.len() };
    let r = string_of(&cs.as_slice()[0..n]);
    assert(cs@.subrange(0, n as int) =~= take_upto(cs@, k as int));
    r
}

/// `s` where its length in bytes is at most `max_len`; else its first
/// `max_len` characters (a negative bound, read as an unsigned size, keeps
/// every character).
pub open spec fn truncated(s: Seq<char>, max_len: i64) -> Seq<char> {
    if byte_len(s) <= max_len {
        s
    } else {
        take_upto(s, (max_len as usize) as int)
    }
}

/// Cuts a string to at most `max_len` characters where it is longer than
/// `max_len` bytes (see `truncated`).
pub fn __truncate(s: String, max_len: i64) -> (r: Result<String, String>)
    requires
        byte_len(s@) <= isize::MAX,
    ensures
        r matches Ok(t) && t@ == truncated(s@, max_len),
{
    let bl = s.as_str().len();
    if bl as i64 <= max_len {
        Ok(s)
    } else {
        let cs = chars_of(s.as_str());
        Ok(prefix_string(&cs, max_len as usize))
    }
}

/// `s` where its length in bytes is at most `max_len`; else, where
/// `max_len` is no more than the suffix's length in bytes, the first
/// `max_len` characters of the suffix; else the first `max_len` minus that
/// length characters of `s`, followed by the suffix.
pub open spec fn truncated_with(s: Seq<char>, max_len: i64, suffix: Seq<char>) -> Seq<char> {
    if byte_len(s) <= max_len {
        s
    } else if max_len <= byte_len(suffix) {
        take_upto(suffix, (max_len as usize) as int)
    } else {
        take_upto(s, ((max_len - byte_len(suffix)) as usize) as int) + suffix
    }
}

/// Cuts a string, marking the cut with a suffix (see `truncated_with`).
pub fn __truncate_with(s: String, max_len: i64, suffix: String) -> (r: Result<String, String>)
    requires
        byte_len(s@) <= isize::MAX,
        byte_len(suffix@) <= isize::MAX,
    ensures
        r matches Ok(t) && t@ == truncated_with(s@, max_len, suffix@),
{
    let suffix_len = suffix.as_str().len() as i64;
    let bl = s.as_str().len();
    if bl as i64 <= max_len {
        Ok(s)
    } else if max_len <= suffix_len {
        let cs = chars_of(suffix.as_str());
        Ok(prefix_string(&cs, max_len as usize))
    } else {
        let available = max_len - suffix_len;
        let cs = chars_of(s.as_str());
        let mut out = prefix_string(&cs, available as usize);
        out.append(suffix.as_str());
        Ok(out)
    }
}

// ---------------------------------------------------------------------------
// Case

/// What `str::to_uppercase` gives for a string: the Unicode uppercase
/// mapping, a fixed function of the characters.
pub uninterp spec fn uppercase(s: Seq<char>) -> Seq<char>;

/// Calls `str::to_uppercase`; the contract only names the result.
#[verifier::external_body]
fn to_uppercase(s: &str) -> (r: String)
    ensures
        r@ == uppercase(s@),
{
    s.to_uppercase()
}

/// The string in lower case.
pub fn __to_lower(s: String) -> (r: Result<String, String>)
    ensures
        r matches Ok(t) && t@ == lowercase(s@),
{
    Ok(to_lowercase(s.as_str()))
}

/// The string in upper case.
pub fn __to_upper(s: String) -> (r: Result<String, String>)
    ensures
        r matches Ok(t) && t@ == uppercase(s@),
{
    Ok(to_uppercase(s.as_str()))
}

/// Whether two strings are equal once both are in lower case.
pub fn __eq_ignore_case(a: String, b: String) -> (r: Result<bool, String>)
    ensures
        r == Ok::<bool, String>(lowercase(a@) == lowercase(b@)),
{
    let la = chars_of(to_lowercase(a.as_str()).as_str());
    let lb = chars_of(to_lowercase(b.as_str()).as_str());
    Ok(crate::text::chars_eq(la.as_slice(), lb.as_slice()))
}

/// The words read as true: `true`, `1`, `yes`, `y`, in any case.
pub open spec fn truthy(s: Seq<char>) -> bool {
    let l = lowercase(s);
    l == "true"@ || l == "1"@ || l == "yes"@ || l == "y"@
}

/// Reads a boolean: true for the words of `truthy`, false for anything else.
pub fn __to_bool(s: String) -> (r: Result<bool, String>)
    ensures
        r == Ok::<bool, String>(truthy(s@)),
{
    let l = chars_of(to_lowercase(s.as_str()).as_str());
    let t = eq_str(l.as_slice(), "true") || eq_str(l.as_slice(), "1") || eq_str(l.as_slice(), "yes")
        || eq_str(l.as_slice(), "y");
    Ok(t)
}

// ---------------------------------------------------------------------------
// HTML

/// `&`, `<`, `>`, `"` and `'` written as HTML entities, in that order of
/// replacement.
pub open spec fn html_escaped(s: Seq<char>) -> Seq<char> {
    replace_all(
        replace_all(replace_all(replace_all(replace_all(s, "&"@, "&amp;"@), "<"@, "&lt;"@), ">"@, "&gt;"@), "\""@, "&quot;"@),
        "'"@,
        "&#39;"@,
    )
}

/// The five entities read back, `&amp;` first.
pub open spec fn html_unescaped(s: Seq<char>) -> Seq<char> {
    replace_all(
        replace_all(replace_all(replace_all(replace_all(s, "&amp;"@, "&"@), "&lt;"@, "<"@), "&gt;"@, ">"@), "&quot;"@, "\""@),
        "&#39;"@,
        "'"@,
    )
}

/// Escapes a string for HTML (see `html_escaped`).
pub fn __html_escape(s: String) -> (r: Result<String, String>)
    ensures
        r matches Ok(t) && t@ == html_escaped(s@),
{
    proof {
        reveal_strlit("&");
        reveal_strlit("<");
        reveal_strlit(">");
        reveal_strlit("\"");
        reveal_strlit("'");
    }
    let cs = chars_of(s.as_str());
    let a = replace_str(cs.as_slice(), "&", "&amp;");
    let b = replace_str(a.as_slice(), "<", "&lt;");
    let c = replace_str(b.as_slice(), ">", "&gt;");
    let d = replace_str(c.as_slice(), "\"", "&quot;");
    let e = replace_str(d.as_slice(), "'", "&#39;");
    Ok(string_of(e.as_slice()))
}

/// Reads HTML entities back (see `html_unescaped`).
pub fn __html_unescape(s: String) -> (r: Result<String, String>)
    ensures
        r matches Ok(t) && t@ == html_unescaped(s@),
{
    proof {
        reveal_strlit("&amp;");
        reveal_strlit("&lt;");
        reveal_strlit("&gt;");
        reveal_strlit("&quot;");
        reveal_strlit("&#39;");
    }
    let cs = chars_of(s.as_str());
    let a = replace_str(cs.as_slice(), "&amp;", "&");
    let b = replace_str(a.as_slice(), "&lt;", "<");
    let c = replace_str(b.as_slice(), "&gt;", ">");
    let d = replace_str(c.as_slice(), "&quot;", "\"");
    let e = replace_str(d.as_slice(), "&#39;", "'");
    Ok(string_of(e.as_slice()))
}

// ---------------------------------------------------------------------------
// Percent and hexadecimal encodings

/// The characters a URL keeps as they are.
pub open spec fn unreserved(c: char) -> bool {
    ('A' <= c && c <= 'Z') || ('a' <= c && c <= 'z') || ('0' <= c && c <= '9') || c == '-' || c == '_' || c == '.'
        || c == '~'
}

/// `%` and two upper-case hexadecimal digits of the character's code cut to
/// its lowest byte.
pub open spec fn percent(c: char) -> Seq<char> {
    seq!['%'] + hex_padded(((c as u32) % 256) as nat, true, 2)
}

/// How a URL writes one character; `space` selects `%20` for a space.
pub open spec fn url_char(c: char, space: bool) -> Seq<char> {
    if unreserved(c) {
        seq![c]
    } else if space && c == ' ' {
        seq!['%', '2', '0']
    } else {
        percent(c)
    }
}

/// A string percent-encoded character by character.
pub open spec fn url_encoded(s: Seq<char>, space: bool) -> Seq<char>
    decreases s.len(),
{
    if s.len() == 0 {
        Seq::empty()
    } else {
        url_char(s[0], space) + url_encoded(s.subrange(1, s.len() as int), space)
    }
}

fn url_encode_with(s: &str, space: bool) -> (r: String)
    ensures
        r@ == url_encoded(s@, space),
{
    let cs = chars_of(s);
    let n = cs.len();
    let mut out = String::new();
    let mut i: usize = 0;
    assert(cs@.subrange(0, n as int) =~= cs@);
    while i < n
        invariant
            n == cs@.len(),
            cs@ == s@,
            i <= n,
            url_encoded(s@, space) == out@ + url_encoded(cs@.subrange(i as int, n as int), space),
        decreases n - i,
    {
        let c = cs[i];
        let ghost before = out@;
        let keep = ('A' <= c && c <= 'Z') || ('a' <= c && c <= 'z') || ('0' <= c && c <= '9') || c == '-' || c == '_'
            || c == '.' || c == '~';
        if keep {
            push_char(&mut out, c);
        } else if space && c == ' ' {
            push_char(&mut out, '%');
            push_char(&mut out, '2');
            push_char(&mut out, '0');
        } else {
            push_char(&mut out, '%');
            push_hex_padded(&mut out, (c as u32 % 256) as u64, true, 2);
        }
        assert(out@ =~= before + url_char(c, space));
        assert(cs@.subrange(i as int, n as int).subrange(1, n - i) =~= cs@.subrange(i + 1, n as int));
        i = i + 1;
    }
    assert(url_encoded(cs@.subrange(n as int, n as int), space) =~= Seq::<char>::empty());
    assert(out@ + Seq::<char>::empty() =~= out@);
    out
}

/// Percent-encodes a string for a URL, a space as `%20`.
pub fn __url_encode(s: String) -> (r: Result<String, String>)
    ensures
        r matches Ok(t) && t@ == url_encoded(s@, true),
{
    Ok(url_encode_with(s.as_str(), true))
}

/// Percent-encodes a string for one component of a URL.
pub fn __url_encode_component(s: String) -> (r: Result<String, String>)
    ensures
        r matches Ok(t) && t@ == url_encoded(s@, false),
{
    Ok(url_encode_with(s.as_str(), false))
}

/// Two lower-case hexadecimal digits for each character, of its code cut
/// to the lowest byte.
pub open spec fn hex_of_chars(s: Seq<char>) -> Seq<char>
    decreases s.len(),
{
    if s.len() == 0 {
        Seq::empty()
    } else {
        hex_padded(((s[0] as u32) % 256) as nat, false, 2) + hex_of_chars(s.subrange(1, s.len() as int))
    }
}

/// Hexadecimal digits of the characters of a string (see `hex_of_chars`).
pub fn __hex_encode(data: String) -> (r: Result<String, String>)
    ensures
        r matches Ok(t) && t@ == hex_of_chars(data@),
{
    let cs = chars_of(data.as_str());
    let n = cs.len();
    let mut out = String::new();
    let mut i: usize = 0;
    assert(cs@.subrange(0, n as int) =~= cs@);
    while i < n
        invariant
            n == cs@.len(),
            cs@ == data@,
            i <= n,
            hex_of_chars(data@) == out@ + hex_of_chars(cs@.subrange(i as int, n as int)),
        decreases n - i,
    {
        let c = cs[i];
        push_hex_padded(&mut out, (c as u32 % 256) as u64, false, 2);
        assert(cs@.subrange(i as int, n as int).subrange(1, n - i) =~= cs@.subrange(i + 1, n as int));
        i = i + 1;
    }
    assert(hex_of_chars(cs@.subrange(n as int, n as int)) =~= Seq::<char>::empty());
    assert(out@ + Seq::<char>::empty() =~= out@);
    Ok(out)
}

/// Two lower-case hexadecimal digits for each number, of its lowest byte.
pub open spec fn hex_of_bytes(l: Seq<i64>) -> Seq<char>
    decreases l.len(),
{
    if l.len() == 0 {
        Seq::empty()
    } else {
        hex_padded((l[0] as u8) as nat, false, 2) + hex_of_bytes(l.subrange(1, l.len() as int))
    }
}

/// Hexadecimal digits of a list of bytes (see `hex_of_bytes`).
pub fn __hex_encode_bytes(list: Vec<i64>) -> (r: Result<String, String>)
    ensures
        r matches Ok(t) && t@ == hex_of_bytes(list@),
{
    let n = list.len();
    let mut out = String::new();
    let mut i: usize = 0;
    assert(list@.subrange(0, n as int) =~= list@);
    while i < n
        invariant
            n == list@.len(),
            i <= n,
            hex_of_bytes(list@) == out@ + hex_of_bytes(list@.subrange(i as int, n as int)),
        decreases n - i,
    {
        let b = list[i];
        push_hex_padded(&mut out, (b as u8) as u64, false, 2);
        assert(list@.subrange(i as int, n as int).subrange(1, n - i) =~= list@.subrange(i + 1, n as int));
        i = i + 1;
    }
    assert(hex_of_bytes(list@.subrange(n as int, n as int)) =~= Seq::<char>::empty());
    assert(out@ + Seq::<char>::empty() =~= out@);
    Ok(out)
}


// ---------------------------------------------------------------------------
// Byte positions

/// The number of bytes of a character's UTF-8 encoding.
pub open spec fn char_width(c: char) -> int {
    let u = c as u32;
    if u <= 0x7f {
        1
    } else if u <= 0x7ff {
        2
    } else if u <= 0xffff {
        3
    } else {
        4
    }
}

proof fn lemma_scalar_len(c: char)
    ensures
        vstd::utf8::encode_scalar(c as u32).len() == char_width(c),
{
    vstd::utf8::char_is_scalar(c);
}

proof fn lemma_encode_push(a: Seq<char>, c: char)
    ensures
        encode_utf8(a.push(c)) == encode_utf8(a) + vstd::utf8::encode_scalar(c as u32),
    decreases a.len(),
{
    if a.len() == 0 {
        assert(a.push(c).drop_first() =~= Seq::<char>::empty());
        assert(a.push(c)[0] == c);
        assert(encode_utf8(Seq::<char>::empty()) =~= Seq::<u8>::empty());
        assert(encode_utf8(a) =~= Seq::<u8>::empty());
        assert(encode_utf8(a.push(c)) =~= encode_utf8(a) + vstd::utf8::encode_scalar(c as u32));
    } else {
        let e = vstd::utf8::encode_scalar(c as u32);
        assert(a.push(c).drop_first() =~= a.drop_first().push(c));
        assert(a.push(c)[0] == a[0]);
        lemma_encode_push(a.drop_first(), c);
        let h = vstd::utf8::encode_scalar(a[0] as u32);
        assert(encode_utf8(a.push(c)) == h + (encode_utf8(a.drop_first()) + e));
        assert(encode_utf8(a) == h + encode_utf8(a.drop_first()));
        assert(h + (encode_utf8(a.drop_first()) + e) =~= (h + encode_utf8(a.drop_first())) + e);
    }
}

/// The byte position of the character at position `i`: the length in bytes
/// of the first `i` characters.
pub open spec fn prefix_bytes(s: Seq<char>, i: int) -> int {
    byte_len(s.subrange(0, i))
}

proof fn lemma_prefix_step(s: Seq<char>, i: int)
    requires
        0 <= i < s.len(),
    ensures
        prefix_bytes(s, i + 1) == prefix_bytes(s, i) + char_width(s[i]),
{
    assert(s.subrange(0, i + 1) =~= s.subrange(0, i).push(s[i]));
    lemma_encode_push(s.subrange(0, i), s[i]);
    lemma_scalar_len(s[i]);
}

proof fn lemma_prefix_mono(s: Seq<char>, i: int, j: int)
    requires
        0 <= i <= j <= s.len(),
    ensures
        prefix_bytes(s, i) <= prefix_bytes(s, j),
    decreases j - i,
{
    if i < j {
        lemma_prefix_step(s, j - 1);
        lemma_prefix_mono(s, i, j - 1);
    }
}

proof fn lemma_prefix_ge(s: Seq<char>, i: int)
    requires
        0 <= i <= s.len(),
    ensures
        prefix_bytes(s, i) >= i,
    decreases i,
{
    if i > 0 {
        lemma_prefix_step(s, i - 1);
        lemma_prefix_ge(s, i - 1);
    } else {
        assert(s.subrange(0, 0) =~= Seq::<char>::empty());
    }
}

proof fn lemma_prefix_whole(s: Seq<char>)
    ensures
        prefix_bytes(s, s.len() as int) == byte_len(s),
{
    assert(s.subrange(0, s.len() as int) =~= s);
}

fn width(c: char) -> (w: usize)
    ensures
        w == char_width(c),
{
    let u = c as u32;
    if u <= 0x7f {
        1
    } else if u <= 0x7ff {
        2
    } else if u <= 0xffff {
        3
    } else {
        4
    }
}

/// The byte position of the character at position `i` (see `prefix_bytes`).
fn byte_offset(cs: &Vec<char>, i: usize) -> (r: usize)
    requires
        i <= cs@.len(),
        byte_len(cs@) <= isize::MAX,
    ensures
        r == prefix_bytes(cs@, i as int),
{
    let mut off: usize = 0;
    let mut k: usize = 0;
    assert(cs@.subrange(0, 0) =~= Seq::<char>::empty());
    while k < i
        invariant
            k <= i <= cs@.len(),
            byte_len(cs@) <= isize::MAX,
            off == prefix_bytes(cs@, k as int),
        decreases i - k,
    {
        proof {
            lemma_prefix_step(cs@, k as int);
            lemma_prefix_mono(cs@, k + 1, cs@.len() as int);
            lemma_prefix_whole(cs@);
        }
        off = off + width(cs[k]);
        k = k + 1;
    }
    off
}

pub open spec fn boundary_pred(s: Seq<char>, b: int) -> spec_fn(int) -> bool {
    |i: int| prefix_bytes(s, i) == b
}

/// The character position whose byte position is `b`, where `b` falls
/// between two characters (or at either end).
pub open spec fn char_at_byte(s: Seq<char>, b: int) -> Option<int> {
    crate::seqs::first_index((s.len() + 1) as nat, boundary_pred(s, b))
}

fn char_index_of_byte(cs: &Vec<char>, b: usize) -> (r: Option<usize>)
    requires
        byte_len(cs@) <= isize::MAX,
    ensures
        match r {
            Some(k) => k <= cs@.len() && char_at_byte(cs@, b as int) == Some(k as int),
            None => char_at_byte(cs@, b as int) == None::<int>,
        },
{
    let n = cs.len();
    let ghost pred = boundary_pred(cs@, b as int);
    let mut off: usize = 0;
    let mut k: usize = 0;
    assert(cs@.subrange(0, 0) =~= Seq::<char>::empty());
    while k < n
        invariant
            n == cs@.len(),
            k <= n,
            byte_len(cs@) <= isize::MAX,
            off == prefix_bytes(cs@, k as int),
            pred == boundary_pred(cs@, b as int),
            forall|j: int| 0 <= j < k ==> !#[trigger] pred(j),
        decreases n - k,
    {
        if off == b {
            proof { crate::seqs::lemma_first_index_is((n + 1) as nat, pred, k as int); }
            return Some(k);
        }
        proof {
            lemma_prefix_step(cs@, k as int);
            lemma_prefix_mono(cs@, k + 1, cs@.len() as int);
            lemma_prefix_whole(cs@);
        }
        off = off + width(cs[k]);
        k = k + 1;
    }
    if off == b {
        proof { crate::seqs::lemma_first_index_is((n + 1) as nat, pred, n as int); }
        Some(n)
    } else {
        proof { crate::seqs::lemma_first_index_none((n + 1) as nat, pred); }
        None
    }
}

/// Where `__find_from`, `__contains_at` would slice their string: `None`
/// for a start outside the string (negative, or past its last byte as an
/// unsigned size), else the character position of the start, where there
/// is one.
pub open spec fn start_position(s: Seq<char>, start: i64) -> Option<Option<int>> {
    if start < 0 || (start as usize) as int > byte_len(s) {
        None
    } else {
        Some(char_at_byte(s, (start as usize) as int))
    }
}

/// The start falls outside the string or between two characters: the
/// inputs on which slicing at it does not panic.
pub open spec fn start_ok(s: Seq<char>, start: i64) -> bool {
    start_position(s, start) != Some(None::<int>)
}

/// The byte position of the first occurrence of `needle` at or after byte
/// `start`, or -1. Occurrences are counted by characters, which for UTF-8
/// is the same as by bytes.
pub open spec fn find_from_result(s: Seq<char>, needle: Seq<char>, start: i64) -> i64 {
    match start_position(s, start) {
        Some(Some(k)) => match crate::text::find(s.subrange(k, s.len() as int), needle) {
            Some(p) => prefix_bytes(s, k + p) as i64,
            None => -1i64,
        },
        _ => -1i64,
    }
}

/// Finds `needle` in `s` from byte `start` on (see `find_from_result`).
pub fn __find_from(s: String, needle: String, start: i64) -> (r: Result<i64, String>)
    requires
        byte_len(s@) <= isize::MAX,
        start_ok(s@, start),
    ensures
        r == Ok::<i64, String>(find_from_result(s@, needle@, start)),
{
    if start < 0 {
        return Ok(-1);
    }
    let st = start as usize;
    if st > s.as_str().len() {
        return Ok(-1);
    }
    let cs = chars_of(s.as_str());
    let nd = chars_of(needle.as_str());
    match char_index_of_byte(&cs, st) {
        None => Ok(-1),
        Some(k) => {
            let rest = &cs.as_slice()[k..cs.len()];
            match crate::text::find_slice(rest, nd.as_slice()) {
                Some(p) => {
                    proof {
                        crate::text::lemma_find(rest@, nd@);
                        lemma_prefix_mono(cs@, k + p, cs@.len() as int);
                        lemma_prefix_whole(cs@);
                    }
                    let off = byte_offset(&cs, k + p);
                    Ok(off as i64)
                }
                None => Ok(-1),
            }
        }
    }
}

/// Whether `needle` occurs in `haystack` at or after byte `start`; false
/// for a start outside the string.
pub open spec fn contains_at_result(haystack: Seq<char>, needle: Seq<char>, start: i64) -> bool {
    match start_position(haystack, start) {
        Some(Some(k)) => crate::text::contains(haystack.subrange(k, haystack.len() as int), needle),
        _ => false,
    }
}

/// Whether `needle` occurs from byte `start` on (see `contains_at_result`).
pub fn __contains_at(haystack: String, needle: String, start: i64) -> (r: Result<bool, String>)
    requires
        byte_len(haystack@) <= isize::MAX,
        start_ok(haystack@, start),
    ensures
        r == Ok::<bool, String>(contains_at_result(haystack@, needle@, start)),
{
    if start < 0 || start as usize > haystack.as_str().len() {
        return Ok(false);
    }
    let cs = chars_of(haystack.as_str());
    let nd = chars_of(needle.as_str());
    match char_index_of_byte(&cs, start as usize) {
        None => Ok(false),
        Some(k) => {
            let rest = &cs.as_slice()[k..cs.len()];
            Ok(crate::text::find_slice(rest, nd.as_slice()).is_some())
        }
    }
}

/// The greatest index `i < n` satisfying `p`, if there is one.
pub open spec fn last_index(n: nat, p: spec_fn(int) -> bool) -> Option<int>
    decreases n,
{
    if n == 0 {
        None
    } else if p(n - 1) {
        Some(n - 1)
    } else {
        last_index((n - 1) as nat, p)
    }
}

pub proof fn lemma_last_index(n: nat, p: spec_fn(int) -> bool)
    ensures
        match last_index(n, p) {
            Some(i) => 0 <= i < n && p(i),
            None => true,
        },
    decreases n,
{
    if n > 0 {
        lemma_last_index((n - 1) as nat, p);
    }
}

/// The last character position where `p` occurs in `s` (`str::rfind`).
pub open spec fn rfind(s: Seq<char>, p: Seq<char>) -> Option<int> {
    last_index((s.len() + 1) as nat, crate::text::occurs_pred(s, p))
}

/// The byte position of the last occurrence of `needle`, or -1.
pub fn __rfind(s: String, needle: String) -> (r: Result<i64, String>)
    requires
        byte_len(s@) <= isize::MAX,
    ensures
        r == Ok::<i64, String>(
            match rfind(s@, needle@) {
                Some(i) => prefix_bytes(s@, i) as i64,
                None => -1i64,
            },
        ),
{
    let cs = chars_of(s.as_str());
    let nd = chars_of(needle.as_str());
    let ghost pred = crate::text::occurs_pred(cs@, nd@);
    proof {
        lemma_prefix_ge(cs@, cs@.len() as int);
        lemma_prefix_whole(cs@);
    }
    let mut k: usize = cs.len() + 1;
    while k > 0
        invariant
            k <= cs@.len() + 1,
            cs@ == s@,
            nd@ == needle@,
            byte_len(s@) <= isize::MAX,
            pred == crate::text::occurs_pred(cs@, nd@),
            rfind(cs@, nd@) == last_index(k as nat, pred),
        decreases k,
    {
        if crate::text::occurs_at_exec(cs.as_slice(), nd.as_slice(), k - 1) {
            proof {
                lemma_prefix_mono(cs@, k - 1, cs@.len() as int);
                lemma_prefix_whole(cs@);
                assert(pred(k - 1));
                assert(last_index(k as nat, pred) == Some((k - 1) as int));
            }
            let off = byte_offset(&cs, k - 1);
            assert(off <= isize::MAX);
            assert(rfind(s@, needle@) == Some((k - 1) as int));
            assert(prefix_bytes(s@, (k - 1) as int) == off as int);
            return Ok(off as i64);
        }
        k = k - 1;
    }
    Ok(-1)
}

/// The length of a string in bytes.
pub fn __utf8_len(s: String) -> (r: Result<i64, String>)
    requires
        byte_len(s@) <= isize::MAX,
    ensures
        r == Ok::<i64, String>(byte_len(s@) as i64),
{
    Ok(s.as_str().len() as i64)
}

// ---------------------------------------------------------------------------
// Bytes and code points

/// The bytes of the string's UTF-8 encoding.
pub fn __bytes(s: String) -> (r: Result<Vec<i64>, String>)
    ensures
        r matches Ok(v) && v@.len() == encode_utf8(s@).len()
            && forall|i: int| 0 <= i < v@.len() ==> v@[i] == encode_utf8(s@)[i] as i64,
{
    let b = s.as_str().as_bytes();
    let mut out: Vec<i64> = Vec::new();
    let mut i: usize = 0;
    while i < b.len()
        invariant
            i <= b@.len(),
            b@ == encode_utf8(s@),
            out@.len() == i,
            forall|j: int| 0 <= j < i ==> out@[j] == b@[j] as i64,
        decreases b@.len() - i,
    {
        out.push(b[i] as i64);
        i = i + 1;
    }
    Ok(out)
}

/// The code point of each character.
pub fn __utf8_encode(s: String) -> (r: Result<Vec<i64>, String>)
    ensures
        r matches Ok(v) && v@.len() == s@.len() && forall|i: int| 0 <= i < v@.len() ==> v@[i] == s@[i] as u32,
{
    let cs = chars_of(s.as_str());
    let mut out: Vec<i64> = Vec::new();
    let mut i: usize = 0;
    while i < cs.len()
        invariant
            i <= cs@.len(),
            cs@ == s@,
            out@.len() == i,
            forall|j: int| 0 <= j < i ==> out@[j] == cs@[j] as u32,
        decreases cs@.len() - i,
    {
        out.push(cs[i] as u32 as i64);
        i = i + 1;
    }
    Ok(out)
}

/// Each character as a string of its own.
pub fn __get_chars(s: String) -> (r: Result<Vec<String>, String>)
    ensures
        r matches Ok(v) && v@.len() == s@.len() && forall|i: int| 0 <= i < v@.len() ==> v@[i]@ == seq![s@[i]],
{
    let cs = chars_of(s.as_str());
    let mut out: Vec<String> = Vec::new();
    let mut i: usize = 0;
    while i < cs.len()
        invariant
            i <= cs@.len(),
            cs@ == s@,
            out@.len() == i,
            forall|j: int| 0 <= j < i ==> out@[j]@ == seq![cs@[j]],
        decreases cs@.len() - i,
    {
        let mut one = String::new();
        push_char(&mut one, cs[i]);
        assert(one@ =~= seq![cs@[i as int]]);
        out.push(one);
        i = i + 1;
    }
    Ok(out)
}

/// A Unicode scalar value: a code point that is not a surrogate.
pub open spec fn scalar(u: u32) -> bool {
    u <= 0xD7FF || (0xE000 <= u && u <= 0x10FFFF)
}

/// Calls `char::from_u32`, which gives the character with code `u` exactly
/// when `u` is a Unicode scalar value.
#[verifier::external_body]
fn char_from_u32(u: u32) -> (r: Option<char>)
    ensures
        r is Some <==> scalar(u),
        r matches Some(c) ==> c as u32 == u,
{
    char::from_u32(u)
}

/// The characters of the codes that are Unicode scalar values, each code
/// cut to its lowest 32 bits; the other codes are skipped.
pub open spec fn decoded(l: Seq<i64>) -> Seq<char>
    decreases l.len(),
{
    if l.len() == 0 {
        Seq::empty()
    } else {
        let u = l.last() as u32;
        if scalar(u) {
            decoded(l.drop_last()).push(u as char)
        } else {
            decoded(l.drop_last())
        }
    }
}

/// Builds a string from code points (see `decoded`).
pub fn __utf8_decode(list: Vec<i64>) -> (r: Result<String, String>)
    ensures
        r matches Ok(t) && t@ == decoded(list@),
{
    let mut out = String::new();
    let mut i: usize = 0;
    while i < list.len()
        invariant
            i <= list@.len(),
            out@ == decoded(list@.subrange(0, i as int)),
        decreases list@.len() - i,
    {
        let u = list[i] as u32;
        let ghost pre = list@.subrange(0, i + 1);
        assert(pre.drop_last() =~= list@.subrange(0, i as int));
        match char_from_u32(u) {
            Some(c) => {
                proof { vstd::utf8::char_u32_cast(c, u); }
                push_char(&mut out, c);
            }
            None => {}
        }
        i = i + 1;
    }
    assert(list@.subrange(0, list@.len() as int) =~= list@);
    Ok(out)
}

/// The character with the given code as a string, or the empty string where
/// the code (cut to 32 bits) is no Unicode scalar value.
pub fn __codepoint_to_char(code: i64) -> (r: Result<String, String>)
    ensures
        r matches Ok(t) && t@ == (if scalar(code as u32) { seq![(code as u32) as char] } else { Seq::<char>::empty() }),
{
    let u = code as u32;
    let mut out = String::new();
    match char_from_u32(u) {
        Some(c) => {
            proof { vstd::utf8::char_u32_cast(c, u); }
            push_char(&mut out, c);
            assert(out@ =~= seq![c]);
        }
        None => {}
    }
    Ok(out)
}

/// The code of the first character, or 0 for the empty string.
pub fn __char_to_codepoint(c: String) -> (r: Result<i64, String>)
    ensures
        r == Ok::<i64, String>(if c@.len() == 0 { 0i64 } else { (c@[0] as u32) as i64 }),
{
    let cs = chars_of(c.as_str());
    if cs.len() == 0 {
        Ok(0)
    } else {
        Ok(cs[0] as u32 as i64)
    }
}

/// Calls `String::from_utf8`, which accepts exactly the valid UTF-8 byte
/// sequences and decodes them.
#[verifier::external_body]
pub(crate) fn string_from_utf8(bytes: Vec<u8>) -> (r: Option<String>)
    ensures
        r is Some <==> vstd::utf8::valid_utf8(bytes@),
        r matches Some(t) ==> t@ == vstd::utf8::decode_utf8(bytes@),
{
    String::from_utf8(bytes).ok()
}

/// Each number cut to its lowest byte.
pub open spec fn low_bytes(l: Seq<i64>) -> Seq<u8> {
    l.map_values(|b: i64| b as u8)
}

/// Decodes a list of bytes (each number cut to its lowest byte) as UTF-8;
/// an error where they are not valid UTF-8.
pub fn __from_bytes(list: Vec<i64>) -> (r: Result<String, String>)
    ensures
        match r {
            Ok(t) => vstd::utf8::valid_utf8(low_bytes(list@)) && t@ == vstd::utf8::decode_utf8(low_bytes(list@)),
            Err(m) => !vstd::utf8::valid_utf8(low_bytes(list@)) && m@ == "Invalid UTF-8"@,
        },
{
    let mut bytes: Vec<u8> = Vec::new();
    let mut i: usize = 0;
    while i < list.len()
        invariant
            i <= list@.len(),
            bytes@ =~= low_bytes(list@.subrange(0, i as int)),
        decreases list@.len() - i,
    {
        bytes.push(list[i] as u8);
        i = i + 1;
    }
    assert(list@.subrange(0, list@.len() as int) =~= list@);
    match string_from_utf8(bytes) {
        Some(t) => Ok(t),
        None => Err(owned("Invalid UTF-8")),
    }
}


// ---------------------------------------------------------------------------
// Character classes and title case

/// What `char::is_numeric` answers (a Unicode numeric character).
pub uninterp spec fn unicode_numeric(c: char) -> bool;

/// What `char::is_lowercase` answers (the Unicode Lowercase property).
pub uninterp spec fn unicode_lowercase(c: char) -> bool;

/// What `char::is_uppercase` answers (the Unicode Uppercase property).
pub uninterp spec fn unicode_uppercase(c: char) -> bool;

/// Calls `char::is_numeric`; the contract only names the answer.
#[verifier::external_body]
fn is_numeric(c: char) -> (b: bool)
    ensures
        b == unicode_numeric(c),
{
    c.is_numeric()
}

/// Calls `char::is_lowercase`; the contract only names the answer.
#[verifier::external_body]
fn is_lowercase(c: char) -> (b: bool)
    ensures
        b == unicode_lowercase(c),
{
    c.is_lowercase()
}

/// Calls `char::is_uppercase`; the contract only names the answer.
#[verifier::external_body]
pub(crate) fn is_uppercase(c: char) -> (b: bool)
    ensures
        b == unicode_uppercase(c),
{
    c.is_uppercase()
}

/// The classes a string can be tested against, character by character.
pub enum CharClass {
    Whitespace,
    Alphabetic,
    Alphanumeric,
    Numeric,
    LowerOrOther,
    UpperOrOther,
}

pub open spec fn in_class(c: char, k: CharClass) -> bool {
    match k {
        CharClass::Whitespace => is_ws(c),
        CharClass::Alphabetic => unicode_alphabetic(c),
        CharClass::Alphanumeric => unicode_alphanumeric(c),
        CharClass::Numeric => unicode_numeric(c),
        CharClass::LowerOrOther => unicode_lowercase(c) || !unicode_alphabetic(c),
        CharClass::UpperOrOther => unicode_uppercase(c) || !unicode_alphabetic(c),
    }
}

/// Every character of `s` is in the class.
pub open spec fn all_in(s: Seq<char>, k: CharClass) -> bool {
    forall|i: int| 0 <= i < s.len() ==> in_class(#[trigger] s[i], k)
}

fn all_in_exec(s: &str, k: CharClass) -> (b: bool)
    ensures
        b == all_in(s@, k),
{
    let cs = chars_of(s);
    let mut i: usize = 0;
    while i < cs.len()
        invariant
            i <= cs@.len(),
            cs@ == s@,
            forall|j: int| 0 <= j < i ==> in_class(#[trigger] cs@[j], k),
        decreases cs@.len() - i,
    {
        let c = cs[i];
        let ok = match k {
            CharClass::Whitespace => is_whitespace(c),
            CharClass::Alphabetic => is_alphabetic(c),
            CharClass::Alphanumeric => is_alphanumeric(c),
            CharClass::Numeric => is_numeric(c),
            CharClass::LowerOrOther => is_lowercase(c) || !is_alphabetic(c),
            CharClass::UpperOrOther => is_uppercase(c) || !is_alphabetic(c),
        };
        if !ok {
            return false;
        }
        i = i + 1;
    }
    true
}

/// Whether every character is white space (true for the empty string).
pub fn __is_whitespace(s: String) -> (r: Result<bool, String>)
    ensures
        r == Ok::<bool, String>(all_in(s@, CharClass::Whitespace)),
{
    Ok(all_in_exec(s.as_str(), CharClass::Whitespace))
}

/// Whether the string is not empty and every character is alphabetic.
pub fn __is_alpha(s: String) -> (r: Result<bool, String>)
    ensures
        r == Ok::<bool, String>(s@.len() > 0 && all_in(s@, CharClass::Alphabetic)),
{
    Ok(!s.as_str().is_empty() && all_in_exec(s.as_str(), CharClass::Alphabetic))
}

/// Whether the string is not empty and every character is alphanumeric.
pub fn __is_alphanumeric(s: String) -> (r: Result<bool, String>)
    ensures
        r == Ok::<bool, String>(s@.len() > 0 && all_in(s@, CharClass::Alphanumeric)),
{
    Ok(!s.as_str().is_empty() && all_in_exec(s.as_str(), CharClass::Alphanumeric))
}

/// Whether the string is not empty and every character is numeric.
pub fn __is_numeric(s: String) -> (r: Result<bool, String>)
    ensures
        r == Ok::<bool, String>(s@.len() > 0 && all_in(s@, CharClass::Numeric)),
{
    Ok(!s.as_str().is_empty() && all_in_exec(s.as_str(), CharClass::Numeric))
}

/// Whether the string is not empty and has no upper-case letter: each
/// character is lower case or not a letter.
pub fn __is_lower(s: String) -> (r: Result<bool, String>)
    ensures
        r == Ok::<bool, String>(s@.len() > 0 && all_in(s@, CharClass::LowerOrOther)),
{
    Ok(!s.as_str().is_empty() && all_in_exec(s.as_str(), CharClass::LowerOrOther))
}

/// Whether the string is not empty and each character is upper case or not
/// a letter.
pub fn __is_upper(s: String) -> (r: Result<bool, String>)
    ensures
        r == Ok::<bool, String>(s@.len() > 0 && all_in(s@, CharClass::UpperOrOther)),
{
    Ok(!s.as_str().is_empty() && all_in_exec(s.as_str(), CharClass::UpperOrOther))
}

/// What `char::to_uppercase` yields for a character (one or more
/// characters), a fixed function of it.
pub uninterp spec fn upper_of(c: char) -> Seq<char>;

/// What `char::to_lowercase` yields for a character.
pub uninterp spec fn lower_of(c: char) -> Seq<char>;

/// Calls `char::to_uppercase` and collects what it yields.
#[verifier::external_body]
fn char_upper(c: char) -> (r: String)
    ensures
        r@ == upper_of(c),
{
    c.to_uppercase().collect()
}

/// Calls `char::to_lowercase` and collects what it yields.
#[verifier::external_body]
fn char_lower(c: char) -> (r: String)
    ensures
        r@ == lower_of(c),
{
    c.to_lowercase().collect()
}

/// Title case: the first letter after the start or after white space is
/// put in upper case, every other character in lower case. `cap` says
/// whether the next letter is to be capitalized.
pub open spec fn titled(s: Seq<char>, cap: bool) -> Seq<char>
    decreases s.len(),
{
    if s.len() == 0 {
        Seq::empty()
    } else {
        let c = s[0];
        let rest = s.subrange(1, s.len() as int);
        if cap && unicode_alphabetic(c) {
            upper_of(c) + titled(rest, false)
        } else {
            lower_of(c) + titled(rest, if is_ws(c) { true } else { cap })
        }
    }
}

/// The string in title case (see `titled`).
pub fn __to_title(s: String) -> (r: Result<String, String>)
    ensures
        r matches Ok(t) && t@ == titled(s@, true),
{
    let cs = chars_of(s.as_str());
    let n = cs.len();
    let mut out = String::new();
    let mut cap = true;
    let mut i: usize = 0;
    assert(cs@.subrange(0, n as int) =~= cs@);
    while i < n
        invariant
            n == cs@.len(),
            cs@ == s@,
            i <= n,
            titled(s@, true) == out@ + titled(cs@.subrange(i as int, n as int), cap),
        decreases n - i,
    {
        let c = cs[i];
        let ghost rest = cs@.subrange(i + 1, n as int);
        assert(cs@.subrange(i as int, n as int).subrange(1, n - i) =~= rest);
        if cap && is_alphabetic(c) {
            let u = char_upper(c);
            out.append(u.as_str());
            cap = false;
        } else {
            let l = char_lower(c);
            out.append(l.as_str());
            if is_whitespace(c) {
                cap = true;
            }
        }
        i = i + 1;
    }
    assert(titled(cs@.subrange(n as int, n as int), cap) =~= Seq::<char>::empty());
    assert(out@ + Seq::<char>::empty() =~= out@);
    Ok(out)
}

// ---------------------------------------------------------------------------
// Replacing

/// `r` before each character and after the last: what replacing the empty
/// pattern gives.
pub open spec fn interleaved(s: Seq<char>, r: Seq<char>) -> Seq<char>
    decreases s.len(),
{
    if s.len() == 0 {
        r
    } else {
        r + seq![s[0]] + interleaved(s.subrange(1, s.len() as int), r)
    }
}

/// `str::replace`: each occurrence of `p` from the left becomes `r`; the
/// empty pattern occurs before each character and at the end.
pub open spec fn replaced(s: Seq<char>, p: Seq<char>, r: Seq<char>) -> Seq<char> {
    if p.len() == 0 {
        interleaved(s, r)
    } else {
        replace_all(s, p, r)
    }
}

/// Replaces every occurrence of `old` by `new` (see `replaced`).
pub fn __replace_all(s: String, old: String, new: String) -> (r: Result<String, String>)
    ensures
        r matches Ok(t) && t@ == replaced(s@, old@, new@),
{
    let cs = chars_of(s.as_str());
    if old.as_str().is_empty() {
        let n = cs.len();
        let mut out = String::new();
        let mut i: usize = 0;
        assert(cs@.subrange(0, n as int) =~= cs@);
        while i < n
            invariant
                n == cs@.len(),
                cs@ == s@,
                i <= n,
                interleaved(s@, new@) == out@ + interleaved(cs@.subrange(i as int, n as int), new@),
            decreases n - i,
        {
            let ghost before = out@;
            out.append(new.as_str());
            push_char(&mut out, cs[i]);
            assert(out@ =~= before + new@ + seq![cs@[i as int]]);
            assert(cs@.subrange(i as int, n as int).subrange(1, n - i) =~= cs@.subrange(i + 1, n as int));
            i = i + 1;
        }
        out.append(new.as_str());
        assert(interleaved(cs@.subrange(n as int, n as int), new@) == new@);
        Ok(out)
    } else {
        let out = replace_str(cs.as_slice(), old.as_str(), new.as_str());
        Ok(string_of(out.as_slice()))
    }
}

// ---------------------------------------------------------------------------
// Random numbers

/// The number that `__random_int` picks for a clock reading of `nanos`
/// nanoseconds past the second.
pub open spec fn random_pick(min: i64, max: i64, nanos: u32) -> int {
    min + (nanos as int) % (max - min + 1)
}

/// The range `min..=max` has at most `i64::MAX` numbers, so that counting
/// them does not overflow; an empty range is reported as an error.
pub open spec fn random_range_ok(min: i64, max: i64) -> bool {
    min < max ==> max - min + 1 <= i64::MAX
}

/// Picks a number in `min..=max` from a clock reading (see `random_pick`);
/// an error where `min` is not below `max`.
pub fn random_int_from(min: i64, max: i64, nanos: u32) -> (r: Result<i64, String>)
    requires
        random_range_ok(min, max),
    ensures
        match r {
            Ok(v) => min < max && v == random_pick(min, max, nanos),
            Err(m) => min >= max && m@ == "min must be less than max"@,
        },
{
    if min >= max {
        return Err(owned("min must be less than max"));
    }
    let range = (max - min + 1) as u64;
    let result = (nanos as u64) % range;
    assert(result < range);
    Ok(min + result as i64)
}

/// Reads the system clock (`SystemTime::now`, measured from `UNIX_EPOCH`):
/// the whole seconds since the Unix epoch and the nanoseconds past that
/// second, or `None` where the clock is set before the epoch. The reading
/// depends on the time; nothing more is stated of it.
#[verifier::external_body]
fn clock_reading() -> (r: Option<(u64, u32)>)
    ensures
        r matches Some(t) ==> t.1 < 1_000_000_000,
{
    match std::time::SystemTime::now().duration_since(std::time::UNIX_EPOCH) {
        Ok(d) => Some((d.as_secs(), d.subsec_nanos())),
        Err(_) => None,
    }
}

/// A number in `min..=max` taken from the clock; an error where `min` is
/// not below `max`, or where the clock reads a time before the Unix epoch.
pub fn __random_int(min: i64, max: i64) -> (r: Result<i64, String>)
    requires
        random_range_ok(min, max),
    ensures
        min >= max ==> (r matches Err(m) && m@ == "min must be less than max"@),
        r matches Ok(v) ==> min <= v <= max && exists|n: u32| v == random_pick(min, max, n),
        r matches Err(m) ==> (min >= max && m@ == "min must be less than max"@)
            || (min < max && m@ == "System clock is before the Unix epoch"@),
{
    if min >= max {
        return Err(owned("min must be less than max"));
    }
    match clock_reading() {
        Some((_, n)) => {
            let r = random_int_from(min, max, n);
            proof {
                if r is Ok {
                    assert((n as int) % (max - min + 1) < max - min + 1);
                }
            }
            r
        }
        None => Err(owned("System clock is before the Unix epoch")),
    }
}

// ---------------------------------------------------------------------------
// The clock

/// A clock reading of `secs` seconds and `nanos` nanoseconds since the Unix
/// epoch counted in units of which `per_sec` make a second (the part of a
/// unit left over is dropped), then cut to 64 bits as `as i64` does.
pub open spec fn time_in_units(secs: u64, nanos: u32, per_sec: int) -> i64 {
    (secs * per_sec + (nanos as int) / (1_000_000_000int / per_sec)) as i64
}

/// Counts a clock reading in units of which `per_sec` make a second.
pub fn time_from_reading(secs: u64, nanos: u32, per_sec: u32) -> (r: i64)
    requires
        per_sec == 1 || per_sec == 1000 || per_sec == 1_000_000,
    ensures
        r == time_in_units(secs, nanos, per_sec as int),
{
    assert((secs as u128) * (per_sec as u128) <= 0x1_0000_0000_0000_0000 * 1_000_000) by (nonlinear_arith)
        requires
            per_sec <= 1_000_000,
    ;
    let whole: u128 = (secs as u128) * (per_sec as u128);
    let part: u128 = (nanos / (1_000_000_000u32 / per_sec)) as u128;
    let v: u128 = whole + part;
    #[verifier::truncate] (v as i64)
}

/// The clock counted in units of which `per_sec` make a second; an error
/// where the clock reads a time before the Unix epoch.
fn now_in_units(per_sec: u32) -> (r: Result<i64, String>)
    requires
        per_sec == 1 || per_sec == 1000 || per_sec == 1_000_000,
    ensures
        match r {
            Ok(v) => exists|secs: u64, nanos: u32| nanos < 1_000_000_000 && v == time_in_units(secs, nanos, per_sec as int),
            Err(m) => m@ == "System clock is before the Unix epoch"@,
        },
{
    match clock_reading() {
        Some((secs, nanos)) => Ok(time_from_reading(secs, nanos, per_sec)),
        None => Err(owned("System clock is before the Unix epoch")),
    }
}

/// The whole seconds since the Unix epoch.
pub fn __now() -> (r: Result<i64, String>)
    ensures
        match r {
            Ok(v) => exists|secs: u64, nanos: u32| nanos < 1_000_000_000 && v == time_in_units(secs, nanos, 1),
            Err(m) => m@ == "System clock is before the Unix epoch"@,
        },
{
    now_in_units(1)
}

/// The whole milliseconds since the Unix epoch.
pub fn __now_millis() -> (r: Result<i64, String>)
    ensures
        match r {
            Ok(v) => exists|secs: u64, nanos: u32| nanos < 1_000_000_000 && v == time_in_units(secs, nanos, 1000),
            Err(m) => m@ == "System clock is before the Unix epoch"@,
        },
{
    now_in_units(1000)
}

/// The whole microseconds since the Unix epoch.
pub fn __now_micros() -> (r: Result<i64, String>)
    ensures
        match r {
            Ok(v) => exists|secs: u64, nanos: u32| nanos < 1_000_000_000 && v == time_in_units(secs, nanos, 1_000_000),
            Err(m) => m@ == "System clock is before the Unix epoch"@,
        },
{
    now_in_units(1_000_000)
}

// ---------------------------------------------------------------------------
// Calendar arithmetic (every year 365 days, every month 30)

/// The year of a timestamp, counting 365-day years from 1970.
pub fn __year(timestamp: i64) -> (r: Result<i64, String>)
    ensures
        r == Ok::<i64, String>((1970 + trunc_div(timestamp as int, 31536000)) as i64),
{
    proof { lemma_div_bound(timestamp as int, 31536000); }
    Ok(1970 + div_trunc(timestamp, 31536000))
}

/// The hour of the day.
pub fn __hour(timestamp: i64) -> (r: Result<i64, String>)
    ensures
        r == Ok::<i64, String>(trunc_div(trunc_rem(timestamp as int, 86400), 3600) as i64),
{
    let d = rem_trunc(timestamp, 86400);
    proof { lemma_rem_bound(timestamp as int, 86400); }
    Ok(div_trunc(d, 3600))
}

/// The minute of the hour.
pub fn __minute(timestamp: i64) -> (r: Result<i64, String>)
    ensures
        r == Ok::<i64, String>(trunc_div(trunc_rem(timestamp as int, 3600), 60) as i64),
{
    let d = rem_trunc(timestamp, 3600);
    proof { lemma_rem_bound(timestamp as int, 3600); }
    Ok(div_trunc(d, 60))
}

/// The second of the minute.
pub fn __second(timestamp: i64) -> (r: Result<i64, String>)
    ensures
        r == Ok::<i64, String>(trunc_rem(timestamp as int, 60) as i64),
{
    Ok(rem_trunc(timestamp, 60))
}

/// The day of the week, 0 for the weekday of 1 January 1970 (a Thursday)
/// counted as 4.
pub fn __weekday(timestamp: i64) -> (r: Result<i64, String>)
    ensures
        r == Ok::<i64, String>(trunc_rem(trunc_div(timestamp as int, 86400) + 4, 7) as i64),
{
    let days = div_trunc(timestamp, 86400);
    proof {
        lemma_div_bound(timestamp as int, 86400); lemma_rem_bound(trunc_div(timestamp as int, 86400) + 4, 7); }
    Ok(rem_trunc(days + 4, 7))
}

/// The day of the 365-day year.
pub fn __yearday(timestamp: i64) -> (r: Result<i64, String>)
    ensures
        r == Ok::<i64, String>(trunc_div(trunc_rem(timestamp as int, 31536000), 86400) as i64),
{
    let d = rem_trunc(timestamp, 31536000);
    proof { lemma_rem_bound(timestamp as int, 31536000); }
    Ok(div_trunc(d, 86400))
}

/// The days since 1970 of a date, every year 365 days and every month 30.
pub open spec fn days_of(year: int, month: int, day: int) -> int {
    (year - 1970) * 365 + (month - 1) * 30 + day
}

/// The arithmetic of `__timestamp` stays within `i64`.
pub open spec fn timestamp_fits(year: i64, month: i64, day: i64) -> bool {
    &&& i64::MIN <= year - 1970
    &&& i64::MIN <= (year - 1970) * 365 <= i64::MAX
    &&& i64::MIN <= month - 1
    &&& i64::MIN <= (month - 1) * 30 <= i64::MAX
    &&& i64::MIN <= (year - 1970) * 365 + (month - 1) * 30 <= i64::MAX
    &&& i64::MIN <= days_of(year as int, month as int, day as int) <= i64::MAX
    &&& i64::MIN <= days_of(year as int, month as int, day as int) * 86400 <= i64::MAX
}

/// The timestamp of midnight at the start of a date.
pub fn __timestamp(year: i64, month: i64, day: i64) -> (r: Result<i64, String>)
    requires
        timestamp_fits(year, month, day),
    ensures
        r == Ok::<i64, String>((days_of(year as int, month as int, day as int) * 86400) as i64),
{
    let days = (year - 1970) * 365 + (month - 1) * 30 + day;
    Ok(days * 86400)
}

/// The arithmetic of `__timestamp_full` stays within `i64`.
pub open spec fn timestamp_full_fits(year: i64, month: i64, day: i64, hour: i64, minute: i64, second: i64) -> bool {
    let base = days_of(year as int, month as int, day as int) * 86400;
    &&& timestamp_fits(year, month, day)
    &&& i64::MIN <= hour * 3600 <= i64::MAX
    &&& i64::MIN <= minute * 60 <= i64::MAX
    &&& i64::MIN <= base + hour * 3600 <= i64::MAX
    &&& i64::MIN <= base + hour * 3600 + minute * 60 <= i64::MAX
    &&& i64::MIN <= base + hour * 3600 + minute * 60 + second <= i64::MAX
}

/// The timestamp of a date and time of day.
pub fn __timestamp_full(year: i64, month: i64, day: i64, hour: i64, minute: i64, second: i64)
    -> (r: Result<i64, String>)
    requires
        timestamp_full_fits(year, month, day, hour, minute, second),
    ensures
        r == Ok::<i64, String>(
            (days_of(year as int, month as int, day as int) * 86400 + hour * 3600 + minute * 60 + second) as i64,
        ),
{
    let days = (year - 1970) * 365 + (month - 1) * 30 + day;
    Ok(days * 86400 + hour * 3600 + minute * 60 + second)
}

proof fn lemma_div_bound(a: int, b: int)
    requires
        b >= 2,
        i64::MIN <= a <= i64::MAX,
    ensures
        -0x4000_0000_0000_0000 <= trunc_div(a, b) <= 0x4000_0000_0000_0000,
{
    let m = crate::compiler::symbolic::abs(a);
    assert(m <= 0x8000_0000_0000_0000);
    vstd::arithmetic::div_mod::lemma_div_is_ordered_by_denominator(m, 2, b);
    vstd::arithmetic::div_mod::lemma_div_is_ordered(m, 0x8000_0000_0000_0000, 2);
    vstd::arithmetic::div_mod::lemma_div_pos_is_pos(m, b);
}

proof fn lemma_rem_bound(a: int, b: int)
    requires
        b > 0,
    ensures
        -b < trunc_rem(a, b) < b,
{
    let q = crate::compiler::symbolic::abs(a) / b;
    let m = crate::compiler::symbolic::abs(a) % b;
    vstd::arithmetic::div_mod::lemma_fundamental_div_mod(crate::compiler::symbolic::abs(a), b);
    if a < 0 {
        assert(trunc_div(a, b) == -q);
        assert(trunc_rem(a, b) == a + b * q) by (nonlinear_arith)
            requires
                trunc_div(a, b) == -q,
        ;
    } else {
        assert(trunc_div(a, b) == q);
    }
}


// ---------------------------------------------------------------------------
// Words, lists and JSON-shaped text

/// The words of the string, split at white space.
pub fn __words(s: String) -> (r: Result<Vec<String>, String>)
    ensures
        r matches Ok(v) && string_views(v@) == words(s@),
{
    let cs = chars_of(s.as_str());
    let ws = words_of(cs.as_slice());
    let mut out: Vec<String> = Vec::new();
    let mut i: usize = 0;
    while i < ws.len()
        invariant
            i <= ws@.len(),
            views(ws@) == words(s@),
            cs@ == s@,
            string_views(out@) =~= views(ws@).subrange(0, i as int),
        decreases ws@.len() - i,
    {
        let ghost before = out@;
        let w = string_of(ws[i].as_slice());
        out.push(w);
        assert(string_views(out@) =~= string_views(before).push(ws@[i as int]@));
        assert(views(ws@).subrange(0, i + 1) =~= views(ws@).subrange(0, i as int).push(ws@[i as int]@));
        i = i + 1;
    }
    assert(views(ws@).subrange(0, ws@.len() as int) =~= views(ws@));
    Ok(out)
}

// ---------------------------------------------------------------------------
// Splitting

/// The pieces of `s` between the occurrences of a non-empty `p`, found from
/// the left without overlap.
pub open spec fn split_on(s: Seq<char>, p: Seq<char>) -> Seq<Seq<char>>
    decreases s.len(),
{
    if p.len() == 0 {
        seq![s]
    } else {
        match find(s, p) {
            Some(i) => {
                proof {
                    lemma_find(s, p);
                }
                seq![s.subrange(0, i)] + split_on(s.subrange(i + p.len(), s.len() as int), p)
            },
            None => seq![s],
        }
    }
}

/// The pieces of `s` between the occurrences of a non-empty `p`, found from
/// the right without overlap, the last piece first.
pub open spec fn rsplit_on(s: Seq<char>, p: Seq<char>) -> Seq<Seq<char>>
    decreases s.len(),
{
    if p.len() == 0 {
        seq![s]
    } else {
        match rfind(s, p) {
            Some(i) => {
                proof {
                    lemma_last_index((s.len() + 1) as nat, occurs_pred(s, p));
                }
                seq![s.subrange(i + p.len(), s.len() as int)] + rsplit_on(s.subrange(0, i), p)
            },
            None => seq![s],
        }
    }
}

/// Splitting at the empty pattern: an empty piece, each character on its
/// own, and an empty piece.
pub open spec fn split_chars(s: Seq<char>) -> Seq<Seq<char>> {
    seq![Seq::<char>::empty()] + s.map_values(|c: char| seq![c]) + seq![Seq::<char>::empty()]
}

/// `str::split` with a string pattern.
pub open spec fn split_parts(s: Seq<char>, p: Seq<char>) -> Seq<Seq<char>> {
    if p.len() == 0 {
        split_chars(s)
    } else {
        split_on(s, p)
    }
}

/// `str::rsplit` with a string pattern: the search runs from the right.
pub open spec fn rsplit_parts(s: Seq<char>, p: Seq<char>) -> Seq<Seq<char>> {
    if p.len() == 0 {
        split_chars(s).reverse()
    } else {
        rsplit_on(s, p)
    }
}

fn split_chars_exec(s: &[char]) -> (out: Vec<Vec<char>>)
    ensures
        views(out@) == split_chars(s@),
{
    let mut out: Vec<Vec<char>> = Vec::new();
    out.push(Vec::new());
    let mut i: usize = 0;
    while i < s.len()
        invariant
            i <= s@.len(),
            views(out@) =~= seq![Seq::<char>::empty()] + s@.subrange(0, i as int).map_values(|c: char| seq![c]),
        decreases s@.len() - i,
    {
        let ghost before = out@;
        let mut one: Vec<char> = Vec::new();
        one.push(s[i]);
        out.push(one);
        assert(views(out@) =~= views(before).push(seq![s@[i as int]]));
        assert(s@.subrange(0, i + 1).map_values(|c: char| seq![c])
            =~= s@.subrange(0, i as int).map_values(|c: char| seq![c]).push(seq![s@[i as int]]));
        i = i + 1;
    }
    let ghost before = out@;
    out.push(Vec::new());
    assert(s@.subrange(0, s@.len() as int) =~= s@);
    assert(views(out@) =~= views(before).push(Seq::<char>::empty()));
    out
}

pub(crate) fn split_on_exec(s: &[char], p: &[char]) -> (out: Vec<Vec<char>>)
    requires
        p@.len() > 0,
    ensures
        views(out@) == split_on(s@, p@),
{
    let n = s.len();
    let mut out: Vec<Vec<char>> = Vec::new();
    let mut pos: usize = 0;
    assert(s@.subrange(0, n as int) =~= s@);
    loop
        invariant
            n == s@.len(),
            pos <= n,
            p@.len() > 0,
            split_on(s@, p@) =~= views(out@) + split_on(s@.subrange(pos as int, n as int), p@),
        decreases n - pos,
    {
        let rest = &s[pos..n];
        let ghost rs = rest@;
        proof {
            lemma_find(rs, p@);
        }
        let ghost before = out@;
        match find_slice(rest, p) {
            Some(i) => {
                out.push(copy_chars(&rest[0..i]));
                assert(views(out@) =~= views(before).push(rs.subrange(0, i as int)));
                assert(rs.subrange(i + p@.len(), rs.len() as int) =~= s@.subrange(pos + i + p@.len(), n as int));
                pos = pos + i + p.len();
            },
            None => {
                out.push(copy_chars(rest));
                assert(views(out@) =~= views(before).push(rs));
                return out;
            },
        }
    }
}

fn rsplit_on_exec(s: &[char], p: &[char]) -> (out: Vec<Vec<char>>)
    requires
        p@.len() > 0,
    ensures
        views(out@) == rsplit_on(s@, p@),
{
    let mut out: Vec<Vec<char>> = Vec::new();
    let mut end: usize = s.len();
    assert(s@.subrange(0, s@.len() as int) =~= s@);
    loop
        invariant
            end <= s@.len(),
            p@.len() > 0,
            rsplit_on(s@, p@) =~= views(out@) + rsplit_on(s@.subrange(0, end as int), p@),
        decreases end,
    {
        let head = &s[0..end];
        let ghost hs = head@;
        let ghost before = out@;
        match last_occurrence(head, p) {
            Some(i) => {
                out.push(copy_chars(&head[i + p.len()..end]));
                assert(views(out@) =~= views(before).push(hs.subrange(i + p@.len(), hs.len() as int)));
                assert(hs.subrange(0, i as int) =~= s@.subrange(0, i as int));
                end = i;
            },
            None => {
                out.push(copy_chars(head));
                assert(views(out@) =~= views(before).push(hs));
                return out;
            },
        }
    }
}

/// The last position where `p` occurs in `s`.
fn last_occurrence(s: &[char], p: &[char]) -> (r: Option<usize>)
    ensures
        match r {
            Some(i) => rfind(s@, p@) == Some(i as int) && i + p@.len() <= s@.len(),
            None => rfind(s@, p@) == None::<int>,
        },
{
    let ghost pred = occurs_pred(s@, p@);
    let n = s.len();
    if occurs_at_exec(s, p, n) {
        assert(pred(n as int));
        return Some(n);
    }
    let mut k: usize = n;
    while k > 0
        invariant
            k <= s@.len(),
            pred == occurs_pred(s@, p@),
            rfind(s@, p@) == last_index(k as nat, pred),
        decreases k,
    {
        if occurs_at_exec(s, p, k - 1) {
            assert(pred(k - 1));
            return Some(k - 1);
        }
        k = k - 1;
    }
    None
}

/// The pieces as strings, the first `k` of them.
pub(crate) fn strings_upto(parts: &Vec<Vec<char>>, k: usize) -> (out: Vec<String>)
    requires
        k <= parts@.len(),
    ensures
        string_views(out@) == views(parts@).take(k as int),
{
    let mut out: Vec<String> = Vec::new();
    let mut i: usize = 0;
    while i < k
        invariant
            i <= k,
            k <= parts@.len(),
            string_views(out@) =~= views(parts@).take(i as int),
        decreases k - i,
    {
        let ghost before = out@;
        out.push(string_of(parts[i].as_slice()));
        assert(string_views(out@) =~= string_views(before).push(parts@[i as int]@));
        assert(views(parts@).take(i + 1) =~= views(parts@).take(i as int).push(parts@[i as int]@));
        i = i + 1;
    }
    out
}

/// How many pieces `__splitn` keeps: `n` read as a `usize`, at most all of them.
pub open spec fn kept(count: int, n: i64) -> int {
    if (n as usize) < count {
        (n as usize) as int
    } else {
        count
    }
}

/// The first `n` pieces of `s` split at `delim` (`n` read as a `usize`).
pub fn __splitn(s: String, delim: String, n: i64) -> (r: Result<Vec<String>, String>)
    ensures
        r matches Ok(v) && string_views(v@) == split_parts(s@, delim@).take(
            kept(split_parts(s@, delim@).len() as int, n),
        ),
{
    let cs = chars_of(s.as_str());
    let pv = chars_of(delim.as_str());
    let parts = if pv.len() == 0 {
        split_chars_exec(cs.as_slice())
    } else {
        split_on_exec(cs.as_slice(), pv.as_slice())
    };
    proof {
        assert(views(parts@).len() == parts@.len());
    }
    let m = n as usize;
    let k = if m < parts.len() {
        m
    } else {
        parts.len()
    };
    Ok(strings_upto(&parts, k))
}

/// The pieces of `s` split at `delim`, searched from the right, the last
/// piece first.
pub fn __rsplit(s: String, delim: String) -> (r: Result<Vec<String>, String>)
    ensures
        r matches Ok(v) && string_views(v@) == rsplit_parts(s@, delim@),
{
    let cs = chars_of(s.as_str());
    let pv = chars_of(delim.as_str());
    if pv.len() == 0 {
        let parts = split_chars_exec(cs.as_slice());
        let mut out: Vec<String> = Vec::new();
        let mut k: usize = parts.len();
        while k > 0
            invariant
                k <= parts@.len(),
                views(parts@) == split_chars(s@),
                string_views(out@) =~= views(parts@).subrange(k as int, parts@.len() as int).reverse(),
            decreases k,
        {
            let ghost before = out@;
            out.push(string_of(parts[k - 1].as_slice()));
            assert(string_views(out@) =~= string_views(before).push(parts@[k - 1]@));
            assert(views(parts@).subrange(k - 1, parts@.len() as int).reverse()
                =~= views(parts@).subrange(k as int, parts@.len() as int).reverse().push(parts@[k - 1]@));
            k = k - 1;
        }
        assert(views(parts@).subrange(0, parts@.len() as int) =~= views(parts@));
        Ok(out)
    } else {
        let parts = rsplit_on_exec(cs.as_slice(), pv.as_slice());
        Ok(strings_upto(&parts, parts.len()))
    }
}

/// The list in reverse order.
pub fn __reverse(list: Vec<String>) -> (r: Result<Vec<String>, String>)
    ensures
        r matches Ok(v) && v@ == list@.reverse(),
{
    let mut out: Vec<String> = Vec::new();
    let mut k: usize = list.len();
    let mut rest = list;
    while k > 0
        invariant
            k == rest@.len(),
            out@ + rest@.reverse() =~= list@.reverse(),
        decreases k,
    {
        let ghost before = rest@;
        let x = rest.pop().unwrap();
        assert(before.reverse() =~= seq![x] + rest@.reverse());
        out.push(x);
        k = k - 1;
    }
    Ok(out)
}

/// `s` between double quotes, as a JSON string value is written (without
/// escaping).
pub fn __string_val(s: String) -> (r: Result<String, String>)
    ensures
        r matches Ok(t) && t@ == seq!['"'] + s@ + seq!['"'],
{
    __quote(s)
}

/// The items joined by commas, between square brackets.
pub fn __array_val(list: Vec<String>) -> (r: Result<String, String>)
    ensures
        r matches Ok(t) && t@ == seq!['['] + joined(string_views(list@), seq![',']) + seq![']'],
{
    let mut out = String::new();
    push_char(&mut out, '[');
    let j = join_strings(&list, ",");
    proof { reveal_strlit(","); }
    assert(","@ =~= seq![',']);
    out.append(j.as_str());
    push_char(&mut out, ']');
    assert(out@ =~= seq!['['] + joined(string_views(list@), seq![',']) + seq![']']);
    Ok(out)
}

/// Whether the text is `null`.
pub fn __is_null(data: String) -> (r: Result<bool, String>)
    ensures
        r == Ok::<bool, String>(data@ == "null"@),
{
    let cs = chars_of(data.as_str());
    Ok(eq_str(cs.as_slice(), "null"))
}

/// Whether the text is `true` or `false`.
pub fn __is_bool(data: String) -> (r: Result<bool, String>)
    ensures
        r == Ok::<bool, String>(data@ == "true"@ || data@ == "false"@),
{
    let cs = chars_of(data.as_str());
    Ok(eq_str(cs.as_slice(), "true") || eq_str(cs.as_slice(), "false"))
}

fn starts_with_char(s: &str, c: char) -> (b: bool)
    ensures
        b == (s@.len() > 0 && s@[0] == c),
{
    let cs = chars_of(s);
    cs.len() > 0 && cs[0] == c
}

/// Whether the text starts with a double quote.
pub fn __is_string(data: String) -> (r: Result<bool, String>)
    ensures
        r == Ok::<bool, String>(data@.len() > 0 && data@[0] == '"'),
{
    Ok(starts_with_char(data.as_str(), '"'))
}

/// Whether the text starts with `[`.
pub fn __is_array(data: String) -> (r: Result<bool, String>)
    ensures
        r == Ok::<bool, String>(data@.len() > 0 && data@[0] == '['),
{
    Ok(starts_with_char(data.as_str(), '['))
}

/// Whether the text starts with `{`.
pub fn __is_object(data: String) -> (r: Result<bool, String>)
    ensures
        r == Ok::<bool, String>(data@.len() > 0 && data@[0] == '{'),
{
    Ok(starts_with_char(data.as_str(), '{'))
}

/// Reads `%20` back as a space; no other escape is read.
pub fn __url_decode(s: String) -> (r: Result<String, String>)
    ensures
        r matches Ok(t) && t@ == replace_all(s@, "%20"@, " "@),
{
    proof { reveal_strlit("%20"); }
    let cs = chars_of(s.as_str());
    let out = replace_str(cs.as_slice(), "%20", " ");
    Ok(string_of(out.as_slice()))
}

} // verus!
