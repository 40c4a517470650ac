//! Text primitives over sequences of characters, each with the statement of
//! what it computes: trimming, prefix and substring search, line splitting,
//! and decimal and hexadecimal numerals.

use vstd::prelude::*;
use crate::seqs::{first_index, lemma_first_index, lemma_first_index_is, lemma_first_index_none, lemma_first_index_ext};

verus! {

/// The Unicode `White_Space` characters, which `char::is_whitespace` tests for.
pub open spec fn is_ws(c: char) -> bool {
    ||| '\t' <= c <= '\r'
    ||| c == ' '
    ||| c == '\u{85}'
    ||| c == '\u{A0}'
    ||| c == '\u{1680}'
    ||| '\u{2000}' <= c <= '\u{200A}'
    ||| c == '\u{2028}'
    ||| c == '\u{2029}'
    ||| c == '\u{202F}'
    ||| c == '\u{205F}'
    ||| c == '\u{3000}'
}

pub fn is_whitespace(c: char) -> (b: bool)
    ensures
        b == is_ws(c),
{
    ('\t' <= c && c <= '\r') || c == ' ' || c == '\u{85}' || c == '\u{A0}' || c == '\u{1680}'
        || ('\u{2000}' <= c && c <= '\u{200A}') || c == '\u{2028}' || c == '\u{2029}'
        || c == '\u{202F}' || c == '\u{205F}' || c == '\u{3000}'
}

pub open spec fn is_ascii_alpha(c: char) -> bool {
    ('a' <= c <= 'z') || ('A' <= c <= 'Z')
}

pub open spec fn is_ascii_digit(c: char) -> bool {
    '0' <= c <= '9'
}

pub open spec fn is_ascii_alnum(c: char) -> bool {
    is_ascii_alpha(c) || is_ascii_digit(c)
}

pub fn ascii_alpha(c: char) -> (b: bool)
    ensures
        b == is_ascii_alpha(c),
{
    ('a' <= c && c <= 'z') || ('A' <= c && c <= 'Z')
}

pub fn ascii_digit(c: char) -> (b: bool)
    ensures
        b == is_ascii_digit(c),
{
    '0' <= c && c <= '9'
}

pub fn ascii_alnum(c: char) -> (b: bool)
    ensures
        b == is_ascii_alnum(c),
{
    ascii_alpha(c) || ascii_digit(c)
}

/// What `char::is_alphanumeric` answers (Unicode alphabetic or numeric).
pub uninterp spec fn unicode_alphanumeric(c: char) -> bool;

/// What `char::is_alphabetic` answers (Unicode alphabetic).
pub uninterp spec fn unicode_alphabetic(c: char) -> bool;

/// What `str::to_lowercase` returns for a string.
pub uninterp spec fn lowercase(s: Seq<char>) -> Seq<char>;

/// Calls `char::is_alphanumeric`, whose answer is a fixed property of the
/// character; the contract only names it.
#[verifier::external_body]
pub(crate) fn is_alphanumeric(c: char) -> (b: bool)
    ensures
        b == unicode_alphanumeric(c),
{
    c.is_alphanumeric()
}

/// Calls `char::is_alphabetic`, whose answer is a fixed property of the
/// character; the contract only names it.
#[verifier::external_body]
pub(crate) fn is_alphabetic(c: char) -> (b: bool)
    ensures
        b == unicode_alphabetic(c),
{
    c.is_alphabetic()
}

/// Calls `str::to_lowercase`: the Unicode lowercase mapping of `s`, a fixed
/// function of the characters of `s`; the contract only names it.
#[verifier::external_body]
pub(crate) fn to_lowercase(s: &str) -> (r: String)
    ensures
        r@ == lowercase(s@),
{
    s.to_lowercase()
}

/// What `<str as Debug>::fmt` writes for a string: the string quoted, with
/// escapes.
pub uninterp spec fn debug_text(s: Seq<char>) -> Seq<char>;

/// Formats `s` with `{:?}`: the quoted, escaped form, a fixed function of
/// the characters; the contract only names it.
#[verifier::external_body]
pub(crate) fn debug_str(s: &str) -> (r: String)
    ensures
        r@ == debug_text(s@),
{
    format!("{:?}", s)
}

/// Calls `String::push`, which appends one character.
#[verifier::external_body]
pub(crate) fn push_char(s: &mut String, c: char)
    ensures
        final(s)@ == old(s)@.push(c),
{
    s.push(c);
}

/// The characters of `s`, in order.
pub fn chars_of(s: &str) -> (v: Vec<char>)
    ensures
        v@ == s@,
{
    let n = s.unicode_len();
    let mut v: Vec<char> = Vec::new();
    let mut i: usize = 0;
    while i < n
        invariant
            n == s@.len(),
            i <= n,
            v@ == s@.subrange(0, i as int),
        decreases n - i,
    {
        v.push(s.get_char(i));
        i = i + 1;
    }
    v
}

/// A string holding exactly the characters of `v`.
pub fn string_of(v: &[char]) -> (s: String)
    ensures
        s@ == v@,
{
    let mut s = String::new();
    let mut i: usize = 0;
    while i < v.len()
        invariant
            i <= v@.len(),
            s@ == v@.subrange(0, i as int),
        decreases v@.len() - i,
    {
        push_char(&mut s, v[i]);
        i = i + 1;
    }
    s
}

/// A copy of `s`.
pub fn owned(s: &str) -> (r: String)
    ensures
        r@ == s@,
{
    String::from_str(s)
}

/// `a` followed by `b`.
pub fn concat(a: &str, b: &str) -> (r: String)
    ensures
        r@ == a@ + b@,
{
    let mut r = String::from_str(a);
    r.append(b);
    r
}

/// Appends the characters of `v` to `s`.
pub fn push_chars(s: &mut String, v: &[char])
    ensures
        final(s)@ == old(s)@ + v@,
{
    let ghost start = s@;
    let mut i: usize = 0;
    while i < v.len()
        invariant
            i <= v@.len(),
            s@ == start + v@.subrange(0, i as int),
        decreases v@.len() - i,
    {
        push_char(s, v[i]);
        i = i + 1;
        assert(start + v@.subrange(0, i as int) =~= (start + v@.subrange(0, (i - 1) as int)).push(v@[i - 1]));
    }
    assert(v@.subrange(0, v@.len() as int) =~= v@);
}

/// A vector holding the characters of `s`.
pub fn copy_chars(s: &[char]) -> (v: Vec<char>)
    ensures
        v@ == s@,
{
    let mut v: Vec<char> = Vec::new();
    let mut i: usize = 0;
    while i < s.len()
        invariant
            i <= s@.len(),
            v@ == s@.subrange(0, i as int),
        decreases s@.len() - i,
    {
        v.push(s[i]);
        i = i + 1;
    }
    v
}

/// Whether two character sequences are equal.
pub fn chars_eq(a: &[char], b: &[char]) -> (r: bool)
    ensures
        r == (a@ == b@),
{
    if a.len() != b.len() {
        return false;
    }
    let mut i: usize = 0;
    while i < a.len()
        invariant
            a@.len() == b@.len(),
            i <= a@.len(),
            forall|j: int| 0 <= j < i ==> a@[j] == b@[j],
        decreases a@.len() - i,
    {
        if a[i] != b[i] {
            return false;
        }
        i = i + 1;
    }
    assert(a@ =~= b@);
    true
}

/// Whether `s` equals the literal `lit`.
pub fn eq_str(s: &[char], lit: &str) -> (r: bool)
    ensures
        r == (s@ == lit@),
{
    let l = chars_of(lit);
    chars_eq(s, l.as_slice())
}

// ---------------------------------------------------------------------------
// Trimming

pub open spec fn trim_start(s: Seq<char>) -> Seq<char>
    decreases s.len(),
{
    if s.len() > 0 && is_ws(s[0]) {
        trim_start(s.drop_first())
    } else {
        s
    }
}

pub open spec fn trim_end(s: Seq<char>) -> Seq<char>
    decreases s.len(),
{
    if s.len() > 0 && is_ws(s.last()) {
        trim_end(s.drop_last())
    } else {
        s
    }
}

/// `str::trim`: leading and trailing white space removed.
pub open spec fn trim(s: Seq<char>) -> Seq<char> {
    trim_end(trim_start(s))
}

pub proof fn lemma_trim_start_len(s: Seq<char>)
    ensures
        trim_start(s).len() <= s.len(),
    decreases s.len(),
{
    if s.len() > 0 && is_ws(s[0]) {
        lemma_trim_start_len(s.drop_first());
    }
}

pub proof fn lemma_trim_end_len(s: Seq<char>)
    ensures
        trim_end(s).len() <= s.len(),
    decreases s.len(),
{
    if s.len() > 0 && is_ws(s.last()) {
        lemma_trim_end_len(s.drop_last());
    }
}

pub proof fn lemma_trim_len(s: Seq<char>)
    ensures
        trim(s).len() <= s.len(),
{
    lemma_trim_start_len(s);
    lemma_trim_end_len(trim_start(s));
}

/// `s` without its leading white space.
pub fn trim_start_slice(s: &[char]) -> (r: &[char])
    ensures
        r@ == trim_start(s@),
{
    let mut i: usize = 0;
    assert(s@.subrange(0, s@.len() as int) =~= s@);
    while i < s.len() && is_whitespace(s[i])
        invariant
            i <= s@.len(),
            trim_start(s@) == trim_start(s@.subrange(i as int, s@.len() as int)),
        decreases s@.len() - i,
    {
        assert(s@.subrange(i as int, s@.len() as int).drop_first() =~= s@.subrange(i + 1, s@.len() as int));
        i = i + 1;
    }
    &s[i..s.len()]
}

/// `s` without its trailing white space.
pub fn trim_end_slice(s: &[char]) -> (r: &[char])
    ensures
        r@ == trim_end(s@),
{
    let mut j: usize = s.len();
    assert(s@.subrange(0, s@.len() as int) =~= s@);
    while j > 0 && is_whitespace(s[j - 1])
        invariant
            j <= s@.len(),
            trim_end(s@) == trim_end(s@.subrange(0, j as int)),
        decreases j,
    {
        assert(s@.subrange(0, j as int).drop_last() =~= s@.subrange(0, j - 1));
        j = j - 1;
    }
    assert(s@.subrange(0, s@.len() as int) =~= s@);
    &s[0..j]
}

/// `s` without leading and trailing white space.
pub fn trim_slice(s: &[char]) -> (r: &[char])
    ensures
        r@ == trim(s@),
{
    let t = trim_start_slice(s);
    trim_end_slice(t)
}

/// The trimmed characters of `s`.
pub fn trimmed(s: &str) -> (r: Vec<char>)
    ensures
        r@ == trim(s@),
{
    let v = chars_of(s);
    let t = trim_slice(v.as_slice());
    copy_chars(t)
}

// ---------------------------------------------------------------------------
// Prefixes, suffixes and search

pub open spec fn starts_with(s: Seq<char>, p: Seq<char>) -> bool {
    p.len() <= s.len() && s.subrange(0, p.len() as int) == p
}

pub open spec fn ends_with(s: Seq<char>, p: Seq<char>) -> bool {
    p.len() <= s.len() && s.subrange(s.len() - p.len(), s.len() as int) == p
}

/// `p` occurs in `s` starting at `i`.
pub open spec fn occurs_at(s: Seq<char>, p: Seq<char>, i: int) -> bool {
    0 <= i && i + p.len() <= s.len() && s.subrange(i, i + p.len()) == p
}

pub open spec fn occurs_pred(s: Seq<char>, p: Seq<char>) -> spec_fn(int) -> bool {
    |i: int| occurs_at(s, p, i)
}

pub open spec fn char_pred(s: Seq<char>, c: char) -> spec_fn(int) -> bool {
    |i: int| s[i] == c
}

/// `str::find` with a string pattern: the first position where `p` occurs.
pub open spec fn find(s: Seq<char>, p: Seq<char>) -> Option<int> {
    first_index(s.len() + 1, occurs_pred(s, p))
}

/// `str::find` with a character: the first position of `c`.
pub open spec fn find_char(s: Seq<char>, c: char) -> Option<int> {
    first_index(s.len(), char_pred(s, c))
}

/// `str::contains` with a string pattern.
pub open spec fn contains(s: Seq<char>, p: Seq<char>) -> bool {
    find(s, p) is Some
}

/// `str::contains` with a character.
pub open spec fn contains_char(s: Seq<char>, c: char) -> bool {
    find_char(s, c) is Some
}

pub fn starts_with_slice(s: &[char], p: &[char]) -> (b: bool)
    ensures
        b == starts_with(s@, p@),
{
    if p.len() > s.len() {
        return false;
    }
    let mut i: usize = 0;
    while i < p.len()
        invariant
            p@.len() <= s@.len(),
            i <= p@.len(),
            forall|j: int| 0 <= j < i ==> s@[j] == p@[j],
        decreases p@.len() - i,
    {
        if s[i] != p[i] {
            assert(s@.subrange(0, p@.len() as int)[i as int] != p@[i as int]);
            return false;
        }
        i = i + 1;
    }
    assert(s@.subrange(0, p@.len() as int) =~= p@);
    true
}

/// Whether `s` starts with the literal `lit`.
pub fn starts_with_str(s: &[char], lit: &str) -> (b: bool)
    ensures
        b == starts_with(s@, lit@),
{
    let p = chars_of(lit);
    starts_with_slice(s, p.as_slice())
}

pub fn ends_with_slice(s: &[char], p: &[char]) -> (b: bool)
    ensures
        b == ends_with(s@, p@),
{
    if p.len() > s.len() {
        return false;
    }
    let n = s.len();
    let off = n - p.len();
    let mut i: usize = 0;
    while i < p.len()
        invariant
            n == s@.len(),
            p@.len() <= s@.len(),
            off + p@.len() == s@.len(),
            i <= p@.len(),
            forall|j: int| 0 <= j < i ==> s@[off + j] == p@[j],
        decreases p@.len() - i,
    {
        if s[off + i] != p[i] {
            assert(s@.subrange(off as int, s@.len() as int)[i as int] != p@[i as int]);
            return false;
        }
        i = i + 1;
    }
    assert(s@.subrange(off as int, s@.len() as int) =~= p@);
    true
}

/// Whether `s` ends with the literal `lit`.
pub fn ends_with_str(s: &[char], lit: &str) -> (b: bool)
    ensures
        b == ends_with(s@, lit@),
{
    let p = chars_of(lit);
    ends_with_slice(s, p.as_slice())
}

/// Whether `p` occurs in `s` at `i`.
pub fn occurs_at_exec(s: &[char], p: &[char], i: usize) -> (b: bool)
    ensures
        b == occurs_at(s@, p@, i as int),
{
    let n = s.len();
    if i > n || p.len() > n - i {
        return false;
    }
    let mut k: usize = 0;
    while k < p.len()
        invariant
            n == s@.len(),
            i + p@.len() <= s@.len(),
            k <= p@.len(),
            forall|j: int| 0 <= j < k ==> s@[i + j] == p@[j],
        decreases p@.len() - k,
    {
        assert(i + k < s@.len());
        if s[i + k] != p[k] {
            assert(s@.subrange(i as int, i + p@.len())[k as int] != p@[k as int]);
            return false;
        }
        k = k + 1;
    }
    assert(s@.subrange(i as int, i + p@.len()) =~= p@);
    true
}

/// The first position where `p` occurs in `s`.
pub fn find_slice(s: &[char], p: &[char]) -> (r: Option<usize>)
    ensures
        match r {
            Some(i) => find(s@, p@) == Some(i as int),
            None => find(s@, p@) == None::<int>,
        },
{
    let ghost pred = occurs_pred(s@, p@);
    let mut i: usize = 0;
    while i < s.len()
        invariant
            i <= s@.len(),
            pred == occurs_pred(s@, p@),
            forall|j: int| 0 <= j < i ==> !#[trigger] pred(j),
        decreases s@.len() - i,
    {
        if occurs_at_exec(s, p, i) {
            proof { lemma_first_index_is((s@.len() + 1) as nat, pred, i as int); }
            return Some(i);
        }
        i = i + 1;
    }
    if occurs_at_exec(s, p, i) {
        proof { lemma_first_index_is((s@.len() + 1) as nat, pred, i as int); }
        return Some(i);
    }
    proof { lemma_first_index_none((s@.len() + 1) as nat, pred); }
    None
}

/// The first position where the literal `lit` occurs in `s`.
pub fn find_str(s: &[char], lit: &str) -> (r: Option<usize>)
    ensures
        match r {
            Some(i) => find(s@, lit@) == Some(i as int),
            None => find(s@, lit@) == None::<int>,
        },
{
    let p = chars_of(lit);
    find_slice(s, p.as_slice())
}

/// Whether the literal `lit` occurs in `s`.
pub fn contains_str(s: &[char], lit: &str) -> (b: bool)
    ensures
        b == contains(s@, lit@),
{
    find_str(s, lit).is_some()
}

/// The first position of `c` in `s`.
pub fn find_char_slice(s: &[char], c: char) -> (r: Option<usize>)
    ensures
        match r {
            Some(i) => find_char(s@, c) == Some(i as int),
            None => find_char(s@, c) == None::<int>,
        },
{
    let ghost pred = char_pred(s@, c);
    let mut i: usize = 0;
    while i < s.len()
        invariant
            i <= s@.len(),
            pred == char_pred(s@, c),
            forall|j: int| 0 <= j < i ==> !#[trigger] pred(j),
        decreases s@.len() - i,
    {
        if s[i] == c {
            proof { lemma_first_index_is(s@.len(), pred, i as int); }
            return Some(i);
        }
        i = i + 1;
    }
    proof { lemma_first_index_none(s@.len(), pred); }
    None
}

/// Whether `c` occurs in `s`.
pub fn contains_char_slice(s: &[char], c: char) -> (b: bool)
    ensures
        b == contains_char(s@, c),
{
    find_char_slice(s, c).is_some()
}

/// `find_char` gives a position holding `c`, with no earlier one.
pub proof fn lemma_find_char(s: Seq<char>, c: char)
    ensures
        match find_char(s, c) {
            Some(i) => 0 <= i < s.len() && s[i] == c && forall|j: int| 0 <= j < i ==> #[trigger] s[j] != c,
            None => forall|j: int| 0 <= j < s.len() ==> #[trigger] s[j] != c,
        },
{
    let p = char_pred(s, c);
    lemma_first_index(s.len(), p);
    match first_index(s.len(), p) {
        Some(i) => {
            assert forall|j: int| 0 <= j < i implies #[trigger] s[j] != c by {
                assert(!p(j));
            }
        },
        None => {
            assert forall|j: int| 0 <= j < s.len() implies #[trigger] s[j] != c by {
                assert(!p(j));
            }
        },
    }
}

/// `find` gives an occurrence, with no earlier one.
pub proof fn lemma_find(s: Seq<char>, p: Seq<char>)
    ensures
        match find(s, p) {
            Some(i) => occurs_at(s, p, i) && forall|j: int| 0 <= j < i ==> !#[trigger] occurs_at(s, p, j),
            None => forall|j: int| 0 <= j <= s.len() ==> !#[trigger] occurs_at(s, p, j),
        },
{
    let q = occurs_pred(s, p);
    lemma_first_index((s.len() + 1) as nat, q);
    match first_index((s.len() + 1) as nat, q) {
        Some(i) => {
            assert forall|j: int| 0 <= j < i implies !#[trigger] occurs_at(s, p, j) by {
                assert(!q(j));
            }
        },
        None => {
            assert forall|j: int| 0 <= j <= s.len() implies !#[trigger] occurs_at(s, p, j) by {
                assert(!q(j));
            }
        },
    }
}

/// `str::trim_end_matches` with a character.
pub open spec fn strip_trailing(s: Seq<char>, c: char) -> Seq<char>
    decreases s.len(),
{
    if s.len() > 0 && s.last() == c {
        strip_trailing(s.drop_last(), c)
    } else {
        s
    }
}

pub fn strip_trailing_slice(s: &[char], c: char) -> (r: &[char])
    ensures
        r@ == strip_trailing(s@, c),
{
    let mut n = s.len();
    assert(s@.subrange(0, n as int) =~= s@);
    while n > 0 && s[n - 1] == c
        invariant
            n <= s@.len(),
            strip_trailing(s@, c) == strip_trailing(s@.subrange(0, n as int), c),
        decreases n,
    {
        assert(s@.subrange(0, n as int).drop_last() =~= s@.subrange(0, n - 1));
        n = n - 1;
    }
    &s[0..n]
}

/// `str::strip_prefix` with a string pattern.
pub open spec fn strip_prefix(s: Seq<char>, p: Seq<char>) -> Option<Seq<char>> {
    if starts_with(s, p) { Some(s.subrange(p.len() as int, s.len() as int)) } else { None }
}

/// `str::strip_suffix` with a string pattern.
pub open spec fn strip_suffix(s: Seq<char>, p: Seq<char>) -> Option<Seq<char>> {
    if ends_with(s, p) { Some(s.subrange(0, s.len() - p.len())) } else { None }
}

/// `s.strip_prefix(p).unwrap_or(s)`.
pub open spec fn drop_prefix(s: Seq<char>, p: Seq<char>) -> Seq<char> {
    match strip_prefix(s, p) {
        Some(r) => r,
        None => s,
    }
}

/// `s.strip_suffix(p).unwrap_or(s)`.
pub open spec fn drop_suffix(s: Seq<char>, p: Seq<char>) -> Seq<char> {
    match strip_suffix(s, p) {
        Some(r) => r,
        None => s,
    }
}

pub fn strip_prefix_slice<'a>(s: &'a [char], lit: &str) -> (r: Option<&'a [char]>)
    ensures
        match (r, strip_prefix(s@, lit@)) {
            (Some(a), Some(b)) => a@ == b,
            (None, None) => true,
            _ => false,
        },
{
    if starts_with_str(s, lit) {
        let n = lit.unicode_len();
        Some(&s[n..s.len()])
    } else {
        None
    }
}

pub fn drop_prefix_slice<'a>(s: &'a [char], lit: &str) -> (r: &'a [char])
    ensures
        r@ == drop_prefix(s@, lit@),
{
    match strip_prefix_slice(s, lit) {
        Some(r) => r,
        None => s,
    }
}

pub fn strip_suffix_slice<'a>(s: &'a [char], lit: &str) -> (r: Option<&'a [char]>)
    ensures
        match (r, strip_suffix(s@, lit@)) {
            (Some(a), Some(b)) => a@ == b,
            (None, None) => true,
            _ => false,
        },
{
    if ends_with_str(s, lit) {
        let n = lit.unicode_len();
        Some(&s[0..s.len() - n])
    } else {
        None
    }
}

pub fn drop_suffix_slice<'a>(s: &'a [char], lit: &str) -> (r: &'a [char])
    ensures
        r@ == drop_suffix(s@, lit@),
{
    match strip_suffix_slice(s, lit) {
        Some(r) => r,
        None => s,
    }
}

/// The characters of `s` up to the first one in `stop` (all of `s` when
/// none is): `s.split(stop).next()`.
pub open spec fn before_any(s: Seq<char>, stop: spec_fn(char) -> bool) -> Seq<char> {
    match first_index(s.len(), |i: int| stop(s[i])) {
        Some(i) => s.subrange(0, i),
        None => s,
    }
}

pub open spec fn is_char(c: char) -> spec_fn(char) -> bool {
    |x: char| x == c
}

/// `str::trim_start_matches` with a string pattern: `p` taken off the front
/// of `s` as often as it stands there.
pub open spec fn strip_all(s: Seq<char>, p: Seq<char>) -> Seq<char>
    decreases s.len(),
{
    if p.len() > 0 && starts_with(s, p) {
        strip_all(s.subrange(p.len() as int, s.len() as int), p)
    } else {
        s
    }
}

pub fn strip_all_exec<'a>(s: &'a [char], p: &str) -> (r: &'a [char])
    ensures
        r@ == strip_all(s@, p@),
{
    let mut cur = s;
    let n = p.unicode_len();
    while n > 0 && starts_with_str(cur, p)
        invariant
            n == p@.len(),
            strip_all(cur@, p@) == strip_all(s@, p@),
        decreases cur@.len(),
    {
        cur = &cur[n..cur.len()];
    }
    cur
}


/// The value of a hexadecimal digit.
pub open spec fn hex_digit_value(c: char) -> Option<nat> {
    if '0' <= c && c <= '9' {
        Some((c as int - '0' as int) as nat)
    } else if 'a' <= c && c <= 'f' {
        Some((c as int - 'a' as int + 10) as nat)
    } else if 'A' <= c && c <= 'F' {
        Some((c as int - 'A' as int + 10) as nat)
    } else {
        None
    }
}

/// Every character of `s` is a hexadecimal digit.
pub open spec fn all_hex(s: Seq<char>) -> bool {
    forall|i: int| 0 <= i < s.len() ==> #[trigger] hex_digit_value(s[i]) is Some
}

/// The value of a string of hexadecimal digits.
pub open spec fn hex_digits_value(s: Seq<char>) -> nat
    decreases s.len(),
{
    if s.len() == 0 {
        0
    } else {
        hex_digits_value(s.drop_last()) * 16 + hex_digit_value(s.last()).unwrap_or(0)
    }
}

/// `u64::from_str_radix(s, 16)`: an optional `+`, then one or more
/// hexadecimal digits whose value fits in 64 bits.
pub open spec fn radix16(s: Seq<char>) -> Option<u64> {
    let d = if s.len() > 1 && s[0] == '+' { s.drop_first() } else { s };
    if d.len() > 0 && all_hex(d) && hex_digits_value(d) <= u64::MAX {
        Some(hex_digits_value(d) as u64)
    } else {
        None
    }
}

fn hex_digit_exec(c: char) -> (r: Option<u64>)
    ensures
        match (r, hex_digit_value(c)) {
            (Some(a), Some(b)) => a == b && a < 16,
            (None, None) => true,
            _ => false,
        },
{
    if '0' <= c && c <= '9' {
        Some((c as u32 - '0' as u32) as u64)
    } else if 'a' <= c && c <= 'f' {
        Some((c as u32 - 'a' as u32 + 10) as u64)
    } else if 'A' <= c && c <= 'F' {
        Some((c as u32 - 'A' as u32 + 10) as u64)
    } else {
        None
    }
}

/// Reads a hexadecimal numeral as `u64::from_str_radix(s, 16)` does.
pub fn parse_hex_u64(s: &[char]) -> (r: Option<u64>)
    ensures
        r == radix16(s@),
{
    let d: &[char] = if s.len() > 1 && s[0] == '+' { &s[1..s.len()] } else { s };
    assert(d@ == (if s@.len() > 1 && s@[0] == '+' { s@.drop_first() } else { s@ }));
    if d.len() == 0 {
        return None;
    }
    let mut acc: u64 = 0;
    let mut over = false;
    let mut i: usize = 0;
    while i < d.len()
        invariant
            i <= d@.len(),
            d@ == (if s@.len() > 1 && s@[0] == '+' { s@.drop_first() } else { s@ }),
            d@.len() > 0,
            all_hex(d@.subrange(0, i as int)),
            over ==> hex_digits_value(d@.subrange(0, i as int)) > u64::MAX,
            !over ==> acc == hex_digits_value(d@.subrange(0, i as int)),
        decreases d@.len() - i,
    {
        let v = match hex_digit_exec(d[i]) {
            Some(v) => v,
            None => {
                assert(hex_digit_value(d@[i as int]) is None);
                assert(!all_hex(d@));
                return None;
            }
        };
        let ghost prev = d@.subrange(0, i as int);
        assert(d@.subrange(0, i + 1).drop_last() =~= prev);
        assert(d@.subrange(0, i + 1).last() == d@[i as int]);
        if !over {
            if acc > (u64::MAX - v) / 16 {
                over = true;
            } else {
                acc = acc * 16 + v;
            }
        }
        i = i + 1;
    }
    assert(d@.subrange(0, d@.len() as int) =~= d@);
    if over { None } else { Some(acc) }
}

/// `s.split(c).next()`: the characters before the first `c`.
pub fn before_char(s: &[char], c: char) -> (r: &[char])
    ensures
        r@ == before_any(s@, is_char(c)),
{
    match find_char_slice(s, c) {
        Some(i) => {
            proof {
                lemma_find_char(s@, c);
                lemma_first_index_ext(s@.len(), char_pred(s@, c), |i: int| is_char(c)(s@[i]));
            }
            &s[0..i]
        }
        None => {
            proof {
                lemma_find_char(s@, c);
                lemma_first_index_ext(s@.len(), char_pred(s@, c), |i: int| is_char(c)(s@[i]));
            }
            s
        }
    }
}

// ---------------------------------------------------------------------------
// Replacing and padding

/// `str::replace` with a non-empty pattern: each occurrence of `p`, found
/// from the left without overlap, becomes `r`.
pub open spec fn replace_all(s: Seq<char>, p: Seq<char>, r: Seq<char>) -> Seq<char>
    decreases s.len(),
{
    if p.len() == 0 {
        s
    } else {
        match find(s, p) {
            Some(i) => {
                proof {
                    lemma_find(s, p);
                }
                s.subrange(0, i) + r + replace_all(s.subrange(i + p.len(), s.len() as int), p, r)
            },
            None => s,
        }
    }
}

/// Replaces each occurrence of `p` in `s` by `r`.
pub fn replace_str(s: &[char], p: &str, r: &str) -> (out: Vec<char>)
    requires
        p@.len() > 0,
    ensures
        out@ == replace_all(s@, p@, r@),
{
    let pv = chars_of(p);
    let rv = chars_of(r);
    let n = s.len();
    let mut out: Vec<char> = Vec::new();
    let mut pos: usize = 0;
    assert(s@.subrange(0, n as int) =~= s@);
    while pos < n
        invariant
            n == s@.len(),
            pos <= n,
            pv@ == p@,
            rv@ == r@,
            p@.len() > 0,
            replace_all(s@, p@, r@) == out@ + replace_all(s@.subrange(pos as int, n as int), p@, r@),
        decreases n - pos,
    {
        let rest = &s[pos..n];
        let ghost rs = rest@;
        proof { lemma_find(rs, p@); }
        match find_slice(rest, pv.as_slice()) {
            Some(i) => {
                let ghost before = out@;
                let mut k: usize = 0;
                while k < i
                    invariant
                        k <= i,
                        i <= rest@.len(),
                        out@ == before + rest@.subrange(0, k as int),
                    decreases i - k,
                {
                    out.push(rest[k]);
                    assert(rest@.subrange(0, k + 1) =~= rest@.subrange(0, k as int).push(rest@[k as int]));
                    k = k + 1;
                }
                let ghost mid = out@;
                let mut m: usize = 0;
                while m < rv.len()
                    invariant
                        m <= rv@.len(),
                        out@ == mid + rv@.subrange(0, m as int),
                    decreases rv@.len() - m,
                {
                    out.push(rv[m]);
                    assert(rv@.subrange(0, m + 1) =~= rv@.subrange(0, m as int).push(rv@[m as int]));
                    m = m + 1;
                }
                assert(rv@.subrange(0, rv@.len() as int) =~= rv@);
                assert(rs.subrange(i + p@.len(), rs.len() as int) =~= s@.subrange(pos + i + p@.len(), n as int));
                assert(before + replace_all(rs, p@, r@) =~= out@ + replace_all(s@.subrange(pos + i + pv@.len(), n as int), p@, r@));
                pos = pos + i + pv.len();
            }
            None => {
                let ghost before = out@;
                let mut k: usize = 0;
                while k < rest.len()
                    invariant
                        k <= rest@.len(),
                        out@ == before + rest@.subrange(0, k as int),
                    decreases rest@.len() - k,
                {
                    out.push(rest[k]);
                    assert(rest@.subrange(0, k + 1) =~= rest@.subrange(0, k as int).push(rest@[k as int]));
                    k = k + 1;
                }
                assert(rest@.subrange(0, rest@.len() as int) =~= rs);
                assert(s@.subrange(n as int, n as int) =~= Seq::<char>::empty());
                assert(replace_all(Seq::<char>::empty(), p@, r@) =~= Seq::<char>::empty()) by {
                    lemma_find(Seq::<char>::empty(), p@);
                }
                pos = n;
            }
        }
    }
    assert(s@.subrange(n as int, n as int) =~= Seq::<char>::empty());
    assert(replace_all(Seq::<char>::empty(), p@, r@) =~= Seq::<char>::empty()) by {
        lemma_find(Seq::<char>::empty(), p@);
    }
    assert(out@ + Seq::<char>::empty() =~= out@);
    out
}

/// `n` spaces.
pub open spec fn spaces(n: nat) -> Seq<char> {
    Seq::new(n, |i: int| ' ')
}

/// Appends `n` spaces.
pub fn push_spaces(s: &mut String, n: usize)
    ensures
        final(s)@ == old(s)@ + spaces(n as nat),
{
    let ghost start = s@;
    let mut k: usize = 0;
    while k < n
        invariant
            k <= n,
            s@ == start + spaces(k as nat),
        decreases n - k,
    {
        push_char(s, ' ');
        assert(spaces((k + 1) as nat) =~= spaces(k as nat).push(' '));
        k = k + 1;
    }
}

// ---------------------------------------------------------------------------
// Lines

/// A line ended by `\n` loses a `\r` right before it.
pub open spec fn strip_cr(l: Seq<char>) -> Seq<char> {
    if l.len() > 0 && l.last() == '\r' {
        l.drop_last()
    } else {
        l
    }
}

/// `str::lines`: the text split at each `\n` (dropping a `\r` before it);
/// a final line ending adds no empty line.
pub open spec fn lines(s: Seq<char>) -> Seq<Seq<char>>
    decreases s.len(),
{
    if s.len() == 0 {
        seq![]
    } else {
        match find_char(s, '\n') {
            Some(i) => {
                proof {
                    lemma_find_char(s, '\n');
                }
                seq![strip_cr(s.subrange(0, i))] + lines(s.subrange(i + 1, s.len() as int))
            },
            None => seq![s],
        }
    }
}

/// The views of a vector of lines.
pub open spec fn views(v: Seq<Vec<char>>) -> Seq<Seq<char>> {
    v.map_values(|l: Vec<char>| l@)
}

/// The lines of `s`, as `str::lines` splits them.
pub fn lines_of(s: &[char]) -> (out: Vec<Vec<char>>)
    ensures
        views(out@) == lines(s@),
{
    let n = s.len();
    let mut out: Vec<Vec<char>> = Vec::new();
    let mut start: usize = 0;
    assert(s@.subrange(0, n as int) =~= s@);
    while start < n
        invariant
            n == s@.len(),
            start <= n,
            lines(s@) == views(out@) + lines(s@.subrange(start as int, n as int)),
        decreases n - start,
    {
        let rest = &s[start..n];
        let ghost r = rest@;
        match find_char_slice(rest, '\n') {
            Some(i) => {
                proof { lemma_find_char(r, '\n'); }
                let mut line = copy_chars(&rest[0..i]);
                if i > 0 && line[i - 1] == '\r' {
                    line.pop();
                }
                assert(line@ == strip_cr(r.subrange(0, i as int)));
                let ghost before = out@;
                out.push(line);
                assert(views(out@) =~= views(before).push(line@));
                assert(r.subrange(i + 1, r.len() as int) =~= s@.subrange(start + i + 1, n as int));
                assert(lines(r) == seq![strip_cr(r.subrange(0, i as int))] + lines(r.subrange(i + 1, r.len() as int)));
                assert(views(before) + lines(r) =~= views(out@) + lines(s@.subrange(start + i + 1, n as int)));
                start = start + i + 1;
            }
            None => {
                let line = copy_chars(rest);
                let ghost before = out@;
                out.push(line);
                assert(views(out@) =~= views(before).push(line@));
                assert(lines(r) == seq![r]);
                assert(s@.subrange(n as int, n as int) =~= Seq::<char>::empty());
                assert(views(before) + lines(r) =~= views(out@) + lines(s@.subrange(n as int, n as int)));
                start = n;
            }
        }
    }
    assert(s@.subrange(n as int, n as int) =~= Seq::<char>::empty());
    assert(views(out@) + lines(Seq::<char>::empty()) =~= views(out@));
    out
}

// ---------------------------------------------------------------------------
// Words

/// End of the run of characters other than white space that starts at `i`.
pub open spec fn word_end(s: Seq<char>, i: int) -> int
    decreases s.len() - i,
{
    if i < 0 || i >= s.len() || is_ws(s[i]) {
        i
    } else {
        word_end(s, i + 1)
    }
}

pub proof fn lemma_word_end(s: Seq<char>, i: int)
    requires
        0 <= i <= s.len(),
    ensures
        i <= word_end(s, i) <= s.len(),
        i < s.len() && !is_ws(s[i]) ==> word_end(s, i) > i,
        forall|k: int| i <= k < word_end(s, i) ==> !is_ws(#[trigger] s[k]),
        word_end(s, i) < s.len() ==> is_ws(s[word_end(s, i)]),
    decreases s.len() - i,
{
    if i < s.len() && !is_ws(s[i]) {
        lemma_word_end(s, i + 1);
    }
}

/// The words of `s` from position `i` on.
pub open spec fn words_from(s: Seq<char>, i: int) -> Seq<Seq<char>>
    decreases s.len() - i,
{
    if i < 0 || i >= s.len() {
        seq![]
    } else if is_ws(s[i]) {
        words_from(s, i + 1)
    } else {
        proof {
            lemma_word_end(s, i);
        }
        seq![s.subrange(i, word_end(s, i))] + words_from(s, word_end(s, i))
    }
}

/// `str::split_whitespace`: the maximal runs of characters other than white space.
pub open spec fn words(s: Seq<char>) -> Seq<Seq<char>> {
    words_from(s, 0)
}

/// The words of `s`, as `str::split_whitespace` splits them.
pub fn words_of(s: &[char]) -> (out: Vec<Vec<char>>)
    ensures
        views(out@) == words(s@),
{
    let n = s.len();
    let mut out: Vec<Vec<char>> = Vec::new();
    let mut i: usize = 0;
    while i < n
        invariant
            n == s@.len(),
            i <= n,
            words(s@) == views(out@) + words_from(s@, i as int),
        decreases n - i,
    {
        if is_whitespace(s[i]) {
            i = i + 1;
        } else {
            let mut e = i;
            while e < n && !is_whitespace(s[e])
                invariant
                    n == s@.len(),
                    i <= e <= n,
                    word_end(s@, i as int) == word_end(s@, e as int),
                decreases n - e,
            {
                e = e + 1;
            }
            proof { lemma_word_end(s@, i as int); }
            let w = copy_chars(&s[i..e]);
            let ghost before = out@;
            out.push(w);
            assert(views(out@) =~= views(before).push(w@));
            assert(views(before) + words_from(s@, i as int) =~= views(out@) + words_from(s@, e as int));
            i = e;
        }
    }
    assert(views(out@) + words_from(s@, n as int) =~= views(out@));
    out
}

/// The parts joined with `sep` between each two, as `[String]::join` does.
pub open spec fn joined(parts: Seq<Seq<char>>, sep: Seq<char>) -> Seq<char>
    decreases parts.len(),
{
    if parts.len() == 0 {
        seq![]
    } else if parts.len() == 1 {
        parts[0]
    } else {
        joined(parts.drop_last(), sep) + sep + parts.last()
    }
}

pub open spec fn string_views(v: Seq<String>) -> Seq<Seq<char>> {
    v.map_values(|s: String| s@)
}

/// `parts.join(sep)`.
pub fn join_strings(parts: &Vec<String>, sep: &str) -> (r: String)
    ensures
        r@ == joined(string_views(parts@), sep@),
{
    let mut r = String::new();
    let mut i: usize = 0;
    assert(string_views(parts@).subrange(0, 0) =~= Seq::<Seq<char>>::empty());
    while i < parts.len()
        invariant
            i <= parts@.len(),
            r@ == joined(string_views(parts@).subrange(0, i as int), sep@),
        decreases parts@.len() - i,
    {
        let ghost pre = string_views(parts@).subrange(0, i as int);
        let ghost next = string_views(parts@).subrange(0, i + 1);
        assert(next.drop_last() =~= pre);
        assert(next.last() == parts@[i as int]@);
        if i > 0 {
            r.append(sep);
        } else {
            assert(next =~= seq![parts@[0]@]);
        }
        r.append(parts[i].as_str());
        i = i + 1;
    }
    assert(string_views(parts@).subrange(0, parts@.len() as int) =~= string_views(parts@));
    r
}

// ---------------------------------------------------------------------------
// Numerals

pub open spec fn digit_char(d: int) -> char {
    if d == 0 { '0' } else if d == 1 { '1' } else if d == 2 { '2' } else if d == 3 { '3' }
    else if d == 4 { '4' } else if d == 5 { '5' } else if d == 6 { '6' } else if d == 7 { '7' }
    else if d == 8 { '8' } else { '9' }
}

/// The decimal numeral of `n`, as `{}` formats it.
pub open spec fn decimal(n: nat) -> Seq<char>
    decreases n,
{
    if n < 10 {
        seq![digit_char(n as int)]
    } else {
        decimal(n / 10).push(digit_char((n % 10) as int))
    }
}

/// The decimal numeral of a signed `n`, with a leading `-` when negative.
pub open spec fn decimal_signed(n: int) -> Seq<char> {
    if n < 0 {
        seq!['-'] + decimal((-n) as nat)
    } else {
        decimal(n as nat)
    }
}

fn digit(d: u64) -> (c: char)
    requires
        d < 10,
    ensures
        c == digit_char(d as int),
{
    if d == 0 { '0' } else if d == 1 { '1' } else if d == 2 { '2' } else if d == 3 { '3' }
    else if d == 4 { '4' } else if d == 5 { '5' } else if d == 6 { '6' } else if d == 7 { '7' }
    else if d == 8 { '8' } else { '9' }
}

/// Appends the decimal numeral of `n` to `s`.
pub fn push_decimal(s: &mut String, n: u64)
    ensures
        final(s)@ == old(s)@ + decimal(n as nat),
    decreases n,
{
    if n >= 10 {
        push_decimal(s, n / 10);
    }
    push_char(s, digit(n % 10));
    proof {
        if n >= 10 {
            assert(old(s)@ + decimal(n as nat) =~= (old(s)@ + decimal((n / 10) as nat)).push(digit_char((n % 10) as int)));
        } else {
            assert(old(s)@ + decimal(n as nat) =~= old(s)@.push(digit_char((n % 10) as int)));
        }
    }
}

/// The decimal numeral of `n`.
pub fn u64_to_string(n: u64) -> (s: String)
    ensures
        s@ == decimal(n as nat),
{
    let mut s = String::new();
    push_decimal(&mut s, n);
    assert(s@ =~= decimal(n as nat));
    s
}

/// Appends the decimal numeral of a signed `n` to `s`.
pub fn push_decimal_signed(s: &mut String, n: i64)
    ensures
        final(s)@ == old(s)@ + decimal_signed(n as int),
{
    if n < 0 {
        push_char(s, '-');
        let m: u64 = if n == i64::MIN { 9223372036854775808u64 } else { (-n) as u64 };
        push_decimal(s, m);
        assert(old(s)@ + decimal_signed(n as int) =~= old(s)@.push('-') + decimal(m as nat));
    } else {
        push_decimal(s, n as u64);
    }
}

pub open spec fn hex_char(d: int, upper: bool) -> char {
    if d < 10 {
        digit_char(d)
    } else if upper {
        if d == 10 { 'A' } else if d == 11 { 'B' } else if d == 12 { 'C' } else if d == 13 { 'D' } else if d == 14 { 'E' } else { 'F' }
    } else {
        if d == 10 { 'a' } else if d == 11 { 'b' } else if d == 12 { 'c' } else if d == 13 { 'd' } else if d == 14 { 'e' } else { 'f' }
    }
}

/// The hexadecimal numeral of `n` (no prefix), as `{:x}` / `{:X}` format it.
pub open spec fn hex(n: nat, upper: bool) -> Seq<char>
    decreases n,
{
    if n < 16 {
        seq![hex_char(n as int, upper)]
    } else {
        hex(n / 16, upper).push(hex_char((n % 16) as int, upper))
    }
}

/// The hexadecimal numeral of `n` left-padded with zeros to `width`
/// characters, as `{:0width$x}` formats it.
pub open spec fn hex_padded(n: nat, upper: bool, width: nat) -> Seq<char> {
    if hex(n, upper).len() >= width {
        hex(n, upper)
    } else {
        Seq::new((width - hex(n, upper).len()) as nat, |i: int| '0') + hex(n, upper)
    }
}

fn hex_digit(d: u64, upper: bool) -> (c: char)
    requires
        d < 16,
    ensures
        c == hex_char(d as int, upper),
{
    if d < 10 {
        digit(d)
    } else if upper {
        if d == 10 { 'A' } else if d == 11 { 'B' } else if d == 12 { 'C' } else if d == 13 { 'D' } else if d == 14 { 'E' } else { 'F' }
    } else {
        if d == 10 { 'a' } else if d == 11 { 'b' } else if d == 12 { 'c' } else if d == 13 { 'd' } else if d == 14 { 'e' } else { 'f' }
    }
}

/// Appends the hexadecimal numeral of `n` to `s`.
pub fn push_hex(s: &mut String, n: u64, upper: bool)
    ensures
        final(s)@ == old(s)@ + hex(n as nat, upper),
    decreases n,
{
    if n >= 16 {
        push_hex(s, n / 16, upper);
    }
    push_char(s, hex_digit(n % 16, upper));
    proof {
        if n >= 16 {
            assert(old(s)@ + hex(n as nat, upper) =~= (old(s)@ + hex((n / 16) as nat, upper)).push(hex_char((n % 16) as int, upper)));
        } else {
            assert(old(s)@ + hex(n as nat, upper) =~= old(s)@.push(hex_char((n % 16) as int, upper)));
        }
    }
}

/// The hexadecimal numeral of `n`, zero-padded to `width`, behind `0x`:
/// what `format!("0x{:0width$X}", n)` (or lower case) produces.
pub fn hex_literal(n: u64, upper: bool, width: usize) -> (s: String)
    ensures
        s@ == seq!['0', 'x'] + hex_padded(n as nat, upper, width as nat),
{
    let mut digits = String::new();
    push_hex(&mut digits, n, upper);
    let d = chars_of(digits.as_str());
    let mut s = String::new();
    push_char(&mut s, '0');
    push_char(&mut s, 'x');
    let ghost hx = hex(n as nat, upper);
    assert(d@ =~= hx);
    if d.len() < width {
        let pad = width - d.len();
        let mut i: usize = 0;
        while i < pad
            invariant
                i <= pad,
                s@ == seq!['0', 'x'] + Seq::new(i as nat, |k: int| '0'),
            decreases pad - i,
        {
            push_char(&mut s, '0');
            i = i + 1;
            assert(seq!['0', 'x'] + Seq::new(i as nat, |k: int| '0') =~= (seq!['0', 'x'] + Seq::new((i - 1) as nat, |k: int| '0')).push('0'));
        }
    }
    push_chars(&mut s, d.as_slice());
    assert(s@ =~= seq!['0', 'x'] + hex_padded(n as nat, upper, width as nat));
    s
}


/// Appends the hexadecimal numeral of `n`, zero-padded to `width`, to `s`:
/// what `{:0width$x}` (or `X`) writes.
pub fn push_hex_padded(s: &mut String, n: u64, upper: bool, width: usize)
    ensures
        final(s)@ == old(s)@ + hex_padded(n as nat, upper, width as nat),
{
    let mut digits = String::new();
    push_hex(&mut digits, n, upper);
    let d = chars_of(digits.as_str());
    let ghost start = s@;
    let ghost hx = hex(n as nat, upper);
    assert(d@ =~= hx);
    if d.len() < width {
        let pad = width - d.len();
        let mut i: usize = 0;
        while i < pad
            invariant
                i <= pad,
                s@ == start + Seq::new(i as nat, |k: int| '0'),
            decreases pad - i,
        {
            push_char(s, '0');
            i = i + 1;
            assert(start + Seq::new(i as nat, |k: int| '0') =~= (start + Seq::new((i - 1) as nat, |k: int| '0')).push('0'));
        }
    }
    push_chars(s, d.as_slice());
    assert(s@ =~= start + hex_padded(n as nat, upper, width as nat));
}

} // verus!
