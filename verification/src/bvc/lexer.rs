//! The tokens of Brief Control and the tokenizer that produces them.

use vstd::prelude::*;
use crate::text::{
    is_ascii_alpha, is_ascii_digit, ascii_digit, chars_of, owned, string_of, copy_chars, push_char,
    push_decimal, decimal, debug_text, debug_str, eq_str,
};
use crate::scan::{
    skip_ws, ident_end, digits_end, quote_at_or_after, byte_offset, lemma_skip_ws, lemma_ident_end,
    lemma_digits_end, lemma_quote, skip_ws_exec, ident_end_exec, digits_end_exec, quote_exec,
    byte_offset_exec,
};

verus! {

/// Tokens of Brief Control.
#[derive(Debug, Clone, PartialEq)]
pub enum Token {
    Using,
    Control,
    Target,
    Partition,
    Route,
    Mount,
    Unmount,
    Fence,
    Timeout,
    Enable,
    Disable,
    Ident(String),
    String(String),
    Dot,
    Colon,
    ColonColon,
    LBrace,
    RBrace,
    LParen,
    RParen,
    Comma,
    Arrow,
    Equals,
    Semicolon,
    Integer(u64),
    Eof,
}

/// A token as a mathematical value.
pub enum TokenV {
    Using,
    Control,
    Target,
    Partition,
    Route,
    Mount,
    Unmount,
    Fence,
    Timeout,
    Enable,
    Disable,
    Ident(Seq<char>),
    Str(Seq<char>),
    Dot,
    Colon,
    ColonColon,
    LBrace,
    RBrace,
    LParen,
    RParen,
    Comma,
    Arrow,
    Equals,
    Semicolon,
    Integer(u64),
    Eof,
}

impl View for Token {
    type V = TokenV;

    open spec fn view(&self) -> TokenV {
        match self {
            Token::Using => TokenV::Using,
            Token::Control => TokenV::Control,
            Token::Target => TokenV::Target,
            Token::Partition => TokenV::Partition,
            Token::Route => TokenV::Route,
            Token::Mount => TokenV::Mount,
            Token::Unmount => TokenV::Unmount,
            Token::Fence => TokenV::Fence,
            Token::Timeout => TokenV::Timeout,
            Token::Enable => TokenV::Enable,
            Token::Disable => TokenV::Disable,
            Token::Ident(s) => TokenV::Ident(s@),
            Token::String(s) => TokenV::Str(s@),
            Token::Dot => TokenV::Dot,
            Token::Colon => TokenV::Colon,
            Token::ColonColon => TokenV::ColonColon,
            Token::LBrace => TokenV::LBrace,
            Token::RBrace => TokenV::RBrace,
            Token::LParen => TokenV::LParen,
            Token::RParen => TokenV::RParen,
            Token::Comma => TokenV::Comma,
            Token::Arrow => TokenV::Arrow,
            Token::Equals => TokenV::Equals,
            Token::Semicolon => TokenV::Semicolon,
            Token::Integer(n) => TokenV::Integer(*n),
            Token::Eof => TokenV::Eof,
        }
    }
}

pub open spec fn token_views(v: Seq<Token>) -> Seq<TokenV> {
    v.map_values(|t: Token| t@)
}

/// The `{:?}` form of a token.
pub open spec fn token_debug(t: TokenV) -> Seq<char> {
    match t {
        TokenV::Using => "Using"@,
        TokenV::Control => "Control"@,
        TokenV::Target => "Target"@,
        TokenV::Partition => "Partition"@,
        TokenV::Route => "Route"@,
        TokenV::Mount => "Mount"@,
        TokenV::Unmount => "Unmount"@,
        TokenV::Fence => "Fence"@,
        TokenV::Timeout => "Timeout"@,
        TokenV::Enable => "Enable"@,
        TokenV::Disable => "Disable"@,
        TokenV::Ident(s) => "Ident("@ + debug_text(s) + ")"@,
        TokenV::Str(s) => "String("@ + debug_text(s) + ")"@,
        TokenV::Dot => "Dot"@,
        TokenV::Colon => "Colon"@,
        TokenV::ColonColon => "ColonColon"@,
        TokenV::LBrace => "LBrace"@,
        TokenV::RBrace => "RBrace"@,
        TokenV::LParen => "LParen"@,
        TokenV::RParen => "RParen"@,
        TokenV::Comma => "Comma"@,
        TokenV::Arrow => "Arrow"@,
        TokenV::Equals => "Equals"@,
        TokenV::Semicolon => "Semicolon"@,
        TokenV::Integer(n) => "Integer("@ + decimal(n as nat) + ")"@,
        TokenV::Eof => "Eof"@,
    }
}

impl Token {
    /// A copy of the token.
    pub fn copy(&self) -> (r: Token)
        ensures
            r@ == self@,
    {
        match self {
            Token::Ident(s) => Token::Ident(s.clone()),
            Token::String(s) => Token::String(s.clone()),
            Token::Using => Token::Using,
            Token::Control => Token::Control,
            Token::Target => Token::Target,
            Token::Partition => Token::Partition,
            Token::Route => Token::Route,
            Token::Mount => Token::Mount,
            Token::Unmount => Token::Unmount,
            Token::Fence => Token::Fence,
            Token::Timeout => Token::Timeout,
            Token::Enable => Token::Enable,
            Token::Disable => Token::Disable,
            Token::Dot => Token::Dot,
            Token::Colon => Token::Colon,
            Token::ColonColon => Token::ColonColon,
            Token::LBrace => Token::LBrace,
            Token::RBrace => Token::RBrace,
            Token::LParen => Token::LParen,
            Token::RParen => Token::RParen,
            Token::Comma => Token::Comma,
            Token::Arrow => Token::Arrow,
            Token::Equals => Token::Equals,
            Token::Semicolon => Token::Semicolon,
            Token::Integer(n) => Token::Integer(*n),
            Token::Eof => Token::Eof,
        }
    }

    /// The `{:?}` form of the token.
    pub fn debug_string(&self) -> (s: String)
        ensures
            s@ == token_debug(self@),
    {
        match self {
            Token::Ident(v) => {
                let mut s = owned("Ident(");
                s.append(debug_str(v.as_str()).as_str());
                s.append(")");
                s
            }
            Token::String(v) => {
                let mut s = owned("String(");
                s.append(debug_str(v.as_str()).as_str());
                s.append(")");
                s
            }
            Token::Integer(n) => {
                let mut s = owned("Integer(");
                push_decimal(&mut s, *n);
                s.append(")");
                s
            }
            Token::Using => owned("Using"),
            Token::Control => owned("Control"),
            Token::Target => owned("Target"),
            Token::Partition => owned("Partition"),
            Token::Route => owned("Route"),
            Token::Mount => owned("Mount"),
            Token::Unmount => owned("Unmount"),
            Token::Fence => owned("Fence"),
            Token::Timeout => owned("Timeout"),
            Token::Enable => owned("Enable"),
            Token::Disable => owned("Disable"),
            Token::Dot => owned("Dot"),
            Token::Colon => owned("Colon"),
            Token::ColonColon => owned("ColonColon"),
            Token::LBrace => owned("LBrace"),
            Token::RBrace => owned("RBrace"),
            Token::LParen => owned("LParen"),
            Token::RParen => owned("RParen"),
            Token::Comma => owned("Comma"),
            Token::Arrow => owned("Arrow"),
            Token::Equals => owned("Equals"),
            Token::Semicolon => owned("Semicolon"),
            Token::Eof => owned("Eof"),
        }
    }
}

/// Why a text is not a Brief Control program.
#[derive(Debug, Clone, PartialEq)]
pub enum BvcError {
    /// A character that starts no token, at a byte position.
    UnexpectedChar { ch: char, pos: usize },
    /// A digit run whose value does not fit in 64 bits.
    InvalidNumber(String),
    /// A string with no closing quote; the byte position after the opening one.
    UnterminatedString { pos: usize },
    UnexpectedTopLevel(Token),
    Expected { expected: Token, got: Token },
    ExpectedIdentAfterDot(Token),
    ExpectedIdentAfterUsing(Token),
    ExpectedControlName(Token),
    UnexpectedEofInControl,
    UnexpectedInControl(Token),
    ExpectedTile(Token),
    ExpectedRouteName(Token),
    ExpectedPort(Token),
    ExpectedRouteBody,
    ExpectedSlot(Token),
    ExpectedFenceAction(Token),
    ExpectedTimeoutUnit(Token),
    ExpectedInteger(Token),
    ExpectedUsingRef(Token),
}

pub enum BvcErrorV {
    UnexpectedChar { ch: char, pos: nat },
    InvalidNumber(Seq<char>),
    UnterminatedString { pos: nat },
    UnexpectedTopLevel(TokenV),
    Expected { expected: TokenV, got: TokenV },
    ExpectedIdentAfterDot(TokenV),
    ExpectedIdentAfterUsing(TokenV),
    ExpectedControlName(TokenV),
    UnexpectedEofInControl,
    UnexpectedInControl(TokenV),
    ExpectedTile(TokenV),
    ExpectedRouteName(TokenV),
    ExpectedPort(TokenV),
    ExpectedRouteBody,
    ExpectedSlot(TokenV),
    ExpectedFenceAction(TokenV),
    ExpectedTimeoutUnit(TokenV),
    ExpectedInteger(TokenV),
    ExpectedUsingRef(TokenV),
}

impl View for BvcError {
    type V = BvcErrorV;

    open spec fn view(&self) -> BvcErrorV {
        match self {
            BvcError::UnexpectedChar { ch, pos } => BvcErrorV::UnexpectedChar { ch: *ch, pos: *pos as nat },
            BvcError::InvalidNumber(s) => BvcErrorV::InvalidNumber(s@),
            BvcError::UnterminatedString { pos } => BvcErrorV::UnterminatedString { pos: *pos as nat },
            BvcError::UnexpectedTopLevel(t) => BvcErrorV::UnexpectedTopLevel(t@),
            BvcError::Expected { expected, got } => BvcErrorV::Expected { expected: expected@, got: got@ },
            BvcError::ExpectedIdentAfterDot(t) => BvcErrorV::ExpectedIdentAfterDot(t@),
            BvcError::ExpectedIdentAfterUsing(t) => BvcErrorV::ExpectedIdentAfterUsing(t@),
            BvcError::ExpectedControlName(t) => BvcErrorV::ExpectedControlName(t@),
            BvcError::UnexpectedEofInControl => BvcErrorV::UnexpectedEofInControl,
            BvcError::UnexpectedInControl(t) => BvcErrorV::UnexpectedInControl(t@),
            BvcError::ExpectedTile(t) => BvcErrorV::ExpectedTile(t@),
            BvcError::ExpectedRouteName(t) => BvcErrorV::ExpectedRouteName(t@),
            BvcError::ExpectedPort(t) => BvcErrorV::ExpectedPort(t@),
            BvcError::ExpectedRouteBody => BvcErrorV::ExpectedRouteBody,
            BvcError::ExpectedSlot(t) => BvcErrorV::ExpectedSlot(t@),
            BvcError::ExpectedFenceAction(t) => BvcErrorV::ExpectedFenceAction(t@),
            BvcError::ExpectedTimeoutUnit(t) => BvcErrorV::ExpectedTimeoutUnit(t@),
            BvcError::ExpectedInteger(t) => BvcErrorV::ExpectedInteger(t@),
            BvcError::ExpectedUsingRef(t) => BvcErrorV::ExpectedUsingRef(t@),
        }
    }
}

/// The message of an error.
pub open spec fn error_text(e: BvcErrorV) -> Seq<char> {
    match e {
        BvcErrorV::UnexpectedChar { ch, pos } => "Unexpected character '"@ + seq![ch] + "' at position "@ + decimal(pos),
        BvcErrorV::InvalidNumber(s) => "Invalid number: "@ + s,
        BvcErrorV::UnterminatedString { pos } => "Unterminated string at position "@ + decimal(pos),
        BvcErrorV::UnexpectedTopLevel(t) => "Unexpected token "@ + token_debug(t) + " at top level"@,
        BvcErrorV::Expected { expected, got } => "Expected "@ + token_debug(expected) + ", got "@ + token_debug(got),
        BvcErrorV::ExpectedIdentAfterDot(t) => "Expected identifier after '.', got "@ + token_debug(t),
        BvcErrorV::ExpectedIdentAfterUsing(t) => "Expected identifier after 'using', got "@ + token_debug(t),
        BvcErrorV::ExpectedControlName(t) => "Expected control name, got "@ + token_debug(t),
        BvcErrorV::UnexpectedEofInControl => "Unexpected EOF in control block"@,
        BvcErrorV::UnexpectedInControl(t) => "Unexpected token in control block: "@ + token_debug(t),
        BvcErrorV::ExpectedTile(t) => "Expected tile identifier, got "@ + token_debug(t),
        BvcErrorV::ExpectedRouteName(t) => "Expected route name, got "@ + token_debug(t),
        BvcErrorV::ExpectedPort(t) => "Expected port identifier, got "@ + token_debug(t),
        BvcErrorV::ExpectedRouteBody => "Expected 'over' or 'from...to' in route statement"@,
        BvcErrorV::ExpectedSlot(t) => "Expected slot identifier, got "@ + token_debug(t),
        BvcErrorV::ExpectedFenceAction(t) => "Expected 'enable' or 'disable', got "@ + token_debug(t),
        BvcErrorV::ExpectedTimeoutUnit(t) => "Expected timeout unit (ms/s/min), got "@ + token_debug(t),
        BvcErrorV::ExpectedInteger(t) => "Expected integer value, got "@ + token_debug(t),
        BvcErrorV::ExpectedUsingRef(t) => "Expected using reference, got "@ + token_debug(t),
    }
}

fn with_token(prefix: &str, t: &Token) -> (s: String)
    ensures
        s@ == prefix@ + token_debug(t@),
{
    let mut s = owned(prefix);
    s.append(t.debug_string().as_str());
    s
}

impl BvcError {
    /// The message of the error.
    pub fn message(&self) -> (s: String)
        ensures
            s@ == error_text(self@),
    {
        match self {
            BvcError::UnexpectedChar { ch, pos } => {
                let mut s = owned("Unexpected character '");
                push_char(&mut s, *ch);
                s.append("' at position ");
                push_decimal(&mut s, *pos as u64);
                s
            }
            BvcError::InvalidNumber(n) => {
                let mut s = owned("Invalid number: ");
                s.append(n.as_str());
                s
            }
            BvcError::UnterminatedString { pos } => {
                let mut s = owned("Unterminated string at position ");
                push_decimal(&mut s, *pos as u64);
                s
            }
            BvcError::UnexpectedTopLevel(t) => {
                let mut s = with_token("Unexpected token ", t);
                s.append(" at top level");
                s
            }
            BvcError::Expected { expected, got } => {
                let mut s = with_token("Expected ", expected);
                s.append(", got ");
                s.append(got.debug_string().as_str());
                s
            }
            BvcError::ExpectedIdentAfterDot(t) => with_token("Expected identifier after '.', got ", t),
            BvcError::ExpectedIdentAfterUsing(t) => with_token("Expected identifier after 'using', got ", t),
            BvcError::ExpectedControlName(t) => with_token("Expected control name, got ", t),
            BvcError::UnexpectedEofInControl => owned("Unexpected EOF in control block"),
            BvcError::UnexpectedInControl(t) => with_token("Unexpected token in control block: ", t),
            BvcError::ExpectedTile(t) => with_token("Expected tile identifier, got ", t),
            BvcError::ExpectedRouteName(t) => with_token("Expected route name, got ", t),
            BvcError::ExpectedPort(t) => with_token("Expected port identifier, got ", t),
            BvcError::ExpectedRouteBody => owned("Expected 'over' or 'from...to' in route statement"),
            BvcError::ExpectedSlot(t) => with_token("Expected slot identifier, got ", t),
            BvcError::ExpectedFenceAction(t) => with_token("Expected 'enable' or 'disable', got ", t),
            BvcError::ExpectedTimeoutUnit(t) => with_token("Expected timeout unit (ms/s/min), got ", t),
            BvcError::ExpectedInteger(t) => with_token("Expected integer value, got ", t),
            BvcError::ExpectedUsingRef(t) => with_token("Expected using reference, got ", t),
        }
    }
}

// ---------------------------------------------------------------------------
// Tokenizing

/// The value of a run of decimal digits.
pub open spec fn digits_value(s: Seq<char>) -> nat
    decreases s.len(),
{
    if s.len() == 0 {
        0
    } else {
        digits_value(s.drop_last()) * 10 + (s.last() as nat - '0' as nat) as nat
    }
}

/// The keyword an identifier spells, or the identifier itself.
pub open spec fn keyword(w: Seq<char>) -> TokenV {
    if w == "using"@ {
        TokenV::Using
    } else if w == "control"@ {
        TokenV::Control
    } else if w == "target"@ {
        TokenV::Target
    } else if w == "partition"@ {
        TokenV::Partition
    } else if w == "route"@ {
        TokenV::Route
    } else if w == "mount"@ {
        TokenV::Mount
    } else if w == "unmount"@ {
        TokenV::Unmount
    } else if w == "fence"@ {
        TokenV::Fence
    } else if w == "timeout"@ {
        TokenV::Timeout
    } else if w == "enable"@ {
        TokenV::Enable
    } else if w == "disable"@ {
        TokenV::Disable
    } else {
        TokenV::Ident(w)
    }
}

/// A character that may follow a one-character token to form a longer one.
pub open spec fn next_is(s: Seq<char>, p: int, c: char) -> bool {
    p < s.len() && s[p] == c
}

/// The token that starts at `p` (a position holding no white space), and
/// where the next one may start.
pub open spec fn lex_at(s: Seq<char>, p: int) -> Result<(TokenV, int), BvcErrorV> {
    let c = s[p];
    if c == '{' {
        Ok((TokenV::LBrace, p + 1))
    } else if c == '}' {
        Ok((TokenV::RBrace, p + 1))
    } else if c == '(' {
        Ok((TokenV::LParen, p + 1))
    } else if c == ')' {
        Ok((TokenV::RParen, p + 1))
    } else if c == ',' {
        Ok((TokenV::Comma, p + 1))
    } else if c == ';' {
        Ok((TokenV::Semicolon, p + 1))
    } else if c == '=' {
        if next_is(s, p + 1, '>') { Ok((TokenV::Arrow, p + 2)) } else { Ok((TokenV::Equals, p + 1)) }
    } else if c == '.' {
        if next_is(s, p + 1, '.') { Ok((TokenV::Dot, p + 2)) } else { Ok((TokenV::Dot, p + 1)) }
    } else if c == ':' {
        if next_is(s, p + 1, ':') { Ok((TokenV::ColonColon, p + 2)) } else { Ok((TokenV::Colon, p + 1)) }
    } else if c == '"' {
        match quote_at_or_after(s, p + 1) {
            Some(q) => Ok((TokenV::Str(s.subrange(p + 1, q)), q + 1)),
            None => Err(BvcErrorV::UnterminatedString { pos: byte_offset(s, p + 1) }),
        }
    } else if is_ascii_alpha(c) || c == '_' {
        Ok((keyword(s.subrange(p, ident_end(s, p))), ident_end(s, p)))
    } else if is_ascii_digit(c) {
        let text = s.subrange(p, digits_end(s, p));
        if digits_value(text) <= u64::MAX {
            Ok((TokenV::Integer(digits_value(text) as u64), digits_end(s, p)))
        } else {
            Err(BvcErrorV::InvalidNumber(text))
        }
    } else {
        Err(BvcErrorV::UnexpectedChar { ch: c, pos: byte_offset(s, p) })
    }
}

pub proof fn lemma_lex_at(s: Seq<char>, p: int)
    requires
        0 <= p < s.len(),
    ensures
        lex_at(s, p) matches Ok((_, q)) ==> p < q <= s.len(),
{
    lemma_quote(s, p + 1);
    lemma_ident_end(s, p);
    lemma_digits_end(s, p);
    if is_ascii_alpha(s[p]) || s[p] == '_' {
        lemma_ident_end(s, p + 1);
    }
    if is_ascii_digit(s[p]) {
        lemma_digits_end(s, p + 1);
    }
}

/// The tokens of `s` from position `p` on, ending with `Eof`.
pub open spec fn tokenize_from(s: Seq<char>, p: int) -> Result<Seq<TokenV>, BvcErrorV>
    decreases s.len() - p,
{
    if p < 0 || p > s.len() {
        Ok(seq![TokenV::Eof])
    } else {
        let q = skip_ws(s, p);
        if q >= s.len() {
            Ok(seq![TokenV::Eof])
        } else {
            proof {
                lemma_skip_ws(s, p);
                lemma_lex_at(s, q);
            }
            match lex_at(s, q) {
                Ok((t, r)) => match tokenize_from(s, r) {
                    Ok(ts) => Ok(seq![t] + ts),
                    Err(e) => Err(e),
                },
                Err(e) => Err(e),
            }
        }
    }
}

pub proof fn lemma_tokenize_from_len(s: Seq<char>, p: int)
    requires
        0 <= p <= s.len(),
    ensures
        tokenize_from(s, p) matches Ok(ts) ==> ts.len() <= s.len() - p + 1,
    decreases s.len() - p,
{
    let q = skip_ws(s, p);
    lemma_skip_ws(s, p);
    if q < s.len() {
        lemma_lex_at(s, q);
        if let Ok((t, r)) = lex_at(s, q) {
            lemma_tokenize_from_len(s, r);
        }
    }
}

/// A text of `n` characters has at most `n + 1` tokens.
pub proof fn lemma_tokens_len(s: Seq<char>)
    ensures
        tokenize(s) matches Ok(ts) ==> ts.len() <= s.len() + 1,
{
    lemma_tokenize_from_len(s, 0);
}

/// The tokens of a source text, ending with `Eof`.
pub open spec fn tokenize(s: Seq<char>) -> Result<Seq<TokenV>, BvcErrorV> {
    tokenize_from(s, 0)
}

fn keyword_exec(w: &[char]) -> (t: Token)
    ensures
        t@ == keyword(w@),
{
    if eq_str(w, "using") {
        Token::Using
    } else if eq_str(w, "control") {
        Token::Control
    } else if eq_str(w, "target") {
        Token::Target
    } else if eq_str(w, "partition") {
        Token::Partition
    } else if eq_str(w, "route") {
        Token::Route
    } else if eq_str(w, "mount") {
        Token::Mount
    } else if eq_str(w, "unmount") {
        Token::Unmount
    } else if eq_str(w, "fence") {
        Token::Fence
    } else if eq_str(w, "timeout") {
        Token::Timeout
    } else if eq_str(w, "enable") {
        Token::Enable
    } else if eq_str(w, "disable") {
        Token::Disable
    } else {
        Token::Ident(string_of(w))
    }
}

/// The value of a digit run, if it fits in 64 bits (what `str::parse::<u64>`
/// gives for such a run).
pub(crate) fn digits_u64(d: &[char]) -> (r: Option<u64>)
    requires
        forall|k: int| 0 <= k < d@.len() ==> is_ascii_digit(#[trigger] d@[k]),
    ensures
        match r {
            Some(v) => v as nat == digits_value(d@),
            None => digits_value(d@) > u64::MAX,
        },
{
    let mut v: u64 = 0;
    let mut i: usize = 0;
    while i < d.len()
        invariant
            i <= d@.len(),
            forall|k: int| 0 <= k < d@.len() ==> is_ascii_digit(#[trigger] d@[k]),
            v as nat == digits_value(d@.subrange(0, i as int)),
        decreases d@.len() - i,
    {
        let c = d[i];
        let digit: u64 = (c as u32 - '0' as u32) as u64;
        assert(d@.subrange(0, i + 1).drop_last() =~= d@.subrange(0, i as int));
        assert(d@.subrange(0, i + 1).last() == c);
        if v > (u64::MAX - digit) / 10 {
            proof {
                lemma_digits_value_mono(d@, i + 1);
                assert(digits_value(d@.subrange(0, i + 1)) == v * 10 + digit);
                assert(v * 10 + digit > u64::MAX) by (nonlinear_arith)
                    requires
                        v > (u64::MAX - digit) / 10,
                        digit <= 9;
            }
            return None;
        }
        assert(v * 10 + digit <= u64::MAX) by (nonlinear_arith)
            requires
                v <= (u64::MAX - digit) / 10,
                digit <= 9;
        v = v * 10 + digit;
        i = i + 1;
    }
    assert(d@.subrange(0, d@.len() as int) =~= d@);
    Some(v)
}

proof fn lemma_digits_value_mono(s: Seq<char>, i: int)
    requires
        0 <= i <= s.len(),
        forall|k: int| 0 <= k < s.len() ==> is_ascii_digit(#[trigger] s[k]),
    ensures
        digits_value(s.subrange(0, i)) <= digits_value(s),
    decreases s.len() - i,
{
    if i < s.len() {
        lemma_digits_value_mono(s, i + 1);
        assert(s.subrange(0, i + 1).drop_last() =~= s.subrange(0, i));
    } else {
        assert(s.subrange(0, i) =~= s);
    }
}

fn lex_token(s: &[char], p: usize) -> (r: Result<(Token, usize), BvcError>)
    requires
        p < s@.len(),
        s@.len() <= usize::MAX / 4,
    ensures
        match lex_at(s@, p as int) {
            Ok((t, q)) => r matches Ok((tok, q2)) && tok@ == t && q2 == q,
            Err(e) => r matches Err(err) && err@ == e,
        },
{
    let c = s[p];
    let n = s.len();
    if c == '{' {
        Ok((Token::LBrace, p + 1))
    } else if c == '}' {
        Ok((Token::RBrace, p + 1))
    } else if c == '(' {
        Ok((Token::LParen, p + 1))
    } else if c == ')' {
        Ok((Token::RParen, p + 1))
    } else if c == ',' {
        Ok((Token::Comma, p + 1))
    } else if c == ';' {
        Ok((Token::Semicolon, p + 1))
    } else if c == '=' {
        if p + 1 < n && s[p + 1] == '>' { Ok((Token::Arrow, p + 2)) } else { Ok((Token::Equals, p + 1)) }
    } else if c == '.' {
        if p + 1 < n && s[p + 1] == '.' { Ok((Token::Dot, p + 2)) } else { Ok((Token::Dot, p + 1)) }
    } else if c == ':' {
        if p + 1 < n && s[p + 1] == ':' { Ok((Token::ColonColon, p + 2)) } else { Ok((Token::Colon, p + 1)) }
    } else if c == '"' {
        match quote_exec(s, p + 1) {
            Some(q) => {
                proof { lemma_quote(s@, p + 1); }
                let text = string_of(&s[p + 1..q]);
                Ok((Token::String(text), q + 1))
            }
            None => Err(BvcError::UnterminatedString { pos: byte_offset_exec(s, p + 1) }),
        }
    } else if ('a' <= c && c <= 'z') || ('A' <= c && c <= 'Z') || c == '_' {
        let e = ident_end_exec(s, p);
        proof { lemma_ident_end(s@, p as int); }
        Ok((keyword_exec(&s[p..e]), e))
    } else if ascii_digit(c) {
        let e = digits_end_exec(s, p);
        proof { lemma_digits_end(s@, p as int); }
        let text = &s[p..e];
        assert(forall|k: int| 0 <= k < text@.len() ==> text@[k] == s@[p + k]);
        match digits_u64(text) {
            Some(v) => Ok((Token::Integer(v), e)),
            None => Err(BvcError::InvalidNumber(string_of(text))),
        }
    } else {
        Err(BvcError::UnexpectedChar { ch: c, pos: byte_offset_exec(s, p) })
    }
}

/// Splits a source text into tokens, the last of which is `Eof`.
pub fn tokenize_chars(s: &[char]) -> (r: Result<Vec<Token>, BvcError>)
    requires
        s@.len() <= usize::MAX / 4,
    ensures
        match tokenize(s@) {
            Ok(ts) => r matches Ok(v) && token_views(v@) == ts,
            Err(e) => r matches Err(err) && err@ == e,
        },
{
    let mut tokens: Vec<Token> = Vec::new();
    let mut pos: usize = 0;
    loop
        invariant
            s@.len() <= usize::MAX / 4,
            pos <= s@.len(),
            match tokenize_from(s@, pos as int) {
                Ok(ts) => tokenize(s@) == Ok::<Seq<TokenV>, BvcErrorV>(token_views(tokens@) + ts),
                Err(e) => tokenize(s@) == Err::<Seq<TokenV>, BvcErrorV>(e),
            },
        decreases s@.len() - pos,
    {
        let p0 = pos;
        let q = skip_ws_exec(s, pos);
        proof { lemma_skip_ws(s@, p0 as int); }
        pos = q;
        if pos >= s.len() {
            assert(tokenize_from(s@, p0 as int) == Ok::<Seq<TokenV>, BvcErrorV>(seq![TokenV::Eof]));
            let ghost before = tokens@;
            tokens.push(Token::Eof);
            assert(token_views(tokens@) =~= token_views(before) + seq![TokenV::Eof]);
            return Ok(tokens);
        }
        proof { lemma_lex_at(s@, q as int); }
        assert(tokenize_from(s@, p0 as int) == match lex_at(s@, q as int) {
            Ok((t, r)) => match tokenize_from(s@, r) {
                Ok(ts) => Ok(seq![t] + ts),
                Err(e) => Err(e),
            },
            Err(e) => Err(e),
        });
        match lex_token(s, pos) {
            Ok((tok, next)) => {
                let ghost before = tokens@;
                let ghost tv = tok@;
                tokens.push(tok);
                proof {
                    assert(token_views(tokens@) =~= token_views(before) + seq![tv]);
                    match tokenize_from(s@, next as int) {
                        Ok(ts) => {
                            assert(token_views(before) + (seq![tv] + ts) =~= token_views(tokens@) + ts);
                        },
                        Err(e) => {},
                    }
                }
                pos = next;
            }
            Err(e) => {
                return Err(e);
            }
        }
    }
}

} // verus!
