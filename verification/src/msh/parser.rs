//! Lexer and LL(1) parser of the Moore shell's proposition language
//! (`Imp_Core exists_on Tile_0.`), and the printer that writes a proposition
//! back in that language.

use vstd::prelude::*;
use crate::text::{chars_of, owned, concat, string_of, trim, trim_slice, push_chars, lemma_trim_len, debug_text, debug_str, decimal, push_decimal, push_char};
use crate::scan::{
    is_ident_char, skip_ws, ident_end, quote_at_or_after, byte_offset, lemma_skip_ws, lemma_ident_end,
    lemma_quote, skip_ws_exec, ident_end_exec, quote_exec, byte_offset_exec,
};
use crate::text::is_ascii_alpha;

verus! {

/// Tokens of the proposition language.
#[derive(Debug, Clone, PartialEq)]
pub enum Token {
    Ident(String),
    Predicate(String),
    Subject(String),
    Dot,
    QMark,
    Comma,
    LBracket,
    RBracket,
    String(String),
    Eof,
}

/// A token as a mathematical value.
pub enum TokenV {
    Ident(Seq<char>),
    Predicate(Seq<char>),
    Subject(Seq<char>),
    Dot,
    QMark,
    Comma,
    LBracket,
    RBracket,
    Str(Seq<char>),
    Eof,
}

impl View for Token {
    type V = TokenV;

    open spec fn view(&self) -> TokenV {
        match self {
            Token::Ident(s) => TokenV::Ident(s@),
            Token::Predicate(s) => TokenV::Predicate(s@),
            Token::Subject(s) => TokenV::Subject(s@),
            Token::Dot => TokenV::Dot,
            Token::QMark => TokenV::QMark,
            Token::Comma => TokenV::Comma,
            Token::LBracket => TokenV::LBracket,
            Token::RBracket => TokenV::RBracket,
            Token::String(s) => TokenV::Str(s@),
            Token::Eof => TokenV::Eof,
        }
    }
}

/// A copy of a token.
pub fn copy_token(t: &Token) -> (r: Token)
    ensures
        r@ == t@,
{
    match t {
        Token::Ident(s) => Token::Ident(s.clone()),
        Token::Predicate(s) => Token::Predicate(s.clone()),
        Token::Subject(s) => Token::Subject(s.clone()),
        Token::Dot => Token::Dot,
        Token::QMark => Token::QMark,
        Token::Comma => Token::Comma,
        Token::LBracket => Token::LBracket,
        Token::RBracket => Token::RBracket,
        Token::String(s) => Token::String(s.clone()),
        Token::Eof => Token::Eof,
    }
}

/// Why a line is not a proposition.
#[derive(Debug, Clone, PartialEq)]
pub enum MshError {
    /// A character that starts no token, at a byte position.
    UnexpectedChar { ch: char, pos: usize },
    UnterminatedString,
    ExpectedProposition(Token),
    ExpectedPredicate(Token),
    ExpectedTile(Token),
    ExpectedItem(Token),
    EmptyInput,
}

pub enum MshErrorV {
    UnexpectedChar { ch: char, pos: nat },
    UnterminatedString,
    ExpectedProposition(TokenV),
    ExpectedPredicate(TokenV),
    ExpectedTile(TokenV),
    ExpectedItem(TokenV),
    EmptyInput,
}

impl View for MshError {
    type V = MshErrorV;

    open spec fn view(&self) -> MshErrorV {
        match self {
            MshError::UnexpectedChar { ch, pos } => MshErrorV::UnexpectedChar { ch: *ch, pos: *pos as nat },
            MshError::UnterminatedString => MshErrorV::UnterminatedString,
            MshError::ExpectedProposition(t) => MshErrorV::ExpectedProposition(t@),
            MshError::ExpectedPredicate(t) => MshErrorV::ExpectedPredicate(t@),
            MshError::ExpectedTile(t) => MshErrorV::ExpectedTile(t@),
            MshError::ExpectedItem(t) => MshErrorV::ExpectedItem(t@),
            MshError::EmptyInput => MshErrorV::EmptyInput,
        }
    }
}

/// The `{:?}` form of a token.
pub open spec fn token_debug(t: TokenV) -> Seq<char> {
    match t {
        TokenV::Ident(s) => "Ident("@ + debug_text(s) + ")"@,
        TokenV::Predicate(s) => "Predicate("@ + debug_text(s) + ")"@,
        TokenV::Subject(s) => "Subject("@ + debug_text(s) + ")"@,
        TokenV::Dot => "Dot"@,
        TokenV::QMark => "QMark"@,
        TokenV::Comma => "Comma"@,
        TokenV::LBracket => "LBracket"@,
        TokenV::RBracket => "RBracket"@,
        TokenV::Str(s) => "String("@ + debug_text(s) + ")"@,
        TokenV::Eof => "Eof"@,
    }
}

/// The message of an error, as the shell prints it.
pub open spec fn error_text(e: MshErrorV) -> Seq<char> {
    match e {
        MshErrorV::UnexpectedChar { ch, pos } => "Unexpected character '"@ + seq![ch] + "' at position "@ + decimal(pos),
        MshErrorV::UnterminatedString => "Unterminated string"@,
        MshErrorV::ExpectedProposition(t) => "Expected proposition, got "@ + token_debug(t),
        MshErrorV::ExpectedPredicate(t) => "Expected predicate, got "@ + token_debug(t),
        MshErrorV::ExpectedTile(t) => "Expected tile identifier after 'exists_on', got "@ + token_debug(t),
        MshErrorV::ExpectedItem(t) => "Expected item identifier after 'contains', got "@ + token_debug(t),
        MshErrorV::EmptyInput => "Empty input"@,
    }
}

impl Token {
    /// The `{:?}` form of the token.
    pub fn debug_string(&self) -> (s: String)
        ensures
            s@ == token_debug(self@),
    {
        match self {
            Token::Ident(v) => { let mut s = owned("Ident("); s.append(debug_str(v.as_str()).as_str()); s.append(")"); s }
            Token::Predicate(v) => { let mut s = owned("Predicate("); s.append(debug_str(v.as_str()).as_str()); s.append(")"); s }
            Token::Subject(v) => { let mut s = owned("Subject("); s.append(debug_str(v.as_str()).as_str()); s.append(")"); s }
            Token::Dot => owned("Dot"),
            Token::QMark => owned("QMark"),
            Token::Comma => owned("Comma"),
            Token::LBracket => owned("LBracket"),
            Token::RBracket => owned("RBracket"),
            Token::String(v) => { let mut s = owned("String("); s.append(debug_str(v.as_str()).as_str()); s.append(")"); s }
            Token::Eof => owned("Eof"),
        }
    }
}

impl MshError {
    /// The message the shell prints for this error.
    pub fn message(&self) -> (s: String)
        ensures
            s@ == error_text(self@),
    {
        match self {
            MshError::UnexpectedChar { ch, pos } => {
                let mut s = owned("Unexpected character '");
                push_char(&mut s, *ch);
                s.append("' at position ");
                push_decimal(&mut s, *pos as u64);
                s
            }
            MshError::UnterminatedString => owned("Unterminated string"),
            MshError::ExpectedProposition(t) => { let mut s = owned("Expected proposition, got "); s.append(t.debug_string().as_str()); s }
            MshError::ExpectedPredicate(t) => { let mut s = owned("Expected predicate, got "); s.append(t.debug_string().as_str()); s }
            MshError::ExpectedTile(t) => {
                let mut s = owned("Expected tile identifier after 'exists_on', got ");
                s.append(t.debug_string().as_str());
                s
            }
            MshError::ExpectedItem(t) => {
                let mut s = owned("Expected item identifier after 'contains', got ");
                s.append(t.debug_string().as_str());
                s
            }
            MshError::EmptyInput => owned("Empty input"),
        }
    }
}

// ---------------------------------------------------------------------------
// Lexing

/// The token that starts at `p` (a position holding no white space), and
/// where the next one may start.
pub open spec fn lex_at(s: Seq<char>, p: int) -> Result<(TokenV, int), MshErrorV> {
    let c = s[p];
    if c == '.' {
        Ok((TokenV::Dot, p + 1))
    } else if c == '?' {
        Ok((TokenV::QMark, p + 1))
    } else if c == ',' {
        Ok((TokenV::Comma, p + 1))
    } else if c == '[' {
        Ok((TokenV::LBracket, p + 1))
    } else if c == ']' {
        Ok((TokenV::RBracket, p + 1))
    } else if c == '"' {
        match quote_at_or_after(s, p + 1) {
            Some(q) => Ok((TokenV::Str(s.subrange(p + 1, q)), q + 1)),
            None => Err(MshErrorV::UnterminatedString),
        }
    } else if is_ascii_alpha(c) || c == '_' {
        Ok((TokenV::Ident(s.subrange(p, ident_end(s, p))), ident_end(s, p)))
    } else {
        Err(MshErrorV::UnexpectedChar { ch: c, pos: byte_offset(s, p) })
    }
}

pub proof fn lemma_lex_at(s: Seq<char>, p: int)
    requires
        0 <= p < s.len(),
    ensures
        lex_at(s, p) matches Ok((_, q)) ==> p < q <= s.len(),
{
    lemma_quote(s, p + 1);
    lemma_ident_end(s, p);
    if is_ascii_alpha(s[p]) || s[p] == '_' {
        lemma_ident_end(s, p + 1);
    }
}

/// The tokens of `s` from position `p` on, ending with `Eof`.
pub open spec fn tokenize_from(s: Seq<char>, p: int) -> Result<Seq<TokenV>, MshErrorV>
    decreases s.len() - p,
{
    if p < 0 || p > s.len() {
        Err(MshErrorV::UnterminatedString)
    } else {
        let q = skip_ws(s, p);
        if q >= s.len() {
            Ok(seq![TokenV::Eof])
        } else {
            proof {
                lemma_skip_ws(s, p);
                lemma_lex_at(s, q);
            }
            match lex_at(s, q) {
                Ok((t, r)) => match tokenize_from(s, r) {
                    Ok(ts) => Ok(seq![t] + ts),
                    Err(e) => Err(e),
                },
                Err(e) => Err(e),
            }
        }
    }
}

/// The tokens of `s`, ending with `Eof`.
pub open spec fn tokenize(s: Seq<char>) -> Result<Seq<TokenV>, MshErrorV> {
    tokenize_from(s, 0)
}

pub open spec fn token_views(v: Seq<Token>) -> Seq<TokenV> {
    v.map_values(|t: Token| t@)
}

/// The lexer of the proposition language.
pub struct Lexer {
    source: Vec<char>,
    pos: usize,
}

impl Lexer {
    fn new(source: &[char]) -> (l: Self)
        ensures
            l.source@ == source@,
            l.pos == 0,
    {
        Lexer { source: crate::text::copy_chars(source), pos: 0 }
    }

    fn lex_char(&mut self) -> (r: Result<Token, MshError>)
        requires
            old(self).pos < old(self).source@.len(),
            old(self).source@.len() <= usize::MAX / 4,
        ensures
            final(self).source == old(self).source,
            match lex_at(old(self).source@, old(self).pos as int) {
                Ok((t, q)) => r matches Ok(tok) && tok@ == t && final(self).pos == q,
                Err(e) => r matches Err(err) && err@ == e,
            },
    {
        let ghost s = self.source@;
        let p = self.pos;
        let c = self.source[p];
        if c == '.' {
            self.pos = p + 1;
            Ok(Token::Dot)
        } else if c == '?' {
            self.pos = p + 1;
            Ok(Token::QMark)
        } else if c == ',' {
            self.pos = p + 1;
            Ok(Token::Comma)
        } else if c == '[' {
            self.pos = p + 1;
            Ok(Token::LBracket)
        } else if c == ']' {
            self.pos = p + 1;
            Ok(Token::RBracket)
        } else if c == '"' {
            match quote_exec(self.source.as_slice(), p + 1) {
                Some(q) => {
                    proof { lemma_quote(s, p + 1); }
                    let text = string_of(&self.source.as_slice()[p + 1..q]);
                    self.pos = q + 1;
                    Ok(Token::String(text))
                }
                None => Err(MshError::UnterminatedString),
            }
        } else if ('a' <= c && c <= 'z') || ('A' <= c && c <= 'Z') || c == '_' {
            let e = ident_end_exec(self.source.as_slice(), p);
            proof { lemma_ident_end(s, p as int); }
            let text = string_of(&self.source.as_slice()[p..e]);
            self.pos = e;
            Ok(Token::Ident(text))
        } else {
            let b = byte_offset_exec(self.source.as_slice(), p);
            Err(MshError::UnexpectedChar { ch: c, pos: b })
        }
    }

    fn tokenize(&mut self) -> (r: Result<Vec<Token>, MshError>)
        requires
            old(self).pos == 0,
            old(self).source@.len() <= usize::MAX / 4,
        ensures
            match tokenize(old(self).source@) {
                Ok(ts) => r matches Ok(v) && token_views(v@) == ts,
                Err(e) => r matches Err(err) && err@ == e,
            },
    {
        let ghost s = self.source@;
        let mut tokens: Vec<Token> = Vec::new();
        loop
            invariant
                self.source@ == s,
                s == old(self).source@,
                s.len() <= usize::MAX / 4,
                self.pos <= s.len(),
                match tokenize_from(s, self.pos as int) {
                    Ok(ts) => tokenize(s) == Ok::<Seq<TokenV>, MshErrorV>(token_views(tokens@) + ts),
                    Err(e) => tokenize(s) == Err::<Seq<TokenV>, MshErrorV>(e),
                },
            decreases s.len() - self.pos,
        {
            let p0 = self.pos;
            let q = skip_ws_exec(self.source.as_slice(), self.pos);
            proof { lemma_skip_ws(s, p0 as int); }
            self.pos = q;
            if self.pos >= self.source.len() {
                assert(tokenize_from(s, p0 as int) == Ok::<Seq<TokenV>, MshErrorV>(seq![TokenV::Eof]));
                let ghost before = tokens@;
                tokens.push(Token::Eof);
                assert(token_views(tokens@) =~= token_views(before) + seq![TokenV::Eof]);
                return Ok(tokens);
            }
            proof { lemma_lex_at(s, q as int); }
            assert(tokenize_from(s, p0 as int) == match lex_at(s, q as int) {
                Ok((t, r)) => match tokenize_from(s, r) {
                    Ok(ts) => Ok(seq![t] + ts),
                    Err(e) => Err(e),
                },
                Err(e) => Err(e),
            });
            match self.lex_char() {
                Ok(tok) => {
                    let ghost before = tokens@;
                    let ghost r = self.pos;
                    tokens.push(tok);
                    proof {
                        assert(token_views(tokens@) =~= token_views(before) + seq![tok@]);
                        match tokenize_from(s, r as int) {
                            Ok(ts) => {
                                assert(token_views(before) + (seq![tok@] + ts) =~= token_views(tokens@) + ts);
                            },
                            Err(e) => {},
                        }
                    }
                }
                Err(e) => {
                    return Err(e);
                }
            }
        }
    }
}

// ---------------------------------------------------------------------------
// Propositions

/// A statement about the fabric.
#[derive(Debug, Clone, PartialEq)]
pub enum Proposition {
    ExistsOn { module: String, tile: String },
    Absent { module: String },
    IsActive { tile: String },
    Contains { container: String, item: String },
    Custom { subject: String, predicate: String, object: Option<String> },
}

pub enum PropositionV {
    ExistsOn { module: Seq<char>, tile: Seq<char> },
    Absent { module: Seq<char> },
    IsActive { tile: Seq<char> },
    Contains { container: Seq<char>, item: Seq<char> },
    Custom { subject: Seq<char>, predicate: Seq<char>, object: Option<Seq<char>> },
}

impl View for Proposition {
    type V = PropositionV;

    open spec fn view(&self) -> PropositionV {
        match self {
            Proposition::ExistsOn { module, tile } => PropositionV::ExistsOn { module: module@, tile: tile@ },
            Proposition::Absent { module } => PropositionV::Absent { module: module@ },
            Proposition::IsActive { tile } => PropositionV::IsActive { tile: tile@ },
            Proposition::Contains { container, item } => PropositionV::Contains { container: container@, item: item@ },
            Proposition::Custom { subject, predicate, object } => PropositionV::Custom {
                subject: subject@,
                predicate: predicate@,
                object: match object {
                    Some(o) => Some(o@),
                    None => None,
                },
            },
        }
    }
}

/// The token at `i`, or `Eof` past the end.
pub open spec fn tok_at(toks: Seq<TokenV>, i: int) -> TokenV {
    if 0 <= i < toks.len() {
        toks[i]
    } else {
        TokenV::Eof
    }
}

/// What the parser makes of a token sequence: a subject, then a predicate
/// (`?`, `.`, `exists_on TILE`, `absent`, `is_active`, `contains ITEM`, or
/// any other word); a closing `.` is optional and what follows is ignored.
pub open spec fn parse_tokens(toks: Seq<TokenV>) -> Result<PropositionV, MshErrorV> {
    match tok_at(toks, 0) {
        TokenV::Ident(subject) => match tok_at(toks, 1) {
            TokenV::QMark => Ok(PropositionV::Custom { subject, predicate: "?"@, object: None }),
            TokenV::Dot => Ok(PropositionV::Custom { subject, predicate: "?"@, object: None }),
            TokenV::Ident(pred) => if pred == "exists_on"@ {
                match tok_at(toks, 2) {
                    TokenV::Ident(tile) => Ok(PropositionV::ExistsOn { module: subject, tile }),
                    t => Err(MshErrorV::ExpectedTile(t)),
                }
            } else if pred == "absent"@ {
                Ok(PropositionV::Absent { module: subject })
            } else if pred == "is_active"@ {
                Ok(PropositionV::IsActive { tile: subject })
            } else if pred == "contains"@ {
                match tok_at(toks, 2) {
                    TokenV::Ident(item) => Ok(PropositionV::Contains { container: subject, item }),
                    t => Err(MshErrorV::ExpectedItem(t)),
                }
            } else {
                Ok(PropositionV::Custom { subject, predicate: pred, object: None })
            },
            t => Err(MshErrorV::ExpectedPredicate(t)),
        },
        t => Err(MshErrorV::ExpectedProposition(t)),
    }
}

/// What `parse` makes of a source text.
pub open spec fn parse_spec(s: Seq<char>) -> Result<PropositionV, MshErrorV> {
    match tokenize(s) {
        Ok(toks) => parse_tokens(toks),
        Err(e) => Err(e),
    }
}

/// A failed proof of a proposition, with reasons and suggestions.
#[derive(Debug, Clone)]
pub struct ProofFailure {
    pub proposition: String,
    pub reasons: Vec<ProofReason>,
    pub suggestions: Vec<String>,
}

/// One reason a proof failed.
#[derive(Debug, Clone)]
pub struct ProofReason {
    pub code: u32,
    pub description: String,
}

impl ProofFailure {
    /// A failure for `prop` with no reasons or suggestions yet.
    pub fn cannot_satisfy(prop: &str) -> (f: Self)
        ensures
            f.proposition@ == prop@,
            f.reasons@.len() == 0,
            f.suggestions@.len() == 0,
    {
        ProofFailure { proposition: owned(prop), reasons: Vec::new(), suggestions: Vec::new() }
    }

    /// Appends a reason.
    pub fn add_reason(&mut self, code: u32, desc: &str)
        ensures
            final(self).proposition == old(self).proposition,
            final(self).suggestions == old(self).suggestions,
            final(self).reasons@.len() == old(self).reasons@.len() + 1,
            forall|i: int| 0 <= i < old(self).reasons@.len() ==> #[trigger] final(self).reasons@[i] == old(self).reasons@[i],
            final(self).reasons@.last().code == code,
            final(self).reasons@.last().description@ == desc@,
    {
        self.reasons.push(ProofReason { code, description: owned(desc) });
    }

    /// Appends a suggestion.
    pub fn add_suggestion(&mut self, suggestion: &str)
        ensures
            final(self).proposition == old(self).proposition,
            final(self).reasons == old(self).reasons,
            final(self).suggestions@.len() == old(self).suggestions@.len() + 1,
            forall|i: int| 0 <= i < old(self).suggestions@.len() ==> #[trigger] final(self).suggestions@[i] == old(self).suggestions@[i],
            final(self).suggestions@.last()@ == suggestion@,
    {
        self.suggestions.push(owned(suggestion));
    }
}

fn token_at(toks: &Vec<Token>, i: usize) -> (t: Token)
    ensures
        t@ == tok_at(token_views(toks@), i as int),
{
    if i < toks.len() {
        copy_token(&toks[i])
    } else {
        Token::Eof
    }
}

fn is_word(s: &String, w: &str) -> (b: bool)
    ensures
        b == (s@ == w@),
{
    let v = chars_of(s.as_str());
    crate::text::eq_str(v.as_slice(), w)
}

/// Parses a token sequence into a proposition.
pub fn parse_token_seq(toks: &Vec<Token>) -> (r: Result<Proposition, MshError>)
    ensures
        match parse_tokens(token_views(toks@)) {
            Ok(p) => r matches Ok(prop) && prop@ == p,
            Err(e) => r matches Err(err) && err@ == e,
        },
{
    let t0 = token_at(toks, 0);
    match t0 {
        Token::Ident(subject) => {
            let t1 = token_at(toks, 1);
            match t1 {
                Token::QMark => Ok(Proposition::Custom { subject, predicate: owned("?"), object: None }),
                Token::Dot => Ok(Proposition::Custom { subject, predicate: owned("?"), object: None }),
                Token::Ident(pred) => {
                    if is_word(&pred, "exists_on") {
                        let t2 = token_at(toks, 2);
                        match t2 {
                            Token::Ident(tile) => Ok(Proposition::ExistsOn { module: subject, tile }),
                            t => Err(MshError::ExpectedTile(t)),
                        }
                    } else if is_word(&pred, "absent") {
                        Ok(Proposition::Absent { module: subject })
                    } else if is_word(&pred, "is_active") {
                        Ok(Proposition::IsActive { tile: subject })
                    } else if is_word(&pred, "contains") {
                        let t2 = token_at(toks, 2);
                        match t2 {
                            Token::Ident(item) => Ok(Proposition::Contains { container: subject, item }),
                            t => Err(MshError::ExpectedItem(t)),
                        }
                    } else {
                        Ok(Proposition::Custom { subject, predicate: pred, object: None })
                    }
                }
                t => Err(MshError::ExpectedPredicate(t)),
            }
        }
        t => Err(MshError::ExpectedProposition(t)),
    }
}

/// Parses one proposition. The source is tokenized in full (a lexical error
/// anywhere is reported), then read as subject and predicate.
pub fn parse(source: &str) -> (r: Result<Proposition, MshError>)
    requires
        source@.len() <= usize::MAX / 4,
    ensures
        match parse_spec(source@) {
            Ok(p) => r matches Ok(prop) && prop@ == p,
            Err(e) => r matches Err(err) && err@ == e,
        },
{
    let chars = chars_of(source);
    let mut lexer = Lexer::new(chars.as_slice());
    let tokens = lexer.tokenize()?;
    parse_token_seq(&tokens)
}

/// Parses a line typed at the shell: surrounding white space is ignored and
/// an empty line is refused.
pub fn parse_line(source: &str) -> (r: Result<Proposition, MshError>)
    requires
        source@.len() <= usize::MAX / 4,
    ensures
        trim(source@).len() == 0 ==> r matches Err(MshError::EmptyInput),
        trim(source@).len() > 0 ==> match parse_spec(trim(source@)) {
            Ok(p) => r matches Ok(prop) && prop@ == p,
            Err(e) => r matches Err(err) && err@ == e,
        },
{
    let chars = chars_of(source);
    let t = trim_slice(chars.as_slice());
    proof { lemma_trim_len(source@); }
    if t.len() == 0 {
        return Err(MshError::EmptyInput);
    }
    let trimmed = string_of(t);
    parse(trimmed.as_str())
}

// ---------------------------------------------------------------------------
// Printing

/// The text of a proposition, as the shell prints it.
pub open spec fn format_spec(p: PropositionV) -> Seq<char> {
    match p {
        PropositionV::ExistsOn { module, tile } => module + " exists_on "@ + tile + "."@,
        PropositionV::Absent { module } => module + " absent."@,
        PropositionV::IsActive { tile } => tile + " is_active."@,
        PropositionV::Contains { container, item } => container + " contains "@ + item + "."@,
        PropositionV::Custom { subject, predicate, object } => match object {
            Some(o) => subject + " "@ + predicate + " "@ + o + "."@,
            None => subject + " "@ + predicate + "."@,
        },
    }
}

/// Writes a proposition in the shell's language.
pub fn format_proposition(prop: &Proposition) -> (s: String)
    ensures
        s@ == format_spec(prop@),
{
    match prop {
        Proposition::ExistsOn { module, tile } => {
            let mut s = concat(module.as_str(), " exists_on ");
            s.append(tile.as_str());
            s.append(".");
            s
        }
        Proposition::Absent { module } => concat(module.as_str(), " absent."),
        Proposition::IsActive { tile } => concat(tile.as_str(), " is_active."),
        Proposition::Contains { container, item } => {
            let mut s = concat(container.as_str(), " contains ");
            s.append(item.as_str());
            s.append(".");
            s
        }
        Proposition::Custom { subject, predicate, object } => {
            let mut s = concat(subject.as_str(), " ");
            s.append(predicate.as_str());
            match object {
                Some(o) => {
                    s.append(" ");
                    s.append(o.as_str());
                }
                None => {}
            }
            s.append(".");
            s
        }
    }
}

// ---------------------------------------------------------------------------
// Printing and parsing agree

/// A word the lexer reads as one identifier.
pub open spec fn is_ident(w: Seq<char>) -> bool {
    &&& w.len() > 0
    &&& (is_ascii_alpha(w[0]) || w[0] == '_')
    &&& forall|i: int| 0 <= i < w.len() ==> is_ident_char(#[trigger] w[i])
}

proof fn lemma_ident_end_at(s: Seq<char>, p: int, k: int)
    requires
        0 <= p <= k <= s.len(),
        forall|i: int| p <= i < k ==> is_ident_char(#[trigger] s[i]),
        k == s.len() || !is_ident_char(s[k]),
    ensures
        ident_end(s, p) == k,
    decreases k - p,
{
    if p < k {
        lemma_ident_end_at(s, p + 1, k);
    }
}

/// Where an identifier `w` stands at `p`, followed by a non-identifier
/// character or the end, the lexer reads exactly `w`.
proof fn lemma_lex_word(s: Seq<char>, p: int, w: Seq<char>)
    requires
        is_ident(w),
        0 <= p,
        p + w.len() <= s.len(),
        s.subrange(p, p + w.len()) == w,
        p + w.len() == s.len() || !is_ident_char(s[p + w.len()]),
    ensures
        skip_ws(s, p) == p,
        lex_at(s, p) == Ok::<(TokenV, int), MshErrorV>((TokenV::Ident(w), p + w.len())),
{
    assert(s[p] == w[0]);
    assert forall|i: int| p <= i < p + w.len() implies is_ident_char(#[trigger] s[i]) by {
        assert(s[i] == w[i - p]);
    }
    lemma_ident_end_at(s, p, p + w.len());
}

#[verifier::rlimit(50)]
proof fn lemma_roundtrip_exists_on(module: Seq<char>, tile: Seq<char>)
    requires
        is_ident(module) && is_ident(tile),
    ensures
        parse_spec(format_spec(PropositionV::ExistsOn { module, tile })) == Ok::<PropositionV, MshErrorV>(PropositionV::ExistsOn { module, tile }),
{
    reveal_strlit(" exists_on ");
    reveal_strlit(".");
    reveal_strlit("exists_on");
    let s = format_spec(PropositionV::ExistsOn { module, tile });

            let m = module.len() as int;
            let t = tile.len() as int;
            let kw: Seq<char> = "exists_on"@;
            assert(s.subrange(0, m) =~= module);
            lemma_lex_word(s, 0, module);
            assert(s[m] == ' ');
            assert(s.subrange(m + 1, m + 10) =~= kw);
            lemma_lex_word(s, m + 1, kw);
            assert(skip_ws(s, m) == skip_ws(s, m + 1));
            assert(s[m + 10] == ' ');
            assert(s.subrange(m + 11, m + 11 + t) =~= tile);
            lemma_lex_word(s, m + 11, tile);
            assert(skip_ws(s, m + 10) == skip_ws(s, m + 11));
            assert(s[m + 11 + t] == '.');
            assert(skip_ws(s, m + 11 + t) == m + 11 + t);
            assert(lex_at(s, m + 11 + t) == Ok::<(TokenV, int), MshErrorV>((TokenV::Dot, m + 12 + t)));
            assert(s.len() == m + 12 + t);
            assert(tokenize_from(s, m + 12 + t) == Ok::<Seq<TokenV>, MshErrorV>(seq![TokenV::Eof]));
            assert(tokenize_from(s, m + 11 + t) == Ok::<Seq<TokenV>, MshErrorV>(seq![TokenV::Dot] + seq![TokenV::Eof]));
            let rest3 = seq![TokenV::Dot] + seq![TokenV::Eof];
            assert(tokenize_from(s, m + 10) == Ok::<Seq<TokenV>, MshErrorV>(seq![TokenV::Ident(tile)] + rest3));
            let rest2 = seq![TokenV::Ident(tile)] + rest3;
            assert(tokenize_from(s, m) == Ok::<Seq<TokenV>, MshErrorV>(seq![TokenV::Ident(kw)] + rest2));
            let rest1 = seq![TokenV::Ident(kw)] + rest2;
            assert(tokenize_from(s, 0) == Ok::<Seq<TokenV>, MshErrorV>(seq![TokenV::Ident(module)] + rest1));
            let toks = seq![TokenV::Ident(module)] + rest1;
            assert(tok_at(toks, 0) == TokenV::Ident(module));
            assert(tok_at(toks, 1) == TokenV::Ident(kw));
            assert(tok_at(toks, 2) == TokenV::Ident(tile));
        
}

#[verifier::rlimit(50)]
proof fn lemma_roundtrip_absent(module: Seq<char>)
    requires
        is_ident(module),
    ensures
        parse_spec(format_spec(PropositionV::Absent { module })) == Ok::<PropositionV, MshErrorV>(PropositionV::Absent { module }),
{
    reveal_strlit("exists_on");
    reveal_strlit("absent");
    reveal_strlit("is_active");
    reveal_strlit(" absent.");
    reveal_strlit("absent");
    let s = format_spec(PropositionV::Absent { module });

            let m = module.len() as int;
            let kw: Seq<char> = "absent"@;
            assert(s.subrange(0, m) =~= module);
            lemma_lex_word(s, 0, module);
            assert(s[m] == ' ');
            assert(s.subrange(m + 1, m + 7) =~= kw);
            lemma_lex_word(s, m + 1, kw);
            assert(skip_ws(s, m) == skip_ws(s, m + 1));
            assert(s[m + 7] == '.');
            assert(skip_ws(s, m + 7) == m + 7);
            assert(lex_at(s, m + 7) == Ok::<(TokenV, int), MshErrorV>((TokenV::Dot, m + 8)));
            assert(tokenize_from(s, m + 8) == Ok::<Seq<TokenV>, MshErrorV>(seq![TokenV::Eof]));
            let rest2 = seq![TokenV::Dot] + seq![TokenV::Eof];
            assert(tokenize_from(s, m + 7) == Ok::<Seq<TokenV>, MshErrorV>(rest2));
            let rest1 = seq![TokenV::Ident(kw)] + rest2;
            assert(tokenize_from(s, m) == Ok::<Seq<TokenV>, MshErrorV>(rest1));
            let toks = seq![TokenV::Ident(module)] + rest1;
            assert(tokenize_from(s, 0) == Ok::<Seq<TokenV>, MshErrorV>(toks));
            assert(tok_at(toks, 0) == TokenV::Ident(module));
            assert(tok_at(toks, 1) == TokenV::Ident(kw));
        
}

#[verifier::rlimit(50)]
proof fn lemma_roundtrip_is_active(tile: Seq<char>)
    requires
        is_ident(tile),
    ensures
        parse_spec(format_spec(PropositionV::IsActive { tile })) == Ok::<PropositionV, MshErrorV>(PropositionV::IsActive { tile }),
{
    reveal_strlit("exists_on");
    reveal_strlit("absent");
    reveal_strlit("is_active");
    reveal_strlit(" is_active.");
    reveal_strlit("is_active");
    let s = format_spec(PropositionV::IsActive { tile });

            let m = tile.len() as int;
            let kw: Seq<char> = "is_active"@;
            assert(s.subrange(0, m) =~= tile);
            lemma_lex_word(s, 0, tile);
            assert(s[m] == ' ');
            assert(s.subrange(m + 1, m + 10) =~= kw);
            lemma_lex_word(s, m + 1, kw);
            assert(skip_ws(s, m) == skip_ws(s, m + 1));
            assert(s[m + 10] == '.');
            assert(skip_ws(s, m + 10) == m + 10);
            assert(lex_at(s, m + 10) == Ok::<(TokenV, int), MshErrorV>((TokenV::Dot, m + 11)));
            assert(tokenize_from(s, m + 11) == Ok::<Seq<TokenV>, MshErrorV>(seq![TokenV::Eof]));
            let rest2 = seq![TokenV::Dot] + seq![TokenV::Eof];
            assert(tokenize_from(s, m + 10) == Ok::<Seq<TokenV>, MshErrorV>(rest2));
            let rest1 = seq![TokenV::Ident(kw)] + rest2;
            assert(tokenize_from(s, m) == Ok::<Seq<TokenV>, MshErrorV>(rest1));
            let toks = seq![TokenV::Ident(tile)] + rest1;
            assert(tokenize_from(s, 0) == Ok::<Seq<TokenV>, MshErrorV>(toks));
            assert(tok_at(toks, 0) == TokenV::Ident(tile));
            assert(tok_at(toks, 1) == TokenV::Ident(kw));
        
}

#[verifier::rlimit(50)]
proof fn lemma_roundtrip_contains(container: Seq<char>, item: Seq<char>)
    requires
        is_ident(container) && is_ident(item),
    ensures
        parse_spec(format_spec(PropositionV::Contains { container, item })) == Ok::<PropositionV, MshErrorV>(PropositionV::Contains { container, item }),
{
    reveal_strlit("exists_on");
    reveal_strlit("absent");
    reveal_strlit("is_active");
    reveal_strlit(" contains ");
    reveal_strlit(".");
    reveal_strlit("contains");
    let s = format_spec(PropositionV::Contains { container, item });

            let m = container.len() as int;
            let t = item.len() as int;
            let kw: Seq<char> = "contains"@;
            assert(s.subrange(0, m) =~= container);
            lemma_lex_word(s, 0, container);
            assert(s[m] == ' ');
            assert(s.subrange(m + 1, m + 9) =~= kw);
            lemma_lex_word(s, m + 1, kw);
            assert(skip_ws(s, m) == skip_ws(s, m + 1));
            assert(s[m + 9] == ' ');
            assert(s.subrange(m + 10, m + 10 + t) =~= item);
            lemma_lex_word(s, m + 10, item);
            assert(skip_ws(s, m + 9) == skip_ws(s, m + 10));
            assert(s[m + 10 + t] == '.');
            assert(skip_ws(s, m + 10 + t) == m + 10 + t);
            assert(lex_at(s, m + 10 + t) == Ok::<(TokenV, int), MshErrorV>((TokenV::Dot, m + 11 + t)));
            assert(tokenize_from(s, m + 11 + t) == Ok::<Seq<TokenV>, MshErrorV>(seq![TokenV::Eof]));
            let rest3 = seq![TokenV::Dot] + seq![TokenV::Eof];
            assert(tokenize_from(s, m + 10 + t) == Ok::<Seq<TokenV>, MshErrorV>(rest3));
            let rest2 = seq![TokenV::Ident(item)] + rest3;
            assert(tokenize_from(s, m + 9) == Ok::<Seq<TokenV>, MshErrorV>(rest2));
            let rest1 = seq![TokenV::Ident(kw)] + rest2;
            assert(tokenize_from(s, m) == Ok::<Seq<TokenV>, MshErrorV>(rest1));
            let toks = seq![TokenV::Ident(container)] + rest1;
            assert(tokenize_from(s, 0) == Ok::<Seq<TokenV>, MshErrorV>(toks));
            assert(tok_at(toks, 0) == TokenV::Ident(container));
            assert(tok_at(toks, 1) == TokenV::Ident(kw));
            assert(tok_at(toks, 2) == TokenV::Ident(item));
        
}

/// Printing a proposition about identifiers and parsing the text back gives
/// the same proposition.
pub proof fn law_parse_format_roundtrip(p: PropositionV)
    requires
        match p {
            PropositionV::ExistsOn { module, tile } => is_ident(module) && is_ident(tile),
            PropositionV::Absent { module } => is_ident(module),
            PropositionV::IsActive { tile } => is_ident(tile),
            PropositionV::Contains { container, item } => is_ident(container) && is_ident(item),
            PropositionV::Custom { .. } => false,
        },
    ensures
        parse_spec(format_spec(p)) == Ok::<PropositionV, MshErrorV>(p),
{
    match p {
        PropositionV::ExistsOn { module, tile } => lemma_roundtrip_exists_on(module, tile),
        PropositionV::Absent { module } => lemma_roundtrip_absent(module),
        PropositionV::IsActive { tile } => lemma_roundtrip_is_active(tile),
        PropositionV::Contains { container, item } => lemma_roundtrip_contains(container, item),
        PropositionV::Custom { .. } => {},
    }
}

} // verus!
