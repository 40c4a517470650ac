//! The grammar of Brief Control, read from tokens by recursive descent:
//!
//! ```text
//! program   := (using | control)* EOF
//! using     := "using" NAME ("." NAME)* ";"
//! control   := "control" NAME "{" stmt* "}"
//! stmt      := "target" NAME ("," NAME)* ";"
//!            | "partition" REF "across" NAME ("as" NAME)? ";"
//!            | "route" NAME ("from" NAME "to" NAME "over" NAME | "over" NAME) ";"
//!            | "mount" REF "to" NAME ("as" NAME)? ";"
//!            | "unmount" REF ("from" NAME)? ";"
//!            | "fence" NAME ("enable" | "disable") ";"
//!            | "timeout" ("ms" | "s" | "min") "=" INTEGER ";"
//! ```

use vstd::prelude::*;
use crate::text::{chars_of, owned, string_of, eq_str, push_char};
use crate::bvc::types::{
    BvcProgram, BvcProgramV, ControlBlock, ControlBlockV, ControlStmt, ControlStmtV, PartitionStmt, RouteStmt,
    MountStmt, UnmountStmt, FenceStmt, TimeoutStmt, FenceAction, TimeoutUnit, string_views, stmt_views,
    block_views, opt_chars,
};
use crate::bvc::lexer::{Token, TokenV, BvcError, BvcErrorV, token_views, tokenize, tokenize_chars, lemma_tokens_len};

verus! {

pub type PResult<T> = Result<(T, int), BvcErrorV>;

/// The token at `i`, or `Eof` past the end.
pub open spec fn cur(toks: Seq<TokenV>, i: int) -> TokenV {
    if 0 <= i < toks.len() {
        toks[i]
    } else {
        TokenV::Eof
    }
}

/// The token `t` at `i`; the position after it.
pub open spec fn expect_tok(toks: Seq<TokenV>, i: int, t: TokenV) -> Result<int, BvcErrorV> {
    if cur(toks, i) == t {
        Ok(i + 1)
    } else {
        Err(BvcErrorV::Expected { expected: t, got: cur(toks, i) })
    }
}

/// The rest of a dotted name begun with `acc`: `("." NAME)*`.
pub open spec fn dotted_rest(toks: Seq<TokenV>, i: int, acc: Seq<char>) -> PResult<Seq<char>>
    decreases toks.len() - i,
{
    if cur(toks, i) == TokenV::Dot {
        match cur(toks, i + 1) {
            TokenV::Ident(s) => dotted_rest(toks, i + 2, acc + "."@ + s),
            t => Err(BvcErrorV::ExpectedIdentAfterDot(t)),
        }
    } else {
        Ok((acc, i))
    }
}

/// A reference to a used module: `NAME ("." NAME)*`.
pub open spec fn using_ref(toks: Seq<TokenV>, i: int) -> PResult<Seq<char>> {
    match cur(toks, i) {
        TokenV::Ident(s) => dotted_rest(toks, i + 1, s),
        t => Err(BvcErrorV::ExpectedUsingRef(t)),
    }
}

/// `using NAME ("." NAME)* ;`
pub open spec fn using_decl(toks: Seq<TokenV>, i: int) -> PResult<Seq<char>> {
    match expect_tok(toks, i, TokenV::Using) {
        Err(e) => Err(e),
        Ok(j) => match cur(toks, j) {
            TokenV::Ident(s) => match dotted_rest(toks, j + 1, s) {
                Err(e) => Err(e),
                Ok((name, k)) => match expect_tok(toks, k, TokenV::Semicolon) {
                    Err(e) => Err(e),
                    Ok(m) => Ok((name, m)),
                },
            },
            t => Err(BvcErrorV::ExpectedIdentAfterUsing(t)),
        },
    }
}

/// `NAME ("," NAME)*`, continuing the list `acc`.
pub open spec fn tiles_from(toks: Seq<TokenV>, i: int, acc: Seq<Seq<char>>) -> PResult<Seq<Seq<char>>>
    decreases toks.len() - i,
{
    match cur(toks, i) {
        TokenV::Ident(s) => if cur(toks, i + 1) == TokenV::Comma {
            tiles_from(toks, i + 2, acc.push(s))
        } else {
            Ok((acc.push(s), i + 1))
        },
        t => Err(BvcErrorV::ExpectedTile(t)),
    }
}

/// An optional `WORD NAME`; the word alone yields nothing but is consumed.
pub open spec fn opt_word(toks: Seq<TokenV>, i: int, w: Seq<char>) -> (Option<Seq<char>>, int) {
    match cur(toks, i) {
        TokenV::Ident(s) => if s == w {
            match cur(toks, i + 1) {
                TokenV::Ident(x) => (Some(x), i + 2),
                _ => (None, i + 1),
            }
        } else {
            (None, i)
        },
        _ => (None, i),
    }
}

pub open spec fn target_stmt(toks: Seq<TokenV>, i: int) -> PResult<ControlStmtV> {
    match expect_tok(toks, i, TokenV::Target) {
        Err(e) => Err(e),
        Ok(j) => match tiles_from(toks, j, seq![]) {
            Err(e) => Err(e),
            Ok((tiles, k)) => match expect_tok(toks, k, TokenV::Semicolon) {
                Err(e) => Err(e),
                Ok(m) => Ok((ControlStmtV::Target(tiles), m)),
            },
        },
    }
}

pub open spec fn partition_stmt(toks: Seq<TokenV>, i: int) -> PResult<ControlStmtV> {
    match expect_tok(toks, i, TokenV::Partition) {
        Err(e) => Err(e),
        Ok(j) => match using_ref(toks, j) {
            Err(e) => Err(e),
            Ok((r, k)) => match expect_tok(toks, k, TokenV::Ident("across"@)) {
                Err(e) => Err(e),
                Ok(l) => match cur(toks, l) {
                    TokenV::Ident(tile) => {
                        let (slot, m) = opt_word(toks, l + 1, "as"@);
                        match expect_tok(toks, m, TokenV::Semicolon) {
                            Err(e) => Err(e),
                            Ok(n) => Ok((ControlStmtV::Partition { using_ref: r, tile_ref: tile, slot_id: slot }, n)),
                        }
                    },
                    t => Err(BvcErrorV::ExpectedTile(t)),
                },
            },
        },
    }
}

/// `from NAME to NAME over NAME` or `over NAME`.
pub open spec fn route_body(toks: Seq<TokenV>, i: int) -> PResult<(Option<Seq<char>>, Option<Seq<char>>, Seq<char>)> {
    match cur(toks, i) {
        TokenV::Ident(s) => if s == "from"@ {
            match cur(toks, i + 1) {
                TokenV::Ident(from) => match expect_tok(toks, i + 2, TokenV::Ident("to"@)) {
                    Err(e) => Err(e),
                    Ok(j) => match cur(toks, j) {
                        TokenV::Ident(to) => match expect_tok(toks, j + 1, TokenV::Ident("over"@)) {
                            Err(e) => Err(e),
                            Ok(k) => match cur(toks, k) {
                                TokenV::Ident(port) => Ok(((Some(from), Some(to), port), k + 1)),
                                t => Err(BvcErrorV::ExpectedPort(t)),
                            },
                        },
                        t => Err(BvcErrorV::ExpectedTile(t)),
                    },
                },
                t => Err(BvcErrorV::ExpectedTile(t)),
            }
        } else if s == "over"@ {
            match cur(toks, i + 1) {
                TokenV::Ident(port) => Ok(((None, None, port), i + 2)),
                t => Err(BvcErrorV::ExpectedPort(t)),
            }
        } else {
            Err(BvcErrorV::ExpectedRouteBody)
        },
        _ => Err(BvcErrorV::ExpectedRouteBody),
    }
}

pub open spec fn route_stmt(toks: Seq<TokenV>, i: int) -> PResult<ControlStmtV> {
    match expect_tok(toks, i, TokenV::Route) {
        Err(e) => Err(e),
        Ok(j) => match cur(toks, j) {
            TokenV::Ident(name) => match route_body(toks, j + 1) {
                Err(e) => Err(e),
                Ok(((from, to, port), k)) => match expect_tok(toks, k, TokenV::Semicolon) {
                    Err(e) => Err(e),
                    Ok(m) => Ok((ControlStmtV::Route { route_name: name, from_tile: from, to_tile: to, port_ref: port }, m)),
                },
            },
            t => Err(BvcErrorV::ExpectedRouteName(t)),
        },
    }
}

pub open spec fn mount_stmt(toks: Seq<TokenV>, i: int) -> PResult<ControlStmtV> {
    match expect_tok(toks, i, TokenV::Mount) {
        Err(e) => Err(e),
        Ok(j) => match using_ref(toks, j) {
            Err(e) => Err(e),
            Ok((r, k)) => match expect_tok(toks, k, TokenV::Ident("to"@)) {
                Err(e) => Err(e),
                Ok(l) => match cur(toks, l) {
                    TokenV::Ident(tile) => {
                        let (slot, m) = opt_word(toks, l + 1, "as"@);
                        match expect_tok(toks, m, TokenV::Semicolon) {
                            Err(e) => Err(e),
                            Ok(n) => Ok((ControlStmtV::Mount { using_ref: r, tile_ref: tile, slot_id: slot }, n)),
                        }
                    },
                    t => Err(BvcErrorV::ExpectedTile(t)),
                },
            },
        },
    }
}

pub open spec fn unmount_stmt(toks: Seq<TokenV>, i: int) -> PResult<ControlStmtV> {
    match expect_tok(toks, i, TokenV::Unmount) {
        Err(e) => Err(e),
        Ok(j) => match using_ref(toks, j) {
            Err(e) => Err(e),
            Ok((r, k)) => {
                let (tile, l) = opt_word(toks, k, "from"@);
                match expect_tok(toks, l, TokenV::Semicolon) {
                    Err(e) => Err(e),
                    Ok(m) => Ok((ControlStmtV::Unmount { using_ref: r, tile_ref: tile }, m)),
                }
            },
        },
    }
}

pub open spec fn fence_stmt(toks: Seq<TokenV>, i: int) -> PResult<ControlStmtV> {
    match expect_tok(toks, i, TokenV::Fence) {
        Err(e) => Err(e),
        Ok(j) => match cur(toks, j) {
            TokenV::Ident(slot) => {
                let action = match cur(toks, j + 1) {
                    TokenV::Enable => Ok(FenceAction::Enable),
                    TokenV::Disable => Ok(FenceAction::Disable),
                    t => Err(BvcErrorV::ExpectedFenceAction(t)),
                };
                match action {
                    Err(e) => Err(e),
                    Ok(a) => match expect_tok(toks, j + 2, TokenV::Semicolon) {
                        Err(e) => Err(e),
                        Ok(m) => Ok((ControlStmtV::Fence { slot_id: slot, action: a }, m)),
                    },
                }
            },
            t => Err(BvcErrorV::ExpectedSlot(t)),
        },
    }
}

/// The unit a timeout is written in.
pub open spec fn timeout_unit(t: TokenV) -> Option<TimeoutUnit> {
    match t {
        TokenV::Ident(s) => if s == "ms"@ {
            Some(TimeoutUnit::Ms)
        } else if s == "s"@ {
            Some(TimeoutUnit::Sec)
        } else if s == "min"@ {
            Some(TimeoutUnit::Min)
        } else {
            None
        },
        _ => None,
    }
}

pub open spec fn timeout_stmt(toks: Seq<TokenV>, i: int) -> PResult<ControlStmtV> {
    match expect_tok(toks, i, TokenV::Timeout) {
        Err(e) => Err(e),
        Ok(j) => match timeout_unit(cur(toks, j)) {
            None => Err(BvcErrorV::ExpectedTimeoutUnit(cur(toks, j))),
            Some(unit) => match expect_tok(toks, j + 1, TokenV::Equals) {
                Err(e) => Err(e),
                Ok(k) => match cur(toks, k) {
                    TokenV::Integer(n) => match expect_tok(toks, k + 1, TokenV::Semicolon) {
                        Err(e) => Err(e),
                        Ok(m) => Ok((ControlStmtV::Timeout { value: n, unit }, m)),
                    },
                    t => Err(BvcErrorV::ExpectedInteger(t)),
                },
            },
        },
    }
}

/// A timeout is read in the unit its word names, whatever the value: at
/// any position, `timeout ms = n;` gives `n` milliseconds, `timeout s = n;`
/// `n` seconds and `timeout min = n;` `n` minutes, and a timeout read in one
/// of these units was written with that unit's word.
pub proof fn law_timeout_units(toks: Seq<TokenV>, i: int, w: Seq<char>, n: u64)
    requires
        0 <= i,
        i + 5 <= toks.len(),
        toks[i] == TokenV::Timeout,
        toks[i + 1] == TokenV::Ident(w),
        toks[i + 2] == TokenV::Equals,
        toks[i + 3] == TokenV::Integer(n),
        toks[i + 4] == TokenV::Semicolon,
    ensures
        w == "ms"@ ==> timeout_stmt(toks, i) == Ok::<(ControlStmtV, int), BvcErrorV>((ControlStmtV::Timeout { value: n, unit: TimeoutUnit::Ms }, i + 5)),
        w == "s"@ ==> timeout_stmt(toks, i) == Ok::<(ControlStmtV, int), BvcErrorV>((ControlStmtV::Timeout { value: n, unit: TimeoutUnit::Sec }, i + 5)),
        w == "min"@ ==> timeout_stmt(toks, i) == Ok::<(ControlStmtV, int), BvcErrorV>((ControlStmtV::Timeout { value: n, unit: TimeoutUnit::Min }, i + 5)),
        timeout_stmt(toks, i) matches Ok((ControlStmtV::Timeout { unit: TimeoutUnit::Ms, .. }, _)) ==> w == "ms"@,
        timeout_stmt(toks, i) matches Ok((ControlStmtV::Timeout { unit: TimeoutUnit::Sec, .. }, _)) ==> w == "s"@,
        timeout_stmt(toks, i) matches Ok((ControlStmtV::Timeout { unit: TimeoutUnit::Min, .. }, _)) ==> w == "min"@,
{
    reveal_strlit("ms");
    reveal_strlit("s");
    reveal_strlit("min");
    assert("s"@.len() == 1 && "ms"@.len() == 2 && "min"@.len() == 3);
    assert("s"@ != "ms"@);
    assert("s"@ != "min"@);
    assert("ms"@ != "min"@);
}

/// The keywords that start a statement.
pub open spec fn starts_stmt(t: TokenV) -> bool {
    t is Target || t is Partition || t is Route || t is Mount || t is Unmount || t is Fence || t is Timeout
}

/// The statement that starts at `i`.
pub open spec fn stmt_at(toks: Seq<TokenV>, i: int) -> PResult<ControlStmtV> {
    match cur(toks, i) {
        TokenV::Target => target_stmt(toks, i),
        TokenV::Partition => partition_stmt(toks, i),
        TokenV::Route => route_stmt(toks, i),
        TokenV::Mount => mount_stmt(toks, i),
        TokenV::Unmount => unmount_stmt(toks, i),
        TokenV::Fence => fence_stmt(toks, i),
        _ => timeout_stmt(toks, i),
    }
}

pub proof fn lemma_expect(toks: Seq<TokenV>, i: int, t: TokenV)
    requires
        t !is Eof,
    ensures
        expect_tok(toks, i, t) matches Ok(j) ==> j == i + 1 && 0 <= i < toks.len(),
{
}

pub proof fn lemma_dotted(toks: Seq<TokenV>, i: int, acc: Seq<char>)
    ensures
        dotted_rest(toks, i, acc) matches Ok((_, j)) ==> j >= i,
    decreases toks.len() - i,
{
    if cur(toks, i) == TokenV::Dot {
        if let TokenV::Ident(s) = cur(toks, i + 1) {
            lemma_dotted(toks, i + 2, acc + "."@ + s);
        }
    }
}

pub proof fn lemma_tiles(toks: Seq<TokenV>, i: int, acc: Seq<Seq<char>>)
    ensures
        tiles_from(toks, i, acc) matches Ok((_, j)) ==> j > i,
    decreases toks.len() - i,
{
    if let TokenV::Ident(s) = cur(toks, i) {
        if cur(toks, i + 1) == TokenV::Comma {
            lemma_tiles(toks, i + 2, acc.push(s));
        }
    }
}

pub proof fn lemma_stmt_at(toks: Seq<TokenV>, i: int)
    ensures
        stmt_at(toks, i) matches Ok((_, j)) ==> i < j <= toks.len(),
{
    lemma_tiles(toks, i + 1, seq![]);
    lemma_dotted(toks, i + 2, seq![]);
    if let TokenV::Ident(s) = cur(toks, i + 1) {
        lemma_dotted(toks, i + 2, s);
    }
    if let Ok((_, k)) = using_ref(toks, i + 1) {
        lemma_expect(toks, k, TokenV::Ident("across"@));
        lemma_expect(toks, k, TokenV::Ident("to"@));
    }
    reveal_with_fuel(tiles_from, 1);
}

/// The statements of a control block up to its closing brace, continuing `acc`.
pub open spec fn stmts_from(toks: Seq<TokenV>, i: int, acc: Seq<ControlStmtV>) -> PResult<Seq<ControlStmtV>>
    decreases toks.len() - i,
{
    let t = cur(toks, i);
    if starts_stmt(t) {
        proof {
            lemma_stmt_at(toks, i);
        }
        match stmt_at(toks, i) {
            Err(e) => Err(e),
            Ok((s, j)) => stmts_from(toks, j, acc.push(s)),
        }
    } else if t is RBrace {
        Ok((acc, i + 1))
    } else if t is Eof {
        Err(BvcErrorV::UnexpectedEofInControl)
    } else {
        Err(BvcErrorV::UnexpectedInControl(t))
    }
}

/// `control NAME { stmt* }`
pub open spec fn control_block(toks: Seq<TokenV>, i: int) -> PResult<ControlBlockV> {
    match expect_tok(toks, i, TokenV::Control) {
        Err(e) => Err(e),
        Ok(j) => match cur(toks, j) {
            TokenV::Ident(name) => match expect_tok(toks, j + 1, TokenV::LBrace) {
                Err(e) => Err(e),
                Ok(k) => match stmts_from(toks, k, seq![]) {
                    Err(e) => Err(e),
                    Ok((stmts, m)) => Ok((ControlBlockV { name, stmts }, m)),
                },
            },
            t => Err(BvcErrorV::ExpectedControlName(t)),
        },
    }
}

pub proof fn lemma_stmts(toks: Seq<TokenV>, i: int, acc: Seq<ControlStmtV>)
    ensures
        stmts_from(toks, i, acc) matches Ok((_, j)) ==> i < j <= toks.len(),
    decreases toks.len() - i,
{
    if starts_stmt(cur(toks, i)) {
        lemma_stmt_at(toks, i);
        if let Ok((s, j)) = stmt_at(toks, i) {
            lemma_stmts(toks, j, acc.push(s));
        }
    }
}

pub proof fn lemma_top(toks: Seq<TokenV>, i: int)
    ensures
        cur(toks, i) is Using ==> (using_decl(toks, i) matches Ok((_, j)) ==> i < j <= toks.len()),
        cur(toks, i) is Control ==> (control_block(toks, i) matches Ok((_, j)) ==> i < j <= toks.len()),
{
    if let TokenV::Ident(s) = cur(toks, i + 1) {
        lemma_dotted(toks, i + 2, s);
        if let Ok((_, k)) = dotted_rest(toks, i + 2, s) {
            lemma_expect(toks, k, TokenV::Semicolon);
        }
    }
    lemma_stmts(toks, i + 3, seq![]);
}

/// The `using` declarations and control blocks from `i` to `Eof`.
pub open spec fn program_from(toks: Seq<TokenV>, i: int, usings: Seq<Seq<char>>, blocks: Seq<ControlBlockV>) -> Result<BvcProgramV, BvcErrorV>
    decreases toks.len() - i,
{
    let t = cur(toks, i);
    if t is Using {
        proof {
            lemma_top(toks, i);
        }
        match using_decl(toks, i) {
            Err(e) => Err(e),
            Ok((u, j)) => program_from(toks, j, usings.push(u), blocks),
        }
    } else if t is Control {
        proof {
            lemma_top(toks, i);
        }
        match control_block(toks, i) {
            Err(e) => Err(e),
            Ok((b, j)) => program_from(toks, j, usings, blocks.push(b)),
        }
    } else if t is Eof {
        Ok(BvcProgramV { using_decls: usings, control_blocks: blocks })
    } else {
        Err(BvcErrorV::UnexpectedTopLevel(t))
    }
}

/// The program a token sequence spells.
pub open spec fn parse_tokens(toks: Seq<TokenV>) -> Result<BvcProgramV, BvcErrorV> {
    program_from(toks, 0, seq![], seq![])
}

/// The program a source text spells.
pub open spec fn parse_spec(s: Seq<char>) -> Result<BvcProgramV, BvcErrorV> {
    match tokenize(s) {
        Ok(ts) => parse_tokens(ts),
        Err(e) => Err(e),
    }
}


// ---------------------------------------------------------------------------
// The parser

/// Token sequences the parser works on: short enough that every position
/// it forms fits in a `usize`.
pub open spec fn parsable(toks: Seq<Token>) -> bool {
    toks.len() <= usize::MAX / 2
}

fn cur_tok(toks: &Vec<Token>, i: usize) -> (t: Token)
    ensures
        t@ == cur(token_views(toks@), i as int),
        !(t@ is Eof) ==> i < toks@.len(),
{
    if i < toks.len() {
        toks[i].copy()
    } else {
        Token::Eof
    }
}

fn is_word(s: &String, w: &str) -> (b: bool)
    ensures
        b == (s@ == w@),
{
    let v = chars_of(s.as_str());
    eq_str(v.as_slice(), w)
}

/// Two tokens are the same.
fn tok_eq(a: &Token, b: &Token) -> (r: bool)
    ensures
        r == (a@ == b@),
{
    match (a, b) {
        (Token::Ident(x), Token::Ident(y)) => {
            let xv = chars_of(x.as_str());
            let yv = chars_of(y.as_str());
            crate::text::chars_eq(xv.as_slice(), yv.as_slice())
        }
        (Token::String(x), Token::String(y)) => {
            let xv = chars_of(x.as_str());
            let yv = chars_of(y.as_str());
            crate::text::chars_eq(xv.as_slice(), yv.as_slice())
        }
        (Token::Integer(x), Token::Integer(y)) => *x == *y,
        (Token::Using, Token::Using) => true,
        (Token::Control, Token::Control) => true,
        (Token::Target, Token::Target) => true,
        (Token::Partition, Token::Partition) => true,
        (Token::Route, Token::Route) => true,
        (Token::Mount, Token::Mount) => true,
        (Token::Unmount, Token::Unmount) => true,
        (Token::Fence, Token::Fence) => true,
        (Token::Timeout, Token::Timeout) => true,
        (Token::Enable, Token::Enable) => true,
        (Token::Disable, Token::Disable) => true,
        (Token::Dot, Token::Dot) => true,
        (Token::Colon, Token::Colon) => true,
        (Token::ColonColon, Token::ColonColon) => true,
        (Token::LBrace, Token::LBrace) => true,
        (Token::RBrace, Token::RBrace) => true,
        (Token::LParen, Token::LParen) => true,
        (Token::RParen, Token::RParen) => true,
        (Token::Comma, Token::Comma) => true,
        (Token::Arrow, Token::Arrow) => true,
        (Token::Equals, Token::Equals) => true,
        (Token::Semicolon, Token::Semicolon) => true,
        (Token::Eof, Token::Eof) => true,
        _ => false,
    }
}

fn expect_exec(toks: &Vec<Token>, i: usize, t: Token) -> (r: Result<usize, BvcError>)
    requires
        !(t@ is Eof),
        parsable(toks@),
    ensures
        match expect_tok(token_views(toks@), i as int, t@) {
            Ok(j) => r == Ok::<usize, BvcError>(j as usize) && j <= toks@.len(),
            Err(e) => r matches Err(err) && err@ == e,
        },
{
    let c = cur_tok(toks, i);
    if tok_eq(&c, &t) {
        Ok(i + 1)
    } else {
        Err(BvcError::Expected { expected: t, got: c })
    }
}

fn dotted_exec(toks: &Vec<Token>, i: usize, acc: String) -> (r: Result<(String, usize), BvcError>)
    requires
        parsable(toks@),
        i <= toks@.len(),
    ensures
        match dotted_rest(token_views(toks@), i as int, acc@) {
            Ok((v, j)) => r matches Ok((x, k)) && x@ == v && k == j && k <= toks@.len(),
            Err(e) => r matches Err(err) && err@ == e,
        },
    decreases toks@.len() - i,
{
    let c = cur_tok(toks, i);
    if let Token::Dot = c {
        let n = cur_tok(toks, i + 1);
        match n {
            Token::Ident(s) => {
                let ghost a0 = acc@;
                let mut acc = acc;
                push_char(&mut acc, '.');
                acc.append(s.as_str());
                proof {
                    reveal_strlit(".");
                    assert(acc@ =~= a0 + "."@ + s@);
                }
                dotted_exec(toks, i + 2, acc)
            }
            t => Err(BvcError::ExpectedIdentAfterDot(t)),
        }
    } else {
        Ok((acc, i))
    }
}

fn using_ref_exec(toks: &Vec<Token>, i: usize) -> (r: Result<(String, usize), BvcError>)
    requires
        parsable(toks@),
        i <= toks@.len(),
    ensures
        match using_ref(token_views(toks@), i as int) {
            Ok((v, j)) => r matches Ok((x, k)) && x@ == v && k == j && k <= toks@.len(),
            Err(e) => r matches Err(err) && err@ == e,
        },
{
    match cur_tok(toks, i) {
        Token::Ident(s) => dotted_exec(toks, i + 1, s),
        t => Err(BvcError::ExpectedUsingRef(t)),
    }
}

fn using_exec(toks: &Vec<Token>, i: usize) -> (r: Result<(String, usize), BvcError>)
    requires
        parsable(toks@),
        i <= toks@.len(),
    ensures
        match using_decl(token_views(toks@), i as int) {
            Ok((v, j)) => r matches Ok((x, k)) && x@ == v && k == j && k <= toks@.len(),
            Err(e) => r matches Err(err) && err@ == e,
        },
{
    let j = expect_exec(toks, i, Token::Using)?;
    match cur_tok(toks, j) {
        Token::Ident(s) => {
            let (name, k) = dotted_exec(toks, j + 1, s)?;
            let m = expect_exec(toks, k, Token::Semicolon)?;
            Ok((name, m))
        }
        t => Err(BvcError::ExpectedIdentAfterUsing(t)),
    }
}

fn tiles_exec(toks: &Vec<Token>, i: usize, acc: Vec<String>) -> (r: Result<(Vec<String>, usize), BvcError>)
    requires
        parsable(toks@),
        i <= toks@.len(),
    ensures
        match tiles_from(token_views(toks@), i as int, string_views(acc@)) {
            Ok((v, j)) => r matches Ok((x, k)) && string_views(x@) == v && k == j && k <= toks@.len(),
            Err(e) => r matches Err(err) && err@ == e,
        },
    decreases toks@.len() - i,
{
    match cur_tok(toks, i) {
        Token::Ident(s) => {
            let mut acc = acc;
            let ghost before = acc@;
            let ghost sv = s@;
            acc.push(s);
            assert(string_views(acc@) =~= string_views(before).push(sv));
            if let Token::Comma = cur_tok(toks, i + 1) {
                tiles_exec(toks, i + 2, acc)
            } else {
                Ok((acc, i + 1))
            }
        }
        t => Err(BvcError::ExpectedTile(t)),
    }
}

fn opt_word_exec(toks: &Vec<Token>, i: usize, w: &str) -> (r: (Option<String>, usize))
    requires
        parsable(toks@),
        i <= toks@.len(),
    ensures
        opt_chars(r.0) == opt_word(token_views(toks@), i as int, w@).0,
        r.1 == opt_word(token_views(toks@), i as int, w@).1,
        r.1 <= toks@.len(),
{
    match cur_tok(toks, i) {
        Token::Ident(s) => {
            if is_word(&s, w) {
                match cur_tok(toks, i + 1) {
                    Token::Ident(x) => (Some(x), i + 2),
                    _ => (None, i + 1),
                }
            } else {
                (None, i)
            }
        }
        _ => (None, i),
    }
}

fn ident_tok(w: &str) -> (t: Token)
    ensures
        t@ == TokenV::Ident(w@),
{
    Token::Ident(owned(w))
}

fn target_exec(toks: &Vec<Token>, i: usize) -> (r: Result<(ControlStmt, usize), BvcError>)
    requires
        parsable(toks@),
        i <= toks@.len(),
    ensures
        match target_stmt(token_views(toks@), i as int) {
            Ok((v, j)) => r matches Ok((x, k)) && x@ == v && k == j && k <= toks@.len(),
            Err(e) => r matches Err(err) && err@ == e,
        },
{
    let j = expect_exec(toks, i, Token::Target)?;
    let empty: Vec<String> = Vec::new();
    assert(string_views(empty@) =~= Seq::<Seq<char>>::empty());
    let (tiles, k) = tiles_exec(toks, j, empty)?;
    let m = expect_exec(toks, k, Token::Semicolon)?;
    Ok((ControlStmt::Target(tiles), m))
}

fn partition_exec(toks: &Vec<Token>, i: usize) -> (r: Result<(ControlStmt, usize), BvcError>)
    requires
        parsable(toks@),
        i <= toks@.len(),
    ensures
        match partition_stmt(token_views(toks@), i as int) {
            Ok((v, j)) => r matches Ok((x, k)) && x@ == v && k == j && k <= toks@.len(),
            Err(e) => r matches Err(err) && err@ == e,
        },
{
    let j = expect_exec(toks, i, Token::Partition)?;
    let (using_ref, k) = using_ref_exec(toks, j)?;
    let l = expect_exec(toks, k, ident_tok("across"))?;
    match cur_tok(toks, l) {
        Token::Ident(tile_ref) => {
            let (slot_id, m) = opt_word_exec(toks, l + 1, "as");
            let n = expect_exec(toks, m, Token::Semicolon)?;
            Ok((ControlStmt::Partition(PartitionStmt { using_ref, tile_ref, slot_id }), n))
        }
        t => Err(BvcError::ExpectedTile(t)),
    }
}

fn route_body_exec(toks: &Vec<Token>, i: usize) -> (r: Result<((Option<String>, Option<String>, String), usize), BvcError>)
    requires
        parsable(toks@),
        i <= toks@.len(),
    ensures
        match route_body(token_views(toks@), i as int) {
            Ok(((f, t, p), j)) => r matches Ok(((x, y, z), k)) && opt_chars(x) == f && opt_chars(y) == t && z@ == p
                && k == j && k <= toks@.len(),
            Err(e) => r matches Err(err) && err@ == e,
        },
{
    match cur_tok(toks, i) {
        Token::Ident(s) => {
            if is_word(&s, "from") {
                match cur_tok(toks, i + 1) {
                    Token::Ident(from) => {
                        let j = expect_exec(toks, i + 2, ident_tok("to"))?;
                        match cur_tok(toks, j) {
                            Token::Ident(to) => {
                                let k = expect_exec(toks, j + 1, ident_tok("over"))?;
                                match cur_tok(toks, k) {
                                    Token::Ident(port) => Ok(((Some(from), Some(to), port), k + 1)),
                                    t => Err(BvcError::ExpectedPort(t)),
                                }
                            }
                            t => Err(BvcError::ExpectedTile(t)),
                        }
                    }
                    t => Err(BvcError::ExpectedTile(t)),
                }
            } else if is_word(&s, "over") {
                match cur_tok(toks, i + 1) {
                    Token::Ident(port) => Ok(((None, None, port), i + 2)),
                    t => Err(BvcError::ExpectedPort(t)),
                }
            } else {
                Err(BvcError::ExpectedRouteBody)
            }
        }
        _ => Err(BvcError::ExpectedRouteBody),
    }
}

fn route_exec(toks: &Vec<Token>, i: usize) -> (r: Result<(ControlStmt, usize), BvcError>)
    requires
        parsable(toks@),
        i <= toks@.len(),
    ensures
        match route_stmt(token_views(toks@), i as int) {
            Ok((v, j)) => r matches Ok((x, k)) && x@ == v && k == j && k <= toks@.len(),
            Err(e) => r matches Err(err) && err@ == e,
        },
{
    let j = expect_exec(toks, i, Token::Route)?;
    match cur_tok(toks, j) {
        Token::Ident(route_name) => {
            let ((from_tile, to_tile, port_ref), k) = route_body_exec(toks, j + 1)?;
            let m = expect_exec(toks, k, Token::Semicolon)?;
            Ok((ControlStmt::Route(RouteStmt { route_name, from_tile, to_tile, port_ref }), m))
        }
        t => Err(BvcError::ExpectedRouteName(t)),
    }
}

fn mount_exec(toks: &Vec<Token>, i: usize) -> (r: Result<(ControlStmt, usize), BvcError>)
    requires
        parsable(toks@),
        i <= toks@.len(),
    ensures
        match mount_stmt(token_views(toks@), i as int) {
            Ok((v, j)) => r matches Ok((x, k)) && x@ == v && k == j && k <= toks@.len(),
            Err(e) => r matches Err(err) && err@ == e,
        },
{
    let j = expect_exec(toks, i, Token::Mount)?;
    let (using_ref, k) = using_ref_exec(toks, j)?;
    let l = expect_exec(toks, k, ident_tok("to"))?;
    match cur_tok(toks, l) {
        Token::Ident(tile_ref) => {
            let (slot_id, m) = opt_word_exec(toks, l + 1, "as");
            let n = expect_exec(toks, m, Token::Semicolon)?;
            Ok((ControlStmt::Mount(MountStmt { using_ref, tile_ref, slot_id }), n))
        }
        t => Err(BvcError::ExpectedTile(t)),
    }
}

fn unmount_exec(toks: &Vec<Token>, i: usize) -> (r: Result<(ControlStmt, usize), BvcError>)
    requires
        parsable(toks@),
        i <= toks@.len(),
    ensures
        match unmount_stmt(token_views(toks@), i as int) {
            Ok((v, j)) => r matches Ok((x, k)) && x@ == v && k == j && k <= toks@.len(),
            Err(e) => r matches Err(err) && err@ == e,
        },
{
    let j = expect_exec(toks, i, Token::Unmount)?;
    let (using_ref, k) = using_ref_exec(toks, j)?;
    let (tile_ref, l) = opt_word_exec(toks, k, "from");
    let m = expect_exec(toks, l, Token::Semicolon)?;
    Ok((ControlStmt::Unmount(UnmountStmt { using_ref, tile_ref }), m))
}

fn fence_exec(toks: &Vec<Token>, i: usize) -> (r: Result<(ControlStmt, usize), BvcError>)
    requires
        parsable(toks@),
        i <= toks@.len(),
    ensures
        match fence_stmt(token_views(toks@), i as int) {
            Ok((v, j)) => r matches Ok((x, k)) && x@ == v && k == j && k <= toks@.len(),
            Err(e) => r matches Err(err) && err@ == e,
        },
{
    let j = expect_exec(toks, i, Token::Fence)?;
    match cur_tok(toks, j) {
        Token::Ident(slot_id) => {
            let action = match cur_tok(toks, j + 1) {
                Token::Enable => FenceAction::Enable,
                Token::Disable => FenceAction::Disable,
                t => return Err(BvcError::ExpectedFenceAction(t)),
            };
            let m = expect_exec(toks, j + 2, Token::Semicolon)?;
            Ok((ControlStmt::Fence(FenceStmt { slot_id, action }), m))
        }
        t => Err(BvcError::ExpectedSlot(t)),
    }
}

fn timeout_exec(toks: &Vec<Token>, i: usize) -> (r: Result<(ControlStmt, usize), BvcError>)
    requires
        parsable(toks@),
        i <= toks@.len(),
    ensures
        match timeout_stmt(token_views(toks@), i as int) {
            Ok((v, j)) => r matches Ok((x, k)) && x@ == v && k == j && k <= toks@.len(),
            Err(e) => r matches Err(err) && err@ == e,
        },
{
    let j = expect_exec(toks, i, Token::Timeout)?;
    let u = cur_tok(toks, j);
    let unit = match &u {
        Token::Ident(s) => {
            if is_word(s, "ms") {
                TimeoutUnit::Ms
            } else if is_word(s, "s") {
                TimeoutUnit::Sec
            } else if is_word(s, "min") {
                TimeoutUnit::Min
            } else {
                return Err(BvcError::ExpectedTimeoutUnit(u));
            }
        }
        _ => return Err(BvcError::ExpectedTimeoutUnit(u)),
    };
    let k = expect_exec(toks, j + 1, Token::Equals)?;
    match cur_tok(toks, k) {
        Token::Integer(value) => {
            let m = expect_exec(toks, k + 1, Token::Semicolon)?;
            Ok((ControlStmt::Timeout(TimeoutStmt { value, unit }), m))
        }
        t => Err(BvcError::ExpectedInteger(t)),
    }
}

fn stmts_exec(toks: &Vec<Token>, i: usize, acc: Vec<ControlStmt>) -> (r: Result<(Vec<ControlStmt>, usize), BvcError>)
    requires
        parsable(toks@),
        i <= toks@.len(),
    ensures
        match stmts_from(token_views(toks@), i as int, stmt_views(acc@)) {
            Ok((v, j)) => r matches Ok((x, k)) && stmt_views(x@) == v && k == j && k <= toks@.len(),
            Err(e) => r matches Err(err) && err@ == e,
        },
    decreases toks@.len() - i,
{
    let ghost tv = token_views(toks@);
    let c = cur_tok(toks, i);
    let step = match c {
        Token::Target => target_exec(toks, i),
        Token::Partition => partition_exec(toks, i),
        Token::Route => route_exec(toks, i),
        Token::Mount => mount_exec(toks, i),
        Token::Unmount => unmount_exec(toks, i),
        Token::Fence => fence_exec(toks, i),
        Token::Timeout => timeout_exec(toks, i),
        Token::RBrace => return Ok((acc, i + 1)),
        Token::Eof => return Err(BvcError::UnexpectedEofInControl),
        t => return Err(BvcError::UnexpectedInControl(t)),
    };
    proof { lemma_stmt_at(tv, i as int); }
    match step {
        Err(e) => Err(e),
        Ok((s, j)) => {
            let mut acc = acc;
            let ghost before = acc@;
            let ghost sv = s@;
            acc.push(s);
            assert(stmt_views(acc@) =~= stmt_views(before).push(sv));
            stmts_exec(toks, j, acc)
        }
    }
}

fn control_exec(toks: &Vec<Token>, i: usize) -> (r: Result<(ControlBlock, usize), BvcError>)
    requires
        parsable(toks@),
        i <= toks@.len(),
    ensures
        match control_block(token_views(toks@), i as int) {
            Ok((v, j)) => r matches Ok((x, k)) && x@ == v && k == j && k <= toks@.len(),
            Err(e) => r matches Err(err) && err@ == e,
        },
{
    let j = expect_exec(toks, i, Token::Control)?;
    match cur_tok(toks, j) {
        Token::Ident(name) => {
            let k = expect_exec(toks, j + 1, Token::LBrace)?;
            let empty: Vec<ControlStmt> = Vec::new();
            assert(stmt_views(empty@) =~= Seq::<ControlStmtV>::empty());
            let (stmts, m) = stmts_exec(toks, k, empty)?;
            Ok((ControlBlock { name, stmts }, m))
        }
        t => Err(BvcError::ExpectedControlName(t)),
    }
}

/// Reads a program from its tokens.
pub fn parse_token_seq(toks: &Vec<Token>) -> (r: Result<BvcProgram, BvcError>)
    requires
        parsable(toks@),
    ensures
        match parse_tokens(token_views(toks@)) {
            Ok(p) => r matches Ok(prog) && prog@ == p,
            Err(e) => r matches Err(err) && err@ == e,
        },
{
    let ghost tv = token_views(toks@);
    let mut using_decls: Vec<String> = Vec::new();
    let mut control_blocks: Vec<ControlBlock> = Vec::new();
    let mut i: usize = 0;
    assert(string_views(using_decls@) =~= Seq::<Seq<char>>::empty());
    assert(block_views(control_blocks@) =~= Seq::<ControlBlockV>::empty());
    loop
        invariant
            parsable(toks@),
            tv == token_views(toks@),
            i <= toks@.len(),
            parse_tokens(tv) == program_from(tv, i as int, string_views(using_decls@), block_views(control_blocks@)),
        decreases toks@.len() - i,
    {
        proof { lemma_top(tv, i as int); }
        let c = cur_tok(toks, i);
        match c {
            Token::Using => {
                let (u, j) = using_exec(toks, i)?;
                let ghost before = using_decls@;
                let ghost uv = u@;
                using_decls.push(u);
                assert(string_views(using_decls@) =~= string_views(before).push(uv));
                i = j;
            }
            Token::Control => {
                let (b, j) = control_exec(toks, i)?;
                let ghost before = control_blocks@;
                let ghost bv = b@;
                control_blocks.push(b);
                assert(block_views(control_blocks@) =~= block_views(before).push(bv));
                i = j;
            }
            Token::Eof => {
                return Ok(BvcProgram { using_decls, control_blocks });
            }
            t => {
                return Err(BvcError::UnexpectedTopLevel(t));
            }
        }
    }
}

/// Parses a Brief Control source text.
pub fn parse_bvc(source: &str) -> (r: Result<BvcProgram, BvcError>)
    requires
        source@.len() <= usize::MAX / 4,
    ensures
        match parse_spec(source@) {
            Ok(p) => r matches Ok(prog) && prog@ == p,
            Err(e) => r matches Err(err) && err@ == e,
        },
{
    let chars = chars_of(source);
    proof { lemma_tokens_len(chars@); }
    match tokenize_chars(chars.as_slice()) {
        Ok(tokens) => parse_token_seq(&tokens),
        Err(e) => Err(e),
    }
}

} // verus!
