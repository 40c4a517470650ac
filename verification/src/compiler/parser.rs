//! The Brief parser: recursive descent over the tokens of a source file.
//! Tokens come from the lexer as `SpannedToken`s (a token and its byte
//! range). Each parsing function is stated by a spec function over the token
//! sequence and a position: it gives the parsed value and the position after
//! it, or `None` where the tokens do not parse; the executable function
//! returns exactly that, or an error. What is read here: expressions,
//! types, bit ranges, statements and bodies, contracts, transactions,
//! definitions and constants. The other top-level items are read in
//! `parser_items` and `parser_top`, which also holds the whole-file entry
//! that `Parser::parse` calls.

use vstd::prelude::*;
use crate::text::{owned, concat};
use crate::compiler::errors::{Span, SyntaxError};
use crate::compiler::ast::{
    Expr, ExprV, exprs_view, pairs_view, lemma_exprs_view, lemma_pairs_view, Type, TypeV, types_view, lemma_types_view,
    Statement, BitRange, TimeUnit, Contract, WatchdogSpec, Transaction, deps, name_set, no_dup_names,
    Definition, TypeParam, TypeBound, OutputType, output_types, type_list, Constant,
};
use crate::compiler::analysis::dataflow::{StatementV, stmts_view, stmt_view, opt_view};
use crate::text::is_ascii_digit;
use crate::bvc::lexer::digits_value;
use crate::ffi_lib::native::unicode_uppercase;
use crate::compiler::ast::Program;
use crate::compiler::parser_top::{
    pprogram, items_match, parse_program_at, prstruct, rstruct_matches, parse_rstruct_at, ptop, top_matches,
    parse_top_level_at,
};
use crate::compiler::ast::{RStructDefinition, TopLevel};

verus! {

/// A token of Brief source.
#[derive(Debug, Clone)]
pub enum Token {
    Integer(i64),
    Float(u64),
    String(String),
    Identifier(String),
    BoolTrue,
    BoolFalse,
    Comma,
    Semicolon,
    Colon,
    Dot,
    DotDot,
    LParen,
    RParen,
    LBracket,
    RBracket,
    LBrace,
    RBrace,
    Eq,
    EqEq,
    Ne,
    Lt,
    Le,
    Gt,
    Ge,
    Plus,
    Minus,
    Star,
    Slash,
    Shl,
    Shr,
    Pipe,
    BitXor,
    Ampersand,
    AndAnd,
    OrOr,
    Not,
    Tilde,
    TildeSlash,
    At,
    Arrow,
    Question,
    Escape,
    Let,
    Const,
    Txn,
    Rct,
    Async,
    Trg,
    Defn,
    Sig,
    Struct,
    Rstruct,
    Enum,
    Render,
    Import,
    From,
    As,
    Frgn,
    FrgnBang,
    Syscall,
    SyscallBang,
    Rsrc,
    Resource,
    Term,
    OkKw,
    ErrKw,
    Within,
    On,
    Stage,
    Cycles,
    Cyc,
    Ms,
    Seconds,
    Minute,
    TypeInt,
    TypeFloat,
    TypeString,
    TypeBool,
    TypeVoid,
    TypeData,
    TypeUInt,
    TypeSigned,
    TypeUnsigned,
    TypeSgn,
    TypeUSgn,
    /// Text the lexer could not read as a token.
    Invalid,
}

/// A token with the byte range of the source it was read from.
pub struct SpannedToken {
    pub tok: Token,
    pub start: usize,
    pub end: usize,
}

/// The token at `p`, if there is one.
pub open spec fn tok(ts: Seq<SpannedToken>, p: int) -> Option<Token> {
    if 0 <= p < ts.len() {
        Some(ts[p].tok)
    } else {
        None
    }
}

/// `p` lies past `pos` and within the tokens.
pub open spec fn fits(ts: Seq<SpannedToken>, pos: int, p: int) -> bool {
    pos < p <= ts.len()
}

/// The name a token gives where an identifier is expected: an identifier's
/// own name, or `Data` and `Int` for those type keywords.
pub open spec fn ident_name(t: Option<Token>) -> Option<Seq<char>> {
    match t {
        Some(Token::Identifier(n)) => Some(n@),
        Some(Token::TypeData) => Some("Data"@),
        Some(Token::TypeInt) => Some("Int"@),
        _ => None,
    }
}

/// The name of a type keyword that may stand as a value or a call.
pub open spec fn type_word(t: Option<Token>) -> Option<Seq<char>> {
    match t {
        Some(Token::TypeData) => Some("Data"@),
        Some(Token::TypeInt) => Some("Int"@),
        Some(Token::TypeFloat) => Some("Float"@),
        Some(Token::TypeString) => Some("String"@),
        Some(Token::TypeBool) => Some("Bool"@),
        Some(Token::TypeVoid) => Some("Void"@),
        _ => None,
    }
}

/// The binary operators of each precedence level, loosest first: `||`,
/// `&&`, `|`, `^`, `&`, `==` `!=`, `<` `<=` `>` `>=`, `<<` `>>`, `+` `-`,
/// `*` `/`.
pub open spec fn is_bin_op(level: int, t: Token) -> bool {
    match t {
        Token::OrOr => level == 0,
        Token::AndAnd => level == 1,
        Token::Pipe => level == 2,
        Token::BitXor => level == 3,
        Token::Ampersand => level == 4,
        Token::EqEq | Token::Ne => level == 5,
        Token::Lt | Token::Le | Token::Gt | Token::Ge => level == 6,
        Token::Shl | Token::Shr => level == 7,
        Token::Plus | Token::Minus => level == 8,
        Token::Star | Token::Slash => level == 9,
        _ => false,
    }
}

/// The expression an operator token makes of its two operands.
pub open spec fn bin_expr(t: Token, l: ExprV, r: ExprV) -> ExprV {
    let (a, b) = (Box::new(l), Box::new(r));
    match t {
        Token::OrOr => ExprV::Or(a, b),
        Token::AndAnd => ExprV::And(a, b),
        Token::Pipe => ExprV::BitOr(a, b),
        Token::BitXor => ExprV::BitXor(a, b),
        Token::Ampersand => ExprV::BitAnd(a, b),
        Token::EqEq => ExprV::Eq(a, b),
        Token::Ne => ExprV::Ne(a, b),
        Token::Lt => ExprV::Lt(a, b),
        Token::Le => ExprV::Le(a, b),
        Token::Gt => ExprV::Gt(a, b),
        Token::Ge => ExprV::Ge(a, b),
        Token::Shl => ExprV::Shl(a, b),
        Token::Shr => ExprV::Shr(a, b),
        Token::Plus => ExprV::Add(a, b),
        Token::Minus => ExprV::Sub(a, b),
        Token::Star => ExprV::Mul(a, b),
        _ => ExprV::Div(a, b),
    }
}

/// An expression at precedence `level` (0 to 9) from `pos`: operands of
/// the next level joined from the left by this level's operators; below
/// level 9 come the unary expressions.
pub open spec fn pexpr(ts: Seq<SpannedToken>, pos: int, level: int) -> Option<(ExprV, int)>
    decreases ts.len() - pos, 30 - 2 * level,
{
    if pos < 0 || pos > ts.len() || level < 0 || level > 9 {
        None
    } else {
        let first = if level == 9 { punary(ts, pos) } else { pexpr(ts, pos, level + 1) };
        match first {
            Some((l, p)) => if fits(ts, pos, p) { level_loop(ts, p, level, l) } else { None },
            None => None,
        }
    }
}

/// The rest of an expression at `level` after its left operand `left`.
pub open spec fn level_loop(ts: Seq<SpannedToken>, pos: int, level: int, left: ExprV) -> Option<(ExprV, int)>
    decreases ts.len() - pos, 0int,
{
    if pos < 0 || pos > ts.len() || level < 0 || level > 9 {
        None
    } else {
        match tok(ts, pos) {
            Some(t) => if is_bin_op(level, t) {
                let next = if level == 9 { punary(ts, pos + 1) } else { pexpr(ts, pos + 1, level + 1) };
                match next {
                    Some((r, p)) => if fits(ts, pos, p) { level_loop(ts, p, level, bin_expr(t, left, r)) } else { None },
                    None => None,
                }
            } else {
                Some((left, pos))
            },
            None => Some((left, pos)),
        }
    }
}

/// A single-token operand: an integer literal or a plain name.
pub open spec fn atom(t: Token) -> Option<ExprV> {
    match t {
        Token::Integer(v) => Some(ExprV::Integer(v)),
        Token::Identifier(n) => Some(ExprV::Identifier(n@)),
        _ => None,
    }
}

/// The token after an operand does not continue it and is no operator of
/// a level from `level` up.
pub open spec fn ends_operand(t: Option<Token>, level: int) -> bool {
    match t {
        None => true,
        Some(u) => !(u is LBracket) && !(u is Dot) && !(u is LParen) && !(u is LBrace)
            && forall|k: int| level <= k <= 9 ==> !is_bin_op(k, u),
    }
}

proof fn lemma_atom_unary(ts: Seq<SpannedToken>, p: int)
    requires
        0 <= p < ts.len(),
        atom(ts[p].tok) is Some,
        tok(ts, p + 1) matches Some(u) ==> !(u is LBracket) && !(u is Dot) && !(u is LParen) && !(u is LBrace),
    ensures
        punary(ts, p) == Some((atom(ts[p].tok)->0, p + 1)),
{
    let e = atom(ts[p].tok)->0;
    assert(pprimary(ts, p) == Some((e, p + 1)));
    assert(postfix_loop(ts, p + 1, e) == Some((e, p + 1)));
    assert(ppostfix(ts, p) == Some((e, p + 1)));
}

proof fn lemma_atom_expr(ts: Seq<SpannedToken>, p: int, level: int)
    requires
        0 <= p < ts.len(),
        atom(ts[p].tok) is Some,
        0 <= level <= 9,
        ends_operand(tok(ts, p + 1), level),
    ensures
        pexpr(ts, p, level) == Some((atom(ts[p].tok)->0, p + 1)),
    decreases 9 - level,
{
    let e = atom(ts[p].tok)->0;
    if level == 9 {
        lemma_atom_unary(ts, p);
        assert(level_loop(ts, p + 1, 9, e) == Some((e, p + 1)));
    } else {
        lemma_atom_expr(ts, p, level + 1);
        assert(level_loop(ts, p + 1, level, e) == Some((e, p + 1)));
    }
}

proof fn lemma_lift(ts: Seq<SpannedToken>, p: int, q: int, e: ExprV, low: int, high: int)
    requires
        0 <= low <= high <= 9,
        0 <= p < q <= ts.len(),
        pexpr(ts, p, high) == Some((e, q)),
        tok(ts, q) is None || forall|k: int| low <= k < high ==> !#[trigger] is_bin_op(k, tok(ts, q)->0),
    ensures
        pexpr(ts, p, low) == Some((e, q)),
    decreases high - low,
{
    if low < high {
        lemma_lift(ts, p, q, e, low + 1, high);
        assert(level_loop(ts, q, low, e) == Some((e, q)));
    }
}

/// `+` and `-` bind tighter than `<`, `<=`, `>` and `>=`: for any operands
/// `a`, `b`, `c` (literals or names), `a + b < c` (with any of these
/// operators) parses as the comparison of the sum with `c`, and `a < b + c`
/// as the comparison of `a` with the sum.
pub proof fn law_additive_binds_tighter(ts: Seq<SpannedToken>)
    requires
        ts.len() == 5,
        atom(ts[0].tok) is Some,
        atom(ts[2].tok) is Some,
        atom(ts[4].tok) is Some,
    ensures
        ({
            let (a, b, c) = (atom(ts[0].tok)->0, atom(ts[2].tok)->0, atom(ts[4].tok)->0);
            &&& (ts[1].tok is Plus || ts[1].tok is Minus) && (ts[3].tok is Lt || ts[3].tok is Le || ts[3].tok is Gt || ts[3].tok is Ge)
                ==> pexpr(ts, 0, 0) == Some((bin_expr(ts[3].tok, bin_expr(ts[1].tok, a, b), c), 5int))
            &&& (ts[1].tok is Lt || ts[1].tok is Le || ts[1].tok is Gt || ts[1].tok is Ge) && (ts[3].tok is Plus || ts[3].tok is Minus)
                ==> pexpr(ts, 0, 0) == Some((bin_expr(ts[1].tok, a, bin_expr(ts[3].tok, b, c)), 5int))
            &&& ts[1].tok is Plus && ts[3].tok is Lt ==> pexpr(ts, 0, 0) == Some((
                ExprV::Lt(Box::new(ExprV::Add(Box::new(a), Box::new(b))), Box::new(c)), 5int))
        }),
{
    let (a, b, c) = (atom(ts[0].tok)->0, atom(ts[2].tok)->0, atom(ts[4].tok)->0);
    let (t1, t3) = (ts[1].tok, ts[3].tok);
    if (t1 is Plus || t1 is Minus) && (t3 is Lt || t3 is Le || t3 is Gt || t3 is Ge) {
        lemma_atom_expr(ts, 0, 9);
        lemma_atom_expr(ts, 2, 9);
        lemma_atom_expr(ts, 4, 7);
        let s = bin_expr(t1, a, b);
        assert(level_loop(ts, 3, 8, s) == Some((s, 3int)));
        assert(level_loop(ts, 1, 8, a) == Some((s, 3int)));
        assert(pexpr(ts, 0, 8) == Some((s, 3int)));
        lemma_lift(ts, 0, 3, s, 7, 8);
        let w = bin_expr(t3, s, c);
        assert(level_loop(ts, 5, 6, w) == Some((w, 5int)));
        assert(level_loop(ts, 3, 6, s) == Some((w, 5int)));
        assert(pexpr(ts, 0, 6) == Some((w, 5int)));
        lemma_lift(ts, 0, 5, w, 0, 6);
    }
    if (t1 is Lt || t1 is Le || t1 is Gt || t1 is Ge) && (t3 is Plus || t3 is Minus) {
        lemma_atom_expr(ts, 0, 7);
        lemma_atom_expr(ts, 2, 9);
        lemma_atom_expr(ts, 4, 9);
        let s = bin_expr(t3, b, c);
        assert(level_loop(ts, 5, 8, s) == Some((s, 5int)));
        assert(level_loop(ts, 3, 8, b) == Some((s, 5int)));
        assert(pexpr(ts, 2, 8) == Some((s, 5int)));
        lemma_lift(ts, 2, 5, s, 7, 8);
        let w = bin_expr(t1, a, s);
        assert(level_loop(ts, 5, 6, w) == Some((w, 5int)));
        assert(level_loop(ts, 1, 6, a) == Some((w, 5int)));
        assert(pexpr(ts, 0, 6) == Some((w, 5int)));
        lemma_lift(ts, 0, 5, w, 0, 6);
    }
}

/// `*` and `/` bind tighter than `+` and `-`: for any operands `a`, `b`,
/// `c` (literals or names), `a * b + c` parses as the sum of the product
/// and `c`, and `a + b * c` as the sum of `a` and the product.
pub proof fn law_multiplicative_binds_tighter(ts: Seq<SpannedToken>)
    requires
        ts.len() == 5,
        atom(ts[0].tok) is Some,
        atom(ts[2].tok) is Some,
        atom(ts[4].tok) is Some,
    ensures
        ({
            let (a, b, c) = (atom(ts[0].tok)->0, atom(ts[2].tok)->0, atom(ts[4].tok)->0);
            &&& (ts[1].tok is Star || ts[1].tok is Slash) && (ts[3].tok is Plus || ts[3].tok is Minus)
                ==> pexpr(ts, 0, 0) == Some((bin_expr(ts[3].tok, bin_expr(ts[1].tok, a, b), c), 5int))
            &&& (ts[1].tok is Plus || ts[1].tok is Minus) && (ts[3].tok is Star || ts[3].tok is Slash)
                ==> pexpr(ts, 0, 0) == Some((bin_expr(ts[1].tok, a, bin_expr(ts[3].tok, b, c)), 5int))
            &&& ts[1].tok is Plus && ts[3].tok is Star ==> pexpr(ts, 0, 0) == Some((
                ExprV::Add(Box::new(a), Box::new(ExprV::Mul(Box::new(b), Box::new(c)))), 5int))
        }),
{
    let (a, b, c) = (atom(ts[0].tok)->0, atom(ts[2].tok)->0, atom(ts[4].tok)->0);
    let (t1, t3) = (ts[1].tok, ts[3].tok);
    if (t1 is Star || t1 is Slash) && (t3 is Plus || t3 is Minus) {
        lemma_atom_unary(ts, 0);
        lemma_atom_unary(ts, 2);
        lemma_atom_expr(ts, 4, 9);
        let m = bin_expr(t1, a, b);
        assert(level_loop(ts, 3, 9, m) == Some((m, 3int)));
        assert(level_loop(ts, 1, 9, a) == Some((m, 3int)));
        assert(pexpr(ts, 0, 9) == Some((m, 3int)));
        let w = bin_expr(t3, m, c);
        assert(level_loop(ts, 5, 8, w) == Some((w, 5int)));
        assert(level_loop(ts, 3, 8, m) == Some((w, 5int)));
        assert(pexpr(ts, 0, 8) == Some((w, 5int)));
        lemma_lift(ts, 0, 5, w, 0, 8);
    }
    if (t1 is Plus || t1 is Minus) && (t3 is Star || t3 is Slash) {
        lemma_atom_expr(ts, 0, 9);
        lemma_atom_unary(ts, 2);
        lemma_atom_unary(ts, 4);
        let m = bin_expr(t3, b, c);
        assert(level_loop(ts, 5, 9, m) == Some((m, 5int)));
        assert(level_loop(ts, 3, 9, b) == Some((m, 5int)));
        assert(pexpr(ts, 2, 9) == Some((m, 5int)));
        let w = bin_expr(t1, a, m);
        assert(level_loop(ts, 5, 8, w) == Some((w, 5int)));
        assert(level_loop(ts, 1, 8, a) == Some((w, 5int)));
        assert(pexpr(ts, 0, 8) == Some((w, 5int)));
        lemma_lift(ts, 0, 5, w, 0, 8);
    }
}

/// A unary expression: `!`, `-` or `~` before a unary expression, `&name`
/// or `@name` followed by postfix parts, or a postfix expression.
pub open spec fn punary(ts: Seq<SpannedToken>, pos: int) -> Option<(ExprV, int)>
    decreases ts.len() - pos, 10int,
{
    if pos < 0 || pos > ts.len() {
        None
    } else {
        match tok(ts, pos) {
            Some(Token::Not) => match punary(ts, pos + 1) {
                Some((e, p)) => Some((ExprV::Not(Box::new(e)), p)),
                None => None,
            },
            Some(Token::Minus) => match punary(ts, pos + 1) {
                Some((e, p)) => Some((ExprV::Neg(Box::new(e)), p)),
                None => None,
            },
            Some(Token::Tilde) => match punary(ts, pos + 1) {
                Some((e, p)) => Some((ExprV::BitNot(Box::new(e)), p)),
                None => None,
            },
            Some(Token::Ampersand) => match tok(ts, pos + 1) {
                Some(Token::Identifier(n)) => postfix_loop(ts, pos + 2, ExprV::OwnedRef(n@)),
                _ => None,
            },
            Some(Token::At) => match tok(ts, pos + 1) {
                Some(Token::Identifier(n)) => postfix_loop(ts, pos + 2, ExprV::PriorState(n@)),
                _ => None,
            },
            _ => ppostfix(ts, pos),
        }
    }
}

/// A primary expression followed by postfix parts.
pub open spec fn ppostfix(ts: Seq<SpannedToken>, pos: int) -> Option<(ExprV, int)>
    decreases ts.len() - pos, 9int,
{
    if pos < 0 || pos > ts.len() {
        None
    } else {
        match pprimary(ts, pos) {
            Some((e, p)) => if fits(ts, pos, p) { postfix_loop(ts, p, e) } else { None },
            None => None,
        }
    }
}

/// Postfix parts after `e`: `[index]`, `.name`, and `.name(args)`, which
/// calls `name` on `e` alone (the arguments are read and dropped).
pub open spec fn postfix_loop(ts: Seq<SpannedToken>, pos: int, e: ExprV) -> Option<(ExprV, int)>
    decreases ts.len() - pos, 0int,
{
    if pos < 0 || pos > ts.len() {
        None
    } else {
        match tok(ts, pos) {
            Some(Token::LBracket) => match pexpr(ts, pos + 1, 0) {
                Some((i, p)) => if fits(ts, pos, p) && tok(ts, p) matches Some(Token::RBracket) {
                    postfix_loop(ts, p + 1, ExprV::ListIndex(Box::new(e), Box::new(i)))
                } else {
                    None
                },
                None => None,
            },
            Some(Token::Dot) => match ident_name(tok(ts, pos + 1)) {
                Some(name) => if tok(ts, pos + 2) matches Some(Token::LParen) {
                    match expr_list(ts, pos + 3, true) {
                        Some((_, p)) => if fits(ts, pos, p) && tok(ts, p) matches Some(Token::RParen) {
                            postfix_loop(ts, p + 1, ExprV::Call(name, seq![e]))
                        } else {
                            None
                        },
                        None => None,
                    }
                } else {
                    postfix_loop(ts, pos + 2, ExprV::FieldAccess(Box::new(e), name))
                },
                None => None,
            },
            _ => Some((e, pos)),
        }
    }
}

/// The closing token of a list: `)` for arguments, `]` for list items.
pub open spec fn closes(t: Option<Token>, paren: bool) -> bool {
    if paren {
        t matches Some(Token::RParen)
    } else {
        t matches Some(Token::RBracket)
    }
}

/// A list of expressions separated by commas, or none where the closing
/// token comes first; the closing token is left unread.
pub open spec fn expr_list(ts: Seq<SpannedToken>, pos: int, paren: bool) -> Option<(Seq<ExprV>, int)>
    decreases ts.len() - pos, 41int,
{
    if pos < 0 || pos > ts.len() {
        None
    } else if closes(tok(ts, pos), paren) {
        Some((seq![], pos))
    } else {
        list_items(ts, pos)
    }
}

/// One or more expressions separated by commas.
pub open spec fn list_items(ts: Seq<SpannedToken>, pos: int) -> Option<(Seq<ExprV>, int)>
    decreases ts.len() - pos, 40int,
{
    if pos < 0 || pos > ts.len() {
        None
    } else {
        match pexpr(ts, pos, 0) {
            Some((e, p)) => if fits(ts, pos, p) {
                if tok(ts, p) matches Some(Token::Comma) {
                    match list_items(ts, p + 1) {
                        Some((es, q)) => Some((seq![e] + es, q)),
                        None => None,
                    }
                } else {
                    Some((seq![e], p))
                }
            } else {
                None
            },
            None => None,
        }
    }
}

/// Fields `name: expr` separated by commas, or none where `}` comes first;
/// the `}` is left unread.
pub open spec fn field_list(ts: Seq<SpannedToken>, pos: int) -> Option<(Seq<(Seq<char>, ExprV)>, int)>
    decreases ts.len() - pos, 1int,
{
    if pos < 0 || pos > ts.len() {
        None
    } else if tok(ts, pos) matches Some(Token::RBrace) {
        Some((seq![], pos))
    } else {
        field_items(ts, pos)
    }
}

/// One or more fields `name: expr` separated by commas.
pub open spec fn field_items(ts: Seq<SpannedToken>, pos: int) -> Option<(Seq<(Seq<char>, ExprV)>, int)>
    decreases ts.len() - pos, 0int,
{
    if pos < 0 || pos > ts.len() {
        None
    } else {
        match ident_name(tok(ts, pos)) {
            Some(n) => if tok(ts, pos + 1) matches Some(Token::Colon) {
                match pexpr(ts, pos + 2, 0) {
                    Some((e, p)) => if fits(ts, pos, p) {
                        if tok(ts, p) matches Some(Token::Comma) {
                            match field_items(ts, p + 1) {
                                Some((fs, q)) => Some((seq![(n, e)] + fs, q)),
                                None => None,
                            }
                        } else {
                            Some((seq![(n, e)], p))
                        }
                    } else {
                        None
                    },
                    None => None,
                }
            } else {
                None
            },
            None => None,
        }
    }
}

/// After a name at `pos - 1`: a call `(args)` of it, or the name alone.
pub open spec fn named_call(ts: Seq<SpannedToken>, pos: int, name: Seq<char>) -> Option<(ExprV, int)>
    decreases ts.len() - pos, 7int,
{
    if pos < 0 || pos > ts.len() {
        None
    } else if tok(ts, pos) matches Some(Token::LParen) {
        match expr_list(ts, pos + 1, true) {
            Some((args, p)) => if fits(ts, pos, p) && tok(ts, p) matches Some(Token::RParen) {
                Some((ExprV::Call(name, args), p + 1))
            } else {
                None
            },
            None => None,
        }
    } else {
        Some((ExprV::Identifier(name), pos))
    }
}

/// A primary expression: a literal, a name (a struct instance, a call or
/// the name itself), a type keyword used as a value or a call, an object
/// literal, a parenthesized expression, a list literal, or `~/name`.
pub open spec fn pprimary(ts: Seq<SpannedToken>, pos: int) -> Option<(ExprV, int)>
    decreases ts.len() - pos, 8int,
{
    if pos < 0 || pos > ts.len() {
        None
    } else {
        match tok(ts, pos) {
            Some(Token::Integer(v)) => Some((ExprV::Integer(v), pos + 1)),
            Some(Token::Float(v)) => Some((ExprV::Float(v), pos + 1)),
            Some(Token::String(s)) => Some((ExprV::String(s@), pos + 1)),
            Some(Token::BoolTrue) => Some((ExprV::Bool(true), pos + 1)),
            Some(Token::BoolFalse) => Some((ExprV::Bool(false), pos + 1)),
            Some(Token::Identifier(n)) => if tok(ts, pos + 1) matches Some(Token::LBrace) {
                match field_list(ts, pos + 2) {
                    Some((fs, p)) => if fits(ts, pos, p) && tok(ts, p) matches Some(Token::RBrace) {
                        Some((ExprV::StructInstance(n@, fs), p + 1))
                    } else {
                        None
                    },
                    None => None,
                }
            } else {
                named_call(ts, pos + 1, n@)
            },
            Some(Token::LBrace) => match field_list(ts, pos + 1) {
                Some((fs, p)) => if fits(ts, pos, p) && tok(ts, p) matches Some(Token::RBrace) {
                    Some((ExprV::ObjectLiteral(fs), p + 1))
                } else {
                    None
                },
                None => None,
            },
            Some(Token::LParen) => match pexpr(ts, pos + 1, 0) {
                Some((e, p)) => if fits(ts, pos, p) && tok(ts, p) matches Some(Token::RParen) {
                    Some((e, p + 1))
                } else {
                    None
                },
                None => None,
            },
            Some(Token::LBracket) => match expr_list(ts, pos + 1, false) {
                Some((es, p)) => if fits(ts, pos, p) && tok(ts, p) matches Some(Token::RBracket) {
                    Some((ExprV::ListLiteral(es), p + 1))
                } else {
                    None
                },
                None => None,
            },
            Some(Token::TildeSlash) => match ident_name(tok(ts, pos + 1)) {
                Some(n) => Some((ExprV::String("~/"@ + n), pos + 2)),
                None => None,
            },
            Some(t) => match type_word(Some(t)) {
                Some(w) => named_call(ts, pos + 1, w),
                None => None,
            },
            None => None,
        }
    }
}

// ---------------------------------------------------------------------------
// Reading tokens

/// The token at `p`, if there is one.
pub fn tok_at(ts: &Vec<SpannedToken>, p: usize) -> (r: Option<&Token>)
    ensures
        match r {
            Some(t) => tok(ts@, p as int) == Some(*t),
            None => tok(ts@, p as int) is None,
        },
        r is Some <==> p < ts@.len(),
        r is Some ==> p < usize::MAX,
{
    if p < ts.len() {
        Some(&ts[p].tok)
    } else {
        None
    }
}

/// `format!("{:?}")` of a token, through the `Debug` impl that `derive`
/// wrote: the variant's name, with its payload in brackets. Only error
/// messages use it; nothing is stated of the text.
#[verifier::external_body]
pub(crate) fn token_debug(t: &Token) -> (s: String) {
    format!("{:?}", t)
}

/// The line and column of the byte offset `start` of `src`, counted from 1
/// as the lines of `src[..start]` and the bytes since its last newline.
pub fn span_of(src: &str, start: usize, end: usize) -> (s: Span)
    ensures
        s.start == start,
        s.end == end,
{
    let b = src.as_bytes();
    let n = if start < b.len() { start } else { b.len() };
    let mut lines: usize = 0;
    let mut line_start: usize = 0;
    let mut i: usize = 0;
    while i < n
        invariant
            n <= b@.len(),
            i <= n,
            lines <= i,
            line_start <= i,
        decreases n - i,
    {
        if b[i] == 10u8 {
            lines = lines + 1;
            line_start = i + 1;
        }
        i = i + 1;
    }
    let line = if lines < usize::MAX { lines + 1 } else { lines };
    let column = if start >= line_start && start - line_start < usize::MAX { start - line_start + 1 } else { 0 };
    Span { start: start, end: end, line: line, column: column }
}

/// The span of the token at `p`, or the empty span past the end.
pub(crate) fn span_at(ts: &Vec<SpannedToken>, src: &str, p: usize) -> (s: Span) {
    if p < ts.len() {
        span_of(src, ts[p].start, ts[p].end)
    } else {
        Span::dummy()
    }
}

/// The error for a token other than `expected` at `p`.
pub(crate) fn expected_err(ts: &Vec<SpannedToken>, src: &str, p: usize, expected: &str) -> (e: SyntaxError) {
    let span = span_at(ts, src, p);
    match tok_at(ts, p) {
        Some(Token::Invalid) => SyntaxError::InvalidStatement { reason: owned("Lexer error"), span: span },
        Some(t) => SyntaxError::UnexpectedToken { expected: owned(expected), found: token_debug(t), span: span },
        None => SyntaxError::UnexpectedEOF { expected: owned(expected), span: span },
    }
}

/// The error for a missing identifier at `p`; the token found is written as
/// the optional lexer result it came as.
pub(crate) fn ident_err(ts: &Vec<SpannedToken>, src: &str, p: usize) -> (e: SyntaxError) {
    let span = span_at(ts, src, p);
    let found = match tok_at(ts, p) {
        Some(Token::Invalid) => owned("Some(Err(()))"),
        Some(t) => {
            let d = token_debug(t);
            let mut s = concat("Some(Ok(", d.as_str());
            s.append("))");
            s
        }
        None => owned("None"),
    };
    SyntaxError::UnexpectedToken { expected: owned("identifier"), found: found, span: span }
}

/// An error with `reason`, at the token at `p`.
pub(crate) fn reason_err(ts: &Vec<SpannedToken>, src: &str, p: usize, reason: String) -> (e: SyntaxError) {
    SyntaxError::InvalidStatement { reason: reason, span: span_at(ts, src, p) }
}

/// The name at `p` where an identifier is expected (see `ident_name`).
pub fn expect_identifier(ts: &Vec<SpannedToken>, src: &str, p: usize) -> (r: Result<String, SyntaxError>)
    ensures
        match ident_name(tok(ts@, p as int)) {
            Some(n) => r matches Ok(s) && s@ == n,
            None => r is Err,
        },
        r is Ok ==> p < ts@.len() && p < usize::MAX,
{
    match tok_at(ts, p) {
        Some(Token::Identifier(n)) => Ok(n.clone()),
        Some(Token::TypeData) => Ok(owned("Data")),
        Some(Token::TypeInt) => Ok(owned("Int")),
        _ => Err(ident_err(ts, src, p)),
    }
}

fn is_bin_op_exec(level: u8, t: &Token) -> (b: bool)
    ensures
        b == is_bin_op(level as int, *t),
{
    match t {
        Token::OrOr => level == 0,
        Token::AndAnd => level == 1,
        Token::Pipe => level == 2,
        Token::BitXor => level == 3,
        Token::Ampersand => level == 4,
        Token::EqEq | Token::Ne => level == 5,
        Token::Lt | Token::Le | Token::Gt | Token::Ge => level == 6,
        Token::Shl | Token::Shr => level == 7,
        Token::Plus | Token::Minus => level == 8,
        Token::Star | Token::Slash => level == 9,
        _ => false,
    }
}

fn bin_expr_exec(t: &Token, l: Expr, r: Expr) -> (e: Expr)
    ensures
        e@ == bin_expr(*t, l@, r@),
{
    let (a, b) = (Box::new(l), Box::new(r));
    match t {
        Token::OrOr => Expr::Or(a, b),
        Token::AndAnd => Expr::And(a, b),
        Token::Pipe => Expr::BitOr(a, b),
        Token::BitXor => Expr::BitXor(a, b),
        Token::Ampersand => Expr::BitAnd(a, b),
        Token::EqEq => Expr::Eq(a, b),
        Token::Ne => Expr::Ne(a, b),
        Token::Lt => Expr::Lt(a, b),
        Token::Le => Expr::Le(a, b),
        Token::Gt => Expr::Gt(a, b),
        Token::Ge => Expr::Ge(a, b),
        Token::Shl => Expr::Shl(a, b),
        Token::Shr => Expr::Shr(a, b),
        Token::Plus => Expr::Add(a, b),
        Token::Minus => Expr::Sub(a, b),
        Token::Star => Expr::Mul(a, b),
        _ => Expr::Div(a, b),
    }
}

// ---------------------------------------------------------------------------
// Expressions

/// An expression: the loosest precedence level.
pub fn parse_expr_at(ts: &Vec<SpannedToken>, src: &str, pos: usize) -> (r: Result<(Expr, usize), SyntaxError>)
    requires
        pos <= ts@.len(),
    ensures
        match pexpr(ts@, pos as int, 0) {
            Some((e, p)) => r matches Ok((x, q)) && x@ == e && q == p,
            None => r is Err,
        },
        r matches Ok((_, q)) ==> pos < q <= ts@.len(),
{
    parse_level(ts, src, pos, 0)
}

/// An expression at precedence `level` (see `pexpr`).
pub fn parse_level(ts: &Vec<SpannedToken>, src: &str, pos: usize, level: u8) -> (r: Result<(Expr, usize), SyntaxError>)
    requires
        pos <= ts@.len(),
        level <= 9,
    ensures
        match pexpr(ts@, pos as int, level as int) {
            Some((e, p)) => r matches Ok((x, q)) && x@ == e && q == p,
            None => r is Err,
        },
        r matches Ok((_, q)) ==> pos < q <= ts@.len(),
    decreases ts@.len() - pos, 30 - 2 * level,
{
    let first = if level == 9 {
        parse_unary_at(ts, src, pos)
    } else {
        parse_level(ts, src, pos, level + 1)
    };
    match first {
        Ok((l, p)) => level_rest(ts, src, p, level, l),
        Err(e) => Err(e),
    }
}

/// The operators of `level` and their right operands after `left`.
fn level_rest(ts: &Vec<SpannedToken>, src: &str, pos: usize, level: u8, left: Expr) -> (r: Result<(Expr, usize), SyntaxError>)
    requires
        pos <= ts@.len(),
        level <= 9,
    ensures
        match level_loop(ts@, pos as int, level as int, left@) {
            Some((e, p)) => r matches Ok((x, q)) && x@ == e && q == p,
            None => r is Err,
        },
        r matches Ok((_, q)) ==> pos <= q <= ts@.len(),
    decreases ts@.len() - pos, 0int,
{
    match tok_at(ts, pos) {
        Some(t) => {
            if is_bin_op_exec(level, t) {
                let next = if level == 9 {
                    parse_unary_at(ts, src, pos + 1)
                } else {
                    parse_level(ts, src, pos + 1, level + 1)
                };
                match next {
                    Ok((rt, p)) => {
                        let e = bin_expr_exec(t, left, rt);
                        level_rest(ts, src, p, level, e)
                    },
                    Err(e) => Err(e),
                }
            } else {
                Ok((left, pos))
            }
        },
        None => Ok((left, pos)),
    }
}

/// A unary expression (see `punary`).
pub fn parse_unary_at(ts: &Vec<SpannedToken>, src: &str, pos: usize) -> (r: Result<(Expr, usize), SyntaxError>)
    requires
        pos <= ts@.len(),
    ensures
        match punary(ts@, pos as int) {
            Some((e, p)) => r matches Ok((x, q)) && x@ == e && q == p,
            None => r is Err,
        },
        r matches Ok((_, q)) ==> pos < q <= ts@.len(),
    decreases ts@.len() - pos, 10int,
{
    match tok_at(ts, pos) {
        Some(Token::Not) => match parse_unary_at(ts, src, pos + 1) {
            Ok((e, p)) => Ok((Expr::Not(Box::new(e)), p)),
            Err(x) => Err(x),
        },
        Some(Token::Minus) => match parse_unary_at(ts, src, pos + 1) {
            Ok((e, p)) => Ok((Expr::Neg(Box::new(e)), p)),
            Err(x) => Err(x),
        },
        Some(Token::Tilde) => match parse_unary_at(ts, src, pos + 1) {
            Ok((e, p)) => Ok((Expr::BitNot(Box::new(e)), p)),
            Err(x) => Err(x),
        },
        Some(Token::Ampersand) => match tok_at(ts, pos + 1) {
            Some(Token::Identifier(n)) => postfix_rest(ts, src, pos + 2, Expr::OwnedRef(n.clone())),
            _ => Err(reason_err(ts, src, pos + 1, owned("Expected identifier after &"))),
        },
        Some(Token::At) => match tok_at(ts, pos + 1) {
            Some(Token::Identifier(n)) => postfix_rest(ts, src, pos + 2, Expr::PriorState(n.clone())),
            _ => Err(reason_err(ts, src, pos + 1, owned("Expected identifier after @"))),
        },
        _ => parse_postfix_at(ts, src, pos),
    }
}

/// A primary expression and its postfix parts.
pub fn parse_postfix_at(ts: &Vec<SpannedToken>, src: &str, pos: usize) -> (r: Result<(Expr, usize), SyntaxError>)
    requires
        pos <= ts@.len(),
    ensures
        match ppostfix(ts@, pos as int) {
            Some((e, p)) => r matches Ok((x, q)) && x@ == e && q == p,
            None => r is Err,
        },
        r matches Ok((_, q)) ==> pos < q <= ts@.len(),
    decreases ts@.len() - pos, 9int,
{
    match parse_primary_at(ts, src, pos) {
        Ok((e, p)) => postfix_rest(ts, src, p, e),
        Err(x) => Err(x),
    }
}

/// The postfix parts after `e` (see `postfix_loop`).
fn postfix_rest(ts: &Vec<SpannedToken>, src: &str, pos: usize, e: Expr) -> (r: Result<(Expr, usize), SyntaxError>)
    requires
        pos <= ts@.len(),
    ensures
        match postfix_loop(ts@, pos as int, e@) {
            Some((x0, p)) => r matches Ok((x, q)) && x@ == x0 && q == p,
            None => r is Err,
        },
        r matches Ok((_, q)) ==> pos <= q <= ts@.len(),
    decreases ts@.len() - pos, 0int,
{
    match tok_at(ts, pos) {
        Some(Token::LBracket) => match parse_level(ts, src, pos + 1, 0) {
            Ok((i, p)) => match tok_at(ts, p) {
                Some(Token::RBracket) => postfix_rest(ts, src, p + 1, Expr::ListIndex(Box::new(e), Box::new(i))),
                _ => Err(expected_err(ts, src, p, "RBracket")),
            },
            Err(x) => Err(x),
        },
        Some(Token::Dot) => match expect_identifier(ts, src, pos + 1) {
            Ok(name) => match tok_at(ts, pos + 2) {
                Some(Token::LParen) => match parse_list(ts, src, pos + 3, true) {
                    Ok((_args, p)) => match tok_at(ts, p) {
                        Some(Token::RParen) => {
                            let ghost ev = e@;
                            let mut one: Vec<Expr> = Vec::new();
                            one.push(e);
                            proof {
                                lemma_exprs_view(one@, 1);
                                assert(exprs_view(one@, 1) =~= seq![ev]);
                            }
                            postfix_rest(ts, src, p + 1, Expr::Call(name, one))
                        },
                        _ => Err(expected_err(ts, src, p, "RParen")),
                    },
                    Err(x) => Err(x),
                },
                _ => postfix_rest(ts, src, pos + 2, Expr::FieldAccess(Box::new(e), name)),
            },
            Err(x) => Err(x),
        },
        _ => Ok((e, pos)),
    }
}

/// Expressions separated by commas up to the closing token (see
/// `expr_list`).
fn parse_list(ts: &Vec<SpannedToken>, src: &str, pos: usize, paren: bool) -> (r: Result<(Vec<Expr>, usize), SyntaxError>)
    requires
        pos <= ts@.len(),
    ensures
        match expr_list(ts@, pos as int, paren) {
            Some((es, p)) => r matches Ok((v, q)) && exprs_view(v@, v@.len() as int) == es && q == p,
            None => r is Err,
        },
        r matches Ok((_, q)) ==> pos <= q <= ts@.len(),
    decreases ts@.len() - pos, 41int,
{
    let closed = match tok_at(ts, pos) {
        Some(Token::RParen) => paren,
        Some(Token::RBracket) => !paren,
        _ => false,
    };
    if closed {
        let v: Vec<Expr> = Vec::new();
        assert(exprs_view(v@, 0) =~= Seq::<ExprV>::empty());
        Ok((v, pos))
    } else {
        parse_items(ts, src, pos)
    }
}

/// One or more expressions separated by commas (see `list_items`).
fn parse_items(ts: &Vec<SpannedToken>, src: &str, pos: usize) -> (r: Result<(Vec<Expr>, usize), SyntaxError>)
    requires
        pos <= ts@.len(),
    ensures
        match list_items(ts@, pos as int) {
            Some((es, p)) => r matches Ok((v, q)) && exprs_view(v@, v@.len() as int) == es && q == p,
            None => r is Err,
        },
        r matches Ok((_, q)) ==> pos < q <= ts@.len(),
    decreases ts@.len() - pos, 40int,
{
    match parse_level(ts, src, pos, 0) {
        Ok((e, p)) => {
            let ghost ev = e@;
            let mut v: Vec<Expr> = Vec::new();
            v.push(e);
            match tok_at(ts, p) {
                Some(Token::Comma) => match parse_items(ts, src, p + 1) {
                    Ok((rest, q)) => {
                        let ghost rv = rest@;
                        let mut rest = rest;
                        v.append(&mut rest);
                        proof {
                            lemma_exprs_view(v@, v@.len() as int);
                            lemma_exprs_view(rv, rv.len() as int);
                            assert(exprs_view(v@, v@.len() as int) =~= seq![ev] + exprs_view(rv, rv.len() as int));
                        }
                        Ok((v, q))
                    },
                    Err(x) => Err(x),
                },
                _ => {
                    proof {
                        lemma_exprs_view(v@, 1);
                        assert(exprs_view(v@, 1) =~= seq![ev]);
                    }
                    Ok((v, p))
                },
            }
        },
        Err(x) => Err(x),
    }
}

/// Fields `name: expr` up to `}` (see `field_list`).
fn parse_fields(ts: &Vec<SpannedToken>, src: &str, pos: usize) -> (r: Result<(Vec<(String, Expr)>, usize), SyntaxError>)
    requires
        pos <= ts@.len(),
    ensures
        match field_list(ts@, pos as int) {
            Some((fs, p)) => r matches Ok((v, q)) && pairs_view(v@, v@.len() as int) == fs && q == p,
            None => r is Err,
        },
        r matches Ok((_, q)) ==> pos <= q <= ts@.len(),
    decreases ts@.len() - pos, 1int,
{
    match tok_at(ts, pos) {
        Some(Token::RBrace) => {
            let v: Vec<(String, Expr)> = Vec::new();
            assert(pairs_view(v@, 0) =~= Seq::<(Seq<char>, ExprV)>::empty());
            Ok((v, pos))
        },
        _ => parse_field_items(ts, src, pos),
    }
}

/// One or more fields `name: expr` separated by commas.
fn parse_field_items(ts: &Vec<SpannedToken>, src: &str, pos: usize) -> (r: Result<(Vec<(String, Expr)>, usize), SyntaxError>)
    requires
        pos <= ts@.len(),
    ensures
        match field_items(ts@, pos as int) {
            Some((fs, p)) => r matches Ok((v, q)) && pairs_view(v@, v@.len() as int) == fs && q == p,
            None => r is Err,
        },
        r matches Ok((_, q)) ==> pos < q <= ts@.len(),
    decreases ts@.len() - pos, 0int,
{
    let n = match expect_identifier(ts, src, pos) {
        Ok(n) => n,
        Err(x) => return Err(x),
    };
    match tok_at(ts, pos + 1) {
        Some(Token::Colon) => {},
        _ => return Err(expected_err(ts, src, pos + 1, "Colon")),
    }
    match parse_level(ts, src, pos + 2, 0) {
        Ok((e, p)) => {
            let ghost fv = (n@, e@);
            let mut v: Vec<(String, Expr)> = Vec::new();
            v.push((n, e));
            match tok_at(ts, p) {
                Some(Token::Comma) => match parse_field_items(ts, src, p + 1) {
                    Ok((rest, q)) => {
                        let ghost rv = rest@;
                        let mut rest = rest;
                        v.append(&mut rest);
                        proof {
                            lemma_pairs_view(v@, v@.len() as int);
                            lemma_pairs_view(rv, rv.len() as int);
                            assert(pairs_view(v@, v@.len() as int) =~= seq![fv] + pairs_view(rv, rv.len() as int));
                        }
                        Ok((v, q))
                    },
                    Err(x) => Err(x),
                },
                _ => {
                    proof {
                        lemma_pairs_view(v@, 1);
                        assert(pairs_view(v@, 1) =~= seq![fv]);
                    }
                    Ok((v, p))
                },
            }
        },
        Err(x) => Err(x),
    }
}

/// A call `(args)` of `name`, or `name` alone (see `named_call`).
fn parse_named_call(ts: &Vec<SpannedToken>, src: &str, pos: usize, name: String) -> (r: Result<(Expr, usize), SyntaxError>)
    requires
        pos <= ts@.len(),
    ensures
        match named_call(ts@, pos as int, name@) {
            Some((e, p)) => r matches Ok((x, q)) && x@ == e && q == p,
            None => r is Err,
        },
        r matches Ok((_, q)) ==> pos <= q <= ts@.len(),
    decreases ts@.len() - pos, 7int,
{
    match tok_at(ts, pos) {
        Some(Token::LParen) => match parse_list(ts, src, pos + 1, true) {
            Ok((args, p)) => match tok_at(ts, p) {
                Some(Token::RParen) => Ok((Expr::Call(name, args), p + 1)),
                _ => Err(expected_err(ts, src, p, "RParen")),
            },
            Err(x) => Err(x),
        },
        _ => Ok((Expr::Identifier(name), pos)),
    }
}

/// A primary expression (see `pprimary`).
pub fn parse_primary_at(ts: &Vec<SpannedToken>, src: &str, pos: usize) -> (r: Result<(Expr, usize), SyntaxError>)
    requires
        pos <= ts@.len(),
    ensures
        match pprimary(ts@, pos as int) {
            Some((e, p)) => r matches Ok((x, q)) && x@ == e && q == p,
            None => r is Err,
        },
        r matches Ok((_, q)) ==> pos < q <= ts@.len(),
    decreases ts@.len() - pos, 8int,
{
    match tok_at(ts, pos) {
        Some(Token::Integer(v)) => Ok((Expr::Integer(*v), pos + 1)),
        Some(Token::Float(v)) => Ok((Expr::Float(*v), pos + 1)),
        Some(Token::String(s)) => Ok((Expr::String(s.clone()), pos + 1)),
        Some(Token::BoolTrue) => Ok((Expr::Bool(true), pos + 1)),
        Some(Token::BoolFalse) => Ok((Expr::Bool(false), pos + 1)),
        Some(Token::Identifier(n)) => match tok_at(ts, pos + 1) {
            Some(Token::LBrace) => match parse_fields(ts, src, pos + 2) {
                Ok((fs, p)) => match tok_at(ts, p) {
                    Some(Token::RBrace) => Ok((Expr::StructInstance(n.clone(), fs), p + 1)),
                    _ => Err(expected_err(ts, src, p, "RBrace")),
                },
                Err(x) => Err(x),
            },
            _ => parse_named_call(ts, src, pos + 1, n.clone()),
        },
        Some(Token::TypeData) => parse_named_call(ts, src, pos + 1, owned("Data")),
        Some(Token::TypeInt) => parse_named_call(ts, src, pos + 1, owned("Int")),
        Some(Token::TypeFloat) => parse_named_call(ts, src, pos + 1, owned("Float")),
        Some(Token::TypeString) => parse_named_call(ts, src, pos + 1, owned("String")),
        Some(Token::TypeBool) => parse_named_call(ts, src, pos + 1, owned("Bool")),
        Some(Token::TypeVoid) => parse_named_call(ts, src, pos + 1, owned("Void")),
        Some(Token::LBrace) => match parse_fields(ts, src, pos + 1) {
            Ok((fs, p)) => match tok_at(ts, p) {
                Some(Token::RBrace) => Ok((Expr::ObjectLiteral(fs), p + 1)),
                _ => Err(expected_err(ts, src, p, "RBrace")),
            },
            Err(x) => Err(x),
        },
        Some(Token::LParen) => match parse_level(ts, src, pos + 1, 0) {
            Ok((e, p)) => match tok_at(ts, p) {
                Some(Token::RParen) => Ok((e, p + 1)),
                _ => Err(expected_err(ts, src, p, "RParen")),
            },
            Err(x) => Err(x),
        },
        Some(Token::LBracket) => match parse_list(ts, src, pos + 1, false) {
            Ok((es, p)) => match tok_at(ts, p) {
                Some(Token::RBracket) => Ok((Expr::ListLiteral(es), p + 1)),
                _ => Err(expected_err(ts, src, p, "RBracket")),
            },
            Err(x) => Err(x),
        },
        Some(Token::TildeSlash) => match expect_identifier(ts, src, pos + 1) {
            Ok(n) => Ok((Expr::String(concat("~/", n.as_str())), pos + 2)),
            Err(x) => Err(x),
        },
        Some(Token::Invalid) => Err(reason_err(ts, src, pos, owned("Unexpected token in expression: Err(())"))),
        Some(t) => {
            let d = token_debug(t);
            let mut m = concat("Unexpected token in expression: Ok(", d.as_str());
            m.append(")");
            Err(reason_err(ts, src, pos, m))
        },
        None => Err(reason_err(ts, src, pos, owned("Unexpected EOF in expression"))),
    }
}

// ---------------------------------------------------------------------------
// Types

/// The base of a type: a name, a type keyword, or `()` for `Void`; with
/// the number of tokens it takes.
pub open spec fn type_base(ts: Seq<SpannedToken>, pos: int) -> Option<(TypeV, int)> {
    match tok(ts, pos) {
        Some(Token::Identifier(n)) => Some((TypeV::Custom(n@), pos + 1)),
        Some(Token::TypeData) => Some((TypeV::Data, pos + 1)),
        Some(Token::TypeInt) => Some((TypeV::Int, pos + 1)),
        Some(Token::TypeUInt) | Some(Token::TypeUnsigned) | Some(Token::TypeUSgn) => Some((TypeV::UInt, pos + 1)),
        Some(Token::TypeSigned) | Some(Token::TypeSgn) => Some((TypeV::Int, pos + 1)),
        Some(Token::TypeFloat) => Some((TypeV::Float, pos + 1)),
        Some(Token::TypeString) => Some((TypeV::String, pos + 1)),
        Some(Token::TypeBool) => Some((TypeV::Bool, pos + 1)),
        Some(Token::TypeVoid) => Some((TypeV::Void, pos + 1)),
        Some(Token::LParen) => if tok(ts, pos + 1) matches Some(Token::RParen) {
            Some((TypeV::Void, pos + 2))
        } else {
            None
        },
        _ => None,
    }
}

/// Past a bit-width decorator `@/` at `pos`, which is read and ignored.
pub open spec fn skip_width(ts: Seq<SpannedToken>, pos: int) -> int {
    if tok(ts, pos) matches Some(Token::At) && tok(ts, pos + 1) matches Some(Token::Slash) {
        pos + 2
    } else {
        pos
    }
}

/// Vector dimensions `[N]` after `t`, each making a vector of `N` (read as
/// a `usize`); a `[` not followed by an integer ends them.
pub open spec fn vector_loop(ts: Seq<SpannedToken>, pos: int, t: TypeV) -> Option<(TypeV, int)>
    decreases ts.len() - pos,
{
    if pos < 0 || pos > ts.len() {
        None
    } else if tok(ts, pos) matches Some(Token::LBracket) {
        match tok(ts, pos + 1) {
            Some(Token::Integer(n)) => if tok(ts, pos + 2) matches Some(Token::RBracket) {
                vector_loop(ts, pos + 3, TypeV::Vector(Box::new(t), n as usize))
            } else {
                None
            },
            _ => Some((t, pos)),
        }
    } else {
        Some((t, pos))
    }
}

/// A type: its base, an ignored bit-width decorator, type arguments
/// `<T, ...>` (allowed only after a name, making an applied type), vector
/// dimensions, and alternatives `| T` (a union of all of them where there is
/// more than one).
pub open spec fn ptype(ts: Seq<SpannedToken>, pos: int) -> Option<(TypeV, int)>
    decreases ts.len() - pos, 3int,
{
    if pos < 0 || pos > ts.len() {
        None
    } else {
        match type_base(ts, pos) {
            Some((b, p1)) => {
                let p2 = skip_width(ts, p1);
                let generic: Option<(TypeV, int)> = if tok(ts, p2) matches Some(Token::Lt) {
                    match type_items(ts, p2 + 1, seq![]) {
                        Some((args, q)) => if fits(ts, p2, q) && tok(ts, q) matches Some(Token::Gt) {
                            match b {
                                TypeV::Custom(n) => Some((TypeV::Applied(n, args), q + 1)),
                                _ => None,
                            }
                        } else {
                            None
                        },
                        None => None,
                    }
                } else {
                    Some((b, p2))
                };
                match generic {
                    Some((g, p3)) => match vector_loop(ts, p3, g) {
                        Some((v, p4)) => if fits(ts, pos, p4) {
                            match union_loop(ts, p4, seq![v]) {
                                Some((alts, p5)) => if alts.len() > 1 {
                                    Some((TypeV::Union(alts), p5))
                                } else {
                                    Some((alts[0], p5))
                                },
                                None => None,
                            }
                        } else {
                            None
                        },
                        None => None,
                    },
                    None => None,
                }
            },
            None => None,
        }
    }
}

/// Types separated by commas, after those in `acc`.
pub open spec fn type_items(ts: Seq<SpannedToken>, pos: int, acc: Seq<TypeV>) -> Option<(Seq<TypeV>, int)>
    decreases ts.len() - pos, 4int,
{
    if pos < 0 || pos > ts.len() {
        None
    } else {
        match ptype(ts, pos) {
            Some((t, p)) => if fits(ts, pos, p) {
                if tok(ts, p) matches Some(Token::Comma) {
                    type_items(ts, p + 1, acc.push(t))
                } else {
                    Some((acc.push(t), p))
                }
            } else {
                None
            },
            None => None,
        }
    }
}

/// Alternatives `| T` after those in `acc`.
pub open spec fn union_loop(ts: Seq<SpannedToken>, pos: int, acc: Seq<TypeV>) -> Option<(Seq<TypeV>, int)>
    decreases ts.len() - pos, 0int,
{
    if pos < 0 || pos > ts.len() {
        None
    } else if tok(ts, pos) matches Some(Token::Pipe) {
        match ptype(ts, pos + 1) {
            Some((t, p)) => if fits(ts, pos, p) { union_loop(ts, p, acc.push(t)) } else { None },
            None => None,
        }
    } else {
        Some((acc, pos))
    }
}

fn type_base_exec(ts: &Vec<SpannedToken>, src: &str, pos: usize) -> (r: Result<(Type, usize), SyntaxError>)
    requires
        pos <= ts@.len(),
    ensures
        match type_base(ts@, pos as int) {
            Some((t, p)) => r matches Ok((x, q)) && x@ == t && q == p,
            None => r is Err,
        },
        r matches Ok((_, q)) ==> pos < q <= ts@.len(),
{
    match tok_at(ts, pos) {
        Some(Token::Identifier(n)) => Ok((Type::Custom(n.clone()), pos + 1)),
        Some(Token::TypeData) => Ok((Type::Data, pos + 1)),
        Some(Token::TypeInt) => Ok((Type::Int, pos + 1)),
        Some(Token::TypeUInt) | Some(Token::TypeUnsigned) | Some(Token::TypeUSgn) => Ok((Type::UInt, pos + 1)),
        Some(Token::TypeSigned) | Some(Token::TypeSgn) => Ok((Type::Int, pos + 1)),
        Some(Token::TypeFloat) => Ok((Type::Float, pos + 1)),
        Some(Token::TypeString) => Ok((Type::String, pos + 1)),
        Some(Token::TypeBool) => Ok((Type::Bool, pos + 1)),
        Some(Token::TypeVoid) => Ok((Type::Void, pos + 1)),
        Some(Token::LParen) => match tok_at(ts, pos + 1) {
            Some(Token::RParen) => Ok((Type::Void, pos + 2)),
            _ => Err(expected_err(ts, src, pos + 1, "RParen")),
        },
        Some(Token::Invalid) => Err(reason_err(ts, src, pos, owned("Lexer error"))),
        Some(t) => {
            let d = token_debug(t);
            Err(reason_err(ts, src, pos, concat("Expected type, found ", d.as_str())))
        },
        None => Err(reason_err(ts, src, pos, owned("Expected type, found EOF"))),
    }
}

fn vector_rest(ts: &Vec<SpannedToken>, src: &str, pos: usize, t: Type) -> (r: Result<(Type, usize), SyntaxError>)
    requires
        pos <= ts@.len(),
    ensures
        match vector_loop(ts@, pos as int, t@) {
            Some((v, p)) => r matches Ok((x, q)) && x@ == v && q == p,
            None => r is Err,
        },
        r matches Ok((_, q)) ==> pos <= q <= ts@.len(),
    decreases ts@.len() - pos,
{
    match tok_at(ts, pos) {
        Some(Token::LBracket) => match tok_at(ts, pos + 1) {
            Some(Token::Integer(n)) => match tok_at(ts, pos + 2) {
                Some(Token::RBracket) => {
                    let size = *n as usize;
                    vector_rest(ts, src, pos + 3, Type::Vector(Box::new(t), size))
                },
                _ => Err(expected_err(ts, src, pos + 2, "RBracket")),
            },
            _ => Ok((t, pos)),
        },
        _ => Ok((t, pos)),
    }
}

/// A type (see `ptype`).
pub fn parse_type_at(ts: &Vec<SpannedToken>, src: &str, pos: usize) -> (r: Result<(Type, usize), SyntaxError>)
    requires
        pos <= ts@.len(),
    ensures
        match ptype(ts@, pos as int) {
            Some((t, p)) => r matches Ok((x, q)) && x@ == t && q == p,
            None => r is Err,
        },
        r matches Ok((_, q)) ==> pos < q <= ts@.len(),
    decreases ts@.len() - pos, 3int,
{
    let (b, p1) = match type_base_exec(ts, src, pos) {
        Ok(x) => x,
        Err(e) => return Err(e),
    };
    let p2 = match tok_at(ts, p1) {
        Some(Token::At) => match tok_at(ts, p1 + 1) {
            Some(Token::Slash) => p1 + 2,
            _ => p1,
        },
        _ => p1,
    };
    assert(p2 == skip_width(ts@, p1 as int));
    let ghost bv = b@;
    let (g, p3) = match tok_at(ts, p2) {
        Some(Token::Lt) => {
            let empty: Vec<Type> = Vec::new();
            assert(types_view(empty@, 0) =~= Seq::<TypeV>::empty());
            match type_items_exec(ts, src, p2 + 1, empty) {
                Ok((args, q)) => match tok_at(ts, q) {
                    Some(Token::Gt) => match b {
                        Type::Custom(n) => (Type::Applied(n, args), q + 1),
                        _ => return Err(reason_err(ts, src, q + 1, owned("Generic type must have a base name"))),
                    },
                    _ => return Err(expected_err(ts, src, q, "Gt")),
                },
                Err(e) => return Err(e),
            }
        },
        _ => (b, p2),
    };
    let (v, p4) = match vector_rest(ts, src, p3, g) {
        Ok(x) => x,
        Err(e) => return Err(e),
    };
    let mut alts: Vec<Type> = Vec::new();
    let ghost vv = v@;
    alts.push(v);
    proof {
        lemma_types_view(alts@, 1);
        assert(types_view(alts@, 1) =~= seq![vv]);
    }
    match union_rest(ts, src, p4, alts) {
        Ok((tys, p5)) => {
            proof { lemma_types_view(tys@, tys@.len() as int); }
            if tys.len() > 1 {
                Ok((Type::Union(tys), p5))
            } else {
                let mut tys = tys;
                let t = tys.remove(0);
                Ok((t, p5))
            }
        },
        Err(e) => Err(e),
    }
}

/// Types separated by commas, after those in `acc` (see `type_items`).
pub(crate) fn type_items_exec(ts: &Vec<SpannedToken>, src: &str, pos: usize, acc: Vec<Type>) -> (r: Result<(Vec<Type>, usize), SyntaxError>)
    requires
        pos <= ts@.len(),
    ensures
        match type_items(ts@, pos as int, types_view(acc@, acc@.len() as int)) {
            Some((tys, p)) => r matches Ok((v, q)) && types_view(v@, v@.len() as int) == tys && q == p,
            None => r is Err,
        },
        r matches Ok((_, q)) ==> pos < q <= ts@.len(),
    decreases ts@.len() - pos, 4int,
{
    match parse_type_at(ts, src, pos) {
        Ok((t, p)) => {
            let ghost old_acc = acc@;
            let ghost tv = t@;
            let mut acc = acc;
            acc.push(t);
            proof {
                lemma_types_view(acc@, acc@.len() as int);
                lemma_types_view(old_acc, old_acc.len() as int);
                assert(types_view(acc@, acc@.len() as int) =~= types_view(old_acc, old_acc.len() as int).push(tv));
            }
            match tok_at(ts, p) {
                Some(Token::Comma) => type_items_exec(ts, src, p + 1, acc),
                _ => Ok((acc, p)),
            }
        },
        Err(e) => Err(e),
    }
}

/// Alternatives `| T` after those in `acc` (see `union_loop`).
fn union_rest(ts: &Vec<SpannedToken>, src: &str, pos: usize, acc: Vec<Type>) -> (r: Result<(Vec<Type>, usize), SyntaxError>)
    requires
        pos <= ts@.len(),
    ensures
        match union_loop(ts@, pos as int, types_view(acc@, acc@.len() as int)) {
            Some((tys, p)) => r matches Ok((v, q)) && types_view(v@, v@.len() as int) == tys && q == p,
            None => r is Err,
        },
        r matches Ok((_, q)) ==> pos <= q <= ts@.len(),
        r matches Ok((v, _)) ==> v@.len() >= acc@.len(),
    decreases ts@.len() - pos, 0int,
{
    match tok_at(ts, pos) {
        Some(Token::Pipe) => match parse_type_at(ts, src, pos + 1) {
            Ok((t, p)) => {
                let ghost old_acc = acc@;
                let ghost tv = t@;
                let mut acc = acc;
                acc.push(t);
                proof {
                    lemma_types_view(acc@, acc@.len() as int);
                    lemma_types_view(old_acc, old_acc.len() as int);
                    assert(types_view(acc@, acc@.len() as int) =~= types_view(old_acc, old_acc.len() as int).push(tv));
                }
                union_rest(ts, src, p, acc)
            },
            Err(e) => Err(e),
        },
        _ => Ok((acc, pos)),
    }
}

// ---------------------------------------------------------------------------
// Statements

/// What `str::parse::<usize>` gives: the value of an optional `+` and one
/// or more decimal digits, where it fits.
pub open spec fn usize_of(s: Seq<char>) -> Option<usize> {
    digits_usize(unsigned_digits(s))
}

/// The text after an optional leading `+`.
pub open spec fn unsigned_digits(s: Seq<char>) -> Seq<char> {
    if s.len() > 0 && s[0] == '+' { s.subrange(1, s.len() as int) } else { s }
}

/// The value of one or more decimal digits, where it fits in a `usize`.
pub open spec fn digits_usize(d: Seq<char>) -> Option<usize> {
    if d.len() > 0 && (forall|k: int| 0 <= k < d.len() ==> is_ascii_digit(#[trigger] d[k]))
        && digits_value(d) <= usize::MAX {
        Some(digits_value(d) as usize)
    } else {
        None
    }
}

/// A bit range: `x` or `*` with an optional width, `xN`, a bit `B`, or
/// `B:E` / `B..E`; bits given by name or as integers (integers read as
/// `usize`).
pub open spec fn pbit_range(ts: Seq<SpannedToken>, pos: int) -> Option<(BitRange, int)> {
    match tok(ts, pos) {
        Some(Token::Identifier(name)) => {
            let n = name@;
            if n == "x"@ || n == "*"@ {
                match tok(ts, pos + 1) {
                    Some(Token::Integer(w)) => Some((BitRange::Any(w as usize), pos + 2)),
                    _ => Some((BitRange::Any(1), pos + 1)),
                }
            } else if n.len() > 0 && n[0] == 'x' {
                match usize_of(n.subrange(1, n.len() as int)) {
                    Some(w) => Some((BitRange::Any(w), pos + 1)),
                    None => None,
                }
            } else {
                match usize_of(n) {
                    Some(bit) => match tok(ts, pos + 1) {
                        Some(Token::Colon) | Some(Token::DotDot) => match ident_name(tok(ts, pos + 2)) {
                            Some(e) => match usize_of(e) {
                                Some(end) => Some((BitRange::Range(bit, end), pos + 3)),
                                None => None,
                            },
                            None => None,
                        },
                        _ => Some((BitRange::Single(bit), pos + 1)),
                    },
                    None => None,
                }
            }
        },
        Some(Token::Integer(b)) => match tok(ts, pos + 1) {
            Some(Token::Colon) | Some(Token::DotDot) => match tok(ts, pos + 2) {
                Some(Token::Integer(e)) => Some((BitRange::Range(b as usize, e as usize), pos + 3)),
                _ => None,
            },
            _ => Some((BitRange::Single(b as usize), pos + 1)),
        },
        _ => None,
    }
}

/// The address an `@ expr` mapping gives: the integer, read as a `u64`;
/// any other expression leaves the address as it was.
pub open spec fn mapped_address(e: ExprV, addr: Option<u64>) -> Option<u64> {
    match e {
        ExprV::Integer(n) => Some(n as u64),
        _ => addr,
    }
}

/// Mappings after a `let` name and before its colon: `@ address` and
/// `[bits]`, any number of them.
pub open spec fn let_pre(ts: Seq<SpannedToken>, pos: int, addr: Option<u64>, bits: Option<BitRange>)
    -> Option<(Option<u64>, Option<BitRange>, int)>
    decreases ts.len() - pos, 0int,
{
    if pos < 0 || pos > ts.len() {
        None
    } else {
        match tok(ts, pos) {
            Some(Token::At) => match pexpr(ts, pos + 1, 0) {
                Some((e, p)) => if fits(ts, pos, p) { let_pre(ts, p, mapped_address(e, addr), bits) } else { None },
                None => None,
            },
            Some(Token::LBracket) => match pbit_range(ts, pos + 1) {
                Some((b, p)) => if fits(ts, pos, p) && tok(ts, p) matches Some(Token::RBracket) {
                    let_pre(ts, p + 1, addr, Some(b))
                } else {
                    None
                },
                None => None,
            },
            _ => Some((addr, bits, pos)),
        }
    }
}

/// Mappings after a `let` type: `@ address`, optionally followed by
/// `/ bits`, and `[bits]`, any number of them.
pub open spec fn let_post(ts: Seq<SpannedToken>, pos: int, addr: Option<u64>, bits: Option<BitRange>)
    -> Option<(Option<u64>, Option<BitRange>, int)>
    decreases ts.len() - pos, 0int,
{
    if pos < 0 || pos > ts.len() {
        None
    } else {
        match tok(ts, pos) {
            Some(Token::At) => match pexpr(ts, pos + 1, 0) {
                Some((e, p)) => if fits(ts, pos, p) {
                    if tok(ts, p) matches Some(Token::Slash) {
                        match pbit_range(ts, p + 1) {
                            Some((b, q)) => if fits(ts, p, q) { let_post(ts, q, mapped_address(e, addr), Some(b)) } else { None },
                            None => None,
                        }
                    } else {
                        let_post(ts, p, mapped_address(e, addr), bits)
                    }
                } else {
                    None
                },
                None => None,
            },
            Some(Token::LBracket) => match pbit_range(ts, pos + 1) {
                Some((b, p)) => if fits(ts, pos, p) && tok(ts, p) matches Some(Token::RBracket) {
                    let_post(ts, p + 1, addr, Some(b))
                } else {
                    None
                },
                None => None,
            },
            _ => Some((addr, bits, pos)),
        }
    }
}

/// The outputs of `term` after the first: after each comma, nothing where
/// another comma or the semicolon follows, else an expression.
pub open spec fn term_rest(ts: Seq<SpannedToken>, pos: int, acc: Seq<Option<ExprV>>) -> Option<(Seq<Option<ExprV>>, int)>
    decreases ts.len() - pos, 0int,
{
    if pos < 0 || pos > ts.len() {
        None
    } else if tok(ts, pos) matches Some(Token::Comma) {
        if (tok(ts, pos + 1) matches Some(Token::Comma)) || (tok(ts, pos + 1) matches Some(Token::Semicolon)) {
            term_rest(ts, pos + 1, acc.push(None))
        } else {
            match pexpr(ts, pos + 1, 0) {
                Some((e, p)) => if fits(ts, pos, p) { term_rest(ts, p, acc.push(Some(e))) } else { None },
                None => None,
            }
        }
    } else {
        Some((acc, pos))
    }
}

/// The outputs of `term`: none before a semicolon, else an expression and
/// the rest.
pub open spec fn term_outputs(ts: Seq<SpannedToken>, pos: int) -> Option<(Seq<Option<ExprV>>, int)>
    decreases ts.len() - pos, 31int,
{
    if pos < 0 || pos > ts.len() {
        None
    } else if tok(ts, pos) matches Some(Token::Semicolon) {
        Some((seq![], pos))
    } else {
        match pexpr(ts, pos, 0) {
            Some((e, p)) => if fits(ts, pos, p) { term_rest(ts, p, seq![Some(e)]) } else { None },
            None => None,
        }
    }
}

/// Field names of a pattern, separated by commas.
pub open spec fn pattern_fields(ts: Seq<SpannedToken>, pos: int, acc: Seq<Seq<char>>) -> (Seq<Seq<char>>, int)
    decreases ts.len() - pos,
{
    if pos < 0 || pos > ts.len() {
        (acc, pos)
    } else {
        match tok(ts, pos) {
            Some(Token::Identifier(f)) => if tok(ts, pos + 1) matches Some(Token::Comma) {
                pattern_fields(ts, pos + 2, acc.push(f@))
            } else {
                (acc.push(f@), pos + 1)
            },
            _ => (acc, pos),
        }
    }
}

/// A guard starts with a pattern match where a name is followed by a
/// capitalized name, or where `Ok` or `Err` comes second.
pub open spec fn is_pattern(ts: Seq<SpannedToken>, pos: int) -> bool {
    ((tok(ts, pos) matches Some(Token::Identifier(_))) && match tok(ts, pos + 1) {
        Some(Token::Identifier(v)) => v@.len() > 0 && unicode_uppercase(v@[0]),
        _ => false,
    }) || (tok(ts, pos + 1) matches Some(Token::OkKw)) || (tok(ts, pos + 1) matches Some(Token::ErrKw))
}

/// The condition of a guard (after its `[`): a pattern match
/// `name Variant(fields)` where `is_pattern` says so and a name comes
/// first, else an expression.
pub open spec fn guard_condition(ts: Seq<SpannedToken>, pos: int) -> Option<(ExprV, int)>
    decreases ts.len() - pos, 32int,
{
    if pos < 0 || pos > ts.len() {
        None
    } else if is_pattern(ts, pos) && (tok(ts, pos) matches Some(Token::Identifier(_))) {
        let var = match tok(ts, pos) {
            Some(Token::Identifier(v)) => v@,
            _ => Seq::empty(),
        };
        let variant = match tok(ts, pos + 1) {
            Some(Token::Identifier(v)) => v@,
            Some(Token::OkKw) => "Ok"@,
            _ => "Err"@,
        };
        if tok(ts, pos + 2) matches Some(Token::LParen) {
            let (fields, p) = pattern_fields(ts, pos + 3, seq![]);
            if tok(ts, p) matches Some(Token::RParen) {
                Some((ExprV::PatternMatch { value: Box::new(ExprV::Identifier(var)), variant: variant, fields: fields }, p + 1))
            } else {
                None
            }
        } else {
            Some((ExprV::PatternMatch { value: Box::new(ExprV::Identifier(var)), variant: variant, fields: seq![] }, pos + 2))
        }
    } else {
        pexpr(ts, pos, 0)
    }
}

/// The unit of a timeout: cycles where none is named.
pub open spec fn time_unit(t: Option<Token>) -> (TimeUnit, int) {
    match t {
        Some(Token::Cycles) | Some(Token::Cyc) => (TimeUnit::Cycles, 1),
        Some(Token::Ms) => (TimeUnit::Ms, 1),
        Some(Token::Seconds) => (TimeUnit::Seconds, 1),
        Some(Token::Minute) => (TimeUnit::Minutes, 1),
        _ => (TimeUnit::Cycles, 0),
    }
}

/// A statement: `let`, `term`, `escape`, a guard `[cond]` over one
/// statement or a block `{ ... };`, or an expression, an assignment
/// `lhs = expr [within t unit]`, or a unification `Name(pattern) = expr`.
pub open spec fn pstmt(ts: Seq<SpannedToken>, pos: int) -> Option<(StatementV, int)>
    decreases ts.len() - pos, 50int,
{
    if pos < 0 || pos > ts.len() {
        None
    } else {
        match tok(ts, pos) {
            Some(Token::Let) => plet(ts, pos),
            Some(Token::Term) => match term_outputs(ts, pos + 1) {
                Some((outs, p)) => if tok(ts, p) matches Some(Token::Semicolon) {
                    Some((StatementV::Term(outs), p + 1))
                } else {
                    None
                },
                None => None,
            },
            Some(Token::Escape) => if tok(ts, pos + 1) matches Some(Token::Semicolon) {
                Some((StatementV::Escape(None), pos + 2))
            } else {
                match pexpr(ts, pos + 1, 0) {
                    Some((e, p)) => if tok(ts, p) matches Some(Token::Semicolon) {
                        Some((StatementV::Escape(Some(e)), p + 1))
                    } else {
                        None
                    },
                    None => None,
                }
            },
            Some(Token::LBracket) => pguard(ts, pos),
            _ => psimple(ts, pos),
        }
    }
}

/// A `let` statement at `pos`.
pub open spec fn plet(ts: Seq<SpannedToken>, pos: int) -> Option<(StatementV, int)>
    decreases ts.len() - pos, 49int,
{
    if pos < 0 || pos > ts.len() {
        None
    } else {
        match ident_name(tok(ts, pos + 1)) {
                Some(name) => match let_pre(ts, pos + 2, None, None) {
                    Some((a1, b1, p1)) => if fits(ts, pos, p1) {
                        let typed: Option<(Option<TypeV>, Option<u64>, Option<BitRange>, int)> =
                            if tok(ts, p1) matches Some(Token::Colon) {
                                match ptype(ts, p1 + 1) {
                                    Some((t, p2)) => if fits(ts, p1, p2) {
                                        match let_post(ts, p2, a1, b1) {
                                            Some((a2, b2, p3)) => Some((Some(t), a2, b2, p3)),
                                            None => None,
                                        }
                                    } else {
                                        None
                                    },
                                    None => None,
                                }
                            } else {
                                Some((None, a1, b1, p1))
                            };
                        match typed {
                            Some((ty, a, b, p3)) => if fits(ts, pos, p3) {
                                let init: Option<(Option<ExprV>, int)> = if tok(ts, p3) matches Some(Token::Eq) {
                                    match pexpr(ts, p3 + 1, 0) {
                                        Some((e, p4)) => Some((Some(e), p4)),
                                        None => None,
                                    }
                                } else {
                                    Some((None, p3))
                                };
                                match init {
                                    Some((e, p4)) => if tok(ts, p4) matches Some(Token::Semicolon) {
                                        Some((StatementV::Let { name: name, ty: ty, expr: e, address: a, bit_range: b, is_override: false }, p4 + 1))
                                    } else {
                                        None
                                    },
                                    None => None,
                                }
                            } else {
                                None
                            },
                            None => None,
                        }
                    } else {
                        None
                    },
                    None => None,
                },
                None => None,
            }
    }
}

/// A guarded statement at `pos`.
pub open spec fn pguard(ts: Seq<SpannedToken>, pos: int) -> Option<(StatementV, int)>
    decreases ts.len() - pos, 49int,
{
    if pos < 0 || pos > ts.len() {
        None
    } else {
        match guard_condition(ts, pos + 1) {
                Some((c, p)) => if fits(ts, pos, p) && tok(ts, p) matches Some(Token::RBracket) {
                    if tok(ts, p + 1) matches Some(Token::LBrace) {
                        match block_stmts(ts, p + 2, seq![]) {
                            Some((ss, q)) => if ss.len() > 0 && (tok(ts, q) matches Some(Token::RBrace))
                                && (tok(ts, q + 1) matches Some(Token::Semicolon)) {
                                Some((StatementV::Guarded { condition: c, statements: ss }, q + 2))
                            } else {
                                None
                            },
                            None => None,
                        }
                    } else {
                        match pstmt(ts, p + 1) {
                            Some((s, q)) => Some((StatementV::Guarded { condition: c, statements: seq![s] }, q)),
                            None => None,
                        }
                    }
                } else {
                    None
                },
                None => None,
            }
    }
}

/// An expression, assignment or unification statement at `pos`.
pub open spec fn psimple(ts: Seq<SpannedToken>, pos: int) -> Option<(StatementV, int)>
    decreases ts.len() - pos, 49int,
{
    if pos < 0 || pos > ts.len() {
        None
    } else {
        match pexpr(ts, pos, 0) {
                Some((lhs, p)) => if fits(ts, pos, p) {
                    if tok(ts, p) matches Some(Token::Eq) {
                        match pexpr(ts, p + 1, 0) {
                            Some((rhs, p2)) => if fits(ts, p, p2) {
                                let timed: Option<(Option<(ExprV, TimeUnit)>, int)> = if tok(ts, p2) matches Some(Token::Within) {
                                    match pexpr(ts, p2 + 1, 0) {
                                        Some((t, p3)) => Some((Some((t, time_unit(tok(ts, p3)).0)), p3 + time_unit(tok(ts, p3)).1)),
                                        None => None,
                                    }
                                } else {
                                    Some((None, p2))
                                };
                                match timed {
                                    Some((timeout, p4)) => if tok(ts, p4) matches Some(Token::Semicolon) {
                                        match lhs {
                                            ExprV::Call(name, args) => if args.len() == 1 {
                                                match args[0] {
                                                    ExprV::Identifier(pat) => Some((StatementV::Unification { name: name, pattern: pat, expr: rhs }, p4 + 1)),
                                                    _ => None,
                                                }
                                            } else {
                                                None
                                            },
                                            _ => Some((StatementV::Assignment { lhs: lhs, expr: rhs, timeout: timeout }, p4 + 1)),
                                        }
                                    } else {
                                        None
                                    },
                                    None => None,
                                }
                            } else {
                                None
                            },
                            None => None,
                        }
                    } else if tok(ts, p) matches Some(Token::Semicolon) {
                        Some((StatementV::Expression(lhs), p + 1))
                    } else {
                        None
                    }
                } else {
                    None
                },
                None => None,
            }
    }
}

/// Statements up to the `}` of a guarded block (left unread).
pub open spec fn block_stmts(ts: Seq<SpannedToken>, pos: int, acc: Seq<StatementV>) -> Option<(Seq<StatementV>, int)>
    decreases ts.len() - pos, 51int,
{
    if pos < 0 || pos > ts.len() {
        None
    } else if tok(ts, pos) matches Some(Token::RBrace) {
        Some((acc, pos))
    } else {
        match pstmt(ts, pos) {
            Some((s, p)) => if fits(ts, pos, p) { block_stmts(ts, p, acc.push(s)) } else { None },
            None => None,
        }
    }
}

/// The statements of a body: up to a `}` (left unread) or the end.
pub open spec fn body_stmts(ts: Seq<SpannedToken>, pos: int, acc: Seq<StatementV>) -> Option<(Seq<StatementV>, int)>
    decreases ts.len() - pos, 51int,
{
    if pos < 0 || pos > ts.len() {
        None
    } else if tok(ts, pos) is None || (tok(ts, pos) matches Some(Token::RBrace)) {
        Some((acc, pos))
    } else {
        match pstmt(ts, pos) {
            Some((s, p)) => if fits(ts, pos, p) { body_stmts(ts, p, acc.push(s)) } else { None },
            None => None,
        }
    }
}

/// `str::parse::<usize>` of a name (see `usize_of`).
fn usize_of_exec(s: &[char]) -> (r: Option<usize>)
    ensures
        r == usize_of(s@),
{
    let d: &[char] = if s.len() > 0 && s[0] == '+' { &s[1..s.len()] } else { s };
    assert(d@ == unsigned_digits(s@));
    if d.len() == 0 {
        return None;
    }
    let mut k: usize = 0;
    while k < d.len()
        invariant
            k <= d@.len(),
            d@ == unsigned_digits(s@),
            forall|j: int| 0 <= j < k ==> is_ascii_digit(#[trigger] d@[j]),
        decreases d@.len() - k,
    {
        if !(d[k] >= '0' && d[k] <= '9') {
            assert(!is_ascii_digit(d@[k as int]));
            return None;
        }
        k = k + 1;
    }
    match crate::bvc::lexer::digits_u64(d) {
        Some(v) => if v <= usize::MAX as u64 {
            Some(v as usize)
        } else {
            None
        },
        None => None,
    }
}

/// A bit range (see `pbit_range`).
pub(crate) fn parse_bit_range_at(ts: &Vec<SpannedToken>, src: &str, pos: usize) -> (r: Result<(BitRange, usize), SyntaxError>)
    requires
        pos <= ts@.len(),
    ensures
        match pbit_range(ts@, pos as int) {
            Some((b, p)) => r matches Ok((b2, q)) && b2 == b && q == p,
            None => r is Err,
        },
        r matches Ok((_, q)) ==> pos < q <= ts@.len(),
{
    match tok_at(ts, pos) {
        Some(Token::Identifier(name)) => {
            let n = crate::text::chars_of(name.as_str());
            if crate::text::eq_str(n.as_slice(), "x") || crate::text::eq_str(n.as_slice(), "*") {
                match tok_at(ts, pos + 1) {
                    Some(Token::Integer(w)) => Ok((BitRange::Any(*w as usize), pos + 2)),
                    _ => Ok((BitRange::Any(1), pos + 1)),
                }
            } else if n.len() > 0 && n[0] == 'x' {
                match usize_of_exec(&n.as_slice()[1..n.len()]) {
                    Some(w) => Ok((BitRange::Any(w), pos + 1)),
                    None => {
                        let m = concat("Invalid bit-width shorthand: ", name.as_str());
                        Err(reason_err(ts, src, pos, m))
                    },
                }
            } else {
                match usize_of_exec(n.as_slice()) {
                    Some(bit) => match tok_at(ts, pos + 1) {
                        Some(Token::Colon) | Some(Token::DotDot) => match expect_identifier(ts, src, pos + 2) {
                            Ok(e) => {
                                let ec = crate::text::chars_of(e.as_str());
                                match usize_of_exec(ec.as_slice()) {
                                    Some(end) => Ok((BitRange::Range(bit, end), pos + 3)),
                                    None => {
                                        let m = concat("Expected bit number, got ", e.as_str());
                                        Err(reason_err(ts, src, pos + 3, m))
                                    },
                                }
                            },
                            Err(x) => Err(x),
                        },
                        _ => Ok((BitRange::Single(bit), pos + 1)),
                    },
                    None => {
                        let m = concat("Expected bit number or 'x', got ", name.as_str());
                        Err(reason_err(ts, src, pos, m))
                    },
                }
            }
        },
        Some(Token::Integer(b)) => match tok_at(ts, pos + 1) {
            Some(Token::Colon) | Some(Token::DotDot) => match tok_at(ts, pos + 2) {
                Some(Token::Integer(e)) => Ok((BitRange::Range(*b as usize, *e as usize), pos + 3)),
                _ => Err(reason_err(ts, src, pos + 2, owned("Expected end bit number"))),
            },
            _ => Ok((BitRange::Single(*b as usize), pos + 1)),
        },
        _ => Err(reason_err(ts, src, pos, owned("Expected bit number or 'x'"))),
    }
}

fn mapped_address_exec(e: &Expr, addr: Option<u64>) -> (r: Option<u64>)
    ensures
        r == mapped_address(e@, addr),
{
    match e {
        Expr::Integer(n) => Some(*n as u64),
        _ => addr,
    }
}

/// Mappings before a `let` colon (see `let_pre`).
fn let_pre_exec(ts: &Vec<SpannedToken>, src: &str, pos: usize, addr: Option<u64>, bits: Option<BitRange>)
    -> (r: Result<(Option<u64>, Option<BitRange>, usize), SyntaxError>)
    requires
        pos <= ts@.len(),
    ensures
        match let_pre(ts@, pos as int, addr, bits) {
            Some((a, b, p)) => r matches Ok((a2, b2, q)) && a2 == a && b2 == b && q == p,
            None => r is Err,
        },
        r matches Ok((_, _, q)) ==> pos <= q <= ts@.len(),
    decreases ts@.len() - pos, 0int,
{
    match tok_at(ts, pos) {
        Some(Token::At) => match parse_level(ts, src, pos + 1, 0) {
            Ok((e, p)) => {
                let a = mapped_address_exec(&e, addr);
                let_pre_exec(ts, src, p, a, bits)
            },
            Err(x) => Err(x),
        },
        Some(Token::LBracket) => match parse_bit_range_at(ts, src, pos + 1) {
            Ok((b, p)) => match tok_at(ts, p) {
                Some(Token::RBracket) => let_pre_exec(ts, src, p + 1, addr, Some(b)),
                _ => Err(expected_err(ts, src, p, "RBracket")),
            },
            Err(x) => Err(x),
        },
        _ => Ok((addr, bits, pos)),
    }
}

/// Mappings after a `let` type (see `let_post`).
fn let_post_exec(ts: &Vec<SpannedToken>, src: &str, pos: usize, addr: Option<u64>, bits: Option<BitRange>)
    -> (r: Result<(Option<u64>, Option<BitRange>, usize), SyntaxError>)
    requires
        pos <= ts@.len(),
    ensures
        match let_post(ts@, pos as int, addr, bits) {
            Some((a, b, p)) => r matches Ok((a2, b2, q)) && a2 == a && b2 == b && q == p,
            None => r is Err,
        },
        r matches Ok((_, _, q)) ==> pos <= q <= ts@.len(),
    decreases ts@.len() - pos, 0int,
{
    match tok_at(ts, pos) {
        Some(Token::At) => match parse_level(ts, src, pos + 1, 0) {
            Ok((e, p)) => {
                let a = mapped_address_exec(&e, addr);
                match tok_at(ts, p) {
                    Some(Token::Slash) => match parse_bit_range_at(ts, src, p + 1) {
                        Ok((b, q)) => let_post_exec(ts, src, q, a, Some(b)),
                        Err(x) => Err(x),
                    },
                    _ => let_post_exec(ts, src, p, a, bits),
                }
            },
            Err(x) => Err(x),
        },
        Some(Token::LBracket) => match parse_bit_range_at(ts, src, pos + 1) {
            Ok((b, p)) => match tok_at(ts, p) {
                Some(Token::RBracket) => let_post_exec(ts, src, p + 1, addr, Some(b)),
                _ => Err(expected_err(ts, src, p, "RBracket")),
            },
            Err(x) => Err(x),
        },
        _ => Ok((addr, bits, pos)),
    }
}

pub open spec fn outs_view(v: Seq<Option<Expr>>) -> Seq<Option<ExprV>> {
    v.map_values(|o: Option<Expr>| opt_view(o))
}

/// The outputs of `term` after the first (see `term_rest`).
fn term_rest_exec(ts: &Vec<SpannedToken>, src: &str, pos: usize, acc: Vec<Option<Expr>>)
    -> (r: Result<(Vec<Option<Expr>>, usize), SyntaxError>)
    requires
        pos <= ts@.len(),
    ensures
        match term_rest(ts@, pos as int, outs_view(acc@)) {
            Some((outs, p)) => r matches Ok((v, q)) && outs_view(v@) == outs && q == p,
            None => r is Err,
        },
        r matches Ok((_, q)) ==> pos <= q <= ts@.len(),
    decreases ts@.len() - pos, 0int,
{
    match tok_at(ts, pos) {
        Some(Token::Comma) => {
            let empty_next = match tok_at(ts, pos + 1) {
                Some(Token::Comma) => true,
                Some(Token::Semicolon) => true,
                _ => false,
            };
            let ghost before = outs_view(acc@);
            let mut acc = acc;
            if empty_next {
                acc.push(None);
                assert(outs_view(acc@) =~= before.push(None));
                term_rest_exec(ts, src, pos + 1, acc)
            } else {
                match parse_level(ts, src, pos + 1, 0) {
                    Ok((e, p)) => {
                        let ghost ev = e@;
                        acc.push(Some(e));
                        assert(outs_view(acc@) =~= before.push(Some(ev)));
                        term_rest_exec(ts, src, p, acc)
                    },
                    Err(x) => Err(x),
                }
            }
        },
        _ => Ok((acc, pos)),
    }
}

/// The outputs of `term` (see `term_outputs`).
fn parse_term_outputs_at(ts: &Vec<SpannedToken>, src: &str, pos: usize) -> (r: Result<(Vec<Option<Expr>>, usize), SyntaxError>)
    requires
        pos <= ts@.len(),
    ensures
        match term_outputs(ts@, pos as int) {
            Some((outs, p)) => r matches Ok((v, q)) && outs_view(v@) == outs && q == p,
            None => r is Err,
        },
        r matches Ok((_, q)) ==> pos <= q <= ts@.len(),
    decreases ts@.len() - pos, 31int,
{
    match tok_at(ts, pos) {
        Some(Token::Semicolon) => {
            let v: Vec<Option<Expr>> = Vec::new();
            assert(outs_view(v@) =~= Seq::<Option<ExprV>>::empty());
            Ok((v, pos))
        },
        _ => match parse_level(ts, src, pos, 0) {
            Ok((e, p)) => {
                let ghost ev = e@;
                let mut v: Vec<Option<Expr>> = Vec::new();
                v.push(Some(e));
                assert(outs_view(v@) =~= seq![Some(ev)]);
                term_rest_exec(ts, src, p, v)
            },
            Err(x) => Err(x),
        },
    }
}

pub open spec fn names_view(v: Seq<String>) -> Seq<Seq<char>> {
    v.map_values(|s: String| s@)
}

/// Field names of a pattern (see `pattern_fields`).
fn pattern_fields_exec(ts: &Vec<SpannedToken>, pos: usize, acc: Vec<String>) -> (r: (Vec<String>, usize))
    requires
        pos <= ts@.len(),
    ensures
        pattern_fields(ts@, pos as int, names_view(acc@)) == (names_view(r.0@), r.1 as int),
        pos <= r.1 <= ts@.len(),
    decreases ts@.len() - pos,
{
    match tok_at(ts, pos) {
        Some(Token::Identifier(f)) => {
            let ghost before = names_view(acc@);
            let mut acc = acc;
            acc.push(f.clone());
            assert(names_view(acc@) =~= before.push(f@));
            match tok_at(ts, pos + 1) {
                Some(Token::Comma) => pattern_fields_exec(ts, pos + 2, acc),
                _ => (acc, pos + 1),
            }
        },
        _ => (acc, pos),
    }
}

/// Whether the first character of `v` is uppercase.
fn starts_upper(v: &String) -> (b: bool)
    ensures
        b == (v@.len() > 0 && unicode_uppercase(v@[0])),
{
    let cs = crate::text::chars_of(v.as_str());
    if cs.len() > 0 {
        crate::ffi_lib::native::is_uppercase(cs[0])
    } else {
        false
    }
}

/// The condition of a guard (see `guard_condition`).
fn parse_guard_condition(ts: &Vec<SpannedToken>, src: &str, pos: usize) -> (r: Result<(Expr, usize), SyntaxError>)
    requires
        pos <= ts@.len(),
    ensures
        match guard_condition(ts@, pos as int) {
            Some((e, p)) => r matches Ok((x, q)) && x@ == e && q == p,
            None => r is Err,
        },
        r matches Ok((_, q)) ==> pos < q <= ts@.len(),
    decreases ts@.len() - pos, 32int,
{
    let first_ident = match tok_at(ts, pos) {
        Some(Token::Identifier(_)) => true,
        _ => false,
    };
    let pattern = if first_ident {
        match tok_at(ts, pos + 1) {
            Some(Token::Identifier(v)) => starts_upper(v),
            Some(Token::OkKw) => true,
            Some(Token::ErrKw) => true,
            _ => false,
        }
    } else {
        false
    };
    assert(pattern == (is_pattern(ts@, pos as int) && (tok(ts@, pos as int) matches Some(Token::Identifier(_)))));
    if pattern {
        let var = match tok_at(ts, pos) {
            Some(Token::Identifier(v)) => v.clone(),
            _ => owned(""),
        };
        let variant = match tok_at(ts, pos + 1) {
            Some(Token::Identifier(v)) => v.clone(),
            Some(Token::OkKw) => owned("Ok"),
            _ => owned("Err"),
        };
        match tok_at(ts, pos + 2) {
            Some(Token::LParen) => {
                let empty: Vec<String> = Vec::new();
                assert(names_view(empty@) =~= Seq::<Seq<char>>::empty());
                let (fields, p) = pattern_fields_exec(ts, pos + 3, empty);
                match tok_at(ts, p) {
                    Some(Token::RParen) => {
                        let ghost want = ExprV::PatternMatch {
                            value: Box::new(ExprV::Identifier(var@)),
                            variant: variant@,
                            fields: names_view(fields@),
                        };
                        let inner = Expr::Identifier(var);
                        assert(inner@ == ExprV::Identifier(inner->Identifier_0@));
                        let e = Expr::PatternMatch { value: Box::new(inner), variant: variant, fields: fields };
                        assert(e@ =~~= want);
                        Ok((e, p + 1))
                    },
                    _ => Err(expected_err(ts, src, p, "RParen")),
                }
            },
            _ => {
                let fields: Vec<String> = Vec::new();
                assert(names_view(fields@) =~= Seq::<Seq<char>>::empty());
                let ghost want = ExprV::PatternMatch {
                    value: Box::new(ExprV::Identifier(var@)),
                    variant: variant@,
                    fields: names_view(fields@),
                };
                let inner = Expr::Identifier(var);
                assert(inner@ == ExprV::Identifier(inner->Identifier_0@));
                let e = Expr::PatternMatch { value: Box::new(inner), variant: variant, fields: fields };
                assert(e@ =~~= want);
                Ok((e, pos + 2))
            },
        }
    } else {
        parse_level(ts, src, pos, 0)
    }
}

proof fn lemma_stmts_view_push(ss: Seq<Statement>, s: Statement, n: int)
    requires
        0 <= n <= ss.len(),
    ensures
        stmts_view(ss.push(s), n) == stmts_view(ss, n),
    decreases n,
{
    if n > 0 {
        lemma_stmts_view_push(ss, s, n - 1);
        assert(ss.push(s)[n - 1] == ss[n - 1]);
    }
}

/// The unit of a timeout and whether a token names it.
fn time_unit_exec(t: Option<&Token>) -> (r: (TimeUnit, usize))
    ensures
        (r.0, r.1 as int) == time_unit(match t {
            Some(x) => Some(*x),
            None => None,
        }),
{
    match t {
        Some(Token::Cycles) | Some(Token::Cyc) => (TimeUnit::Cycles, 1),
        Some(Token::Ms) => (TimeUnit::Ms, 1),
        Some(Token::Seconds) => (TimeUnit::Seconds, 1),
        Some(Token::Minute) => (TimeUnit::Minutes, 1),
        _ => (TimeUnit::Cycles, 0),
    }
}

/// A statement (see `pstmt`).
pub fn parse_statement_at(ts: &Vec<SpannedToken>, src: &str, pos: usize) -> (r: Result<(Statement, usize), SyntaxError>)
    requires
        pos <= ts@.len(),
    ensures
        match pstmt(ts@, pos as int) {
            Some((s, p)) => r matches Ok((x, q)) && stmt_view(x) == s && q == p,
            None => r is Err,
        },
        r matches Ok((_, q)) ==> pos < q <= ts@.len(),
    decreases ts@.len() - pos, 50int,
{
    match tok_at(ts, pos) {
        Some(Token::Let) => parse_let_at(ts, src, pos),
        Some(Token::Term) => match parse_term_outputs_at(ts, src, pos + 1) {
            Ok((outs, p)) => match tok_at(ts, p) {
                Some(Token::Semicolon) => {
                    let ghost ov = outs_view(outs@);
                    let s = Statement::Term(outs);
                    assert(stmt_view(s) =~~= StatementV::Term(ov));
                    Ok((s, p + 1))
                },
                _ => Err(expected_err(ts, src, p, "Semicolon")),
            },
            Err(x) => Err(x),
        },
        Some(Token::Escape) => match tok_at(ts, pos + 1) {
            Some(Token::Semicolon) => Ok((Statement::Escape(None), pos + 2)),
            _ => match parse_level(ts, src, pos + 1, 0) {
                Ok((e, p)) => match tok_at(ts, p) {
                    Some(Token::Semicolon) => Ok((Statement::Escape(Some(e)), p + 1)),
                    _ => Err(expected_err(ts, src, p, "Semicolon")),
                },
                Err(x) => Err(x),
            },
        },
        Some(Token::LBracket) => parse_guard_at(ts, src, pos),
        _ => parse_simple_at(ts, src, pos),
    }
}

/// A `let` statement (see `plet`).
fn parse_let_at(ts: &Vec<SpannedToken>, src: &str, pos: usize) -> (r: Result<(Statement, usize), SyntaxError>)
    requires
        pos <= ts@.len(),
        pos < ts@.len(),
        pos < usize::MAX,
    ensures
        match plet(ts@, pos as int) {
            Some((s, p)) => r matches Ok((x, q)) && stmt_view(x) == s && q == p,
            None => r is Err,
        },
        r matches Ok((_, q)) ==> pos < q <= ts@.len(),
    decreases ts@.len() - pos, 49int,
{
    {
            let name = match expect_identifier(ts, src, pos + 1) {
                Ok(n) => n,
                Err(x) => return Err(x),
            };
            let (a1, b1, p1) = match let_pre_exec(ts, src, pos + 2, None, None) {
                Ok(x) => x,
                Err(x) => return Err(x),
            };
            let (ty, a, b, p3) = match tok_at(ts, p1) {
                Some(Token::Colon) => {
                    let (t, p2) = match parse_type_at(ts, src, p1 + 1) {
                        Ok(x) => x,
                        Err(x) => return Err(x),
                    };
                    let (a2, b2, p3) = match let_post_exec(ts, src, p2, a1, b1) {
                        Ok(x) => x,
                        Err(x) => return Err(x),
                    };
                    (Some(t), a2, b2, p3)
                },
                _ => (None, a1, b1, p1),
            };
            let (e, p4) = match tok_at(ts, p3) {
                Some(Token::Eq) => match parse_level(ts, src, p3 + 1, 0) {
                    Ok((e, p4)) => (Some(e), p4),
                    Err(x) => return Err(x),
                },
                _ => (None, p3),
            };
            match tok_at(ts, p4) {
                Some(Token::Semicolon) => Ok((
                    Statement::Let { name: name, ty: ty, expr: e, address: a, bit_range: b, is_override: false },
                    p4 + 1,
                )),
                _ => Err(expected_err(ts, src, p4, "Semicolon")),
            }
        }
}

/// A guarded statement (see `pguard`).
fn parse_guard_at(ts: &Vec<SpannedToken>, src: &str, pos: usize) -> (r: Result<(Statement, usize), SyntaxError>)
    requires
        pos <= ts@.len(),
        pos < ts@.len(),
        pos < usize::MAX,
    ensures
        match pguard(ts@, pos as int) {
            Some((s, p)) => r matches Ok((x, q)) && stmt_view(x) == s && q == p,
            None => r is Err,
        },
        r matches Ok((_, q)) ==> pos < q <= ts@.len(),
    decreases ts@.len() - pos, 49int,
{
    {
            let (c, p) = match parse_guard_condition(ts, src, pos + 1) {
                Ok(x) => x,
                Err(x) => return Err(x),
            };
            match tok_at(ts, p) {
                Some(Token::RBracket) => {},
                _ => return Err(expected_err(ts, src, p, "RBracket")),
            }
            match tok_at(ts, p + 1) {
                Some(Token::LBrace) => {
                    let empty: Vec<Statement> = Vec::new();
                    assert(stmts_view(empty@, 0) =~= Seq::<StatementV>::empty());
                    let (ss, q) = match parse_block_at(ts, src, p + 2, empty) {
                        Ok(x) => x,
                        Err(x) => return Err(x),
                    };
                    if ss.len() == 0 {
                        return Err(reason_err(ts, src, q, owned("Empty guarded block")));
                    }
                    match tok_at(ts, q) {
                        Some(Token::RBrace) => {},
                        _ => return Err(expected_err(ts, src, q, "RBrace")),
                    }
                    match tok_at(ts, q + 1) {
                        Some(Token::Semicolon) => Ok((Statement::Guarded { condition: c, statements: ss }, q + 2)),
                        _ => Err(expected_err(ts, src, q + 1, "Semicolon")),
                    }
                },
                _ => match parse_statement_at(ts, src, p + 1) {
                    Ok((s, q)) => {
                        let ghost sv = stmt_view(s);
                        let mut one: Vec<Statement> = Vec::new();
                        one.push(s);
                        assert(stmts_view(one@, 0) =~= Seq::<StatementV>::empty());
                        assert(stmts_view(one@, 1) =~= seq![sv]);
                        Ok((Statement::Guarded { condition: c, statements: one }, q))
                    },
                    Err(x) => Err(x),
                },
            }
        }
}

/// An expression, assignment or unification (see `psimple`).
fn parse_simple_at(ts: &Vec<SpannedToken>, src: &str, pos: usize) -> (r: Result<(Statement, usize), SyntaxError>)
    requires
        pos <= ts@.len(),
    ensures
        match psimple(ts@, pos as int) {
            Some((s, p)) => r matches Ok((x, q)) && stmt_view(x) == s && q == p,
            None => r is Err,
        },
        r matches Ok((_, q)) ==> pos < q <= ts@.len(),
    decreases ts@.len() - pos, 49int,
{
    {
            let (lhs, p) = match parse_level(ts, src, pos, 0) {
                Ok(x) => x,
                Err(x) => return Err(x),
            };
            match tok_at(ts, p) {
                Some(Token::Eq) => {
                    let (rhs, p2) = match parse_level(ts, src, p + 1, 0) {
                        Ok(x) => x,
                        Err(x) => return Err(x),
                    };
                    let (timeout, p4) = match tok_at(ts, p2) {
                        Some(Token::Within) => match parse_level(ts, src, p2 + 1, 0) {
                            Ok((t, p3)) => {
                                let (u, k) = time_unit_exec(tok_at(ts, p3));
                                (Some((t, u)), p3 + k)
                            },
                            Err(x) => return Err(x),
                        },
                        _ => (None, p2),
                    };
                    match tok_at(ts, p4) {
                        Some(Token::Semicolon) => {},
                        _ => return Err(expected_err(ts, src, p4, "Semicolon")),
                    }
                    match lhs {
                        Expr::Call(name, args) => {
                            proof { lemma_exprs_view(args@, args@.len() as int); }
                            if args.len() == 1 {
                                match &args[0] {
                                    Expr::Identifier(pat) => Ok((
                                        Statement::Unification { name: name, pattern: pat.clone(), expr: rhs },
                                        p4 + 1,
                                    )),
                                    _ => Err(reason_err(ts, src, p4 + 1, owned("Unification pattern must be an identifier"))),
                                }
                            } else {
                                Err(reason_err(ts, src, p4 + 1, owned("Unification expects one pattern argument")))
                            }
                        },
                        _ => Ok((Statement::Assignment { lhs: lhs, expr: rhs, timeout: timeout }, p4 + 1)),
                    }
                },
                Some(Token::Semicolon) => Ok((Statement::Expression(lhs), p + 1)),
                _ => Err(expected_err(ts, src, p, "Semicolon")),
            }
        }
}

/// Statements up to the `}` of a guarded block (see `block_stmts`).
fn parse_block_at(ts: &Vec<SpannedToken>, src: &str, pos: usize, acc: Vec<Statement>)
    -> (r: Result<(Vec<Statement>, usize), SyntaxError>)
    requires
        pos <= ts@.len(),
    ensures
        match block_stmts(ts@, pos as int, stmts_view(acc@, acc@.len() as int)) {
            Some((ss, p)) => r matches Ok((v, q)) && stmts_view(v@, v@.len() as int) == ss && q == p,
            None => r is Err,
        },
        r matches Ok((_, q)) ==> pos <= q <= ts@.len(),
    decreases ts@.len() - pos, 51int,
{
    match tok_at(ts, pos) {
        Some(Token::RBrace) => Ok((acc, pos)),
        _ => match parse_statement_at(ts, src, pos) {
            Ok((s, p)) => {
                let ghost before = acc@;
                let mut acc = acc;
                acc.push(s);
                proof { lemma_stmts_view_push(before, s, before.len() as int); }
                parse_block_at(ts, src, p, acc)
            },
            Err(x) => Err(x),
        },
    }
}

/// The statements of a body (see `body_stmts`).
fn parse_body_from(ts: &Vec<SpannedToken>, src: &str, pos: usize, acc: Vec<Statement>)
    -> (r: Result<(Vec<Statement>, usize), SyntaxError>)
    requires
        pos <= ts@.len(),
    ensures
        match body_stmts(ts@, pos as int, stmts_view(acc@, acc@.len() as int)) {
            Some((ss, p)) => r matches Ok((v, q)) && stmts_view(v@, v@.len() as int) == ss && q == p,
            None => r is Err,
        },
        r matches Ok((_, q)) ==> pos <= q <= ts@.len(),
    decreases ts@.len() - pos, 51int,
{
    match tok_at(ts, pos) {
        None => Ok((acc, pos)),
        Some(Token::RBrace) => Ok((acc, pos)),
        _ => match parse_statement_at(ts, src, pos) {
            Ok((s, p)) => {
                let ghost before = acc@;
                let mut acc = acc;
                acc.push(s);
                proof { lemma_stmts_view_push(before, s, before.len() as int); }
                parse_body_from(ts, src, p, acc)
            },
            Err(x) => Err(x),
        },
    }
}

// ---------------------------------------------------------------------------
// Contracts

/// Contract brackets from `pos`, the `count` before them having given
/// `pre`, `post` and the watchdog `wd`: `[pre]`, then `[post]`, then
/// `[watchdog]` or `[?watchdog]` (optional; never `[true]`); a bracket
/// `[~/name]` gives pre `!name` and post `name` and ends them; a fourth
/// bracket is an error.
pub open spec fn contract_loop(
    ts: Seq<SpannedToken>,
    pos: int,
    count: int,
    pre: ExprV,
    post: ExprV,
    wd: Option<(ExprV, bool)>,
) -> Option<(ExprV, ExprV, Option<(ExprV, bool)>, int)>
    decreases ts.len() - pos,
{
    if pos < 0 || pos > ts.len() {
        None
    } else if tok(ts, pos) matches Some(Token::LBracket) {
        if tok(ts, pos + 1) matches Some(Token::TildeSlash) {
            match ident_name(tok(ts, pos + 2)) {
                Some(n) => if tok(ts, pos + 3) matches Some(Token::RBracket) {
                    Some((ExprV::Not(Box::new(ExprV::Identifier(n))), ExprV::Identifier(n), wd, pos + 4))
                } else {
                    None
                },
                None => None,
            }
        } else if count == 0 || count == 1 {
            match pexpr(ts, pos + 1, 0) {
                Some((e, p)) => if fits(ts, pos, p) && (tok(ts, p) matches Some(Token::RBracket)) {
                    if count == 0 {
                        contract_loop(ts, p + 1, 1, e, post, wd)
                    } else {
                        contract_loop(ts, p + 1, 2, pre, e, wd)
                    }
                } else {
                    None
                },
                None => None,
            }
        } else if count == 2 {
            let optional = tok(ts, pos + 1) matches Some(Token::Question);
            let start = if optional { pos + 2 } else { pos + 1 };
            match pexpr(ts, start, 0) {
                Some((c, p)) => if c == ExprV::Bool(true) {
                    None
                } else if fits(ts, pos, p) && (tok(ts, p) matches Some(Token::RBracket)) {
                    contract_loop(ts, p + 1, 3, pre, post, Some((c, !optional)))
                } else {
                    None
                },
                None => None,
            }
        } else {
            None
        }
    } else {
        Some((pre, post, wd, pos))
    }
}

/// A contract: its brackets from `pos`, with `true` for a missing pre- or
/// postcondition and no watchdog unless one is given.
pub open spec fn pcontract(ts: Seq<SpannedToken>, pos: int) -> Option<(ExprV, ExprV, Option<(ExprV, bool)>, int)> {
    contract_loop(ts, pos, 0, ExprV::Bool(true), ExprV::Bool(true), None)
}

pub open spec fn watchdog_view(w: Option<WatchdogSpec>) -> Option<(ExprV, bool)> {
    match w {
        Some(s) => Some((s.condition@, s.is_required)),
        None => None,
    }
}

fn contract_rest(
    ts: &Vec<SpannedToken>,
    src: &str,
    pos: usize,
    count: u8,
    pre: Expr,
    post: Expr,
    wd: Option<WatchdogSpec>,
) -> (r: Result<(Expr, Expr, Option<WatchdogSpec>, usize), SyntaxError>)
    requires
        pos <= ts@.len(),
        count <= 3,
    ensures
        match contract_loop(ts@, pos as int, count as int, pre@, post@, watchdog_view(wd)) {
            Some((a, b, w, p)) => r matches Ok((x, y, z, q)) && x@ == a && y@ == b && watchdog_view(z) == w && q == p,
            None => r is Err,
        },
        r matches Ok((_, _, _, q)) ==> pos <= q <= ts@.len(),
    decreases ts@.len() - pos,
{
    match tok_at(ts, pos) {
        Some(Token::LBracket) => {
            match tok_at(ts, pos + 1) {
                Some(Token::TildeSlash) => {
                    let n = match expect_identifier(ts, src, pos + 2) {
                        Ok(n) => n,
                        Err(x) => return Err(x),
                    };
                    match tok_at(ts, pos + 3) {
                        Some(Token::RBracket) => {
                            let a = Expr::Identifier(n.clone());
                            assert(a@ == ExprV::Identifier(n@));
                            let b = Expr::Identifier(n);
                            assert(b@ == ExprV::Identifier(a->Identifier_0@));
                            return Ok((Expr::Not(Box::new(a)), b, wd, pos + 4));
                        },
                        _ => return Err(expected_err(ts, src, pos + 3, "RBracket")),
                    }
                },
                _ => {},
            }
            if count == 0 || count == 1 {
                match parse_level(ts, src, pos + 1, 0) {
                    Ok((e, p)) => match tok_at(ts, p) {
                        Some(Token::RBracket) => if count == 0 {
                            contract_rest(ts, src, p + 1, 1, e, post, wd)
                        } else {
                            contract_rest(ts, src, p + 1, 2, pre, e, wd)
                        },
                        _ => Err(expected_err(ts, src, p, "RBracket")),
                    },
                    Err(x) => Err(x),
                }
            } else if count == 2 {
                let optional = match tok_at(ts, pos + 1) {
                    Some(Token::Question) => true,
                    _ => false,
                };
                let start = if optional { pos + 2 } else { pos + 1 };
                match parse_level(ts, src, start, 0) {
                    Ok((c, p)) => {
                        let is_true = match &c {
                            Expr::Bool(b) => *b,
                            _ => false,
                        };
                        if is_true {
                            return Err(reason_err(ts, src, p, owned("Watchdog cannot be [true] - must verify something")));
                        }
                        match tok_at(ts, p) {
                            Some(Token::RBracket) => {
                                let w = WatchdogSpec { condition: c, is_required: !optional };
                                contract_rest(ts, src, p + 1, 3, pre, post, Some(w))
                            },
                            _ => Err(expected_err(ts, src, p, "RBracket")),
                        }
                    },
                    Err(x) => Err(x),
                }
            } else {
                Err(reason_err(ts, src, pos + 1, owned("Too many contract brackets (max 3: [pre][post][watchdog])")))
            }
        },
        _ => Ok((pre, post, wd, pos)),
    }
}

/// A contract (see `pcontract`); its span is that of the token after it,
/// where there is one.
pub fn parse_contract_at(ts: &Vec<SpannedToken>, src: &str, pos: usize) -> (r: Result<(Contract, usize), SyntaxError>)
    requires
        pos <= ts@.len(),
    ensures
        match pcontract(ts@, pos as int) {
            Some((a, b, w, p)) => r matches Ok((c, q)) && c.pre_condition@ == a && c.post_condition@ == b
                && watchdog_view(c.watchdog) == w && q == p && (c.span is Some <==> p < ts@.len()),
            None => r is Err,
        },
        r matches Ok((_, q)) ==> pos <= q <= ts@.len(),
{
    match contract_rest(ts, src, pos, 0, Expr::Bool(true), Expr::Bool(true), None) {
        Ok((pre, post, wd, p)) => {
            let span = if p < ts.len() {
                Some(span_of(src, ts[p].start, ts[p].end))
            } else {
                None
            };
            Ok((Contract { pre_condition: pre, post_condition: post, watchdog: wd, span: span }, p))
        },
        Err(x) => Err(x),
    }
}

// ---------------------------------------------------------------------------
// Transactions

/// What a transaction declaration gives, as plain values.
pub struct TxnParse {
    pub is_async: bool,
    pub is_reactive: bool,
    pub name: Seq<char>,
    pub params: Seq<(Seq<char>, TypeV)>,
    pub pre: ExprV,
    pub post: ExprV,
    pub watchdog: Option<(ExprV, bool)>,
    pub body: Seq<StatementV>,
    pub reactor_speed: Option<u32>,
}

/// Parameters `name: Type` separated by commas, after those in `acc`,
/// while a name comes next.
pub open spec fn param_list(ts: Seq<SpannedToken>, pos: int, acc: Seq<(Seq<char>, TypeV)>)
    -> Option<(Seq<(Seq<char>, TypeV)>, int)>
    decreases ts.len() - pos,
{
    if pos < 0 || pos > ts.len() {
        None
    } else {
        match tok(ts, pos) {
            Some(Token::Identifier(n)) => if tok(ts, pos + 1) matches Some(Token::Colon) {
                match ptype(ts, pos + 2) {
                    Some((t, p)) => if fits(ts, pos, p) {
                        if tok(ts, p) matches Some(Token::Comma) {
                            param_list(ts, p + 1, acc.push((n@, t)))
                        } else {
                            Some((acc.push((n@, t)), p))
                        }
                    } else {
                        None
                    },
                    None => None,
                }
            } else {
                None
            },
            _ => Some((acc, pos)),
        }
    }
}

/// The header words of a transaction: `async`, `rct`, or `rct async`, with
/// the position after them.
pub open spec fn txn_words(ts: Seq<SpannedToken>, pos: int) -> (bool, bool, int) {
    let a1 = tok(ts, pos) matches Some(Token::Async);
    let p1 = if a1 { pos + 1 } else { pos };
    let r = tok(ts, p1) matches Some(Token::Rct);
    let p2 = if r { p1 + 1 } else { p1 };
    let a2 = r && (tok(ts, p2) matches Some(Token::Async));
    (a1 || a2, r, if a2 { p2 + 1 } else { p2 })
}

/// The head of a transaction: header words, `txn`, a name (`name` or
/// `name.method`) and parameters in brackets, which `rct` may not have.
pub open spec fn txn_head(ts: Seq<SpannedToken>, pos: int) -> Option<(bool, bool, Seq<char>, Seq<(Seq<char>, TypeV)>, int)> {
    let (is_async, is_reactive, p3) = txn_words(ts, pos);
    if 0 <= pos <= p3 <= ts.len() && (tok(ts, p3) matches Some(Token::Txn)) {
        match ident_name(tok(ts, p3 + 1)) {
            Some(n) => {
                let dotted = tok(ts, p3 + 2) matches Some(Token::Dot);
                let method = ident_name(tok(ts, p3 + 3));
                if dotted && method is None {
                    None
                } else {
                    let name = if dotted { n + "."@ + method->0 } else { n };
                    let p6 = if dotted { p3 + 4 } else { p3 + 2 };
                    let params: Option<(Seq<(Seq<char>, TypeV)>, int)> = if tok(ts, p6) matches Some(Token::LParen) {
                        match param_list(ts, p6 + 1, seq![]) {
                            Some((ps, q)) => if tok(ts, q) matches Some(Token::RParen) { Some((ps, q + 1)) } else { None },
                            None => None,
                        }
                    } else {
                        Some((seq![], p6))
                    };
                    match params {
                        Some((ps, p7)) => if is_reactive && ps.len() > 0 {
                            None
                        } else {
                            Some((is_async, is_reactive, name, ps, p7))
                        },
                        None => None,
                    }
                }
            },
            None => None,
        }
    } else {
        None
    }
}

/// The body of a transaction: statements in braces, or none before `;`.
pub open spec fn txn_body(ts: Seq<SpannedToken>, pos: int) -> Option<(Seq<StatementV>, int)> {
    if tok(ts, pos) matches Some(Token::Semicolon) {
        Some((seq![], pos))
    } else if tok(ts, pos) matches Some(Token::LBrace) {
        match body_stmts(ts, pos + 1, seq![]) {
            Some((ss, q)) => if tok(ts, q) matches Some(Token::RBrace) { Some((ss, q + 1)) } else { None },
            None => None,
        }
    } else {
        None
    }
}

/// The speed of a reactive transaction: `@N`, optionally followed by `Hz`,
/// with `N` read as a `u32` and not zero; none for other transactions or
/// where no `@` follows.
pub open spec fn txn_speed(ts: Seq<SpannedToken>, pos: int, is_reactive: bool) -> Option<(Option<u32>, int)> {
    if is_reactive && (tok(ts, pos) matches Some(Token::At)) {
        match tok(ts, pos + 1) {
            Some(Token::Integer(v)) => {
                let s = v as u32;
                let hz = match tok(ts, pos + 2) {
                    Some(Token::Identifier(h)) => h@ == "Hz"@,
                    _ => false,
                };
                if s == 0 { None } else { Some((Some(s), if hz { pos + 3 } else { pos + 2 })) }
            },
            _ => None,
        }
    } else {
        Some((None, pos))
    }
}

/// A transaction: its head, a contract, its body, its speed and `;`.
pub open spec fn ptxn(ts: Seq<SpannedToken>, pos: int) -> Option<(TxnParse, int)> {
    match txn_head(ts, pos) {
        Some((is_async, is_reactive, name, ps, p7)) => match pcontract(ts, p7) {
            Some((pre, post, wd, p8)) => match txn_body(ts, p8) {
                Some((ss, p9)) => match txn_speed(ts, p9, is_reactive) {
                    Some((rs, p10)) => if tok(ts, p10) matches Some(Token::Semicolon) {
                        Some((TxnParse {
                            is_async: is_async,
                            is_reactive: is_reactive,
                            name: name,
                            params: ps,
                            pre: pre,
                            post: post,
                            watchdog: wd,
                            body: ss,
                            reactor_speed: rs,
                        }, p10 + 1))
                    } else {
                        None
                    },
                    None => None,
                },
                None => None,
            },
            None => None,
        },
        None => None,
    }
}

pub open spec fn params_view(v: Seq<(String, Type)>) -> Seq<(Seq<char>, TypeV)> {
    v.map_values(|p: (String, Type)| (p.0@, p.1@))
}

pub(crate) fn param_list_exec(ts: &Vec<SpannedToken>, src: &str, pos: usize, acc: Vec<(String, Type)>)
    -> (r: Result<(Vec<(String, Type)>, usize), SyntaxError>)
    requires
        pos <= ts@.len(),
    ensures
        match param_list(ts@, pos as int, params_view(acc@)) {
            Some((ps, p)) => r matches Ok((v, q)) && params_view(v@) == ps && q == p,
            None => r is Err,
        },
        r matches Ok((_, q)) ==> pos <= q <= ts@.len(),
    decreases ts@.len() - pos,
{
    match tok_at(ts, pos) {
        Some(Token::Identifier(n)) => {
            match tok_at(ts, pos + 1) {
                Some(Token::Colon) => {},
                _ => return Err(expected_err(ts, src, pos + 1, "Colon")),
            }
            match parse_type_at(ts, src, pos + 2) {
                Ok((t, p)) => {
                    let ghost before = params_view(acc@);
                    let ghost item = (n@, t@);
                    let mut acc = acc;
                    acc.push((n.clone(), t));
                    assert(params_view(acc@) =~= before.push(item));
                    match tok_at(ts, p) {
                        Some(Token::Comma) => param_list_exec(ts, src, p + 1, acc),
                        _ => Ok((acc, p)),
                    }
                },
                Err(x) => Err(x),
            }
        },
        _ => Ok((acc, pos)),
    }
}

fn txn_head_exec(ts: &Vec<SpannedToken>, src: &str, pos: usize)
    -> (r: Result<(bool, bool, String, Vec<(String, Type)>, usize), SyntaxError>)
    requires
        pos <= ts@.len(),
    ensures
        match txn_head(ts@, pos as int) {
            Some((a, rc, n, ps, p)) => r matches Ok((a2, rc2, n2, ps2, q)) && a2 == a && rc2 == rc && n2@ == n
                && params_view(ps2@) == ps && q == p,
            None => r is Err,
        },
        r matches Ok((_, _, _, _, q)) ==> pos <= q <= ts@.len(),
{
    let mut p = pos;
    let mut is_async = false;
    let mut is_reactive = false;
    match tok_at(ts, p) {
        Some(Token::Async) => {
            is_async = true;
            p = p + 1;
        },
        _ => {},
    }
    match tok_at(ts, p) {
        Some(Token::Rct) => {
            is_reactive = true;
            p = p + 1;
            match tok_at(ts, p) {
                Some(Token::Async) => {
                    is_async = true;
                    p = p + 1;
                },
                _ => {},
            }
        },
        _ => {},
    }
    assert((is_async, is_reactive, p as int) == txn_words(ts@, pos as int));
    match tok_at(ts, p) {
        Some(Token::Txn) => {},
        _ => return Err(expected_err(ts, src, p, "Txn")),
    }
    let n = match expect_identifier(ts, src, p + 1) {
        Ok(n) => n,
        Err(x) => return Err(x),
    };
    let (name, p6) = match tok_at(ts, p + 2) {
        Some(Token::Dot) => match expect_identifier(ts, src, p + 3) {
            Ok(m) => {
                let mut s = concat(n.as_str(), ".");
                s.append(m.as_str());
                (s, p + 4)
            },
            Err(x) => return Err(x),
        },
        _ => (n, p + 2),
    };
    let (params, p7) = match tok_at(ts, p6) {
        Some(Token::LParen) => {
            let empty: Vec<(String, Type)> = Vec::new();
            assert(params_view(empty@) =~= Seq::<(Seq<char>, TypeV)>::empty());
            match param_list_exec(ts, src, p6 + 1, empty) {
                Ok((ps, q)) => match tok_at(ts, q) {
                    Some(Token::RParen) => (ps, q + 1),
                    _ => return Err(expected_err(ts, src, q, "RParen")),
                },
                Err(x) => return Err(x),
            }
        },
        _ => {
            let empty: Vec<(String, Type)> = Vec::new();
            assert(params_view(empty@) =~= Seq::<(Seq<char>, TypeV)>::empty());
            (empty, p6)
        },
    };
    if is_reactive && params.len() > 0 {
        return Err(reason_err(ts, src, p7, owned("rct transactions cannot have parameters")));
    }
    Ok((is_async, is_reactive, name, params, p7))
}

fn txn_body_exec(ts: &Vec<SpannedToken>, src: &str, pos: usize) -> (r: Result<(Vec<Statement>, usize), SyntaxError>)
    requires
        pos <= ts@.len(),
    ensures
        match txn_body(ts@, pos as int) {
            Some((ss, p)) => r matches Ok((v, q)) && stmts_view(v@, v@.len() as int) == ss && q == p,
            None => r is Err,
        },
        r matches Ok((_, q)) ==> pos <= q <= ts@.len(),
{
    let empty: Vec<Statement> = Vec::new();
    assert(stmts_view(empty@, 0) =~= Seq::<StatementV>::empty());
    match tok_at(ts, pos) {
        Some(Token::Semicolon) => Ok((empty, pos)),
        Some(Token::LBrace) => match parse_body_from(ts, src, pos + 1, empty) {
            Ok((ss, q)) => match tok_at(ts, q) {
                Some(Token::RBrace) => Ok((ss, q + 1)),
                _ => Err(expected_err(ts, src, q, "RBrace")),
            },
            Err(x) => Err(x),
        },
        _ => Err(expected_err(ts, src, pos, "LBrace")),
    }
}

fn txn_speed_exec(ts: &Vec<SpannedToken>, src: &str, pos: usize, is_reactive: bool) -> (r: Result<(Option<u32>, usize), SyntaxError>)
    requires
        pos <= ts@.len(),
    ensures
        match txn_speed(ts@, pos as int, is_reactive) {
            Some((s, p)) => r matches Ok((s2, q)) && s2 == s && q == p,
            None => r is Err,
        },
        r matches Ok((_, q)) ==> pos <= q <= ts@.len(),
{
    if !is_reactive {
        return Ok((None, pos));
    }
    match tok_at(ts, pos) {
        Some(Token::At) => match tok_at(ts, pos + 1) {
            Some(Token::Integer(v)) => {
                let s = *v as u32;
                let mut p = pos + 2;
                match tok_at(ts, p) {
                    Some(Token::Identifier(h)) => {
                        let hc = crate::text::chars_of(h.as_str());
                        if crate::text::eq_str(hc.as_slice(), "Hz") {
                            p = p + 1;
                        }
                    },
                    _ => {},
                }
                if s == 0 {
                    return Err(reason_err(ts, src, p, owned("Reactor speed must be positive")));
                }
                Ok((Some(s), p))
            },
            _ => Err(reason_err(ts, src, pos + 1, owned("Expected numeric speed after '@'"))),
        },
        _ => Ok((None, pos)),
    }
}

/// A transaction (see `ptxn`): its fields as parsed, `is_lambda` where the
/// body is empty, the names the precondition reads as its dependencies, and
/// the span of the token after the body, where there is one.
pub fn parse_transaction_at(ts: &Vec<SpannedToken>, src: &str, pos: usize) -> (r: Result<(Transaction, usize), SyntaxError>)
    requires
        pos <= ts@.len(),
    ensures
        match ptxn(ts@, pos as int) {
            Some((x, p)) => r matches Ok((t, q)) && q == p
                && t.is_async == x.is_async && t.is_reactive == x.is_reactive && t.name@ == x.name
                && params_view(t.parameters@) == x.params && t.contract.pre_condition@ == x.pre
                && t.contract.post_condition@ == x.post && watchdog_view(t.contract.watchdog) == x.watchdog
                && stmts_view(t.body@, t.body@.len() as int) == x.body && t.reactor_speed == x.reactor_speed
                && t.is_lambda == (x.body.len() == 0)
                && name_set(t.dependencies@) == deps(x.pre) && no_dup_names(t.dependencies@),
            None => r is Err,
        },
{
    let (is_async, is_reactive, name, params, p7) = match txn_head_exec(ts, src, pos) {
        Ok(x) => x,
        Err(x) => return Err(x),
    };
    let (contract, p8) = match parse_contract_at(ts, src, p7) {
        Ok(x) => x,
        Err(x) => return Err(x),
    };
    let (body, p9) = match txn_body_exec(ts, src, p8) {
        Ok(x) => x,
        Err(x) => return Err(x),
    };
    proof { lemma_stmts_len(body@); }
    let is_lambda = body.len() == 0;
    let span = if p9 < ts.len() { Some(span_of(src, ts[p9].start, ts[p9].end)) } else { None };
    let (reactor_speed, p10) = match txn_speed_exec(ts, src, p9, is_reactive) {
        Ok(x) => x,
        Err(x) => return Err(x),
    };
    match tok_at(ts, p10) {
        Some(Token::Semicolon) => {},
        _ => return Err(expected_err(ts, src, p10, "Semicolon")),
    }
    let dependencies = contract.pre_condition.extract_dependencies();
    Ok((Transaction {
        is_async: is_async,
        is_reactive: is_reactive,
        name: name,
        parameters: params,
        contract: contract,
        body: body,
        reactor_speed: reactor_speed,
        span: span,
        is_lambda: is_lambda,
        dependencies: dependencies,
    }, p10 + 1))
}

proof fn lemma_ptxn_bound(ts: Seq<SpannedToken>, pos: int)
    ensures
        ptxn(ts, pos) matches Some((_, p)) ==> p <= ts.len(),
{
}

proof fn lemma_stmts_len(ss: Seq<Statement>)
    ensures
        stmts_view(ss, ss.len() as int).len() == ss.len(),
    decreases ss.len(),
{
    if ss.len() > 0 {
        lemma_stmts_len(ss.drop_last());
        lemma_stmts_view_push(ss.drop_last(), ss.last(), ss.len() - 1);
        assert(ss.drop_last().push(ss.last()) =~= ss);
    }
}

// ---------------------------------------------------------------------------
// Definitions

/// What a definition gives, as plain values.
pub struct DefnParse {
    pub name: Seq<char>,
    pub type_params: Seq<(Seq<char>, Seq<Seq<char>>)>,
    pub params: Seq<(Seq<char>, TypeV)>,
    pub outputs: Seq<TypeV>,
    pub output_names: Seq<Option<Seq<char>>>,
    pub pre: ExprV,
    pub post: ExprV,
    pub watchdog: Option<(ExprV, bool)>,
    pub body: Seq<StatementV>,
}

/// Trait bounds `A + B + ...` after those in `acc`.
pub open spec fn bound_list(ts: Seq<SpannedToken>, pos: int, acc: Seq<Seq<char>>) -> Option<(Seq<Seq<char>>, int)>
    decreases ts.len() - pos,
{
    if pos < 0 || pos > ts.len() {
        None
    } else {
        match ident_name(tok(ts, pos)) {
            Some(b) => if tok(ts, pos + 1) matches Some(Token::Plus) {
                bound_list(ts, pos + 2, acc.push(b))
            } else {
                Some((acc.push(b), pos + 1))
            },
            None => None,
        }
    }
}

/// Type parameters `T`, `T: A + B`, separated by commas, after `acc`.
pub open spec fn tparam_list(ts: Seq<SpannedToken>, pos: int, acc: Seq<(Seq<char>, Seq<Seq<char>>)>)
    -> Option<(Seq<(Seq<char>, Seq<Seq<char>>)>, int)>
    decreases ts.len() - pos,
{
    if pos < 0 || pos > ts.len() {
        None
    } else {
        match ident_name(tok(ts, pos)) {
            Some(n) => {
                let bounds: Option<(Seq<Seq<char>>, int)> = if tok(ts, pos + 1) matches Some(Token::Colon) {
                    bound_list(ts, pos + 2, seq![])
                } else {
                    Some((seq![], pos + 1))
                };
                match bounds {
                    Some((bs, p)) => if fits(ts, pos, p) {
                        if tok(ts, p) matches Some(Token::Comma) {
                            tparam_list(ts, p + 1, acc.push((n, bs)))
                        } else {
                            Some((acc.push((n, bs)), p))
                        }
                    } else {
                        None
                    },
                    None => None,
                }
            },
            None => None,
        }
    }
}

/// Output types, each optionally named `name: Type`, separated by commas
/// or bars, until a `[` or anything else ends them; a name may not repeat
/// or be that of a parameter.
pub open spec fn output_list(
    ts: Seq<SpannedToken>,
    pos: int,
    params: Set<Seq<char>>,
    types: Seq<TypeV>,
    names: Seq<Option<Seq<char>>>,
) -> Option<(Seq<TypeV>, Seq<Option<Seq<char>>>, int)>
    decreases ts.len() - pos,
{
    if pos < 0 || pos > ts.len() {
        None
    } else if tok(ts, pos) matches Some(Token::LBracket) {
        Some((types, names, pos))
    } else {
        let named: Option<(Option<Seq<char>>, int)> = match tok(ts, pos) {
            Some(Token::Identifier(id)) => if tok(ts, pos + 1) matches Some(Token::Colon) {
                if names.contains(Some(id@)) || params.contains(id@) {
                    None
                } else {
                    Some((Some(id@), pos + 2))
                }
            } else {
                Some((None, pos))
            },
            _ => Some((None, pos)),
        };
        match named {
            Some((nm, p1)) => match ptype(ts, p1) {
                Some((t, p)) => if fits(ts, pos, p) {
                    if (tok(ts, p) matches Some(Token::Comma)) || (tok(ts, p) matches Some(Token::Pipe)) {
                        output_list(ts, p + 1, params, types.push(t), names.push(nm))
                    } else {
                        Some((types.push(t), names.push(nm), p))
                    }
                } else {
                    None
                },
                None => None,
            },
            None => None,
        }
    }
}

/// The names of the parameters.
pub open spec fn param_names(ps: Seq<(Seq<char>, TypeV)>) -> Set<Seq<char>> {
    ps.map_values(|p: (Seq<char>, TypeV)| p.0).to_set()
}

/// The head of a definition: `defn`, its name, type parameters `<...>`,
/// parameters `(...)`, and outputs after `->`.
pub open spec fn defn_head(ts: Seq<SpannedToken>, pos: int)
    -> Option<(Seq<char>, Seq<(Seq<char>, Seq<Seq<char>>)>, Seq<(Seq<char>, TypeV)>, Seq<TypeV>, Seq<Option<Seq<char>>>, int)>
{
    if 0 <= pos <= ts.len() && (tok(ts, pos) matches Some(Token::Defn)) {
        match ident_name(tok(ts, pos + 1)) {
            Some(name) => {
                let tps: Option<(Seq<(Seq<char>, Seq<Seq<char>>)>, int)> = if tok(ts, pos + 2) matches Some(Token::Lt) {
                    match tparam_list(ts, pos + 3, seq![]) {
                        Some((tp, q)) => if tok(ts, q) matches Some(Token::Gt) { Some((tp, q + 1)) } else { None },
                        None => None,
                    }
                } else {
                    Some((seq![], pos + 2))
                };
                match tps {
                    Some((tp, p1)) => {
                        let params: Option<(Seq<(Seq<char>, TypeV)>, int)> = if tok(ts, p1) matches Some(Token::LParen) {
                            match param_list(ts, p1 + 1, seq![]) {
                                Some((ps, q)) => if tok(ts, q) matches Some(Token::RParen) { Some((ps, q + 1)) } else { None },
                                None => None,
                            }
                        } else {
                            Some((seq![], p1))
                        };
                        match params {
                            Some((ps, p2)) => if tok(ts, p2) matches Some(Token::Arrow) {
                                match output_list(ts, p2 + 1, param_names(ps), seq![], seq![]) {
                                    Some((outs, names, p3)) => Some((name, tp, ps, outs, names, p3)),
                                    None => None,
                                }
                            } else {
                                Some((name, tp, ps, seq![], seq![], p2))
                            },
                            None => None,
                        }
                    },
                    None => None,
                }
            },
            None => None,
        }
    } else {
        None
    }
}

/// A definition: its head, a contract, and a body `{ ... };`, or none where
/// a `;` follows the contract (the `;` is left unread).
pub open spec fn pdefn(ts: Seq<SpannedToken>, pos: int) -> Option<(DefnParse, int)> {
    match defn_head(ts, pos) {
        Some((name, tp, ps, outs, names, p3)) => match pcontract(ts, p3) {
            Some((pre, post, wd, p4)) => {
                let body: Option<(Seq<StatementV>, int)> = if tok(ts, p4) matches Some(Token::Semicolon) {
                    Some((seq![], p4))
                } else if tok(ts, p4) matches Some(Token::LBrace) {
                    match body_stmts(ts, p4 + 1, seq![]) {
                        Some((ss, q)) => if (tok(ts, q) matches Some(Token::RBrace)) && (tok(ts, q + 1) matches Some(Token::Semicolon)) {
                            Some((ss, q + 2))
                        } else {
                            None
                        },
                        None => None,
                    }
                } else {
                    None
                };
                match body {
                    Some((ss, p5)) => Some((DefnParse {
                        name: name,
                        type_params: tp,
                        params: ps,
                        outputs: outs,
                        output_names: names,
                        pre: pre,
                        post: post,
                        watchdog: wd,
                        body: ss,
                    }, p5)),
                    None => None,
                }
            },
            None => None,
        },
        None => None,
    }
}

pub open spec fn tparams_view(v: Seq<TypeParam>) -> Seq<(Seq<char>, Seq<Seq<char>>)> {
    v.map_values(|t: TypeParam| (t.name@, bounds_view(t.bounds@)))
}

/// The names of `HasTrait` bounds (other bounds give the empty name).
pub open spec fn bounds_view(v: Seq<TypeBound>) -> Seq<Seq<char>> {
    v.map_values(|b: TypeBound| match b {
        TypeBound::HasTrait(n) => n@,
        _ => Seq::empty(),
    })
}

pub open spec fn out_names_view(v: Seq<Option<String>>) -> Seq<Option<Seq<char>>> {
    v.map_values(|o: Option<String>| match o {
        Some(s) => Some(s@),
        None => None,
    })
}

fn bound_list_exec(ts: &Vec<SpannedToken>, src: &str, pos: usize, acc: Vec<TypeBound>)
    -> (r: Result<(Vec<TypeBound>, usize), SyntaxError>)
    requires
        pos <= ts@.len(),
        forall|i: int| 0 <= i < acc@.len() ==> #[trigger] acc@[i] is HasTrait,
    ensures
        match bound_list(ts@, pos as int, bounds_view(acc@)) {
            Some((bs, p)) => r matches Ok((v, q)) && bounds_view(v@) == bs && q == p
                && forall|i: int| 0 <= i < v@.len() ==> #[trigger] v@[i] is HasTrait,
            None => r is Err,
        },
        r matches Ok((_, q)) ==> pos < q <= ts@.len(),
    decreases ts@.len() - pos,
{
    match expect_identifier(ts, src, pos) {
        Ok(b) => {
            let ghost before = bounds_view(acc@);
            let ghost bv = b@;
            let mut acc = acc;
            acc.push(TypeBound::HasTrait(b));
            assert(bounds_view(acc@) =~= before.push(bv));
            match tok_at(ts, pos + 1) {
                Some(Token::Plus) => bound_list_exec(ts, src, pos + 2, acc),
                _ => Ok((acc, pos + 1)),
            }
        },
        Err(x) => Err(x),
    }
}

pub(crate) fn tparam_list_exec(ts: &Vec<SpannedToken>, src: &str, pos: usize, acc: Vec<TypeParam>)
    -> (r: Result<(Vec<TypeParam>, usize), SyntaxError>)
    requires
        pos <= ts@.len(),
    ensures
        match tparam_list(ts@, pos as int, tparams_view(acc@)) {
            Some((tp, p)) => r matches Ok((v, q)) && tparams_view(v@) == tp && q == p,
            None => r is Err,
        },
        r matches Ok((_, q)) ==> pos < q <= ts@.len(),
    decreases ts@.len() - pos,
{
    let n = match expect_identifier(ts, src, pos) {
        Ok(n) => n,
        Err(x) => return Err(x),
    };
    let empty: Vec<TypeBound> = Vec::new();
    assert(bounds_view(empty@) =~= Seq::<Seq<char>>::empty());
    let (bounds, p) = match tok_at(ts, pos + 1) {
        Some(Token::Colon) => match bound_list_exec(ts, src, pos + 2, empty) {
            Ok(x) => x,
            Err(x) => return Err(x),
        },
        _ => (empty, pos + 1),
    };
    let ghost before = tparams_view(acc@);
    let ghost item = (n@, bounds_view(bounds@));
    let mut acc = acc;
    acc.push(TypeParam { name: n, bounds: bounds });
    assert(tparams_view(acc@) =~= before.push(item));
    match tok_at(ts, p) {
        Some(Token::Comma) => tparam_list_exec(ts, src, p + 1, acc),
        _ => Ok((acc, p)),
    }
}

/// Whether `names` holds `Some(id)`.
fn has_name(names: &Vec<Option<String>>, id: &String) -> (b: bool)
    ensures
        b == out_names_view(names@).contains(Some(id@)),
{
    let ghost target = Some(id@);
    let mut i: usize = 0;
    while i < names.len()
        invariant
            i <= names@.len(),
            target == Some(id@),
            forall|j: int| 0 <= j < i ==> out_names_view(names@)[j] != target,
        decreases names@.len() - i,
    {
        match &names[i] {
            Some(s) => {
                if crate::compiler::proof_engine::name_eq(s, id) {
                    assert(out_names_view(names@)[i as int] == target);
                    return true;
                }
            },
            None => {},
        }
        i = i + 1;
    }
    proof {
        if out_names_view(names@).contains(target) {
            let j = choose|j: int| 0 <= j < out_names_view(names@).len() && out_names_view(names@)[j] == target;
            assert(out_names_view(names@)[j] != target);
        }
    }
    false
}

/// Whether a parameter is named `id`.
fn is_param(params: &Vec<(String, Type)>, id: &String) -> (b: bool)
    ensures
        b == param_names(params_view(params@)).contains(id@),
{
    let ghost names = params_view(params@).map_values(|p: (Seq<char>, TypeV)| p.0);
    let mut i: usize = 0;
    while i < params.len()
        invariant
            i <= params@.len(),
            names == params_view(params@).map_values(|p: (Seq<char>, TypeV)| p.0),
            forall|j: int| 0 <= j < i ==> names[j] != id@,
        decreases params@.len() - i,
    {
        if crate::compiler::proof_engine::name_eq(&params[i].0, id) {
            assert(names[i as int] == id@);
            return true;
        }
        i = i + 1;
    }
    proof {
        if names.contains(id@) {
            let j = choose|j: int| 0 <= j < names.len() && names[j] == id@;
            assert(names[j] != id@);
        }
    }
    false
}

fn output_list_exec(
    ts: &Vec<SpannedToken>,
    src: &str,
    pos: usize,
    params: &Vec<(String, Type)>,
    types: Vec<Type>,
    names: Vec<Option<String>>,
) -> (r: Result<(Vec<Type>, Vec<Option<String>>, usize), SyntaxError>)
    requires
        pos <= ts@.len(),
    ensures
        match output_list(ts@, pos as int, param_names(params_view(params@)), types_view(types@, types@.len() as int), out_names_view(names@)) {
            Some((ot, on, p)) => r matches Ok((v, w, q)) && types_view(v@, v@.len() as int) == ot && out_names_view(w@) == on && q == p,
            None => r is Err,
        },
        r matches Ok((_, _, q)) ==> pos <= q <= ts@.len(),
    decreases ts@.len() - pos,
{
    match tok_at(ts, pos) {
        Some(Token::LBracket) => return Ok((types, names, pos)),
        _ => {},
    }
    let (nm, p1): (Option<String>, usize) = match tok_at(ts, pos) {
        Some(Token::Identifier(id)) => match tok_at(ts, pos + 1) {
            Some(Token::Colon) => {
                if has_name(&names, id) {
                    let m = concat("Duplicate output name: '", id.as_str());
                    let mut m = m;
                    m.append("'");
                    return Err(reason_err(ts, src, pos + 2, m));
                }
                if is_param(params, id) {
                    let mut m = concat("Output name '", id.as_str());
                    m.append("' shadows parameter");
                    return Err(reason_err(ts, src, pos + 2, m));
                }
                (Some(id.clone()), pos + 2)
            },
            _ => (None, pos),
        },
        _ => (None, pos),
    };
    match parse_type_at(ts, src, p1) {
        Ok((t, p)) => {
            let ghost tb = types_view(types@, types@.len() as int);
            let ghost nb = out_names_view(names@);
            let ghost old_types = types@;
            let ghost tv = t@;
            let ghost nv = out_names_view(seq![nm])[0];
            let mut types = types;
            let mut names = names;
            types.push(t);
            names.push(nm);
            proof {
                lemma_types_view(types@, types@.len() as int);
                lemma_types_view(old_types, old_types.len() as int);
                assert(types_view(types@, types@.len() as int) =~= tb.push(tv));
                assert(out_names_view(names@) =~= nb.push(nv));
            }
            match tok_at(ts, p) {
                Some(Token::Comma) | Some(Token::Pipe) => output_list_exec(ts, src, p + 1, params, types, names),
                _ => Ok((types, names, p)),
            }
        },
        Err(x) => Err(x),
    }
}

fn defn_head_exec(ts: &Vec<SpannedToken>, src: &str, pos: usize)
    -> (r: Result<(String, Vec<TypeParam>, Vec<(String, Type)>, Vec<Type>, Vec<Option<String>>, usize), SyntaxError>)
    requires
        pos <= ts@.len(),
    ensures
        match defn_head(ts@, pos as int) {
            Some((n, tp, ps, outs, names, p)) => r matches Ok((n2, tp2, ps2, outs2, names2, q)) && n2@ == n
                && tparams_view(tp2@) == tp && params_view(ps2@) == ps && types_view(outs2@, outs2@.len() as int) == outs
                && out_names_view(names2@) == names && q == p,
            None => r is Err,
        },
        r matches Ok((_, _, _, _, _, q)) ==> pos <= q <= ts@.len(),
{
    match tok_at(ts, pos) {
        Some(Token::Defn) => {},
        _ => return Err(expected_err(ts, src, pos, "Defn")),
    }
    let name = match expect_identifier(ts, src, pos + 1) {
        Ok(n) => n,
        Err(x) => return Err(x),
    };
    let (tps, p1) = match tok_at(ts, pos + 2) {
        Some(Token::Lt) => {
            let empty: Vec<TypeParam> = Vec::new();
            assert(tparams_view(empty@) =~= Seq::<(Seq<char>, Seq<Seq<char>>)>::empty());
            match tparam_list_exec(ts, src, pos + 3, empty) {
                Ok((tp, q)) => match tok_at(ts, q) {
                    Some(Token::Gt) => (tp, q + 1),
                    _ => return Err(expected_err(ts, src, q, "Gt")),
                },
                Err(x) => return Err(x),
            }
        },
        _ => {
            let empty: Vec<TypeParam> = Vec::new();
            assert(tparams_view(empty@) =~= Seq::<(Seq<char>, Seq<Seq<char>>)>::empty());
            (empty, pos + 2)
        },
    };
    let (params, p2) = match tok_at(ts, p1) {
        Some(Token::LParen) => {
            let empty: Vec<(String, Type)> = Vec::new();
            assert(params_view(empty@) =~= Seq::<(Seq<char>, TypeV)>::empty());
            match param_list_exec(ts, src, p1 + 1, empty) {
                Ok((ps, q)) => match tok_at(ts, q) {
                    Some(Token::RParen) => (ps, q + 1),
                    _ => return Err(expected_err(ts, src, q, "RParen")),
                },
                Err(x) => return Err(x),
            }
        },
        _ => {
            let empty: Vec<(String, Type)> = Vec::new();
            assert(params_view(empty@) =~= Seq::<(Seq<char>, TypeV)>::empty());
            (empty, p1)
        },
    };
    let no_types: Vec<Type> = Vec::new();
    let no_names: Vec<Option<String>> = Vec::new();
    assert(types_view(no_types@, 0) =~= Seq::<TypeV>::empty());
    assert(out_names_view(no_names@) =~= Seq::<Option<Seq<char>>>::empty());
    match tok_at(ts, p2) {
        Some(Token::Arrow) => match output_list_exec(ts, src, p2 + 1, &params, no_types, no_names) {
            Ok((outs, names, p3)) => Ok((name, tps, params, outs, names, p3)),
            Err(x) => Err(x),
        },
        _ => Ok((name, tps, params, no_types, no_names, p2)),
    }
}

/// A definition (see `pdefn`): its fields as parsed, an output structure
/// `Tuple` of the outputs where there are two or more, and `is_lambda`
/// where the body is empty.
pub fn parse_definition_at(ts: &Vec<SpannedToken>, src: &str, pos: usize) -> (r: Result<(Definition, usize), SyntaxError>)
    requires
        pos <= ts@.len(),
    ensures
        match pdefn(ts@, pos as int) {
            Some((x, p)) => r matches Ok((d, q)) && q == p && d.name@ == x.name
                && tparams_view(d.type_params@) == x.type_params && params_view(d.parameters@) == x.params
                && types_view(d.outputs@, d.outputs@.len() as int) == x.outputs
                && out_names_view(d.output_names@) == x.output_names
                && (match d.output_type {
                    Some(o) => x.outputs.len() > 1 && o is Tuple && output_types(o) == x.outputs,
                    None => x.outputs.len() <= 1,
                })
                && d.contract.pre_condition@ == x.pre && d.contract.post_condition@ == x.post
                && watchdog_view(d.contract.watchdog) == x.watchdog
                && stmts_view(d.body@, d.body@.len() as int) == x.body && d.is_lambda == (x.body.len() == 0),
            None => r is Err,
        },
        r matches Ok((_, q)) ==> q <= ts@.len(),
{
    let (name, tps, params, outs, names, p3) = match defn_head_exec(ts, src, pos) {
        Ok(x) => x,
        Err(x) => return Err(x),
    };
    let (contract, p4) = match parse_contract_at(ts, src, p3) {
        Ok(x) => x,
        Err(x) => return Err(x),
    };
    let empty: Vec<Statement> = Vec::new();
    assert(stmts_view(empty@, 0) =~= Seq::<StatementV>::empty());
    let (body, p5) = match tok_at(ts, p4) {
        Some(Token::Semicolon) => (empty, p4),
        Some(Token::LBrace) => match parse_body_from(ts, src, p4 + 1, empty) {
            Ok((ss, q)) => {
                match tok_at(ts, q) {
                    Some(Token::RBrace) => {},
                    _ => return Err(expected_err(ts, src, q, "RBrace")),
                }
                match tok_at(ts, q + 1) {
                    Some(Token::Semicolon) => (ss, q + 2),
                    _ => return Err(expected_err(ts, src, q + 1, "Semicolon")),
                }
            },
            Err(x) => return Err(x),
        },
        _ => return Err(expected_err(ts, src, p4, "LBrace")),
    };
    proof {
        lemma_stmts_len(body@);
        lemma_types_view(outs@, outs@.len() as int);
    }
    let is_lambda = body.len() == 0;
    let output_type = if outs.len() > 1 {
        Some(OutputType::Tuple(crate::compiler::ast::copy_types(&outs)))
    } else {
        None
    };
    Ok((Definition {
        name: name,
        type_params: tps,
        parameters: params,
        outputs: outs,
        output_type: output_type,
        output_names: names,
        contract: contract,
        body: body,
        is_lambda: is_lambda,
    }, p5))
}

// ---------------------------------------------------------------------------
// Constants

/// A constant `const name: Type = expr;`.
pub open spec fn pconst(ts: Seq<SpannedToken>, pos: int) -> Option<(Seq<char>, TypeV, ExprV, int)> {
    if 0 <= pos <= ts.len() && (tok(ts, pos) matches Some(Token::Const)) && (tok(ts, pos + 2) matches Some(Token::Colon)) {
        match ident_name(tok(ts, pos + 1)) {
            Some(n) => match ptype(ts, pos + 3) {
                Some((t, p)) => if tok(ts, p) matches Some(Token::Eq) {
                    match pexpr(ts, p + 1, 0) {
                        Some((e, q)) => if tok(ts, q) matches Some(Token::Semicolon) { Some((n, t, e, q + 1)) } else { None },
                        None => None,
                    }
                } else {
                    None
                },
                None => None,
            },
            None => None,
        }
    } else {
        None
    }
}

/// A constant (see `pconst`).
pub fn parse_constant_at(ts: &Vec<SpannedToken>, src: &str, pos: usize) -> (r: Result<(Constant, usize), SyntaxError>)
    requires
        pos <= ts@.len(),
    ensures
        match pconst(ts@, pos as int) {
            Some((n, t, e, p)) => r matches Ok((c, q)) && c.name@ == n && c.ty@ == t && c.expr@ == e && q == p,
            None => r is Err,
        },
        r matches Ok((_, q)) ==> q <= ts@.len(),
{
    match tok_at(ts, pos) {
        Some(Token::Const) => {},
        _ => return Err(expected_err(ts, src, pos, "Const")),
    }
    let name = match expect_identifier(ts, src, pos + 1) {
        Ok(n) => n,
        Err(x) => return Err(x),
    };
    match tok_at(ts, pos + 2) {
        Some(Token::Colon) => {},
        _ => return Err(expected_err(ts, src, pos + 2, "Colon")),
    }
    let (ty, p) = match parse_type_at(ts, src, pos + 3) {
        Ok(x) => x,
        Err(x) => return Err(x),
    };
    match tok_at(ts, p) {
        Some(Token::Eq) => {},
        _ => return Err(expected_err(ts, src, p, "Eq")),
    }
    let (expr, q) = match parse_level(ts, src, p + 1, 0) {
        Ok(x) => x,
        Err(x) => return Err(x),
    };
    match tok_at(ts, q) {
        Some(Token::Semicolon) => Ok((Constant { name: name, ty: ty, expr: expr }, q + 1)),
        _ => Err(expected_err(ts, src, q, "Semicolon")),
    }
}

// ---------------------------------------------------------------------------
// The parser over a token list

/// A parser over the tokens of one source text, at a position among them.
pub struct Parser {
    tokens: Vec<SpannedToken>,
    source: String,
    pos: usize,
}

impl Parser {
    /// The tokens being parsed.
    pub closed spec fn tokens_view(&self) -> Seq<SpannedToken> {
        self.tokens@
    }

    /// The position of the next token to read.
    pub closed spec fn position(&self) -> int {
        self.pos as int
    }

    /// The position lies within the tokens (or just past them).
    pub closed spec fn wf(&self) -> bool {
        self.pos <= self.tokens@.len()
    }

    /// A parser at the first of `tokens`, read from `source`.
    pub fn new(tokens: Vec<SpannedToken>, source: String) -> (p: Self)
        ensures
            p.wf(),
            p.tokens_view() == tokens@,
            p.position() == 0,
    {
        Parser { tokens: tokens, source: source, pos: 0 }
    }

    /// The bytes of the source the tokens were read from.
    pub closed spec fn source_bytes(&self) -> Seq<u8> {
        vstd::utf8::encode_utf8(self.source@)
    }

    /// The whole file from the current position (see `pprogram`); where it
    /// parses, every token has been read.
    pub fn parse(&mut self) -> (r: Result<Program, SyntaxError>)
        requires
            old(self).wf(),
        ensures
            final(self).wf(),
            final(self).tokens_view() == old(self).tokens_view(),
            match pprogram(old(self).tokens_view(), old(self).source_bytes(), old(self).position()) {
                Some((sp, vs)) => r matches Ok(g) && g.reactor_speed == sp && items_match(g.items@, vs)
                    && g.comments@.len() == 0 && final(self).position() == old(self).tokens_view().len(),
                None => r is Err,
            },
    {
        let r = parse_program_at(&self.tokens, self.source.as_str(), self.pos);
        if r.is_ok() {
            self.pos = self.tokens.len();
        }
        r
    }

    /// A reactive struct at the current position (see `prstruct`).
    pub fn parse_rstruct(&mut self) -> (r: Result<RStructDefinition, SyntaxError>)
        requires
            old(self).wf(),
        ensures
            final(self).wf(),
            final(self).tokens_view() == old(self).tokens_view(),
            match prstruct(old(self).tokens_view(), old(self).source_bytes(), old(self).position()) {
                Some((v, p)) => r matches Ok(d) && rstruct_matches(d, v) && final(self).position() == p,
                None => r is Err && final(self).position() == old(self).position(),
            },
    {
        match parse_rstruct_at(&self.tokens, self.source.as_str(), self.pos) {
            Ok((d, p)) => {
                self.pos = p;
                Ok(d)
            },
            Err(x) => Err(x),
        }
    }

    /// A top-level item at the current position (see `ptop`).
    pub fn parse_top_level(&mut self) -> (r: Result<TopLevel, SyntaxError>)
        requires
            old(self).wf(),
        ensures
            final(self).wf(),
            final(self).tokens_view() == old(self).tokens_view(),
            match ptop(old(self).tokens_view(), old(self).source_bytes(), old(self).position()) {
                Some((v, p)) => r matches Ok(t) && top_matches(t, v) && final(self).position() == p,
                None => r is Err && final(self).position() == old(self).position(),
            },
    {
        match parse_top_level_at(&self.tokens, self.source.as_str(), self.pos) {
            Ok((t, p)) => {
                self.pos = p;
                Ok(t)
            },
            Err(x) => Err(x),
        }
    }

    /// The position of the next token to read.
    pub fn pos(&self) -> (p: usize)
        ensures
            p as int == self.position(),
    {
        self.pos
    }

    /// An expression (see `pexpr` at level 0).
    pub fn parse_expression(&mut self) -> (r: Result<Expr, SyntaxError>)
        requires
            old(self).wf(),
        ensures
            final(self).wf(),
            final(self).tokens_view() == old(self).tokens_view(),
            match pexpr(old(self).tokens_view(), old(self).position(), 0) {
                Some((e, p)) => r matches Ok(x) && x@ == e && final(self).position() == p,
                None => r is Err && final(self).position() == old(self).position(),
            },
    {
        match parse_level(&self.tokens, self.source.as_str(), self.pos, 0) {
            Ok((x, p)) => {
                self.pos = p;
                Ok(x)
            },
            Err(e) => Err(e),
        }
    }

    /// Operands joined by `||` (see `pexpr` at level 0).
    pub fn parse_or(&mut self) -> (r: Result<Expr, SyntaxError>)
        requires
            old(self).wf(),
        ensures
            final(self).wf(),
            final(self).tokens_view() == old(self).tokens_view(),
            match pexpr(old(self).tokens_view(), old(self).position(), 0) {
                Some((e, p)) => r matches Ok(x) && x@ == e && final(self).position() == p,
                None => r is Err && final(self).position() == old(self).position(),
            },
    {
        match parse_level(&self.tokens, self.source.as_str(), self.pos, 0) {
            Ok((x, p)) => {
                self.pos = p;
                Ok(x)
            },
            Err(e) => Err(e),
        }
    }

    /// Operands joined by `&&` (see `pexpr` at level 1).
    pub fn parse_and(&mut self) -> (r: Result<Expr, SyntaxError>)
        requires
            old(self).wf(),
        ensures
            final(self).wf(),
            final(self).tokens_view() == old(self).tokens_view(),
            match pexpr(old(self).tokens_view(), old(self).position(), 1) {
                Some((e, p)) => r matches Ok(x) && x@ == e && final(self).position() == p,
                None => r is Err && final(self).position() == old(self).position(),
            },
    {
        match parse_level(&self.tokens, self.source.as_str(), self.pos, 1) {
            Ok((x, p)) => {
                self.pos = p;
                Ok(x)
            },
            Err(e) => Err(e),
        }
    }

    /// Operands joined by `|` (see `pexpr` at level 2).
    pub fn parse_bitwise_or(&mut self) -> (r: Result<Expr, SyntaxError>)
        requires
            old(self).wf(),
        ensures
            final(self).wf(),
            final(self).tokens_view() == old(self).tokens_view(),
            match pexpr(old(self).tokens_view(), old(self).position(), 2) {
                Some((e, p)) => r matches Ok(x) && x@ == e && final(self).position() == p,
                None => r is Err && final(self).position() == old(self).position(),
            },
    {
        match parse_level(&self.tokens, self.source.as_str(), self.pos, 2) {
            Ok((x, p)) => {
                self.pos = p;
                Ok(x)
            },
            Err(e) => Err(e),
        }
    }

    /// Operands joined by `^` (see `pexpr` at level 3).
    pub fn parse_bitwise_xor(&mut self) -> (r: Result<Expr, SyntaxError>)
        requires
            old(self).wf(),
        ensures
            final(self).wf(),
            final(self).tokens_view() == old(self).tokens_view(),
            match pexpr(old(self).tokens_view(), old(self).position(), 3) {
                Some((e, p)) => r matches Ok(x) && x@ == e && final(self).position() == p,
                None => r is Err && final(self).position() == old(self).position(),
            },
    {
        match parse_level(&self.tokens, self.source.as_str(), self.pos, 3) {
            Ok((x, p)) => {
                self.pos = p;
                Ok(x)
            },
            Err(e) => Err(e),
        }
    }

    /// Operands joined by `&` (see `pexpr` at level 4).
    pub fn parse_bitwise_and(&mut self) -> (r: Result<Expr, SyntaxError>)
        requires
            old(self).wf(),
        ensures
            final(self).wf(),
            final(self).tokens_view() == old(self).tokens_view(),
            match pexpr(old(self).tokens_view(), old(self).position(), 4) {
                Some((e, p)) => r matches Ok(x) && x@ == e && final(self).position() == p,
                None => r is Err && final(self).position() == old(self).position(),
            },
    {
        match parse_level(&self.tokens, self.source.as_str(), self.pos, 4) {
            Ok((x, p)) => {
                self.pos = p;
                Ok(x)
            },
            Err(e) => Err(e),
        }
    }

    /// Operands joined by `==` and `!=` (see `pexpr` at level 5).
    pub fn parse_equality(&mut self) -> (r: Result<Expr, SyntaxError>)
        requires
            old(self).wf(),
        ensures
            final(self).wf(),
            final(self).tokens_view() == old(self).tokens_view(),
            match pexpr(old(self).tokens_view(), old(self).position(), 5) {
                Some((e, p)) => r matches Ok(x) && x@ == e && final(self).position() == p,
                None => r is Err && final(self).position() == old(self).position(),
            },
    {
        match parse_level(&self.tokens, self.source.as_str(), self.pos, 5) {
            Ok((x, p)) => {
                self.pos = p;
                Ok(x)
            },
            Err(e) => Err(e),
        }
    }

    /// Operands joined by `<`, `<=`, `>` and `>=` (see `pexpr` at level 6).
    pub fn parse_comparison(&mut self) -> (r: Result<Expr, SyntaxError>)
        requires
            old(self).wf(),
        ensures
            final(self).wf(),
            final(self).tokens_view() == old(self).tokens_view(),
            match pexpr(old(self).tokens_view(), old(self).position(), 6) {
                Some((e, p)) => r matches Ok(x) && x@ == e && final(self).position() == p,
                None => r is Err && final(self).position() == old(self).position(),
            },
    {
        match parse_level(&self.tokens, self.source.as_str(), self.pos, 6) {
            Ok((x, p)) => {
                self.pos = p;
                Ok(x)
            },
            Err(e) => Err(e),
        }
    }

    /// Operands joined by `<<` and `>>` (see `pexpr` at level 7).
    pub fn parse_shift(&mut self) -> (r: Result<Expr, SyntaxError>)
        requires
            old(self).wf(),
        ensures
            final(self).wf(),
            final(self).tokens_view() == old(self).tokens_view(),
            match pexpr(old(self).tokens_view(), old(self).position(), 7) {
                Some((e, p)) => r matches Ok(x) && x@ == e && final(self).position() == p,
                None => r is Err && final(self).position() == old(self).position(),
            },
    {
        match parse_level(&self.tokens, self.source.as_str(), self.pos, 7) {
            Ok((x, p)) => {
                self.pos = p;
                Ok(x)
            },
            Err(e) => Err(e),
        }
    }

    /// Operands joined by `+` and `-` (see `pexpr` at level 8).
    pub fn parse_additive(&mut self) -> (r: Result<Expr, SyntaxError>)
        requires
            old(self).wf(),
        ensures
            final(self).wf(),
            final(self).tokens_view() == old(self).tokens_view(),
            match pexpr(old(self).tokens_view(), old(self).position(), 8) {
                Some((e, p)) => r matches Ok(x) && x@ == e && final(self).position() == p,
                None => r is Err && final(self).position() == old(self).position(),
            },
    {
        match parse_level(&self.tokens, self.source.as_str(), self.pos, 8) {
            Ok((x, p)) => {
                self.pos = p;
                Ok(x)
            },
            Err(e) => Err(e),
        }
    }

    /// Operands joined by `*` and `/` (see `pexpr` at level 9).
    pub fn parse_multiplicative(&mut self) -> (r: Result<Expr, SyntaxError>)
        requires
            old(self).wf(),
        ensures
            final(self).wf(),
            final(self).tokens_view() == old(self).tokens_view(),
            match pexpr(old(self).tokens_view(), old(self).position(), 9) {
                Some((e, p)) => r matches Ok(x) && x@ == e && final(self).position() == p,
                None => r is Err && final(self).position() == old(self).position(),
            },
    {
        match parse_level(&self.tokens, self.source.as_str(), self.pos, 9) {
            Ok((x, p)) => {
                self.pos = p;
                Ok(x)
            },
            Err(e) => Err(e),
        }
    }

    /// A unary expression (see `punary`).
    pub fn parse_unary(&mut self) -> (r: Result<Expr, SyntaxError>)
        requires
            old(self).wf(),
        ensures
            final(self).wf(),
            final(self).tokens_view() == old(self).tokens_view(),
            match punary(old(self).tokens_view(), old(self).position()) {
                Some((e, p)) => r matches Ok(x) && x@ == e && final(self).position() == p,
                None => r is Err && final(self).position() == old(self).position(),
            },
    {
        match parse_unary_at(&self.tokens, self.source.as_str(), self.pos) {
            Ok((x, p)) => {
                self.pos = p;
                Ok(x)
            },
            Err(e) => Err(e),
        }
    }

    /// A postfix expression (see `ppostfix`).
    pub fn parse_postfix(&mut self) -> (r: Result<Expr, SyntaxError>)
        requires
            old(self).wf(),
        ensures
            final(self).wf(),
            final(self).tokens_view() == old(self).tokens_view(),
            match ppostfix(old(self).tokens_view(), old(self).position()) {
                Some((e, p)) => r matches Ok(x) && x@ == e && final(self).position() == p,
                None => r is Err && final(self).position() == old(self).position(),
            },
    {
        match parse_postfix_at(&self.tokens, self.source.as_str(), self.pos) {
            Ok((x, p)) => {
                self.pos = p;
                Ok(x)
            },
            Err(e) => Err(e),
        }
    }

    /// A primary expression (see `pprimary`).
    pub fn parse_primary(&mut self) -> (r: Result<Expr, SyntaxError>)
        requires
            old(self).wf(),
        ensures
            final(self).wf(),
            final(self).tokens_view() == old(self).tokens_view(),
            match pprimary(old(self).tokens_view(), old(self).position()) {
                Some((e, p)) => r matches Ok(x) && x@ == e && final(self).position() == p,
                None => r is Err && final(self).position() == old(self).position(),
            },
    {
        match parse_primary_at(&self.tokens, self.source.as_str(), self.pos) {
            Ok((x, p)) => {
                self.pos = p;
                Ok(x)
            },
            Err(e) => Err(e),
        }
    }

    /// A type (see `ptype`).
    pub fn parse_type(&mut self) -> (r: Result<Type, SyntaxError>)
        requires
            old(self).wf(),
        ensures
            final(self).wf(),
            final(self).tokens_view() == old(self).tokens_view(),
            match ptype(old(self).tokens_view(), old(self).position()) {
                Some((e, p)) => r matches Ok(x) && x@ == e && final(self).position() == p,
                None => r is Err && final(self).position() == old(self).position(),
            },
    {
        match parse_type_at(&self.tokens, self.source.as_str(), self.pos) {
            Ok((x, p)) => {
                self.pos = p;
                Ok(x)
            },
            Err(e) => Err(e),
        }
    }

    /// A statement (see `pstmt`).
    pub fn parse_statement(&mut self) -> (r: Result<Statement, SyntaxError>)
        requires
            old(self).wf(),
        ensures
            final(self).wf(),
            final(self).tokens_view() == old(self).tokens_view(),
            match pstmt(old(self).tokens_view(), old(self).position()) {
                Some((e, p)) => r matches Ok(x) && stmt_view(x) == e && final(self).position() == p,
                None => r is Err && final(self).position() == old(self).position(),
            },
    {
        match parse_statement_at(&self.tokens, self.source.as_str(), self.pos) {
            Ok((x, p)) => {
                self.pos = p;
                Ok(x)
            },
            Err(e) => Err(e),
        }
    }

    /// A bit range (see `pbit_range`).
    pub fn parse_bit_range(&mut self) -> (r: Result<BitRange, SyntaxError>)
        requires
            old(self).wf(),
        ensures
            final(self).wf(),
            final(self).tokens_view() == old(self).tokens_view(),
            match pbit_range(old(self).tokens_view(), old(self).position()) {
                Some((e, p)) => r matches Ok(x) && x == e && final(self).position() == p,
                None => r is Err && final(self).position() == old(self).position(),
            },
    {
        match parse_bit_range_at(&self.tokens, self.source.as_str(), self.pos) {
            Ok((x, p)) => {
                self.pos = p;
                Ok(x)
            },
            Err(e) => Err(e),
        }
    }

    /// The outputs of a `term` (see `term_outputs`).
    pub fn parse_term_outputs(&mut self) -> (r: Result<Vec<Option<Expr>>, SyntaxError>)
        requires
            old(self).wf(),
        ensures
            final(self).wf(),
            final(self).tokens_view() == old(self).tokens_view(),
            match term_outputs(old(self).tokens_view(), old(self).position()) {
                Some((e, p)) => r matches Ok(x) && outs_view(x@) == e && final(self).position() == p,
                None => r is Err && final(self).position() == old(self).position(),
            },
    {
        match parse_term_outputs_at(&self.tokens, self.source.as_str(), self.pos) {
            Ok((x, p)) => {
                self.pos = p;
                Ok(x)
            },
            Err(e) => Err(e),
        }
    }

    /// The statements of a body, up to a `}` or the end (see `body_stmts`).
    pub fn parse_body(&mut self) -> (r: Result<Vec<Statement>, SyntaxError>)
        requires
            old(self).wf(),
        ensures
            final(self).wf(),
            final(self).tokens_view() == old(self).tokens_view(),
            match body_stmts(old(self).tokens_view(), old(self).position(), seq![]) {
                Some((e, p)) => r matches Ok(x) && stmts_view(x@, x@.len() as int) == e && final(self).position() == p,
                None => r is Err && final(self).position() == old(self).position(),
            },
    {
        let empty: Vec<Statement> = Vec::new();
        assert(stmts_view(empty@, 0) =~= Seq::<StatementV>::empty());
        match parse_body_from(&self.tokens, self.source.as_str(), self.pos, empty) {
            Ok((x, p)) => {
                self.pos = p;
                Ok(x)
            },
            Err(e) => Err(e),
        }
    }

    /// A contract (see `pcontract`).
    pub fn parse_contract(&mut self) -> (r: Result<Contract, SyntaxError>)
        requires
            old(self).wf(),
        ensures
            final(self).wf(),
            final(self).tokens_view() == old(self).tokens_view(),
            match pcontract(old(self).tokens_view(), old(self).position()) {
                Some((a, b, w, p)) => r matches Ok(c) && c.pre_condition@ == a && c.post_condition@ == b
                    && watchdog_view(c.watchdog) == w && final(self).position() == p,
                None => r is Err && final(self).position() == old(self).position(),
            },
    {
        match parse_contract_at(&self.tokens, self.source.as_str(), self.pos) {
            Ok((c, p)) => {
                self.pos = p;
                Ok(c)
            },
            Err(e) => Err(e),
        }
    }

    /// A transaction (see `ptxn` and `parse_transaction_at`).
    pub fn parse_transaction(&mut self) -> (r: Result<Transaction, SyntaxError>)
        requires
            old(self).wf(),
        ensures
            final(self).wf(),
            final(self).tokens_view() == old(self).tokens_view(),
            match ptxn(old(self).tokens_view(), old(self).position()) {
                Some((x, p)) => r matches Ok(t) && final(self).position() == p
                    && t.is_async == x.is_async && t.is_reactive == x.is_reactive && t.name@ == x.name
                    && params_view(t.parameters@) == x.params && t.contract.pre_condition@ == x.pre
                    && t.contract.post_condition@ == x.post && watchdog_view(t.contract.watchdog) == x.watchdog
                    && stmts_view(t.body@, t.body@.len() as int) == x.body && t.reactor_speed == x.reactor_speed
                    && t.is_lambda == (x.body.len() == 0)
                    && name_set(t.dependencies@) == deps(x.pre) && no_dup_names(t.dependencies@),
                None => r is Err && final(self).position() == old(self).position(),
            },
    {
        match parse_transaction_at(&self.tokens, self.source.as_str(), self.pos) {
            Ok((x, p)) => {
                proof {
                    assert(p <= self.tokens@.len()) by {
                        lemma_ptxn_bound(self.tokens@, self.pos as int);
                    }
                }
                self.pos = p;
                Ok(x)
            },
            Err(e) => Err(e),
        }
    }

    /// A definition (see `pdefn` and `parse_definition_at`).
    pub fn parse_definition(&mut self) -> (r: Result<Definition, SyntaxError>)
        requires
            old(self).wf(),
        ensures
            final(self).wf(),
            final(self).tokens_view() == old(self).tokens_view(),
            match pdefn(old(self).tokens_view(), old(self).position()) {
                Some((x, p)) => r matches Ok(d) && final(self).position() == p && d.name@ == x.name
                    && tparams_view(d.type_params@) == x.type_params && params_view(d.parameters@) == x.params
                    && types_view(d.outputs@, d.outputs@.len() as int) == x.outputs
                    && out_names_view(d.output_names@) == x.output_names
                    && (match d.output_type {
                        Some(o) => x.outputs.len() > 1 && o is Tuple && output_types(o) == x.outputs,
                        None => x.outputs.len() <= 1,
                    })
                    && d.contract.pre_condition@ == x.pre && d.contract.post_condition@ == x.post
                    && watchdog_view(d.contract.watchdog) == x.watchdog
                    && stmts_view(d.body@, d.body@.len() as int) == x.body && d.is_lambda == (x.body.len() == 0),
                None => r is Err && final(self).position() == old(self).position(),
            },
    {
        match parse_definition_at(&self.tokens, self.source.as_str(), self.pos) {
            Ok((x, p)) => {
                self.pos = p;
                Ok(x)
            },
            Err(e) => Err(e),
        }
    }

    /// A constant (see `pconst`).
    pub fn parse_constant(&mut self) -> (r: Result<Constant, SyntaxError>)
        requires
            old(self).wf(),
        ensures
            final(self).wf(),
            final(self).tokens_view() == old(self).tokens_view(),
            match pconst(old(self).tokens_view(), old(self).position()) {
                Some((n, t, e, p)) => r matches Ok(c) && c.name@ == n && c.ty@ == t && c.expr@ == e
                    && final(self).position() == p,
                None => r is Err && final(self).position() == old(self).position(),
            },
    {
        match parse_constant_at(&self.tokens, self.source.as_str(), self.pos) {
            Ok((x, p)) => {
                self.pos = p;
                Ok(x)
            },
            Err(e) => Err(e),
        }
    }

    /// The name where an identifier is expected (see `ident_name`).
    pub fn expect_identifier(&mut self) -> (r: Result<String, SyntaxError>)
        requires
            old(self).wf(),
        ensures
            final(self).wf(),
            final(self).tokens_view() == old(self).tokens_view(),
            match ident_name(tok(old(self).tokens_view(), old(self).position())) {
                Some(n) => r matches Ok(s) && s@ == n && final(self).position() == old(self).position() + 1,
                None => r is Err && final(self).position() == old(self).position(),
            },
    {
        match expect_identifier(&self.tokens, self.source.as_str(), self.pos) {
            Ok(s) => {
                self.pos = self.pos + 1;
                Ok(s)
            },
            Err(e) => Err(e),
        }
    }
}

} // verus!
