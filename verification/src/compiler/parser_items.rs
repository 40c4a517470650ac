//! The top-level items of a Brief file that the expression, statement and
//! declaration parsers do not cover: resources, triggers, state
//! declarations, enums, structs and reactive structs (with their HTML
//! views), render blocks, foreign bindings, signatures and imports; and the
//! whole file. As in `parser`, each function is stated by a spec function
//! over the tokens (and, where the source text is read, the source).

use vstd::prelude::*;
use crate::text::{owned, concat};
use crate::compiler::errors::{Span, SyntaxError};
use crate::compiler::ast::{
    Expr, ExprV, Type, TypeV, BitRange, ResourceDeclaration, TriggerDeclaration, StateDecl, EnumDefinition, EnumVariant,
    TypeParam, types_view, Transaction, StructField, StructDefinition, deps, name_set, no_dup_names,
    TopLevel, ForeignSignature, ForeignTarget, FfiKind, ResultType, Signature,
};
use crate::compiler::analysis::dataflow::stmts_view;
use crate::compiler::parser::{
    SpannedToken, Token, tok, fits, ident_name, pexpr, ptype, pbit_range, tok_at, expect_identifier, span_at, span_of,
    expected_err, reason_err, token_debug, parse_level, parse_type_at, parse_bit_range_at, names_view,
    TxnParse, ptxn, params_view, watchdog_view, parse_transaction_at,
};

verus! {

/// The token after the one at `p`, if there is one.
pub fn peek_at(ts: &Vec<SpannedToken>, p: usize) -> (r: Option<&Token>)
    ensures
        match r {
            Some(t) => tok(ts@, p + 1) == Some(*t),
            None => tok(ts@, p + 1) is None,
        },
        r is Some ==> p + 1 < ts@.len() && p + 1 < usize::MAX,
{
    if p < ts.len() {
        tok_at(ts, p + 1)
    } else {
        None
    }
}

// ---------------------------------------------------------------------------
// Resources

/// Integer arguments separated by commas, after those in `acc`, while an
/// integer comes next.
pub open spec fn int_args(ts: Seq<SpannedToken>, pos: int, acc: Seq<i64>) -> (Seq<i64>, int)
    decreases ts.len() - pos,
{
    if pos < 0 || pos > ts.len() {
        (acc, pos)
    } else {
        match tok(ts, pos) {
            Some(Token::Integer(n)) => if tok(ts, pos + 1) matches Some(Token::Comma) {
                int_args(ts, pos + 2, acc.push(n))
            } else {
                (acc.push(n), pos + 1)
            },
            _ => (acc, pos),
        }
    }
}

/// A resource `name: Type(args);` read from `pos` (where the `rsrc` keyword
/// itself stands when it is reached from the top level).
pub open spec fn presource(ts: Seq<SpannedToken>, pos: int) -> Option<(Seq<char>, Seq<char>, Seq<i64>, int)> {
    if 0 <= pos <= ts.len() && (tok(ts, pos + 1) matches Some(Token::Colon)) {
        match (ident_name(tok(ts, pos)), ident_name(tok(ts, pos + 2))) {
            (Some(n), Some(ty)) => {
                let args: Option<(Seq<i64>, int)> = if tok(ts, pos + 3) matches Some(Token::LParen) {
                    let (a, q) = int_args(ts, pos + 4, seq![]);
                    if tok(ts, q) matches Some(Token::RParen) { Some((a, q + 1)) } else { None }
                } else {
                    Some((seq![], pos + 3))
                };
                match args {
                    Some((a, q)) => if tok(ts, q) matches Some(Token::Semicolon) { Some((n, ty, a, q + 1)) } else { None },
                    None => None,
                }
            },
            _ => None,
        }
    } else {
        None
    }
}

fn int_args_exec(ts: &Vec<SpannedToken>, pos: usize, acc: Vec<i64>) -> (r: (Vec<i64>, usize))
    requires
        pos <= ts@.len(),
    ensures
        int_args(ts@, pos as int, acc@) == (r.0@, r.1 as int),
        pos <= r.1 <= ts@.len(),
    decreases ts@.len() - pos,
{
    match tok_at(ts, pos) {
        Some(Token::Integer(n)) => {
            let mut acc = acc;
            acc.push(*n);
            match tok_at(ts, pos + 1) {
                Some(Token::Comma) => int_args_exec(ts, pos + 2, acc),
                _ => (acc, pos + 1),
            }
        },
        _ => (acc, pos),
    }
}

/// A resource declaration (see `presource`).
pub fn parse_resource_at(ts: &Vec<SpannedToken>, src: &str, pos: usize) -> (r: Result<(ResourceDeclaration, usize), SyntaxError>)
    requires
        pos <= ts@.len(),
    ensures
        match presource(ts@, pos as int) {
            Some((n, ty, a, p)) => r matches Ok((d, q)) && d.name@ == n && d.resource_type@ == ty && d.args@ == a
                && d.span is None && q == p,
            None => r is Err,
        },
        r matches Ok((_, q)) ==> q <= ts@.len(),
{
    let name = match expect_identifier(ts, src, pos) {
        Ok(n) => n,
        Err(x) => return Err(x),
    };
    match tok_at(ts, pos + 1) {
        Some(Token::Colon) => {},
        _ => return Err(expected_err(ts, src, pos + 1, "Colon")),
    }
    let ty = match expect_identifier(ts, src, pos + 2) {
        Ok(n) => n,
        Err(x) => return Err(x),
    };
    let (args, q) = match tok_at(ts, pos + 3) {
        Some(Token::LParen) => {
            let (a, q) = int_args_exec(ts, pos + 4, Vec::new());
            match tok_at(ts, q) {
                Some(Token::RParen) => (a, q + 1),
                _ => return Err(expected_err(ts, src, q, "RParen")),
            }
        },
        _ => (Vec::new(), pos + 3),
    };
    match tok_at(ts, q) {
        Some(Token::Semicolon) => Ok((ResourceDeclaration { name: name, resource_type: ty, args: args, span: None }, q + 1)),
        _ => Err(expected_err(ts, src, q, "Semicolon")),
    }
}

// ---------------------------------------------------------------------------
// Triggers and state declarations

/// Hardware mappings after a type: `@ address` (an integer, read as a
/// `u64`), optionally followed by `/ bits`, and `[bits]`.
pub open spec fn hw_post(ts: Seq<SpannedToken>, pos: int, addr: Option<u64>, bits: Option<BitRange>)
    -> Option<(Option<u64>, Option<BitRange>, int)>
    decreases ts.len() - pos,
{
    if pos < 0 || pos > ts.len() {
        None
    } else {
        match tok(ts, pos) {
            Some(Token::At) => match tok(ts, pos + 1) {
                Some(Token::Integer(n)) => if tok(ts, pos + 2) matches Some(Token::Slash) {
                    match pbit_range(ts, pos + 3) {
                        Some((b, q)) => if fits(ts, pos, q) { hw_post(ts, q, Some(n as u64), Some(b)) } else { None },
                        None => None,
                    }
                } else {
                    hw_post(ts, pos + 2, Some(n as u64), bits)
                },
                _ => None,
            },
            Some(Token::LBracket) => match pbit_range(ts, pos + 1) {
                Some((b, q)) => if fits(ts, pos, q) && (tok(ts, q) matches Some(Token::RBracket)) {
                    hw_post(ts, q + 1, addr, Some(b))
                } else {
                    None
                },
                None => None,
            },
            _ => Some((addr, bits, pos)),
        }
    }
}

fn hw_post_exec(ts: &Vec<SpannedToken>, src: &str, pos: usize, addr: Option<u64>, bits: Option<BitRange>)
    -> (r: Result<(Option<u64>, Option<BitRange>, usize), SyntaxError>)
    requires
        pos <= ts@.len(),
    ensures
        match hw_post(ts@, pos as int, addr, bits) {
            Some((a, b, p)) => r matches Ok((a2, b2, q)) && a2 == a && b2 == b && q == p,
            None => r is Err,
        },
        r matches Ok((_, _, q)) ==> pos <= q <= ts@.len(),
    decreases ts@.len() - pos,
{
    match tok_at(ts, pos) {
        Some(Token::At) => match tok_at(ts, pos + 1) {
            Some(Token::Integer(n)) => {
                let a = Some(*n as u64);
                match tok_at(ts, pos + 2) {
                    Some(Token::Slash) => match parse_bit_range_at(ts, src, pos + 3) {
                        Ok((b, q)) => hw_post_exec(ts, src, q, a, Some(b)),
                        Err(x) => Err(x),
                    },
                    _ => hw_post_exec(ts, src, pos + 2, a, bits),
                }
            },
            _ => Err(reason_err(ts, src, pos + 1, owned("Expected integer address after '@'"))),
        },
        Some(Token::LBracket) => match parse_bit_range_at(ts, src, pos + 1) {
            Ok((b, q)) => match tok_at(ts, q) {
                Some(Token::RBracket) => hw_post_exec(ts, src, q + 1, addr, Some(b)),
                _ => Err(expected_err(ts, src, q, "RBracket")),
            },
            Err(x) => Err(x),
        },
        _ => Ok((addr, bits, pos)),
    }
}

/// Stage names after `on stage`: a name, then `, name` any number of times.
pub open spec fn stage_list(ts: Seq<SpannedToken>, pos: int, acc: Seq<Seq<char>>) -> Option<(Seq<Seq<char>>, int)>
    decreases ts.len() - pos,
{
    if pos < 0 || pos > ts.len() {
        None
    } else {
        match ident_name(tok(ts, pos)) {
            Some(n) => if tok(ts, pos + 1) matches Some(Token::Comma) {
                stage_list(ts, pos + 2, acc.push(n))
            } else {
                Some((acc.push(n), pos + 1))
            },
            None => None,
        }
    }
}

/// What a trigger declaration gives.
pub struct TriggerV {
    pub name: Seq<char>,
    pub ty: TypeV,
    pub address: u64,
    pub bit_range: Option<BitRange>,
    pub stages: Seq<Seq<char>>,
    pub condition: Option<ExprV>,
}

/// A trigger `trg name: Type` with mappings (no address means 0), optional
/// `on stage a, b`, an optional `[condition]`, and `;`.
pub open spec fn ptrigger(ts: Seq<SpannedToken>, pos: int) -> Option<(TriggerV, int)> {
    if 0 <= pos <= ts.len() && (tok(ts, pos) matches Some(Token::Trg)) && (tok(ts, pos + 2) matches Some(Token::Colon)) {
        match ident_name(tok(ts, pos + 1)) {
            Some(n) => match ptype(ts, pos + 3) {
                Some((t, p1)) => if fits(ts, pos, p1) {
                    match hw_post(ts, p1, None, None) {
                        Some((a, b, p2)) => {
                            let stages: Option<(Seq<Seq<char>>, int)> = if tok(ts, p2) matches Some(Token::On) {
                                if tok(ts, p2 + 1) matches Some(Token::Stage) { stage_list(ts, p2 + 2, seq![]) } else { None }
                            } else {
                                Some((seq![], p2))
                            };
                            match stages {
                                Some((ss, p3)) => {
                                    let cond: Option<(Option<ExprV>, int)> = if tok(ts, p3) matches Some(Token::LBracket) {
                                        match pexpr(ts, p3 + 1, 0) {
                                            Some((c, q)) => if tok(ts, q) matches Some(Token::RBracket) { Some((Some(c), q + 1)) } else { None },
                                            None => None,
                                        }
                                    } else {
                                        Some((None, p3))
                                    };
                                    match cond {
                                        Some((c, p4)) => if tok(ts, p4) matches Some(Token::Semicolon) {
                                            Some((TriggerV {
                                                name: n,
                                                ty: t,
                                                address: match a { Some(x) => x, None => 0 },
                                                bit_range: b,
                                                stages: ss,
                                                condition: c,
                                            }, p4 + 1))
                                        } else {
                                            None
                                        },
                                        None => None,
                                    }
                                },
                                None => None,
                            }
                        },
                        None => None,
                    }
                } else {
                    None
                },
                None => None,
            },
            None => None,
        }
    } else {
        None
    }
}

pub open spec fn opt_expr(o: Option<Expr>) -> Option<ExprV> {
    match o {
        Some(e) => Some(e@),
        None => None,
    }
}

pub open spec fn trigger_matches(d: TriggerDeclaration, v: TriggerV) -> bool {
    d.name@ == v.name && d.ty@ == v.ty && d.address == v.address && d.bit_range == v.bit_range
        && names_view(d.stages@) == v.stages && opt_expr(d.condition) == v.condition
}

fn stage_list_exec(ts: &Vec<SpannedToken>, src: &str, pos: usize, acc: Vec<String>) -> (r: Result<(Vec<String>, usize), SyntaxError>)
    requires
        pos <= ts@.len(),
    ensures
        match stage_list(ts@, pos as int, names_view(acc@)) {
            Some((ss, p)) => r matches Ok((v, q)) && names_view(v@) == ss && q == p,
            None => r is Err,
        },
        r matches Ok((_, q)) ==> pos <= q <= ts@.len(),
    decreases ts@.len() - pos,
{
    match expect_identifier(ts, src, pos) {
        Ok(n) => {
            let ghost before = names_view(acc@);
            let ghost nv = n@;
            let mut acc = acc;
            acc.push(n);
            assert(names_view(acc@) =~= before.push(nv));
            match tok_at(ts, pos + 1) {
                Some(Token::Comma) => stage_list_exec(ts, src, pos + 2, acc),
                _ => Ok((acc, pos + 1)),
            }
        },
        Err(x) => Err(x),
    }
}

/// A trigger declaration (see `ptrigger`); its span is that of the `;`.
pub fn parse_trigger_at(ts: &Vec<SpannedToken>, src: &str, pos: usize) -> (r: Result<(TriggerDeclaration, usize), SyntaxError>)
    requires
        pos <= ts@.len(),
    ensures
        match ptrigger(ts@, pos as int) {
            Some((v, p)) => r matches Ok((d, q)) && trigger_matches(d, v) && q == p,
            None => r is Err,
        },
        r matches Ok((_, q)) ==> q <= ts@.len(),
{
    match tok_at(ts, pos) {
        Some(Token::Trg) => {},
        _ => return Err(expected_err(ts, src, pos, "Trg")),
    }
    let name = match expect_identifier(ts, src, pos + 1) {
        Ok(n) => n,
        Err(x) => return Err(x),
    };
    match tok_at(ts, pos + 2) {
        Some(Token::Colon) => {},
        _ => return Err(expected_err(ts, src, pos + 2, "Colon")),
    }
    let (ty, p1) = match parse_type_at(ts, src, pos + 3) {
        Ok(x) => x,
        Err(x) => return Err(x),
    };
    let (a, b, p2) = match hw_post_exec(ts, src, p1, None, None) {
        Ok(x) => x,
        Err(x) => return Err(x),
    };
    let empty: Vec<String> = Vec::new();
    assert(names_view(empty@) =~= Seq::<Seq<char>>::empty());
    let (stages, p3) = match tok_at(ts, p2) {
        Some(Token::On) => {
            match tok_at(ts, p2 + 1) {
                Some(Token::Stage) => {},
                _ => return Err(expected_err(ts, src, p2 + 1, "Stage")),
            }
            match stage_list_exec(ts, src, p2 + 2, empty) {
                Ok(x) => x,
                Err(x) => return Err(x),
            }
        },
        _ => (empty, p2),
    };
    let (condition, p4) = match tok_at(ts, p3) {
        Some(Token::LBracket) => match parse_level(ts, src, p3 + 1, 0) {
            Ok((c, q)) => match tok_at(ts, q) {
                Some(Token::RBracket) => (Some(c), q + 1),
                _ => return Err(expected_err(ts, src, q, "RBracket")),
            },
            Err(x) => return Err(x),
        },
        _ => (None, p3),
    };
    let span = if p4 < ts.len() { Some(span_of(src, ts[p4].start, ts[p4].end)) } else { None };
    match tok_at(ts, p4) {
        Some(Token::Semicolon) => {},
        _ => return Err(expected_err(ts, src, p4, "Semicolon")),
    }
    let address = match a {
        Some(x) => x,
        None => 0,
    };
    Ok((TriggerDeclaration { name: name, ty: ty, address: address, bit_range: b, stages: stages, condition: condition, span: span }, p4 + 1))
}

/// Mappings before the colon of a state declaration: `@ n` (an integer),
/// `@ stack : n` or `@ heap : n` (an integer offset), each read as a `u64`
/// address, and `[bits]`.
pub open spec fn state_pre(ts: Seq<SpannedToken>, pos: int, addr: Option<u64>, bits: Option<BitRange>)
    -> Option<(Option<u64>, Option<BitRange>, int)>
    decreases ts.len() - pos,
{
    if pos < 0 || pos > ts.len() {
        None
    } else {
        match tok(ts, pos) {
            Some(Token::At) => match tok(ts, pos + 1) {
                Some(Token::Integer(n)) => state_pre(ts, pos + 2, Some(n as u64), bits),
                Some(Token::Identifier(id)) => if (id@ == "stack"@ || id@ == "heap"@)
                    && (tok(ts, pos + 2) matches Some(Token::Colon)) {
                    match tok(ts, pos + 3) {
                        Some(Token::Integer(n)) => state_pre(ts, pos + 4, Some(n as u64), bits),
                        _ => None,
                    }
                } else {
                    None
                },
                _ => None,
            },
            Some(Token::LBracket) => match pbit_range(ts, pos + 1) {
                Some((b, q)) => if fits(ts, pos, q) && (tok(ts, q) matches Some(Token::RBracket)) {
                    state_pre(ts, q + 1, addr, Some(b))
                } else {
                    None
                },
                None => None,
            },
            _ => Some((addr, bits, pos)),
        }
    }
}

fn state_pre_exec(ts: &Vec<SpannedToken>, src: &str, pos: usize, addr: Option<u64>, bits: Option<BitRange>)
    -> (r: Result<(Option<u64>, Option<BitRange>, usize), SyntaxError>)
    requires
        pos <= ts@.len(),
    ensures
        match state_pre(ts@, pos as int, addr, bits) {
            Some((a, b, p)) => r matches Ok((a2, b2, q)) && a2 == a && b2 == b && q == p,
            None => r is Err,
        },
        r matches Ok((_, _, q)) ==> pos <= q <= ts@.len(),
    decreases ts@.len() - pos,
{
    match tok_at(ts, pos) {
        Some(Token::At) => match tok_at(ts, pos + 1) {
            Some(Token::Integer(n)) => state_pre_exec(ts, src, pos + 2, Some(*n as u64), bits),
            Some(Token::Identifier(id)) => {
                let c = crate::text::chars_of(id.as_str());
                if crate::text::eq_str(c.as_slice(), "stack") || crate::text::eq_str(c.as_slice(), "heap") {
                    match tok_at(ts, pos + 2) {
                        Some(Token::Colon) => {},
                        _ => return Err(expected_err(ts, src, pos + 2, "Colon")),
                    }
                    match tok_at(ts, pos + 3) {
                        Some(Token::Integer(n)) => state_pre_exec(ts, src, pos + 4, Some(*n as u64), bits),
                        _ => {
                            let span = span_at(ts, src, pos + 3);
                            let found = match tok_at(ts, pos + 3) {
                                Some(t) => {
                                    let d = token_debug(t);
                                    let mut s = concat("Some(Ok(", d.as_str());
                                    s.append("))");
                                    s
                                },
                                None => owned("None"),
                            };
                            Err(SyntaxError::UnexpectedToken { expected: owned("integer"), found: found, span: span })
                        },
                    }
                } else {
                    Err(reason_err(ts, src, pos + 1, owned("Expected address mode after @: raw, stack, or heap")))
                }
            },
            _ => Err(reason_err(ts, src, pos + 1, owned("Expected address mode after @: raw, stack, or heap"))),
        },
        Some(Token::LBracket) => match parse_bit_range_at(ts, src, pos + 1) {
            Ok((b, q)) => match tok_at(ts, q) {
                Some(Token::RBracket) => state_pre_exec(ts, src, q + 1, addr, Some(b)),
                _ => Err(expected_err(ts, src, q, "RBracket")),
            },
            Err(x) => Err(x),
        },
        _ => Ok((addr, bits, pos)),
    }
}

/// What a state declaration gives.
pub struct StateV {
    pub name: Seq<char>,
    pub ty: TypeV,
    pub expr: Option<ExprV>,
    pub address: Option<u64>,
    pub bit_range: Option<BitRange>,
}

/// A state declaration `let name` with mappings, `: Type`, mappings, an
/// optional `= expr`, and `;`.
pub open spec fn pstate(ts: Seq<SpannedToken>, pos: int) -> Option<(StateV, int)> {
    if 0 <= pos <= ts.len() && (tok(ts, pos) matches Some(Token::Let)) {
        match ident_name(tok(ts, pos + 1)) {
            Some(n) => match state_pre(ts, pos + 2, None, None) {
                Some((a1, b1, p1)) => if fits(ts, pos, p1) && (tok(ts, p1) matches Some(Token::Colon)) {
                    match ptype(ts, p1 + 1) {
                        Some((t, p2)) => if fits(ts, p1, p2) {
                            match hw_post(ts, p2, a1, b1) {
                                Some((a, b, p3)) => {
                                    let init: Option<(Option<ExprV>, int)> = if tok(ts, p3) matches Some(Token::Eq) {
                                        match pexpr(ts, p3 + 1, 0) {
                                            Some((e, q)) => Some((Some(e), q)),
                                            None => None,
                                        }
                                    } else {
                                        Some((None, p3))
                                    };
                                    match init {
                                        Some((e, p4)) => if tok(ts, p4) matches Some(Token::Semicolon) {
                                            Some((StateV { name: n, ty: t, expr: e, address: a, bit_range: b }, p4 + 1))
                                        } else {
                                            None
                                        },
                                        None => None,
                                    }
                                },
                                None => None,
                            }
                        } else {
                            None
                        },
                        None => None,
                    }
                } else {
                    None
                },
                None => None,
            },
            None => None,
        }
    } else {
        None
    }
}

pub open spec fn state_matches(d: StateDecl, v: StateV) -> bool {
    d.name@ == v.name && d.ty@ == v.ty && opt_expr(d.expr) == v.expr && d.address == v.address
        && d.bit_range == v.bit_range && !d.is_override && !d.os_mode
}

/// A state declaration (see `pstate`); its span is that of the `;`.
pub fn parse_state_decl_at(ts: &Vec<SpannedToken>, src: &str, pos: usize) -> (r: Result<(StateDecl, usize), SyntaxError>)
    requires
        pos <= ts@.len(),
    ensures
        match pstate(ts@, pos as int) {
            Some((v, p)) => r matches Ok((d, q)) && state_matches(d, v) && q == p,
            None => r is Err,
        },
        r matches Ok((_, q)) ==> q <= ts@.len(),
{
    match tok_at(ts, pos) {
        Some(Token::Let) => {},
        _ => return Err(expected_err(ts, src, pos, "Let")),
    }
    let name = match expect_identifier(ts, src, pos + 1) {
        Ok(n) => n,
        Err(x) => return Err(x),
    };
    let (a1, b1, p1) = match state_pre_exec(ts, src, pos + 2, None, None) {
        Ok(x) => x,
        Err(x) => return Err(x),
    };
    match tok_at(ts, p1) {
        Some(Token::Colon) => {},
        _ => return Err(expected_err(ts, src, p1, "Colon")),
    }
    let (ty, p2) = match parse_type_at(ts, src, p1 + 1) {
        Ok(x) => x,
        Err(x) => return Err(x),
    };
    let (a, b, p3) = match hw_post_exec(ts, src, p2, a1, b1) {
        Ok(x) => x,
        Err(x) => return Err(x),
    };
    let (expr, p4) = match tok_at(ts, p3) {
        Some(Token::Eq) => match parse_level(ts, src, p3 + 1, 0) {
            Ok((e, q)) => (Some(e), q),
            Err(x) => return Err(x),
        },
        _ => (None, p3),
    };
    let span = if p4 < ts.len() { Some(span_of(src, ts[p4].start, ts[p4].end)) } else { None };
    match tok_at(ts, p4) {
        Some(Token::Semicolon) => {},
        _ => return Err(expected_err(ts, src, p4, "Semicolon")),
    }
    Ok((StateDecl { name: name, ty: ty, expr: expr, address: a, bit_range: b, is_override: false, os_mode: false, span: span }, p4 + 1))
}

// ---------------------------------------------------------------------------
// Enums

/// A variant of an enum, as plain values.
pub enum VariantV {
    Unit(Seq<char>),
    Tuple(Seq<char>, Seq<TypeV>),
}

/// Enum type parameters after `<`: names separated by `,`, closed by `>`.
pub open spec fn enum_tparams(ts: Seq<SpannedToken>, pos: int, acc: Seq<Seq<char>>) -> Option<(Seq<Seq<char>>, int)>
    decreases ts.len() - pos,
{
    if pos < 0 || pos > ts.len() {
        None
    } else {
        match ident_name(tok(ts, pos)) {
            Some(n) => match tok(ts, pos + 1) {
                Some(Token::Comma) => enum_tparams(ts, pos + 2, acc.push(n)),
                Some(Token::Gt) => Some((acc.push(n), pos + 2)),
                _ => None,
            },
            None => None,
        }
    }
}

/// The types of a tuple variant after `(`: types separated by `,`, closed
/// by `)`.
pub open spec fn variant_types(ts: Seq<SpannedToken>, pos: int, acc: Seq<TypeV>) -> Option<(Seq<TypeV>, int)>
    decreases ts.len() - pos,
{
    if pos < 0 || pos > ts.len() {
        None
    } else {
        match ptype(ts, pos) {
            Some((t, p)) => if fits(ts, pos, p) {
                match tok(ts, p) {
                    Some(Token::Comma) => variant_types(ts, p + 1, acc.push(t)),
                    Some(Token::RParen) => Some((acc.push(t), p + 1)),
                    _ => None,
                }
            } else {
                None
            },
            None => None,
        }
    }
}

/// The variants of an enum, up to `}` (read) or the end: a name, a tuple
/// variant where a `(` comes one token after the one that follows the name
/// and that token is also `(`, each optionally followed by `,`.
pub open spec fn variant_list(ts: Seq<SpannedToken>, pos: int, acc: Seq<VariantV>) -> Option<(Seq<VariantV>, int)>
    decreases ts.len() - pos,
{
    if pos < 0 || pos > ts.len() {
        None
    } else {
        match tok(ts, pos) {
            None => Some((acc, pos)),
            Some(Token::RBrace) => Some((acc, pos + 1)),
            Some(Token::Identifier(v)) => {
                let q = pos + 1;
                let variant: Option<(VariantV, int)> = if tok(ts, q + 1) matches Some(Token::LParen) {
                    if tok(ts, q) matches Some(Token::LParen) {
                        match variant_types(ts, q + 1, seq![]) {
                            Some((tys, q2)) => Some((VariantV::Tuple(v@, tys), q2)),
                            None => None,
                        }
                    } else {
                        None
                    }
                } else {
                    Some((VariantV::Unit(v@), q))
                };
                match variant {
                    Some((var, q2)) => if pos < q2 <= ts.len() {
                        let q3 = if tok(ts, q2) matches Some(Token::Comma) { q2 + 1 } else { q2 };
                        variant_list(ts, q3, acc.push(var))
                    } else {
                        None
                    },
                    None => None,
                }
            },
            _ => None,
        }
    }
}

/// An enum `enum Name`, type parameters (read where a `<` comes one token
/// after the name's successor, which must then be `<` too), `{`, and its
/// variants.
pub open spec fn penum(ts: Seq<SpannedToken>, pos: int) -> Option<(Seq<char>, Seq<Seq<char>>, Seq<VariantV>, int)> {
    if 0 <= pos <= ts.len() && (tok(ts, pos) matches Some(Token::Enum)) {
        match ident_name(tok(ts, pos + 1)) {
            Some(n) => {
                let p = pos + 2;
                let tps: Option<(Seq<Seq<char>>, int)> = if tok(ts, p + 1) matches Some(Token::Lt) {
                    if tok(ts, p) matches Some(Token::Lt) { enum_tparams(ts, p + 1, seq![]) } else { None }
                } else {
                    Some((seq![], p))
                };
                match tps {
                    Some((tp, p1)) => if pos < p1 <= ts.len() && (tok(ts, p1) matches Some(Token::LBrace)) {
                        match variant_list(ts, p1 + 1, seq![]) {
                            Some((vs, p2)) => Some((n, tp, vs, p2)),
                            None => None,
                        }
                    } else {
                        None
                    },
                    None => None,
                }
            },
            None => None,
        }
    } else {
        None
    }
}

pub open spec fn variant_matches(x: EnumVariant, v: VariantV) -> bool {
    match (x, v) {
        (EnumVariant::Unit(n), VariantV::Unit(m)) => n@ == m,
        (EnumVariant::Tuple(n, ts), VariantV::Tuple(m, us)) => n@ == m && types_view(ts@, ts@.len() as int) == us,
        _ => false,
    }
}

pub open spec fn variants_match(xs: Seq<EnumVariant>, vs: Seq<VariantV>) -> bool {
    xs.len() == vs.len() && forall|i: int| 0 <= i < xs.len() ==> #[trigger] variant_matches(xs[i], vs[i])
}

pub open spec fn tparam_names(v: Seq<TypeParam>) -> Seq<Seq<char>> {
    v.map_values(|t: TypeParam| t.name@)
}

fn enum_tparams_exec(ts: &Vec<SpannedToken>, src: &str, pos: usize, acc: Vec<TypeParam>)
    -> (r: Result<(Vec<TypeParam>, usize), SyntaxError>)
    requires
        pos <= ts@.len(),
        forall|i: int| 0 <= i < acc@.len() ==> (#[trigger] acc@[i]).bounds@.len() == 0,
    ensures
        match enum_tparams(ts@, pos as int, tparam_names(acc@)) {
            Some((tp, p)) => r matches Ok((v, q)) && tparam_names(v@) == tp && q == p
                && forall|i: int| 0 <= i < v@.len() ==> (#[trigger] v@[i]).bounds@.len() == 0,
            None => r is Err,
        },
        r matches Ok((_, q)) ==> pos < q <= ts@.len(),
    decreases ts@.len() - pos,
{
    let n = match expect_identifier(ts, src, pos) {
        Ok(n) => n,
        Err(x) => return Err(x),
    };
    let ghost before = tparam_names(acc@);
    let ghost nv = n@;
    let mut acc = acc;
    acc.push(TypeParam { name: n, bounds: Vec::new() });
    assert(tparam_names(acc@) =~= before.push(nv));
    match tok_at(ts, pos + 1) {
        Some(Token::Comma) => enum_tparams_exec(ts, src, pos + 2, acc),
        Some(Token::Gt) => Ok((acc, pos + 2)),
        _ => Err(reason_err(ts, src, pos + 1, owned("Expected ',' or '>' in enum type parameters"))),
    }
}

fn variant_types_exec(ts: &Vec<SpannedToken>, src: &str, pos: usize, acc: Vec<Type>) -> (r: Result<(Vec<Type>, usize), SyntaxError>)
    requires
        pos <= ts@.len(),
    ensures
        match variant_types(ts@, pos as int, types_view(acc@, acc@.len() as int)) {
            Some((tys, p)) => r matches Ok((v, q)) && types_view(v@, v@.len() as int) == tys && q == p,
            None => r is Err,
        },
        r matches Ok((_, q)) ==> pos < q <= ts@.len(),
    decreases ts@.len() - pos,
{
    match parse_type_at(ts, src, pos) {
        Ok((t, p)) => {
            let ghost old_acc = acc@;
            let ghost tv = t@;
            let mut acc = acc;
            acc.push(t);
            proof {
                crate::compiler::ast::lemma_types_view(acc@, acc@.len() as int);
                crate::compiler::ast::lemma_types_view(old_acc, old_acc.len() as int);
                assert(types_view(acc@, acc@.len() as int) =~= types_view(old_acc, old_acc.len() as int).push(tv));
            }
            match tok_at(ts, p) {
                Some(Token::Comma) => variant_types_exec(ts, src, p + 1, acc),
                Some(Token::RParen) => Ok((acc, p + 1)),
                _ => Err(reason_err(ts, src, p, owned("Expected ',' or ')' in enum variant"))),
            }
        },
        Err(x) => Err(x),
    }
}

fn variant_list_exec(ts: &Vec<SpannedToken>, src: &str, pos: usize, acc: Vec<EnumVariant>, Ghost(vs): Ghost<Seq<VariantV>>)
    -> (r: Result<(Vec<EnumVariant>, usize), SyntaxError>)
    requires
        pos <= ts@.len(),
        variants_match(acc@, vs),
    ensures
        match variant_list(ts@, pos as int, vs) {
            Some((ws, p)) => r matches Ok((v, q)) && variants_match(v@, ws) && q == p,
            None => r is Err,
        },
        r matches Ok((_, q)) ==> pos <= q <= ts@.len(),
    decreases ts@.len() - pos,
{
    match tok_at(ts, pos) {
        None => Ok((acc, pos)),
        Some(Token::RBrace) => Ok((acc, pos + 1)),
        Some(Token::Identifier(v)) => {
            let q = pos + 1;
            let peek_paren = match peek_at(ts, q) {
                Some(Token::LParen) => true,
                _ => false,
            };
            let ghost mut sv: VariantV = VariantV::Unit(v@);
            let (var, q2) = if peek_paren {
                match tok_at(ts, q) {
                    Some(Token::LParen) => {},
                    _ => return Err(expected_err(ts, src, q, "LParen")),
                }
                let empty: Vec<Type> = Vec::new();
                assert(types_view(empty@, 0) =~= Seq::<TypeV>::empty());
                match variant_types_exec(ts, src, q + 1, empty) {
                    Ok((tys, q2)) => {
                        proof { sv = VariantV::Tuple(v@, types_view(tys@, tys@.len() as int)); }
                        (EnumVariant::Tuple(v.clone(), tys), q2)
                    },
                    Err(x) => return Err(x),
                }
            } else {
                (EnumVariant::Unit(v.clone()), q)
            };
            let q3 = match tok_at(ts, q2) {
                Some(Token::Comma) => q2 + 1,
                _ => q2,
            };
            let ghost old_acc = acc@;
            let mut acc = acc;
            assert(variant_matches(var, sv));
            acc.push(var);
            assert(variants_match(acc@, vs.push(sv))) by {
                assert forall|i: int| 0 <= i < acc@.len() implies #[trigger] variant_matches(acc@[i], vs.push(sv)[i]) by {
                    if i < old_acc.len() {
                        assert(variant_matches(old_acc[i], vs[i]));
                    }
                }
            }
            variant_list_exec(ts, src, q3, acc, Ghost(vs.push(sv)))
        },
        Some(t) => {
            let d = token_debug(t);
            let mut m = concat("Unexpected token in enum: Ok(", d.as_str());
            m.append(")");
            Err(reason_err(ts, src, pos, m))
        },
    }
}

/// An enum definition (see `penum`); its span is that of the token after it.
pub fn parse_enum_at(ts: &Vec<SpannedToken>, src: &str, pos: usize) -> (r: Result<(EnumDefinition, usize), SyntaxError>)
    requires
        pos <= ts@.len(),
    ensures
        match penum(ts@, pos as int) {
            Some((n, tp, vs, p)) => r matches Ok((d, q)) && d.name@ == n && tparam_names(d.type_params@) == tp
                && (forall|i: int| 0 <= i < d.type_params@.len() ==> (#[trigger] d.type_params@[i]).bounds@.len() == 0)
                && variants_match(d.variants@, vs) && q == p,
            None => r is Err,
        },
        r matches Ok((_, q)) ==> q <= ts@.len(),
{
    match tok_at(ts, pos) {
        Some(Token::Enum) => {},
        _ => return Err(expected_err(ts, src, pos, "Enum")),
    }
    let name = match expect_identifier(ts, src, pos + 1) {
        Ok(n) => n,
        Err(x) => return Err(x),
    };
    let p = pos + 2;
    let empty: Vec<TypeParam> = Vec::new();
    assert(tparam_names(empty@) =~= Seq::<Seq<char>>::empty());
    let (tps, p1) = match peek_at(ts, p) {
        Some(Token::Lt) => {
            match tok_at(ts, p) {
                Some(Token::Lt) => {},
                _ => return Err(expected_err(ts, src, p, "Lt")),
            }
            match enum_tparams_exec(ts, src, p + 1, empty) {
                Ok(x) => x,
                Err(x) => return Err(x),
            }
        },
        _ => (empty, p),
    };
    match tok_at(ts, p1) {
        Some(Token::LBrace) => {},
        _ => return Err(expected_err(ts, src, p1, "LBrace")),
    }
    let none: Vec<EnumVariant> = Vec::new();
    match variant_list_exec(ts, src, p1 + 1, none, Ghost(Seq::empty())) {
        Ok((vs, p2)) => {
            let span = if p2 < ts.len() { Some(span_of(src, ts[p2].start, ts[p2].end)) } else { None };
            Ok((EnumDefinition { name: name, type_params: tps, variants: vs, span: span }, p2))
        },
        Err(x) => Err(x),
    }
}

// ---------------------------------------------------------------------------
// Structs

/// A transaction parsed as `x` says.
pub open spec fn txn_matches(t: Transaction, x: TxnParse) -> bool {
    t.is_async == x.is_async && t.is_reactive == x.is_reactive && t.name@ == x.name
        && params_view(t.parameters@) == x.params && t.contract.pre_condition@ == x.pre
        && t.contract.post_condition@ == x.post && watchdog_view(t.contract.watchdog) == x.watchdog
        && stmts_view(t.body@, t.body@.len() as int) == x.body && t.reactor_speed == x.reactor_speed
        && t.is_lambda == (x.body.len() == 0)
        && name_set(t.dependencies@) == deps(x.pre) && no_dup_names(t.dependencies@)
}

pub open spec fn txns_match(xs: Seq<Transaction>, vs: Seq<TxnParse>) -> bool {
    xs.len() == vs.len() && forall|i: int| 0 <= i < xs.len() ==> #[trigger] txn_matches(xs[i], vs[i])
}

/// A struct field as plain values: name, type and initial value.
pub open spec fn field_matches(f: StructField, v: (Seq<char>, TypeV, ExprV)) -> bool {
    f.name@ == v.0 && f.ty@ == v.1 && opt_expr(f.default) == Some(v.2)
}

pub open spec fn fields_match(xs: Seq<StructField>, vs: Seq<(Seq<char>, TypeV, ExprV)>) -> bool {
    xs.len() == vs.len() && forall|i: int| 0 <= i < xs.len() ==> #[trigger] field_matches(xs[i], vs[i])
}

/// The members of a struct, up to `}` (read) or the end: fields `name:
/// Type` (see `sfield`), fields `let name: Type = expr;`, and transactions.
pub open spec fn struct_items(
    ts: Seq<SpannedToken>,
    pos: int,
    fs: Seq<(Seq<char>, TypeV, ExprV)>,
    xs: Seq<TxnParse>,
) -> Option<(Seq<(Seq<char>, TypeV, ExprV)>, Seq<TxnParse>, int)>
    decreases ts.len() - pos, 3int,
{
    if pos < 0 || pos > ts.len() {
        None
    } else {
        match tok(ts, pos) {
            None => Some((fs, xs, pos)),
            Some(Token::RBrace) => Some((fs, xs, pos + 1)),
            Some(Token::Identifier(_)) => if tok(ts, pos + 1) matches Some(Token::Colon) {
                sfield(ts, pos, fs, xs)
            } else {
                stxn(ts, pos, fs, xs)
            },
            Some(Token::Txn) | Some(Token::Rct) | Some(Token::Async) => stxn(ts, pos, fs, xs),
            Some(Token::Let) => if tok(ts, pos + 2) matches Some(Token::Colon) {
                slet(ts, pos, fs, xs)
            } else {
                stxn(ts, pos + 1, fs, xs)
            },
            _ => None,
        }
    }
}

/// A field `name: Type` at `pos`; its initial value is read only where the
/// token after the one following the type is `=`, and then that token must
/// be `=` too; then `;` and the rest of the members.
pub open spec fn sfield(
    ts: Seq<SpannedToken>,
    pos: int,
    fs: Seq<(Seq<char>, TypeV, ExprV)>,
    xs: Seq<TxnParse>,
) -> Option<(Seq<(Seq<char>, TypeV, ExprV)>, Seq<TxnParse>, int)>
    decreases ts.len() - pos, 2int,
{
    if pos < 0 || pos > ts.len() {
        None
    } else {
        match tok(ts, pos) {
            Some(Token::Identifier(n)) => match ptype(ts, pos + 2) {
                Some((t, p)) => if (tok(ts, p + 1) matches Some(Token::Eq)) && (tok(ts, p) matches Some(Token::Eq)) {
                    match pexpr(ts, p + 1, 0) {
                        Some((e, q)) => if pos < q < ts.len() && (tok(ts, q) matches Some(Token::Semicolon)) {
                            struct_items(ts, q + 1, fs.push((n@, t, e)), xs)
                        } else {
                            None
                        },
                        None => None,
                    }
                } else {
                    None
                },
                None => None,
            },
            _ => None,
        }
    }
}

/// A field `let name: Type = expr;` at `pos`, then the rest of the members.
pub open spec fn slet(
    ts: Seq<SpannedToken>,
    pos: int,
    fs: Seq<(Seq<char>, TypeV, ExprV)>,
    xs: Seq<TxnParse>,
) -> Option<(Seq<(Seq<char>, TypeV, ExprV)>, Seq<TxnParse>, int)>
    decreases ts.len() - pos, 2int,
{
    if pos < 0 || pos > ts.len() {
        None
    } else {
        match ident_name(tok(ts, pos + 1)) {
            Some(n) => match ptype(ts, pos + 3) {
                Some((t, p)) => if tok(ts, p) matches Some(Token::Eq) {
                    match pexpr(ts, p + 1, 0) {
                        Some((e, q)) => if pos < q < ts.len() && (tok(ts, q) matches Some(Token::Semicolon)) {
                            struct_items(ts, q + 1, fs.push((n, t, e)), xs)
                        } else {
                            None
                        },
                        None => None,
                    }
                } else {
                    None
                },
                None => None,
            },
            None => None,
        }
    }
}

/// A transaction member at `start`, then the rest of the members.
pub open spec fn stxn(
    ts: Seq<SpannedToken>,
    start: int,
    fs: Seq<(Seq<char>, TypeV, ExprV)>,
    xs: Seq<TxnParse>,
) -> Option<(Seq<(Seq<char>, TypeV, ExprV)>, Seq<TxnParse>, int)>
    decreases ts.len() - start, 1int,
{
    if start < 0 || start > ts.len() {
        None
    } else {
        match ptxn(ts, start) {
            Some((x, q)) => if start < q <= ts.len() { struct_items(ts, q, fs, xs.push(x)) } else { None },
            None => None,
        }
    }
}

/// A struct `struct Name { members }` followed by `;`.
pub open spec fn pstruct(ts: Seq<SpannedToken>, pos: int)
    -> Option<(Seq<char>, Seq<(Seq<char>, TypeV, ExprV)>, Seq<TxnParse>, int)>
{
    if 0 <= pos <= ts.len() && (tok(ts, pos) matches Some(Token::Struct)) && (tok(ts, pos + 2) matches Some(Token::LBrace)) {
        match ident_name(tok(ts, pos + 1)) {
            Some(n) => match struct_items(ts, pos + 3, seq![], seq![]) {
                Some((fs, xs, p)) => if tok(ts, p) matches Some(Token::Semicolon) { Some((n, fs, xs, p + 1)) } else { None },
                None => None,
            },
            None => None,
        }
    } else {
        None
    }
}

pub(crate) proof fn lemma_fields_push(xs: Seq<StructField>, vs: Seq<(Seq<char>, TypeV, ExprV)>, f: StructField, v: (Seq<char>, TypeV, ExprV))
    requires
        fields_match(xs, vs),
        field_matches(f, v),
    ensures
        fields_match(xs.push(f), vs.push(v)),
{
    assert forall|i: int| 0 <= i < xs.len() + 1 implies #[trigger] field_matches(xs.push(f)[i], vs.push(v)[i]) by {
        if i < xs.len() {
            assert(field_matches(xs[i], vs[i]));
        }
    }
}

pub(crate) proof fn lemma_txns_push(xs: Seq<Transaction>, vs: Seq<TxnParse>, t: Transaction, v: TxnParse)
    requires
        txns_match(xs, vs),
        txn_matches(t, v),
    ensures
        txns_match(xs.push(t), vs.push(v)),
{
    assert forall|i: int| 0 <= i < xs.len() + 1 implies #[trigger] txn_matches(xs.push(t)[i], vs.push(v)[i]) by {
        if i < xs.len() {
            assert(txn_matches(xs[i], vs[i]));
        }
    }
}

pub(crate) fn transaction_at(ts: &Vec<SpannedToken>, src: &str, pos: usize) -> (r: Result<(Transaction, usize), SyntaxError>)
    requires
        pos <= ts@.len(),
    ensures
        match ptxn(ts@, pos as int) {
            Some((x, p)) => r matches Ok((t, q)) && txn_matches(t, x) && q == p && q <= ts@.len(),
            None => r is Err,
        },
{
    proof { lemma_ptxn_bound(ts@, pos as int); }
    parse_transaction_at(ts, src, pos)
}

pub(crate) proof fn lemma_ptxn_bound(ts: Seq<SpannedToken>, pos: int)
    ensures
        ptxn(ts, pos) matches Some((_, p)) ==> p <= ts.len(),
{
}

#[verifier::rlimit(40)]
fn struct_items_exec(
    ts: &Vec<SpannedToken>,
    src: &str,
    pos: usize,
    fs: Vec<StructField>,
    xs: Vec<Transaction>,
    Ghost(fv): Ghost<Seq<(Seq<char>, TypeV, ExprV)>>,
    Ghost(xv): Ghost<Seq<TxnParse>>,
) -> (r: Result<(Vec<StructField>, Vec<Transaction>, usize), SyntaxError>)
    requires
        pos <= ts@.len(),
        fields_match(fs@, fv),
        txns_match(xs@, xv),
    ensures
        match struct_items(ts@, pos as int, fv, xv) {
            Some((f2, x2, p)) => r matches Ok((a, b, q)) && fields_match(a@, f2) && txns_match(b@, x2) && q == p,
            None => r is Err,
        },
        r matches Ok((_, _, q)) ==> pos <= q <= ts@.len(),
    decreases ts@.len() - pos, 3int,
{
    match tok_at(ts, pos) {
        None => Ok((fs, xs, pos)),
        Some(Token::RBrace) => Ok((fs, xs, pos + 1)),
        Some(Token::Identifier(_)) => match tok_at(ts, pos + 1) {
            Some(Token::Colon) => struct_ident(ts, src, pos, fs, xs, Ghost(fv), Ghost(xv)),
            _ => struct_txn(ts, src, pos, fs, xs, Ghost(fv), Ghost(xv)),
        },
        Some(Token::Txn) | Some(Token::Rct) | Some(Token::Async) => struct_txn(ts, src, pos, fs, xs, Ghost(fv), Ghost(xv)),
        Some(Token::Let) => match peek_at(ts, pos + 1) {
            Some(Token::Colon) => struct_let(ts, src, pos, fs, xs, Ghost(fv), Ghost(xv)),
            _ => struct_txn(ts, src, pos + 1, fs, xs, Ghost(fv), Ghost(xv)),
        },
        Some(t) => {
            let d = token_debug(t);
            let mut m = concat("Unexpected token in struct: Ok(", d.as_str());
            m.append(")");
            Err(reason_err(ts, src, pos, m))
        },
    }
}

fn field_err(ts: &Vec<SpannedToken>, src: &str, p: usize, n: &String) -> (e: SyntaxError) {
    let mut m = concat("struct field '", n.as_str());
    m.append("' must have initial value (e.g., let ");
    m.append(n.as_str());
    m.append(" = 0;)");
    reason_err(ts, src, p, m)
}

#[verifier::rlimit(40)]
fn struct_ident(
    ts: &Vec<SpannedToken>,
    src: &str,
    pos: usize,
    fs: Vec<StructField>,
    xs: Vec<Transaction>,
    Ghost(fv): Ghost<Seq<(Seq<char>, TypeV, ExprV)>>,
    Ghost(xv): Ghost<Seq<TxnParse>>,
) -> (r: Result<(Vec<StructField>, Vec<Transaction>, usize), SyntaxError>)
    requires
        pos < ts@.len(),
        pos + 1 < usize::MAX,
        tok(ts@, pos as int) matches Some(Token::Identifier(_)),
        tok(ts@, pos + 1) matches Some(Token::Colon),
        fields_match(fs@, fv),
        txns_match(xs@, xv),
    ensures
        match sfield(ts@, pos as int, fv, xv) {
            Some((f2, x2, p)) => r matches Ok((a, b, q)) && fields_match(a@, f2) && txns_match(b@, x2) && q == p,
            None => r is Err,
        },
        r matches Ok((_, _, q)) ==> pos <= q <= ts@.len(),
    decreases ts@.len() - pos, 2int,
{
    let n = match tok_at(ts, pos) {
        Some(Token::Identifier(n)) => n,
        _ => return Err(expected_err(ts, src, pos, "Identifier")),
    };
    let (t, p) = match parse_type_at(ts, src, pos + 2) {
        Ok(x) => x,
        Err(x) => return Err(x),
    };
    let init = match peek_at(ts, p) {
        Some(Token::Eq) => true,
        _ => false,
    };
    if !init {
        return Err(field_err(ts, src, p, n));
    }
    match tok_at(ts, p) {
        Some(Token::Eq) => {},
        _ => return Err(expected_err(ts, src, p, "Eq")),
    }
    field_tail(ts, src, pos, p, n.clone(), t, fs, xs, Ghost(fv), Ghost(xv))
}

#[verifier::rlimit(40)]
fn struct_let(
    ts: &Vec<SpannedToken>,
    src: &str,
    pos: usize,
    fs: Vec<StructField>,
    xs: Vec<Transaction>,
    Ghost(fv): Ghost<Seq<(Seq<char>, TypeV, ExprV)>>,
    Ghost(xv): Ghost<Seq<TxnParse>>,
) -> (r: Result<(Vec<StructField>, Vec<Transaction>, usize), SyntaxError>)
    requires
        pos < ts@.len(),
        pos + 2 < usize::MAX,
        tok(ts@, pos as int) matches Some(Token::Let),
        tok(ts@, pos + 2) matches Some(Token::Colon),
        fields_match(fs@, fv),
        txns_match(xs@, xv),
    ensures
        match slet(ts@, pos as int, fv, xv) {
            Some((f2, x2, p)) => r matches Ok((a, b, q)) && fields_match(a@, f2) && txns_match(b@, x2) && q == p,
            None => r is Err,
        },
        r matches Ok((_, _, q)) ==> pos <= q <= ts@.len(),
    decreases ts@.len() - pos, 2int,
{
    let n = match expect_identifier(ts, src, pos + 1) {
        Ok(n) => n,
        Err(x) => return Err(x),
    };
    let (t, p) = match parse_type_at(ts, src, pos + 3) {
        Ok(x) => x,
        Err(x) => return Err(x),
    };
    match tok_at(ts, p) {
        Some(Token::Eq) => {},
        _ => return Err(field_err(ts, src, p, &n)),
    }
    field_tail(ts, src, pos, p, n, t, fs, xs, Ghost(fv), Ghost(xv))
}

/// After a field's `=` at `p`: its value, `;`, and the rest of the members.
#[verifier::rlimit(40)]
fn field_tail(
    ts: &Vec<SpannedToken>,
    src: &str,
    pos: usize,
    p: usize,
    n: String,
    t: Type,
    fs: Vec<StructField>,
    xs: Vec<Transaction>,
    Ghost(fv): Ghost<Seq<(Seq<char>, TypeV, ExprV)>>,
    Ghost(xv): Ghost<Seq<TxnParse>>,
) -> (r: Result<(Vec<StructField>, Vec<Transaction>, usize), SyntaxError>)
    requires
        pos < p < ts@.len(),
        p < usize::MAX,
        tok(ts@, p as int) matches Some(Token::Eq),
        fields_match(fs@, fv),
        txns_match(xs@, xv),
    ensures
        match pexpr(ts@, p + 1, 0) {
            Some((e, q)) => if pos < q < ts@.len() && (tok(ts@, q) matches Some(Token::Semicolon)) {
                match struct_items(ts@, q + 1, fv.push((n@, t@, e)), xv) {
                    Some((f2, x2, p2)) => r matches Ok((a, b, q2)) && fields_match(a@, f2) && txns_match(b@, x2) && q2 == p2,
                    None => r is Err,
                }
            } else {
                r is Err
            },
            None => r is Err,
        },
        r matches Ok((_, _, q)) ==> pos <= q <= ts@.len(),
    decreases ts@.len() - pos, 1int,
{
    let (e, q) = match parse_level(ts, src, p + 1, 0) {
        Ok(x) => x,
        Err(x) => return Err(x),
    };
    match tok_at(ts, q) {
        Some(Token::Semicolon) => {},
        _ => return Err(expected_err(ts, src, q, "Semicolon")),
    }
    let ghost v = (n@, t@, e@);
    let f = StructField { name: n, ty: t, default: Some(e) };
    proof { lemma_fields_push(fs@, fv, f, v); }
    let mut fs = fs;
    fs.push(f);
    struct_items_exec(ts, src, q + 1, fs, xs, Ghost(fv.push(v)), Ghost(xv))
}

/// A transaction member at `start` (`pos` or just after a `let` at `pos`),
/// then the rest of the members.
#[verifier::rlimit(40)]
fn struct_txn(
    ts: &Vec<SpannedToken>,
    src: &str,
    start: usize,
    fs: Vec<StructField>,
    xs: Vec<Transaction>,
    Ghost(fv): Ghost<Seq<(Seq<char>, TypeV, ExprV)>>,
    Ghost(xv): Ghost<Seq<TxnParse>>,
) -> (r: Result<(Vec<StructField>, Vec<Transaction>, usize), SyntaxError>)
    requires
        start <= ts@.len(),
        fields_match(fs@, fv),
        txns_match(xs@, xv),
    ensures
        match stxn(ts@, start as int, fv, xv) {
            Some((f2, x2, p)) => r matches Ok((a, b, q2)) && fields_match(a@, f2) && txns_match(b@, x2) && q2 == p,
            None => r is Err,
        },
        r matches Ok((_, _, q)) ==> start <= q <= ts@.len(),
    decreases ts@.len() - start, 1int,
{
    match transaction_at(ts, src, start) {
        Ok((t, q)) => {
            if q <= start {
                return Err(reason_err(ts, src, q, owned("Unexpected token in struct")));
            }
            let ghost x = ptxn(ts@, start as int).unwrap().0;
            proof { lemma_txns_push(xs@, xv, t, x); }
            let mut xs = xs;
            xs.push(t);
            struct_items_exec(ts, src, q, fs, xs, Ghost(fv), Ghost(xv.push(x)))
        },
        Err(x) => Err(x),
    }
}

/// A struct definition (see `pstruct`); it has no view, and its span is that
/// of the `;`.
pub fn parse_struct_at(ts: &Vec<SpannedToken>, src: &str, pos: usize) -> (r: Result<(StructDefinition, usize), SyntaxError>)
    requires
        pos <= ts@.len(),
    ensures
        match pstruct(ts@, pos as int) {
            Some((n, fs, xs, p)) => r matches Ok((d, q)) && d.name@ == n && fields_match(d.fields@, fs)
                && txns_match(d.transactions@, xs) && d.view_html is None && q == p,
            None => r is Err,
        },
        r matches Ok((_, q)) ==> q <= ts@.len(),
{
    match tok_at(ts, pos) {
        Some(Token::Struct) => {},
        _ => return Err(expected_err(ts, src, pos, "Struct")),
    }
    let name = match expect_identifier(ts, src, pos + 1) {
        Ok(n) => n,
        Err(x) => return Err(x),
    };
    match tok_at(ts, pos + 2) {
        Some(Token::LBrace) => {},
        _ => return Err(expected_err(ts, src, pos + 2, "LBrace")),
    }
    let (fs, xs, p) = match struct_items_exec(ts, src, pos + 3, Vec::new(), Vec::new(), Ghost(Seq::empty()), Ghost(Seq::empty())) {
        Ok(x) => x,
        Err(x) => return Err(x),
    };
    let span = if p < ts.len() { Some(span_of(src, ts[p].start, ts[p].end)) } else { None };
    match tok_at(ts, p) {
        Some(Token::Semicolon) => Ok((StructDefinition { name: name, fields: fs, transactions: xs, view_html: None, span: span }, p + 1)),
        _ => Err(expected_err(ts, src, p, "Semicolon")),
    }
}

// ---------------------------------------------------------------------------
// Foreign bindings

/// The type a foreign binding names: the built-in names, `void` for
/// `Void`, any other name as a custom type.
pub open spec fn named_type(n: Seq<char>) -> TypeV {
    if n == "String"@ {
        TypeV::String
    } else if n == "Int"@ {
        TypeV::Int
    } else if n == "Float"@ {
        TypeV::Float
    } else if n == "Bool"@ {
        TypeV::Bool
    } else if n == "void"@ {
        TypeV::Void
    } else if n == "Data"@ {
        TypeV::Data
    } else {
        TypeV::Custom(n)
    }
}

fn named_type_exec(n: &String) -> (t: Type)
    ensures
        t@ == named_type(n@),
{
    let c = crate::text::chars_of(n.as_str());
    let s = c.as_slice();
    if crate::text::eq_str(s, "String") {
        Type::String
    } else if crate::text::eq_str(s, "Int") {
        Type::Int
    } else if crate::text::eq_str(s, "Float") {
        Type::Float
    } else if crate::text::eq_str(s, "Bool") {
        Type::Bool
    } else if crate::text::eq_str(s, "void") {
        Type::Void
    } else if crate::text::eq_str(s, "Data") {
        Type::Data
    } else {
        Type::Custom(n.clone())
    }
}

/// Named fields `name: TypeName` separated by commas; with `opt`, the list
/// may end (or be empty) where no name comes next.
pub open spec fn named_fields(ts: Seq<SpannedToken>, pos: int, acc: Seq<(Seq<char>, TypeV)>, opt: bool)
    -> Option<(Seq<(Seq<char>, TypeV)>, int)>
    decreases ts.len() - pos,
{
    if pos < 0 || pos > ts.len() {
        None
    } else if opt && !(tok(ts, pos) matches Some(Token::Identifier(_))) {
        Some((acc, pos))
    } else {
        match ident_name(tok(ts, pos)) {
            Some(n) => if tok(ts, pos + 1) matches Some(Token::Colon) {
                match ident_name(tok(ts, pos + 2)) {
                    Some(tn) => if tok(ts, pos + 3) matches Some(Token::Comma) {
                        named_fields(ts, pos + 4, acc.push((n, named_type(tn))), opt)
                    } else {
                        Some((acc.push((n, named_type(tn))), pos + 3))
                    },
                    None => None,
                }
            } else {
                None
            },
            None => None,
        }
    }
}

/// What a foreign binding gives.
pub struct FrgnV {
    pub name: Seq<char>,
    pub inputs: Seq<(Seq<char>, TypeV)>,
    pub success: Seq<(Seq<char>, TypeV)>,
    pub error: Seq<char>,
    pub path: Seq<char>,
}

/// A foreign binding `frgn name(inputs) -> Result<S, E> from "path";`,
/// where `S` is a type name (the output `result`) or named fields in
/// brackets.
pub open spec fn pfrgn(ts: Seq<SpannedToken>, pos: int) -> Option<(FrgnV, int)> {
    if 0 <= pos <= ts.len() && (tok(ts, pos) matches Some(Token::Frgn)) && (tok(ts, pos + 2) matches Some(Token::LParen)) {
        match ident_name(tok(ts, pos + 1)) {
            Some(name) => match named_fields(ts, pos + 3, seq![], true) {
                Some((ins, p1)) => if pos < p1 <= ts.len() && (tok(ts, p1) matches Some(Token::RParen))
                    && (tok(ts, p1 + 1) matches Some(Token::Arrow)) && (match tok(ts, p1 + 2) {
                        Some(Token::Identifier(r)) => r@ == "Result"@,
                        _ => false,
                    }) && (tok(ts, p1 + 3) matches Some(Token::Lt)) {
                    let p = p1 + 4;
                    let success: Option<(Seq<(Seq<char>, TypeV)>, int)> = if tok(ts, p) matches Some(Token::LParen) {
                        match named_fields(ts, p + 1, seq![], false) {
                            Some((fs, q)) => if tok(ts, q) matches Some(Token::RParen) { Some((fs, q + 1)) } else { None },
                            None => None,
                        }
                    } else {
                        match ident_name(tok(ts, p)) {
                            Some(tn) => Some((seq![("result"@, named_type(tn))], p + 1)),
                            None => None,
                        }
                    };
                    match success {
                        Some((ss, q)) => if tok(ts, q) matches Some(Token::Comma) {
                            match ident_name(tok(ts, q + 1)) {
                                Some(e) => if (tok(ts, q + 2) matches Some(Token::Gt)) && (tok(ts, q + 3) matches Some(Token::From)) {
                                    match tok(ts, q + 4) {
                                        Some(Token::String(s)) => if tok(ts, q + 5) matches Some(Token::Semicolon) {
                                            Some((FrgnV { name: name, inputs: ins, success: ss, error: e, path: s@ }, q + 6))
                                        } else {
                                            None
                                        },
                                        _ => None,
                                    }
                                } else {
                                    None
                                },
                                None => None,
                            }
                        } else {
                            None
                        },
                        None => None,
                    }
                } else {
                    None
                },
                None => None,
            },
            None => None,
        }
    } else {
        None
    }
}

/// A foreign binding item as `v` gives it: a `Frgn` signature for the
/// native target with no location, layouts, conditions or error fields.
pub open spec fn frgn_matches(x: TopLevel, v: FrgnV) -> bool {
    match x {
        TopLevel::ForeignBinding { name, toml_path, signature, target, span } => name@ == v.name && toml_path@ == v.path
            && target == ForeignTarget::Native && span is None && signature.name@ == v.name
            && signature.location@.len() == 0 && signature.wasm_impl is None && signature.wasm_setup is None
            && params_view(signature.inputs@) == v.inputs && params_view(signature.success_output@) == v.success
            && signature.error_type_name@ == v.error && signature.error_fields@.len() == 0
            && signature.input_layout is None && signature.output_layout is None && signature.precondition is None
            && signature.postcondition is None && signature.buffer_mode is None
            && signature.result_type is TrueAssertion && signature.ffi_kind == Some(FfiKind::Frgn)
            && signature.span is None,
        _ => false,
    }
}

fn named_fields_exec(ts: &Vec<SpannedToken>, src: &str, pos: usize, acc: Vec<(String, Type)>, opt: bool)
    -> (r: Result<(Vec<(String, Type)>, usize), SyntaxError>)
    requires
        pos <= ts@.len(),
    ensures
        match named_fields(ts@, pos as int, params_view(acc@), opt) {
            Some((fs, p)) => r matches Ok((v, q)) && params_view(v@) == fs && q == p,
            None => r is Err,
        },
        r matches Ok((_, q)) ==> pos <= q <= ts@.len(),
    decreases ts@.len() - pos,
{
    let is_ident = match tok_at(ts, pos) {
        Some(Token::Identifier(_)) => true,
        _ => false,
    };
    if opt && !is_ident {
        return Ok((acc, pos));
    }
    let n = match expect_identifier(ts, src, pos) {
        Ok(n) => n,
        Err(x) => return Err(x),
    };
    match tok_at(ts, pos + 1) {
        Some(Token::Colon) => {},
        _ => return Err(expected_err(ts, src, pos + 1, "Colon")),
    }
    let tn = match expect_identifier(ts, src, pos + 2) {
        Ok(n) => n,
        Err(x) => return Err(x),
    };
    let t = named_type_exec(&tn);
    let ghost before = params_view(acc@);
    let ghost item = (n@, t@);
    let mut acc = acc;
    acc.push((n, t));
    assert(params_view(acc@) =~= before.push(item));
    match tok_at(ts, pos + 3) {
        Some(Token::Comma) => named_fields_exec(ts, src, pos + 4, acc, opt),
        _ => Ok((acc, pos + 3)),
    }
}

/// A foreign binding (see `pfrgn`). Whatever kind of binding the top level
/// reached, the declaration must start with `frgn` and gets the kind `Frgn`.
pub fn parse_frgn_binding_at(ts: &Vec<SpannedToken>, src: &str, pos: usize, kind: FfiKind) -> (r: Result<(TopLevel, usize), SyntaxError>)
    requires
        pos <= ts@.len(),
    ensures
        match pfrgn(ts@, pos as int) {
            Some((v, p)) => r matches Ok((x, q)) && frgn_matches(x, v) && q == p,
            None => r is Err,
        },
        r matches Ok((_, q)) ==> q <= ts@.len(),
{
    match tok_at(ts, pos) {
        Some(Token::Frgn) => {},
        _ => return Err(expected_err(ts, src, pos, "Frgn")),
    }
    let name = match expect_identifier(ts, src, pos + 1) {
        Ok(n) => n,
        Err(x) => return Err(x),
    };
    match tok_at(ts, pos + 2) {
        Some(Token::LParen) => {},
        _ => return Err(expected_err(ts, src, pos + 2, "LParen")),
    }
    let empty: Vec<(String, Type)> = Vec::new();
    assert(params_view(empty@) =~= Seq::<(Seq<char>, TypeV)>::empty());
    let (inputs, p1) = match named_fields_exec(ts, src, pos + 3, empty, true) {
        Ok(x) => x,
        Err(x) => return Err(x),
    };
    match tok_at(ts, p1) {
        Some(Token::RParen) => {},
        _ => return Err(expected_err(ts, src, p1, "RParen")),
    }
    match tok_at(ts, p1 + 1) {
        Some(Token::Arrow) => {},
        _ => return Err(expected_err(ts, src, p1 + 1, "Arrow")),
    }
    match tok_at(ts, p1 + 2) {
        Some(Token::Identifier(rid)) => {
            let c = crate::text::chars_of(rid.as_str());
            if !crate::text::eq_str(c.as_slice(), "Result") {
                let m = concat("Expected 'Result<T, E>', found ", rid.as_str());
                return Err(reason_err(ts, src, p1 + 2, m));
            }
        },
        _ => return Err(reason_err(ts, src, p1 + 2, owned("Expected Result type for frgn binding"))),
    }
    match tok_at(ts, p1 + 3) {
        Some(Token::Lt) => {},
        _ => return Err(expected_err(ts, src, p1 + 3, "Lt")),
    }
    let p = p1 + 4;
    let (success, q) = match tok_at(ts, p) {
        Some(Token::LParen) => {
            let empty: Vec<(String, Type)> = Vec::new();
            assert(params_view(empty@) =~= Seq::<(Seq<char>, TypeV)>::empty());
            match named_fields_exec(ts, src, p + 1, empty, false) {
                Ok((fs, q)) => match tok_at(ts, q) {
                    Some(Token::RParen) => (fs, q + 1),
                    _ => return Err(expected_err(ts, src, q, "RParen")),
                },
                Err(x) => return Err(x),
            }
        },
        _ => {
            let tn = match expect_identifier(ts, src, p) {
                Ok(n) => n,
                Err(x) => return Err(x),
            };
            let t = named_type_exec(&tn);
            let mut v: Vec<(String, Type)> = Vec::new();
            let ghost item = ("result"@, t@);
            v.push((owned("result"), t));
            assert(params_view(v@) =~= seq![item]);
            (v, p + 1)
        },
    };
    match tok_at(ts, q) {
        Some(Token::Comma) => {},
        _ => return Err(expected_err(ts, src, q, "Comma")),
    }
    let error_type_name = match expect_identifier(ts, src, q + 1) {
        Ok(n) => n,
        Err(x) => return Err(x),
    };
    match tok_at(ts, q + 2) {
        Some(Token::Gt) => {},
        _ => return Err(expected_err(ts, src, q + 2, "Gt")),
    }
    match tok_at(ts, q + 3) {
        Some(Token::From) => {},
        _ => return Err(expected_err(ts, src, q + 3, "From")),
    }
    let toml_path = match tok_at(ts, q + 4) {
        Some(Token::String(s)) => s.clone(),
        _ => return Err(reason_err(ts, src, q + 4, owned("Expected TOML file path as string"))),
    };
    match tok_at(ts, q + 5) {
        Some(Token::Semicolon) => {},
        _ => return Err(expected_err(ts, src, q + 5, "Semicolon")),
    }
    let sig = ForeignSignature {
        name: name.clone(),
        location: String::new(),
        wasm_impl: None,
        wasm_setup: None,
        inputs: inputs,
        success_output: success,
        result_type: ResultType::TrueAssertion,
        error_type_name: error_type_name,
        error_fields: Vec::new(),
        input_layout: None,
        output_layout: None,
        precondition: None,
        postcondition: None,
        buffer_mode: None,
        ffi_kind: Some(FfiKind::Frgn),
        span: None,
    };
    Ok((TopLevel::ForeignBinding { name: name, toml_path: toml_path, signature: sig, target: ForeignTarget::Native, span: None }, q + 6))
}

// ---------------------------------------------------------------------------
// Signatures

/// Tokens up to the `)` that closes a `(` already read, at depth `depth`:
/// the position after it. Where the tokens end first there is none.
pub open spec fn skip_parens(ts: Seq<SpannedToken>, pos: int, depth: nat) -> Option<int>
    decreases ts.len() - pos,
{
    if pos < 0 || pos >= ts.len() {
        None
    } else {
        let d: int = match tok(ts, pos) {
            Some(Token::LParen) => depth + 1int,
            Some(Token::RParen) => depth - 1,
            _ => depth as int,
        };
        if d <= 0 { Some(pos + 1) } else { skip_parens(ts, pos + 1, d as nat) }
    }
}

/// A dotted name `a.b.c`, joined with dots, after the text `acc`.
pub open spec fn dotted(ts: Seq<SpannedToken>, pos: int, acc: Seq<char>) -> Option<(Seq<char>, int)>
    decreases ts.len() - pos,
{
    if pos < 0 || pos > ts.len() {
        None
    } else {
        match ident_name(tok(ts, pos)) {
            Some(n) => if tok(ts, pos + 1) matches Some(Token::Dot) {
                dotted(ts, pos + 2, acc + n + "."@)
            } else {
                Some((acc + n, pos + 1))
            },
            None => None,
        }
    }
}

/// The result of a signature: `true`, or types separated by commas
/// (`None` stands for the `true` assertion).
pub open spec fn sig_result(ts: Seq<SpannedToken>, pos: int) -> Option<(Option<Seq<TypeV>>, int)> {
    if tok(ts, pos) matches Some(Token::BoolTrue) {
        Some((None, pos + 1))
    } else {
        match crate::compiler::parser::type_items(ts, pos, seq![]) {
            Some((tys, p)) => Some((Some(tys), p)),
            None => None,
        }
    }
}

/// What a signature gives.
pub struct SigV {
    pub name: Seq<char>,
    pub input: TypeV,
    pub result: Option<Seq<TypeV>>,
    pub bound_defn: Option<Seq<char>>,
    pub source: Option<Seq<char>>,
    pub alias: Option<Seq<char>>,
}

/// An optional binding `= defn`, whose bracketed arguments are skipped.
pub open spec fn sig_bound(ts: Seq<SpannedToken>, p: int) -> Option<(Option<Seq<char>>, int)> {
    if tok(ts, p) matches Some(Token::Eq) {
        match ident_name(tok(ts, p + 1)) {
            Some(d) => if tok(ts, p + 2) matches Some(Token::LParen) {
                match skip_parens(ts, p + 3, 1) {
                    Some(q) => Some((Some(d), q)),
                    None => None,
                }
            } else {
                Some((Some(d), p + 2))
            },
            None => None,
        }
    } else {
        Some((None, p))
    }
}

/// An optional `from a.b`.
pub open spec fn sig_source(ts: Seq<SpannedToken>, p: int) -> Option<(Option<Seq<char>>, int)> {
    if tok(ts, p) matches Some(Token::From) {
        match dotted(ts, p + 1, seq![]) {
            Some((s, q)) => Some((Some(s), q)),
            None => None,
        }
    } else {
        Some((None, p))
    }
}

/// An optional `as alias`.
pub open spec fn sig_alias(ts: Seq<SpannedToken>, p: int) -> Option<(Option<Seq<char>>, int)> {
    if tok(ts, p) matches Some(Token::As) {
        match ident_name(tok(ts, p + 1)) {
            Some(a) => Some((Some(a), p + 2)),
            None => None,
        }
    } else {
        Some((None, p))
    }
}

/// A signature `sig name: Input -> Result`, an optional binding `= defn`
/// (whose bracketed arguments are skipped), an optional `from a.b`, an
/// optional `as alias`, and `;`.
pub open spec fn psig(ts: Seq<SpannedToken>, pos: int) -> Option<(SigV, int)> {
    if 0 <= pos <= ts.len() && (tok(ts, pos) matches Some(Token::Sig)) && (tok(ts, pos + 2) matches Some(Token::Colon)) {
        match (ident_name(tok(ts, pos + 1)), ptype(ts, pos + 3)) {
            (Some(n), Some((input, p1))) => if fits(ts, pos, p1) && (tok(ts, p1) matches Some(Token::Arrow)) {
                match sig_result(ts, p1 + 1) {
                    Some((res, p2)) => match sig_bound(ts, p2) {
                        Some((bd, p3)) => match sig_source(ts, p3) {
                            Some((src, p4)) => match sig_alias(ts, p4) {
                                Some((al, p5)) => if tok(ts, p5) matches Some(Token::Semicolon) {
                                    Some((SigV { name: n, input: input, result: res, bound_defn: bd, source: src, alias: al }, p5 + 1))
                                } else {
                                    None
                                },
                                None => None,
                            },
                            None => None,
                        },
                        None => None,
                    },
                    None => None,
                }
            } else {
                None
            },
            _ => None,
        }
    } else {
        None
    }
}

pub open spec fn opt_name(o: Option<String>) -> Option<Seq<char>> {
    match o {
        Some(s) => Some(s@),
        None => None,
    }
}

pub open spec fn sig_matches(s: Signature, v: SigV) -> bool {
    s.name@ == v.name && types_view(s.input_types@, s.input_types@.len() as int) == seq![v.input]
        && (match (s.result_type, v.result) {
            (ResultType::TrueAssertion, None) => true,
            (ResultType::Projection(ts), Some(us)) => types_view(ts@, ts@.len() as int) == us,
            _ => false,
        })
        && opt_name(s.bound_defn) == v.bound_defn && opt_name(s.source) == v.source && opt_name(s.alias) == v.alias
}

fn skip_parens_exec(ts: &Vec<SpannedToken>, src: &str, pos: usize, depth: usize) -> (r: Result<usize, SyntaxError>)
    requires
        pos <= ts@.len(),
        depth >= 1,
        depth + ts@.len() - pos <= usize::MAX,
    ensures
        match skip_parens(ts@, pos as int, depth as nat) {
            Some(q) => r matches Ok(x) && x == q && q <= ts@.len(),
            None => r is Err,
        },
    decreases ts@.len() - pos,
{
    if pos >= ts.len() {
        return Err(reason_err(ts, src, pos, owned("Unexpected EOF in signature arguments")));
    }
    let d: usize = match tok_at(ts, pos) {
        Some(Token::LParen) => depth + 1,
        Some(Token::RParen) => depth - 1,
        _ => depth,
    };
    if d == 0 {
        Ok(pos + 1)
    } else {
        skip_parens_exec(ts, src, pos + 1, d)
    }
}

fn dotted_exec(ts: &Vec<SpannedToken>, src: &str, pos: usize, acc: String) -> (r: Result<(String, usize), SyntaxError>)
    requires
        pos <= ts@.len(),
    ensures
        match dotted(ts@, pos as int, acc@) {
            Some((s, p)) => r matches Ok((x, q)) && x@ == s && q == p,
            None => r is Err,
        },
        r matches Ok((_, q)) ==> pos < q <= ts@.len(),
    decreases ts@.len() - pos,
{
    let n = match expect_identifier(ts, src, pos) {
        Ok(n) => n,
        Err(x) => return Err(x),
    };
    let mut acc = acc;
    acc.append(n.as_str());
    match tok_at(ts, pos + 1) {
        Some(Token::Dot) => {
            acc.append(".");
            dotted_exec(ts, src, pos + 2, acc)
        },
        _ => Ok((acc, pos + 1)),
    }
}

/// A signature (see `psig`). Where the tokens end inside the skipped
/// arguments of the binding, this is an error.
pub fn parse_signature_at(ts: &Vec<SpannedToken>, src: &str, pos: usize) -> (r: Result<(Signature, usize), SyntaxError>)
    requires
        pos <= ts@.len(),
    ensures
        match psig(ts@, pos as int) {
            Some((v, p)) => r matches Ok((s, q)) && sig_matches(s, v) && q == p,
            None => r is Err,
        },
        r matches Ok((_, q)) ==> q <= ts@.len(),
{
    match tok_at(ts, pos) {
        Some(Token::Sig) => {},
        _ => return Err(expected_err(ts, src, pos, "Sig")),
    }
    let name = match expect_identifier(ts, src, pos + 1) {
        Ok(n) => n,
        Err(x) => return Err(x),
    };
    match tok_at(ts, pos + 2) {
        Some(Token::Colon) => {},
        _ => return Err(expected_err(ts, src, pos + 2, "Colon")),
    }
    let (input, p1) = match parse_type_at(ts, src, pos + 3) {
        Ok(x) => x,
        Err(x) => return Err(x),
    };
    match tok_at(ts, p1) {
        Some(Token::Arrow) => {},
        _ => return Err(expected_err(ts, src, p1, "Arrow")),
    }
    let (result_type, p2) = match tok_at(ts, p1 + 1) {
        Some(Token::BoolTrue) => (ResultType::TrueAssertion, p1 + 2),
        _ => {
            let empty: Vec<Type> = Vec::new();
            assert(types_view(empty@, 0) =~= Seq::<TypeV>::empty());
            match crate::compiler::parser::type_items_exec(ts, src, p1 + 1, empty) {
                Ok((tys, q)) => (ResultType::Projection(tys), q),
                Err(x) => return Err(x),
            }
        },
    };
    let (bound_defn, p3) = match tok_at(ts, p2) {
        Some(Token::Eq) => {
            let d = match expect_identifier(ts, src, p2 + 1) {
                Ok(n) => n,
                Err(x) => return Err(x),
            };
            match tok_at(ts, p2 + 2) {
                Some(Token::LParen) => {
                    assert(ts@.len() == ts.len());
                    match skip_parens_exec(ts, src, p2 + 3, 1) {
                        Ok(q) => (Some(d), q),
                        Err(x) => return Err(x),
                    }
                },
                _ => (Some(d), p2 + 2),
            }
        },
        _ => (None, p2),
    };
    assert(sig_bound(ts@, p2 as int) == Some((opt_name(bound_defn), p3 as int)));
    let (source, p4) = match tok_at(ts, p3) {
        Some(Token::From) => {
            let acc = String::new();
            assert(acc@ =~= Seq::<char>::empty());
            match dotted_exec(ts, src, p3 + 1, acc) {
                Ok((s, q)) => (Some(s), q),
                Err(x) => return Err(x),
            }
        },
        _ => (None, p3),
    };
    assert(sig_source(ts@, p3 as int) == Some((opt_name(source), p4 as int)));
    let (alias, p5) = match tok_at(ts, p4) {
        Some(Token::As) => match expect_identifier(ts, src, p4 + 1) {
            Ok(a) => (Some(a), p4 + 2),
            Err(x) => return Err(x),
        },
        _ => (None, p4),
    };
    assert(sig_alias(ts@, p4 as int) == Some((opt_name(alias), p5 as int)));
    match tok_at(ts, p5) {
        Some(Token::Semicolon) => {},
        _ => return Err(expected_err(ts, src, p5, "Semicolon")),
    }
    let ghost iv = input@;
    let mut inputs: Vec<Type> = Vec::new();
    inputs.push(input);
    proof {
        crate::compiler::ast::lemma_types_view(inputs@, 1);
        assert(types_view(inputs@, 1) =~= seq![iv]);
    }
    Ok((Signature { name: name, input_types: inputs, result_type: result_type, source: source, alias: alias, bound_defn: bound_defn }, p5 + 1))
}

} // verus!
