//! Reactive structs, render blocks and imports, the dispatch over every
//! top-level item, and the whole file. Each function is stated by a spec
//! function over the tokens and, where the source text is read, its bytes.

use vstd::prelude::*;
use vstd::utf8::{valid_utf8, decode_utf8};
use vstd::string::StringSliceAdditionalSpecFns;
use crate::text::{owned, eq_str, chars_of, contains_char, contains_char_slice, trim, trimmed, string_of, views, string_views};
use crate::compiler::errors::SyntaxError;
use crate::compiler::ast::{
    ExprV, TypeV, Transaction, StructField, RStructDefinition, RenderBlock, Import, ImportItem,
    TopLevel, Definition, FfiKind, Program, types_view, output_types,
};
use crate::compiler::analysis::dataflow::stmts_view;
use crate::compiler::parser::{
    SpannedToken, Token, tok, ident_name, pexpr, ptype, tok_at, expect_identifier, span_of,
    expected_err, reason_err, token_debug, parse_level, parse_type_at, TxnParse, ptxn, span_at,
    DefnParse, pdefn, pconst, tparams_view, params_view, out_names_view, watchdog_view,
    parse_definition_at, parse_constant_at,
};
use crate::compiler::parser_items::{
    fields_match, txns_match, txn_matches, lemma_fields_push, lemma_txns_push, transaction_at, peek_at,
    SigV, psig, sig_matches, parse_signature_at, StateV, pstate, state_matches, parse_state_decl_at,
    TriggerV, ptrigger, trigger_matches, parse_trigger_at, FrgnV, pfrgn, frgn_matches, parse_frgn_binding_at,
    presource, parse_resource_at, pstruct, parse_struct_at, VariantV, penum, tparam_names, variants_match,
    parse_enum_at,
};
use crate::compiler::parser_html::{html_block, scan_html_block};
use crate::ffi_lib::native::{split_on, split_on_exec, strings_upto, string_from_utf8};

verus! {

// ---------------------------------------------------------------------------
// Reactive structs

/// A member transaction whose name has no `.` is named after the struct:
/// `Struct.name`.
pub open spec fn expand_txn(x: TxnParse, rn: Seq<char>) -> TxnParse {
    if contains_char(x.name, '.') {
        x
    } else {
        TxnParse { name: rn + seq!['.'] + x.name, ..x }
    }
}

/// The tokens from `p` on whose span ends before byte `e` are passed over.
pub open spec fn adv_past(ts: Seq<SpannedToken>, p: int, e: int) -> int
    decreases ts.len() - p,
{
    if p < 0 || p >= ts.len() || ts[p].end >= e {
        p
    } else {
        adv_past(ts, p + 1, e)
    }
}

/// The members of a reactive struct named `rn`, from `pos` up to `}` (read)
/// or the end, after the fields `fs`, transactions `xs` and view `h` read so
/// far, `k` members having been read: fields `name: Type = expr;` or `let
/// name: Type = expr;` (the value is required), transactions (named as
/// `expand_txn` says), and HTML blocks starting with `<` (appended to the
/// view). The ten-thousandth member ends the reading with an error.
pub open spec fn rs_items(
    ts: Seq<SpannedToken>,
    b: Seq<u8>,
    rn: Seq<char>,
    pos: int,
    k: nat,
    fs: Seq<(Seq<char>, TypeV, ExprV)>,
    xs: Seq<TxnParse>,
    h: Seq<char>,
) -> Option<(Seq<(Seq<char>, TypeV, ExprV)>, Seq<TxnParse>, Seq<char>, int)>
    decreases ts.len() - pos, 2int,
{
    if pos < 0 || pos > ts.len() {
        None
    } else if tok(ts, pos) is None {
        Some((fs, xs, h, pos))
    } else if k >= 10000 {
        None
    } else {
        match tok(ts, pos) {
            Some(Token::RBrace) => Some((fs, xs, h, pos + 1)),
            Some(Token::Identifier(_)) => if tok(ts, pos + 1) matches Some(Token::Colon) {
                rs_field(ts, b, rn, pos, pos, k + 1, fs, xs, h)
            } else {
                rs_txn(ts, b, rn, pos, pos, k + 1, fs, xs, h)
            },
            Some(Token::Let) => if tok(ts, pos + 2) matches Some(Token::Colon) {
                rs_field(ts, b, rn, pos, pos + 1, k + 1, fs, xs, h)
            } else {
                rs_txn(ts, b, rn, pos, pos + 1, k + 1, fs, xs, h)
            },
            Some(Token::Txn) | Some(Token::Rct) | Some(Token::Async) => rs_txn(ts, b, rn, pos, pos, k + 1, fs, xs, h),
            Some(Token::Lt) => rs_html(ts, b, rn, pos, k + 1, fs, xs, h),
            _ => None,
        }
    }
}

/// A field of the member at `pos` whose name is at `np`, then the rest.
pub open spec fn rs_field(
    ts: Seq<SpannedToken>,
    b: Seq<u8>,
    rn: Seq<char>,
    pos: int,
    np: int,
    k: nat,
    fs: Seq<(Seq<char>, TypeV, ExprV)>,
    xs: Seq<TxnParse>,
    h: Seq<char>,
) -> Option<(Seq<(Seq<char>, TypeV, ExprV)>, Seq<TxnParse>, Seq<char>, int)>
    decreases ts.len() - pos, 1int,
{
    if pos < 0 || pos >= ts.len() {
        None
    } else {
        match ident_name(tok(ts, np)) {
            Some(n) => match ptype(ts, np + 2) {
                Some((t, p)) => if tok(ts, p) matches Some(Token::Eq) {
                    match pexpr(ts, p + 1, 0) {
                        Some((e, q)) => if pos < q < ts.len() && (tok(ts, q) matches Some(Token::Semicolon)) {
                            rs_items(ts, b, rn, q + 1, k, fs.push((n, t, e)), xs, h)
                        } else {
                            None
                        },
                        None => None,
                    }
                } else {
                    None
                },
                None => None,
            },
            None => None,
        }
    }
}

/// A transaction of the member at `pos` starting at `start`, then the rest.
pub open spec fn rs_txn(
    ts: Seq<SpannedToken>,
    b: Seq<u8>,
    rn: Seq<char>,
    pos: int,
    start: int,
    k: nat,
    fs: Seq<(Seq<char>, TypeV, ExprV)>,
    xs: Seq<TxnParse>,
    h: Seq<char>,
) -> Option<(Seq<(Seq<char>, TypeV, ExprV)>, Seq<TxnParse>, Seq<char>, int)>
    decreases ts.len() - pos, 1int,
{
    if pos < 0 || start < 0 || start > ts.len() {
        None
    } else {
        match ptxn(ts, start) {
            Some((x, q)) => if pos < q <= ts.len() {
                rs_items(ts, b, rn, q, k, fs, xs.push(expand_txn(x, rn)), h)
            } else {
                None
            },
            None => None,
        }
    }
}

/// An HTML block at the `<` at `pos`; the tokens inside it are passed over,
/// then one more; then the rest.
pub open spec fn rs_html(
    ts: Seq<SpannedToken>,
    b: Seq<u8>,
    rn: Seq<char>,
    pos: int,
    k: nat,
    fs: Seq<(Seq<char>, TypeV, ExprV)>,
    xs: Seq<TxnParse>,
    h: Seq<char>,
) -> Option<(Seq<(Seq<char>, TypeV, ExprV)>, Seq<TxnParse>, Seq<char>, int)>
    decreases ts.len() - pos, 1int,
{
    if pos < 0 || pos >= ts.len() {
        None
    } else {
        match html_block(b, ts[pos].start as int) {
            Some((hh, e)) => {
                let a = adv_past(ts, pos, e);
                let nx = if a < ts.len() { a + 1 } else { a };
                if pos < nx <= ts.len() {
                    rs_items(ts, b, rn, nx, k, fs, xs, h + hh)
                } else {
                    None
                }
            },
            None => None,
        }
    }
}

/// What a reactive struct gives.
pub struct RStructV {
    pub name: Seq<char>,
    pub fields: Seq<(Seq<char>, TypeV, ExprV)>,
    pub txns: Seq<TxnParse>,
    pub html: Seq<char>,
}

/// A reactive struct `rstruct Name { members }` with a view that is not
/// empty, followed by `;`.
pub open spec fn prstruct(ts: Seq<SpannedToken>, b: Seq<u8>, pos: int) -> Option<(RStructV, int)> {
    if 0 <= pos <= ts.len() && (tok(ts, pos) matches Some(Token::Rstruct)) && (tok(ts, pos + 2) matches Some(Token::LBrace)) {
        match ident_name(tok(ts, pos + 1)) {
            Some(n) => match rs_items(ts, b, n, pos + 3, 0, seq![], seq![], seq![]) {
                Some((fs, xs, h, p)) => if h.len() > 0 && (tok(ts, p) matches Some(Token::Semicolon)) {
                    Some((RStructV { name: n, fields: fs, txns: xs, html: h }, p + 1))
                } else {
                    None
                },
                None => None,
            },
            None => None,
        }
    } else {
        None
    }
}

pub open spec fn rstruct_matches(d: RStructDefinition, v: RStructV) -> bool {
    d.name@ == v.name && fields_match(d.fields@, v.fields) && txns_match(d.transactions@, v.txns) && d.view_html@ == v.html
}

/// A result of the member readers that agrees with `s`.
pub open spec fn rs_result(
    r: Result<(Vec<StructField>, Vec<Transaction>, String, usize), SyntaxError>,
    s: Option<(Seq<(Seq<char>, TypeV, ExprV)>, Seq<TxnParse>, Seq<char>, int)>,
) -> bool {
    match s {
        Some((f2, x2, h2, p)) => r matches Ok((a, c, hs, q)) && fields_match(a@, f2) && txns_match(c@, x2) && hs@ == h2 && q == p,
        None => r is Err,
    }
}

fn expand_exec(t: Transaction, rn: &String, Ghost(x): Ghost<TxnParse>) -> (u: Transaction)
    requires
        txn_matches(t, x),
    ensures
        txn_matches(u, expand_txn(x, rn@)),
{
    let cs = chars_of(t.name.as_str());
    if contains_char_slice(cs.as_slice(), '.') {
        t
    } else {
        let mut nn = owned(rn.as_str());
        nn.append(".");
        nn.append(t.name.as_str());
        proof {
            reveal_strlit(".");
        }
        assert(nn@ == rn@ + seq!['.'] + x.name);
        Transaction {
            is_async: t.is_async,
            is_reactive: t.is_reactive,
            name: nn,
            parameters: t.parameters,
            contract: t.contract,
            body: t.body,
            reactor_speed: t.reactor_speed,
            span: t.span,
            is_lambda: t.is_lambda,
            dependencies: t.dependencies,
        }
    }
}

fn adv_past_exec(ts: &Vec<SpannedToken>, p: usize, e: usize) -> (a: usize)
    requires
        p <= ts@.len(),
    ensures
        a == adv_past(ts@, p as int, e as int),
        p <= a <= ts@.len(),
{
    let mut i: usize = p;
    while i < ts.len() && ts[i].end < e
        invariant
            p <= i <= ts@.len(),
            adv_past(ts@, i as int, e as int) == adv_past(ts@, p as int, e as int),
        decreases ts@.len() - i,
    {
        i = i + 1;
    }
    i
}

#[verifier::rlimit(60)]
fn rs_items_exec(
    ts: &Vec<SpannedToken>,
    src: &str,
    rn: &String,
    pos: usize,
    k: usize,
    fs: Vec<StructField>,
    xs: Vec<Transaction>,
    h: String,
    Ghost(fv): Ghost<Seq<(Seq<char>, TypeV, ExprV)>>,
    Ghost(xv): Ghost<Seq<TxnParse>>,
) -> (r: Result<(Vec<StructField>, Vec<Transaction>, String, usize), SyntaxError>)
    requires
        pos <= ts@.len(),
        k <= 10000,
        fields_match(fs@, fv),
        txns_match(xs@, xv),
    ensures
        rs_result(r, rs_items(ts@, src.spec_bytes(), rn@, pos as int, k as nat, fv, xv, h@)),
        r matches Ok((_, _, _, q)) ==> pos <= q <= ts@.len(),
    decreases ts@.len() - pos, 2int,
{
    match tok_at(ts, pos) {
        None => return Ok((fs, xs, h, pos)),
        Some(_) => {},
    }
    if k >= 10000 {
        return Err(reason_err(ts, src, pos, owned("rstruct parsing exceeded iteration limit - possible infinite loop")));
    }
    match tok_at(ts, pos) {
        Some(Token::RBrace) => Ok((fs, xs, h, pos + 1)),
        Some(Token::Identifier(_)) => match tok_at(ts, pos + 1) {
            Some(Token::Colon) => rs_field_exec(ts, src, rn, pos, pos, k + 1, fs, xs, h, Ghost(fv), Ghost(xv)),
            _ => rs_txn_exec(ts, src, rn, pos, pos, k + 1, fs, xs, h, Ghost(fv), Ghost(xv)),
        },
        Some(Token::Let) => match peek_at(ts, pos + 1) {
            Some(Token::Colon) => rs_field_exec(ts, src, rn, pos, pos + 1, k + 1, fs, xs, h, Ghost(fv), Ghost(xv)),
            _ => rs_txn_exec(ts, src, rn, pos, pos + 1, k + 1, fs, xs, h, Ghost(fv), Ghost(xv)),
        },
        Some(Token::Txn) | Some(Token::Rct) | Some(Token::Async) => rs_txn_exec(ts, src, rn, pos, pos, k + 1, fs, xs, h, Ghost(fv), Ghost(xv)),
        Some(Token::Lt) => rs_html_exec(ts, src, rn, pos, k + 1, fs, xs, h, Ghost(fv), Ghost(xv)),
        Some(t) => {
            let d = token_debug(t);
            let mut m = owned("Unexpected token in rstruct: Ok(");
            m.append(d.as_str());
            m.append(")");
            Err(reason_err(ts, src, pos, m))
        },
        None => Err(expected_err(ts, src, pos, "RBrace")),
    }
}

#[verifier::rlimit(60)]
fn rs_field_exec(
    ts: &Vec<SpannedToken>,
    src: &str,
    rn: &String,
    pos: usize,
    np: usize,
    k: usize,
    fs: Vec<StructField>,
    xs: Vec<Transaction>,
    h: String,
    Ghost(fv): Ghost<Seq<(Seq<char>, TypeV, ExprV)>>,
    Ghost(xv): Ghost<Seq<TxnParse>>,
) -> (r: Result<(Vec<StructField>, Vec<Transaction>, String, usize), SyntaxError>)
    requires
        pos < ts@.len(),
        pos <= np <= pos + 1,
        tok(ts@, np + 1) matches Some(Token::Colon),
        k <= 10000,
        fields_match(fs@, fv),
        txns_match(xs@, xv),
    ensures
        rs_result(r, rs_field(ts@, src.spec_bytes(), rn@, pos as int, np as int, k as nat, fv, xv, h@)),
        r matches Ok((_, _, _, q)) ==> pos <= q <= ts@.len(),
    decreases ts@.len() - pos, 1int,
{
    let n = match expect_identifier(ts, src, np) {
        Ok(n) => n,
        Err(x) => return Err(x),
    };
    assert(ts@.len() == ts.len());
    let (t, p) = match parse_type_at(ts, src, np + 2) {
        Ok(x) => x,
        Err(x) => return Err(x),
    };
    match tok_at(ts, p) {
        Some(Token::Eq) => {},
        _ => {
            let mut m = owned("rstruct field '");
            m.append(n.as_str());
            m.append("' must have initial value (e.g., let ");
            m.append(n.as_str());
            m.append(" = 0;)");
            return Err(reason_err(ts, src, p, m));
        },
    }
    let (e, q) = match parse_level(ts, src, p + 1, 0) {
        Ok(x) => x,
        Err(x) => return Err(x),
    };
    match tok_at(ts, q) {
        Some(Token::Semicolon) => {},
        _ => return Err(expected_err(ts, src, q, "Semicolon")),
    }
    let ghost v = (n@, t@, e@);
    let f = StructField { name: n, ty: t, default: Some(e) };
    proof { lemma_fields_push(fs@, fv, f, v); }
    let mut fs = fs;
    fs.push(f);
    rs_items_exec(ts, src, rn, q + 1, k, fs, xs, h, Ghost(fv.push(v)), Ghost(xv))
}

#[verifier::rlimit(60)]
fn rs_txn_exec(
    ts: &Vec<SpannedToken>,
    src: &str,
    rn: &String,
    pos: usize,
    start: usize,
    k: usize,
    fs: Vec<StructField>,
    xs: Vec<Transaction>,
    h: String,
    Ghost(fv): Ghost<Seq<(Seq<char>, TypeV, ExprV)>>,
    Ghost(xv): Ghost<Seq<TxnParse>>,
) -> (r: Result<(Vec<StructField>, Vec<Transaction>, String, usize), SyntaxError>)
    requires
        pos < ts@.len(),
        pos <= start <= pos + 1,
        k <= 10000,
        fields_match(fs@, fv),
        txns_match(xs@, xv),
    ensures
        rs_result(r, rs_txn(ts@, src.spec_bytes(), rn@, pos as int, start as int, k as nat, fv, xv, h@)),
        r matches Ok((_, _, _, q)) ==> pos <= q <= ts@.len(),
    decreases ts@.len() - pos, 1int,
{
    match transaction_at(ts, src, start) {
        Ok((t, q)) => {
            if q <= pos {
                return Err(reason_err(ts, src, q, owned("Unexpected token in rstruct")));
            }
            let ghost x = ptxn(ts@, start as int).unwrap().0;
            let u = expand_exec(t, rn, Ghost(x));
            proof { lemma_txns_push(xs@, xv, u, expand_txn(x, rn@)); }
            let mut xs = xs;
            xs.push(u);
            rs_items_exec(ts, src, rn, q, k, fs, xs, h, Ghost(fv), Ghost(xv.push(expand_txn(x, rn@))))
        },
        Err(x) => Err(x),
    }
}

#[verifier::rlimit(60)]
fn rs_html_exec(
    ts: &Vec<SpannedToken>,
    src: &str,
    rn: &String,
    pos: usize,
    k: usize,
    fs: Vec<StructField>,
    xs: Vec<Transaction>,
    h: String,
    Ghost(fv): Ghost<Seq<(Seq<char>, TypeV, ExprV)>>,
    Ghost(xv): Ghost<Seq<TxnParse>>,
) -> (r: Result<(Vec<StructField>, Vec<Transaction>, String, usize), SyntaxError>)
    requires
        pos < ts@.len(),
        k <= 10000,
        fields_match(fs@, fv),
        txns_match(xs@, xv),
    ensures
        rs_result(r, rs_html(ts@, src.spec_bytes(), rn@, pos as int, k as nat, fv, xv, h@)),
        r matches Ok((_, _, _, q)) ==> pos <= q <= ts@.len(),
    decreases ts@.len() - pos, 1int,
{
    let (hh, e) = match scan_html_block(src, ts[pos].start) {
        Ok(x) => x,
        Err(x) => return Err(x),
    };
    let a = adv_past_exec(ts, pos, e);
    let nx = if a < ts.len() { a + 1 } else { a };
    if nx <= pos {
        return Err(reason_err(ts, src, pos, owned("Unexpected EOF in rstruct")));
    }
    let mut h = h;
    h.append(hh.as_str());
    rs_items_exec(ts, src, rn, nx, k, fs, xs, h, Ghost(fv), Ghost(xv))
}

/// A reactive struct (see `prstruct`); its span is that of the `;`.
pub fn parse_rstruct_at(ts: &Vec<SpannedToken>, src: &str, pos: usize) -> (r: Result<(RStructDefinition, usize), SyntaxError>)
    requires
        pos <= ts@.len(),
    ensures
        match prstruct(ts@, src.spec_bytes(), pos as int) {
            Some((v, p)) => r matches Ok((d, q)) && rstruct_matches(d, v) && q == p,
            None => r is Err,
        },
        r matches Ok((_, q)) ==> q <= ts@.len(),
{
    match tok_at(ts, pos) {
        Some(Token::Rstruct) => {},
        _ => return Err(expected_err(ts, src, pos, "Rstruct")),
    }
    let name = match expect_identifier(ts, src, pos + 1) {
        Ok(n) => n,
        Err(x) => return Err(x),
    };
    match tok_at(ts, pos + 2) {
        Some(Token::LBrace) => {},
        _ => return Err(expected_err(ts, src, pos + 2, "LBrace")),
    }
    let (fs, xs, h, p) = match rs_items_exec(ts, src, &name, pos + 3, 0, Vec::new(), Vec::new(), String::new(),
        Ghost(Seq::empty()), Ghost(Seq::empty())) {
        Ok(x) => x,
        Err(x) => return Err(x),
    };
    if h.as_str().is_empty() {
        return Err(reason_err(ts, src, p, owned("rstruct requires a view body (HTML). Add <div>...</div> inside the rstruct.")));
    }
    let span = if p < ts.len() { Some(span_of(src, ts[p].start, ts[p].end)) } else { None };
    match tok_at(ts, p) {
        Some(Token::Semicolon) => Ok((RStructDefinition { name: name, fields: fs, transactions: xs, view_html: h, span: span }, p + 1)),
        _ => Err(expected_err(ts, src, p, "Semicolon")),
    }
}

// ---------------------------------------------------------------------------
// Render blocks

/// The `}` at or after `p` that closes the braces open to `depth`.
pub open spec fn rb_close(ts: Seq<SpannedToken>, p: int, depth: nat) -> Option<int>
    decreases ts.len() - p,
{
    if p < 0 || p >= ts.len() {
        None
    } else {
        match tok(ts, p) {
            Some(Token::LBrace) => rb_close(ts, p + 1, depth + 1),
            Some(Token::RBrace) => if depth <= 1 {
                Some(p)
            } else {
                rb_close(ts, p + 1, (depth - 1) as nat)
            },
            _ => rb_close(ts, p + 1, depth),
        }
    }
}

/// A render block `render Name { ... }`: the name, the source text between
/// the braces (trimmed), and the position after the closing brace. There is
/// none where the braces do not close or the text between them is not text.
pub open spec fn prender(ts: Seq<SpannedToken>, b: Seq<u8>, pos: int) -> Option<(Seq<char>, Seq<char>, int)> {
    if 0 <= pos <= ts.len() && (tok(ts, pos) matches Some(Token::Render)) && (tok(ts, pos + 2) matches Some(Token::LBrace)) {
        match (ident_name(tok(ts, pos + 1)), rb_close(ts, pos + 3, 1)) {
            (Some(n), Some(c)) => {
                let lb = ts[pos + 2].start as int;
                let en = ts[c].start as int;
                if lb + 1 <= en <= b.len() && valid_utf8(b.subrange(lb + 1, en)) {
                    Some((n, trim(decode_utf8(b.subrange(lb + 1, en))), c + 1))
                } else {
                    None
                }
            },
            _ => None,
        }
    } else {
        None
    }
}

fn rb_close_exec(ts: &Vec<SpannedToken>, start: usize) -> (r: Option<usize>)
    requires
        1 <= start,
    ensures
        match rb_close(ts@, start as int, 1) {
            Some(c) => r matches Some(x) && x == c,
            None => r is None,
        },
        r matches Some(x) ==> start <= x < ts@.len(),
{
    let n = ts.len();
    let mut p: usize = start;
    let mut depth: usize = 1;
    while p < n
        invariant
            n == ts@.len(),
            start <= p,
            depth >= 1,
            depth + n - p <= usize::MAX,
            rb_close(ts@, p as int, depth as nat) == rb_close(ts@, start as int, 1),
        decreases n - p,
    {
        match tok_at(ts, p) {
            Some(Token::LBrace) => {
                depth = depth + 1;
            },
            Some(Token::RBrace) => {
                if depth == 1 {
                    return Some(p);
                }
                depth = depth - 1;
            },
            _ => {},
        }
        p = p + 1;
    }
    None
}

/// A render block (see `prender`); its span is that of the token after it.
pub fn parse_render_block_at(ts: &Vec<SpannedToken>, src: &str, pos: usize) -> (r: Result<(RenderBlock, usize), SyntaxError>)
    requires
        pos <= ts@.len(),
    ensures
        match prender(ts@, src.spec_bytes(), pos as int) {
            Some((n, h, p)) => r matches Ok((d, q)) && d.struct_name@ == n && d.view_html@ == h && q == p,
            None => r is Err,
        },
        r matches Ok((_, q)) ==> q <= ts@.len(),
{
    match tok_at(ts, pos) {
        Some(Token::Render) => {},
        _ => return Err(expected_err(ts, src, pos, "Render")),
    }
    let name = match expect_identifier(ts, src, pos + 1) {
        Ok(n) => n,
        Err(x) => return Err(x),
    };
    match tok_at(ts, pos + 2) {
        Some(Token::LBrace) => {},
        _ => return Err(expected_err(ts, src, pos + 2, "LBrace")),
    }
    let c = match rb_close_exec(ts, pos + 3) {
        Some(c) => c,
        None => return Err(reason_err(ts, src, ts.len(), owned("Unexpected EOF in render block"))),
    };
    let b = src.as_bytes();
    let lb = ts[pos + 2].start;
    let en = ts[c].start;
    if lb >= en || en > b.len() {
        return Err(reason_err(ts, src, c, owned("Render block out of source range")));
    }
    let mut bytes: Vec<u8> = Vec::new();
    let mut i: usize = lb + 1;
    while i < en
        invariant
            lb + 1 <= i <= en,
            en <= b@.len(),
            bytes@ == b@.subrange(lb + 1, i as int),
        decreases en - i,
    {
        assert(b@.subrange(lb + 1, i + 1) =~= b@.subrange(lb + 1, i as int).push(b@[i as int]));
        bytes.push(b[i]);
        i = i + 1;
    }
    let text = match string_from_utf8(bytes) {
        Some(t) => t,
        None => return Err(reason_err(ts, src, c, owned("Invalid UTF-8 in render block"))),
    };
    let view = string_of(trimmed(text.as_str()).as_slice());
    assert(ts@.len() == ts.len());
    let span = if c + 1 < ts.len() { Some(span_of(src, ts[c + 1].start, ts[c + 1].end)) } else { None };
    Ok((RenderBlock { struct_name: name, view_html: view, span: span }, c + 1))
}

// ---------------------------------------------------------------------------
// Imports

/// Leading `./` pieces taken off.
pub open spec fn strip_dot_slash(s: Seq<char>) -> Seq<char>
    decreases s.len(),
{
    if s.len() >= 2 && s[0] == '.' && s[1] == '/' {
        strip_dot_slash(s.subrange(2, s.len() as int))
    } else {
        s
    }
}

/// A quoted import path: leading `./` taken off, split at `/`.
pub open spec fn path_of_string(s: Seq<char>) -> Seq<Seq<char>> {
    split_on(strip_dot_slash(s), seq!['/'])
}

/// A dotted path `a.b.c` as its names, after `acc`.
pub open spec fn dotted_path(ts: Seq<SpannedToken>, pos: int, acc: Seq<Seq<char>>) -> Option<(Seq<Seq<char>>, int)>
    decreases ts.len() - pos,
{
    if pos < 0 || pos > ts.len() {
        None
    } else {
        match ident_name(tok(ts, pos)) {
            Some(n) => if tok(ts, pos + 1) matches Some(Token::Dot) {
                dotted_path(ts, pos + 2, acc.push(n))
            } else {
                Some((acc.push(n), pos + 1))
            },
            None => None,
        }
    }
}

/// Imported names `name` or `name as alias`, separated by commas, after
/// `acc`, while an identifier comes next.
pub open spec fn imp_items(ts: Seq<SpannedToken>, pos: int, acc: Seq<(Seq<char>, Option<Seq<char>>)>)
    -> Option<(Seq<(Seq<char>, Option<Seq<char>>)>, int)>
    decreases ts.len() - pos,
{
    if pos < 0 || pos > ts.len() {
        None
    } else {
        match tok(ts, pos) {
            Some(Token::Identifier(n)) => if tok(ts, pos + 1) matches Some(Token::As) {
                match ident_name(tok(ts, pos + 2)) {
                    Some(a) => if tok(ts, pos + 3) matches Some(Token::Comma) {
                        imp_items(ts, pos + 4, acc.push((n@, Some(a))))
                    } else {
                        Some((acc.push((n@, Some(a))), pos + 3))
                    },
                    None => None,
                }
            } else if tok(ts, pos + 1) matches Some(Token::Comma) {
                imp_items(ts, pos + 2, acc.push((n@, None)))
            } else {
                Some((acc.push((n@, None)), pos + 1))
            },
            _ => Some((acc, pos)),
        }
    }
}

/// What an import gives.
pub struct ImportV {
    pub items: Seq<(Seq<char>, Option<Seq<char>>)>,
    pub path: Seq<Seq<char>>,
}

/// The path part of an import at `p1`, after the items `its`: `from` a
/// quoted or dotted path; a quoted path, optionally `as Name` (which adds an
/// item); a dotted path where no items came before; or nothing.
pub open spec fn imp_path(ts: Seq<SpannedToken>, p1: int, its: Seq<(Seq<char>, Option<Seq<char>>)>)
    -> Option<(Seq<(Seq<char>, Option<Seq<char>>)>, Seq<Seq<char>>, int)>
{
    match tok(ts, p1) {
        Some(Token::From) => match tok(ts, p1 + 1) {
            Some(Token::String(s)) => Some((its, path_of_string(s@), p1 + 2)),
            _ => match dotted_path(ts, p1 + 1, seq![]) {
                Some((ps, q)) => Some((its, ps, q)),
                None => None,
            },
        },
        Some(Token::String(s)) => if tok(ts, p1 + 1) matches Some(Token::As) {
            match ident_name(tok(ts, p1 + 2)) {
                Some(nm) => Some((its.push((nm, None)), path_of_string(s@), p1 + 3)),
                None => None,
            }
        } else {
            Some((its, path_of_string(s@), p1 + 1))
        },
        Some(Token::Identifier(_)) => if its.len() > 0 {
            None
        } else {
            match dotted_path(ts, p1, seq![]) {
                Some((ps, q)) => Some((its, ps, q)),
                None => None,
            }
        },
        _ => Some((its, seq![], p1)),
    }
}

/// An import: `import`, optional items `{ ... }`, the path part, `;`.
pub open spec fn pimport(ts: Seq<SpannedToken>, pos: int) -> Option<(ImportV, int)> {
    if 0 <= pos <= ts.len() && (tok(ts, pos) matches Some(Token::Import)) {
        let items: Option<(Seq<(Seq<char>, Option<Seq<char>>)>, int)> = if tok(ts, pos + 1) matches Some(Token::LBrace) {
            match imp_items(ts, pos + 2, seq![]) {
                Some((its, p)) => if tok(ts, p) matches Some(Token::RBrace) { Some((its, p + 1)) } else { None },
                None => None,
            }
        } else {
            Some((seq![], pos + 1))
        };
        match items {
            Some((its, p1)) => match imp_path(ts, p1, its) {
                Some((its2, ps, p2)) => if tok(ts, p2) matches Some(Token::Semicolon) {
                    Some((ImportV { items: its2, path: ps }, p2 + 1))
                } else {
                    None
                },
                None => None,
            },
            None => None,
        }
    } else {
        None
    }
}

pub open spec fn item_view(i: ImportItem) -> (Seq<char>, Option<Seq<char>>) {
    (i.name@, match i.alias { Some(a) => Some(a@), None => None })
}

pub open spec fn import_items_view(xs: Seq<ImportItem>) -> Seq<(Seq<char>, Option<Seq<char>>)> {
    xs.map_values(|i: ImportItem| item_view(i))
}

pub open spec fn import_matches(d: Import, v: ImportV) -> bool {
    import_items_view(d.items@) == v.items && string_views(d.path@) == v.path
}

fn strip_dot_slash_exec(s: &[char]) -> (r: Vec<char>)
    ensures
        r@ == strip_dot_slash(s@),
{
    let mut i: usize = 0;
    assert(s@.subrange(0, s@.len() as int) =~= s@);
    while i < s.len() && s.len() - i >= 2 && s[i] == '.' && s[i + 1] == '/'
        invariant
            i <= s@.len(),
            strip_dot_slash(s@.subrange(i as int, s@.len() as int)) == strip_dot_slash(s@),
        decreases s@.len() - i,
    {
        assert(s@.subrange(i as int, s@.len() as int).subrange(2, s@.len() - i) =~= s@.subrange(i + 2, s@.len() as int));
        i = i + 2;
    }
    let mut r: Vec<char> = Vec::new();
    let mut j: usize = i;
    while j < s.len()
        invariant
            i <= j <= s@.len(),
            r@ == s@.subrange(i as int, j as int),
        decreases s@.len() - j,
    {
        assert(s@.subrange(i as int, j + 1) =~= s@.subrange(i as int, j as int).push(s@[j as int]));
        r.push(s[j]);
        j = j + 1;
    }
    r
}

fn path_exec(s: &String) -> (r: Vec<String>)
    ensures
        string_views(r@) == path_of_string(s@),
{
    let cs = chars_of(s.as_str());
    let t = strip_dot_slash_exec(cs.as_slice());
    let slash: Vec<char> = vec!['/'];
    assert(slash@ =~= seq!['/']);
    let parts = split_on_exec(t.as_slice(), slash.as_slice());
    proof {
        assert(views(parts@).len() == parts@.len());
        assert(views(parts@).take(parts@.len() as int) =~= views(parts@));
    }
    strings_upto(&parts, parts.len())
}

fn dotted_path_exec(ts: &Vec<SpannedToken>, src: &str, pos: usize, acc: Vec<String>) -> (r: Result<(Vec<String>, usize), SyntaxError>)
    requires
        pos <= ts@.len(),
    ensures
        match dotted_path(ts@, pos as int, string_views(acc@)) {
            Some((ps, p)) => r matches Ok((v, q)) && string_views(v@) == ps && q == p,
            None => r is Err,
        },
        r matches Ok((_, q)) ==> pos < q <= ts@.len(),
    decreases ts@.len() - pos,
{
    let n = match expect_identifier(ts, src, pos) {
        Ok(n) => n,
        Err(x) => return Err(x),
    };
    let ghost nv = n@;
    let mut acc = acc;
    let ghost before = acc@;
    acc.push(n);
    assert(string_views(acc@) =~= string_views(before).push(nv));
    match tok_at(ts, pos + 1) {
        Some(Token::Dot) => dotted_path_exec(ts, src, pos + 2, acc),
        _ => Ok((acc, pos + 1)),
    }
}

fn import_item(name: String, alias: Option<String>) -> (i: ImportItem)
    ensures
        i.name@ == name@,
        i.alias == alias,
{
    ImportItem { name: name, alias: alias }
}

fn imp_items_exec(ts: &Vec<SpannedToken>, src: &str, pos: usize, acc: Vec<ImportItem>) -> (r: Result<(Vec<ImportItem>, usize), SyntaxError>)
    requires
        pos <= ts@.len(),
    ensures
        match imp_items(ts@, pos as int, import_items_view(acc@)) {
            Some((its, p)) => r matches Ok((v, q)) && import_items_view(v@) == its && q == p,
            None => r is Err,
        },
        r matches Ok((_, q)) ==> pos <= q <= ts@.len(),
    decreases ts@.len() - pos,
{
    let n = match tok_at(ts, pos) {
        Some(Token::Identifier(n)) => n.clone(),
        _ => return Ok((acc, pos)),
    };
    let alias = match tok_at(ts, pos + 1) {
        Some(Token::As) => match expect_identifier(ts, src, pos + 2) {
            Ok(a) => Some(a),
            Err(x) => return Err(x),
        },
        _ => None,
    };
    let next = if alias.is_some() { pos + 3 } else { pos + 1 };
    let ghost before = acc@;
    let it = import_item(n, alias);
    let ghost iv = item_view(it);
    let mut acc = acc;
    acc.push(it);
    assert(import_items_view(acc@) =~= import_items_view(before).push(iv));
    match tok_at(ts, next) {
        Some(Token::Comma) => imp_items_exec(ts, src, next + 1, acc),
        _ => Ok((acc, next)),
    }
}

/// An import (see `pimport`).
#[verifier::rlimit(40)]
pub fn parse_import_at(ts: &Vec<SpannedToken>, src: &str, pos: usize) -> (r: Result<(Import, usize), SyntaxError>)
    requires
        pos <= ts@.len(),
    ensures
        match pimport(ts@, pos as int) {
            Some((v, p)) => r matches Ok((d, q)) && import_matches(d, v) && q == p,
            None => r is Err,
        },
        r matches Ok((_, q)) ==> q <= ts@.len(),
{
    match tok_at(ts, pos) {
        Some(Token::Import) => {},
        _ => return Err(expected_err(ts, src, pos, "Import")),
    }
    let (items, p1) = match tok_at(ts, pos + 1) {
        Some(Token::LBrace) => {
            let empty: Vec<ImportItem> = Vec::new();
            assert(import_items_view(empty@) =~= Seq::<(Seq<char>, Option<Seq<char>>)>::empty());
            let (its, p) = match imp_items_exec(ts, src, pos + 2, empty) {
                Ok(x) => x,
                Err(x) => return Err(x),
            };
            match tok_at(ts, p) {
                Some(Token::RBrace) => (its, p + 1),
                _ => return Err(expected_err(ts, src, p, "RBrace")),
            }
        },
        _ => {
            let empty: Vec<ImportItem> = Vec::new();
            assert(import_items_view(empty@) =~= Seq::<(Seq<char>, Option<Seq<char>>)>::empty());
            (empty, pos + 1)
        },
    };
    let no_path: Vec<String> = Vec::new();
    assert(string_views(no_path@) =~= Seq::<Seq<char>>::empty());
    let (items, path, p2) = match tok_at(ts, p1) {
        Some(Token::From) => match tok_at(ts, p1 + 1) {
            Some(Token::String(s)) => (items, path_exec(s), p1 + 2),
            _ => match dotted_path_exec(ts, src, p1 + 1, no_path) {
                Ok((ps, q)) => (items, ps, q),
                Err(x) => return Err(x),
            },
        },
        Some(Token::String(s)) => match tok_at(ts, p1 + 1) {
            Some(Token::As) => {
                let nm = match expect_identifier(ts, src, p1 + 2) {
                    Ok(nm) => nm,
                    Err(x) => return Err(x),
                };
                let ghost before = items@;
                let it = import_item(nm, None);
                let ghost iv = item_view(it);
                let mut items = items;
                items.push(it);
                assert(import_items_view(items@) =~= import_items_view(before).push(iv));
                (items, path_exec(s), p1 + 3)
            },
            _ => (items, path_exec(s), p1 + 1),
        },
        Some(Token::Identifier(_)) => {
            if items.len() > 0 {
                return Err(reason_err(ts, src, p1, owned("Cannot have both import items and direct namespace path. Use 'from' keyword.")));
            }
            match dotted_path_exec(ts, src, p1, no_path) {
                Ok((ps, q)) => (items, ps, q),
                Err(x) => return Err(x),
            }
        },
        _ => (items, no_path, p1),
    };
    match tok_at(ts, p2) {
        Some(Token::Semicolon) => Ok((Import { items: items, path: path }, p2 + 1)),
        _ => Err(expected_err(ts, src, p2, "Semicolon")),
    }
}

// ---------------------------------------------------------------------------
// Top-level items

/// What a top-level item gives.
pub enum TopV {
    Import(ImportV),
    Sig(SigV),
    State(StateV),
    Const(Seq<char>, TypeV, ExprV),
    Txn(TxnParse),
    Defn(DefnParse),
    Trigger(TriggerV),
    Frgn(FrgnV),
    Resource(Seq<char>, Seq<char>, Seq<i64>),
    Struct(Seq<char>, Seq<(Seq<char>, TypeV, ExprV)>, Seq<TxnParse>),
    RStruct(RStructV),
    Enum(Seq<char>, Seq<Seq<char>>, Seq<VariantV>),
    Render(Seq<char>, Seq<char>),
}

/// The top-level item at `pos`, chosen by its first token.
pub open spec fn ptop(ts: Seq<SpannedToken>, b: Seq<u8>, pos: int) -> Option<(TopV, int)> {
    match tok(ts, pos) {
        Some(Token::Import) => match pimport(ts, pos) {
            Some((v, p)) => Some((TopV::Import(v), p)),
            None => None,
        },
        Some(Token::Sig) => match psig(ts, pos) {
            Some((v, p)) => Some((TopV::Sig(v), p)),
            None => None,
        },
        Some(Token::Let) => match pstate(ts, pos) {
            Some((v, p)) => Some((TopV::State(v), p)),
            None => None,
        },
        Some(Token::Const) => match pconst(ts, pos) {
            Some((n, t, e, p)) => Some((TopV::Const(n, t, e), p)),
            None => None,
        },
        Some(Token::Txn) | Some(Token::Rct) | Some(Token::Async) => match ptxn(ts, pos) {
            Some((v, p)) => Some((TopV::Txn(v), p)),
            None => None,
        },
        Some(Token::Defn) => match pdefn(ts, pos) {
            Some((v, p)) => Some((TopV::Defn(v), p)),
            None => None,
        },
        Some(Token::Trg) => match ptrigger(ts, pos) {
            Some((v, p)) => Some((TopV::Trigger(v), p)),
            None => None,
        },
        Some(Token::Frgn) | Some(Token::FrgnBang) | Some(Token::Syscall) | Some(Token::SyscallBang) => match pfrgn(ts, pos) {
            Some((v, p)) => Some((TopV::Frgn(v), p)),
            None => None,
        },
        Some(Token::Resource) | Some(Token::Rsrc) => match presource(ts, pos) {
            Some((n, ty, a, p)) => Some((TopV::Resource(n, ty, a), p)),
            None => None,
        },
        Some(Token::Struct) => match pstruct(ts, pos) {
            Some((n, fs, xs, p)) => Some((TopV::Struct(n, fs, xs), p)),
            None => None,
        },
        Some(Token::Rstruct) => match prstruct(ts, b, pos) {
            Some((v, p)) => Some((TopV::RStruct(v), p)),
            None => None,
        },
        Some(Token::Enum) => match penum(ts, pos) {
            Some((n, tp, vs, p)) => Some((TopV::Enum(n, tp, vs), p)),
            None => None,
        },
        Some(Token::Render) => match prender(ts, b, pos) {
            Some((n, h, p)) => Some((TopV::Render(n, h), p)),
            None => None,
        },
        _ => None,
    }
}

/// A definition read as `x` says.
pub open spec fn defn_matches(d: Definition, x: DefnParse) -> bool {
    d.name@ == x.name && tparams_view(d.type_params@) == x.type_params && params_view(d.parameters@) == x.params
        && types_view(d.outputs@, d.outputs@.len() as int) == x.outputs
        && out_names_view(d.output_names@) == x.output_names
        && (match d.output_type {
            Some(o) => x.outputs.len() > 1 && o is Tuple && output_types(o) == x.outputs,
            None => x.outputs.len() <= 1,
        })
        && d.contract.pre_condition@ == x.pre && d.contract.post_condition@ == x.post
        && watchdog_view(d.contract.watchdog) == x.watchdog
        && stmts_view(d.body@, d.body@.len() as int) == x.body && d.is_lambda == (x.body.len() == 0)
}

/// A top-level item read as `v` says.
pub open spec fn top_matches(t: TopLevel, v: TopV) -> bool {
    match v {
        TopV::Import(x) => t matches TopLevel::Import(d) && import_matches(d, x),
        TopV::Sig(x) => t matches TopLevel::Signature(d) && sig_matches(d, x),
        TopV::State(x) => t matches TopLevel::StateDecl(d) && state_matches(d, x),
        TopV::Const(n, ty, e) => t matches TopLevel::Constant(c) && c.name@ == n && c.ty@ == ty && c.expr@ == e,
        TopV::Txn(x) => t matches TopLevel::Transaction(d) && txn_matches(d, x),
        TopV::Defn(x) => t matches TopLevel::Definition(d) && defn_matches(d, x),
        TopV::Trigger(x) => t matches TopLevel::Trigger(d) && trigger_matches(d, x),
        TopV::Frgn(x) => frgn_matches(t, x),
        TopV::Resource(n, ty, a) => t matches TopLevel::ResourceDecl(d) && d.name@ == n && d.resource_type@ == ty
            && d.args@ == a && d.span is None,
        TopV::Struct(n, fs, xs) => t matches TopLevel::Struct(d) && d.name@ == n && fields_match(d.fields@, fs)
            && txns_match(d.transactions@, xs) && d.view_html is None,
        TopV::RStruct(x) => t matches TopLevel::RStruct(d) && rstruct_matches(d, x),
        TopV::Enum(n, tp, vs) => t matches TopLevel::Enum(d) && d.name@ == n && tparam_names(d.type_params@) == tp
            && (forall|i: int| 0 <= i < d.type_params@.len() ==> (#[trigger] d.type_params@[i]).bounds@.len() == 0)
            && variants_match(d.variants@, vs),
        TopV::Render(n, h) => t matches TopLevel::RenderBlock(d) && d.struct_name@ == n && d.view_html@ == h,
    }
}

/// A top-level item (see `ptop`).
#[verifier::rlimit(60)]
pub fn parse_top_level_at(ts: &Vec<SpannedToken>, src: &str, pos: usize) -> (r: Result<(TopLevel, usize), SyntaxError>)
    requires
        pos <= ts@.len(),
    ensures
        match ptop(ts@, src.spec_bytes(), pos as int) {
            Some((v, p)) => r matches Ok((x, q)) && top_matches(x, v) && q == p,
            None => r is Err,
        },
        r matches Ok((_, q)) ==> q <= ts@.len(),
{
    match tok_at(ts, pos) {
        Some(Token::Import) => match parse_import_at(ts, src, pos) {
            Ok((d, q)) => Ok((TopLevel::Import(d), q)),
            Err(x) => Err(x),
        },
        Some(Token::Sig) => match parse_signature_at(ts, src, pos) {
            Ok((d, q)) => Ok((TopLevel::Signature(d), q)),
            Err(x) => Err(x),
        },
        Some(Token::Let) => match parse_state_decl_at(ts, src, pos) {
            Ok((d, q)) => Ok((TopLevel::StateDecl(d), q)),
            Err(x) => Err(x),
        },
        Some(Token::Const) => match parse_constant_at(ts, src, pos) {
            Ok((d, q)) => Ok((TopLevel::Constant(d), q)),
            Err(x) => Err(x),
        },
        Some(Token::Txn) | Some(Token::Rct) | Some(Token::Async) => match transaction_at(ts, src, pos) {
            Ok((d, q)) => Ok((TopLevel::Transaction(d), q)),
            Err(x) => Err(x),
        },
        Some(Token::Defn) => match parse_definition_at(ts, src, pos) {
            Ok((d, q)) => Ok((TopLevel::Definition(d), q)),
            Err(x) => Err(x),
        },
        Some(Token::Trg) => match parse_trigger_at(ts, src, pos) {
            Ok((d, q)) => Ok((TopLevel::Trigger(d), q)),
            Err(x) => Err(x),
        },
        Some(Token::Frgn) => parse_frgn_binding_at(ts, src, pos, FfiKind::Frgn),
        Some(Token::FrgnBang) => parse_frgn_binding_at(ts, src, pos, FfiKind::FrgnBang),
        Some(Token::Syscall) => parse_frgn_binding_at(ts, src, pos, FfiKind::Syscall),
        Some(Token::SyscallBang) => parse_frgn_binding_at(ts, src, pos, FfiKind::SyscallBang),
        Some(Token::Resource) | Some(Token::Rsrc) => match parse_resource_at(ts, src, pos) {
            Ok((d, q)) => Ok((TopLevel::ResourceDecl(d), q)),
            Err(x) => Err(x),
        },
        Some(Token::Struct) => match parse_struct_at(ts, src, pos) {
            Ok((d, q)) => Ok((TopLevel::Struct(d), q)),
            Err(x) => Err(x),
        },
        Some(Token::Rstruct) => match parse_rstruct_at(ts, src, pos) {
            Ok((d, q)) => Ok((TopLevel::RStruct(d), q)),
            Err(x) => Err(x),
        },
        Some(Token::Enum) => match parse_enum_at(ts, src, pos) {
            Ok((d, q)) => Ok((TopLevel::Enum(d), q)),
            Err(x) => Err(x),
        },
        Some(Token::Render) => match parse_render_block_at(ts, src, pos) {
            Ok((d, q)) => Ok((TopLevel::RenderBlock(d), q)),
            Err(x) => Err(x),
        },
        Some(Token::Invalid) => Err(reason_err(ts, src, pos, owned("Lexer error at top level"))),
        Some(t) => Err(SyntaxError::UnexpectedToken {
            expected: owned("top-level declaration"),
            found: token_debug(t),
            span: span_at(ts, src, pos),
        }),
        None => Err(SyntaxError::UnexpectedEOF { expected: owned("top level item"), span: span_at(ts, src, pos) }),
    }
}

// ---------------------------------------------------------------------------
// Whole files

/// Top-level items from `pos` to the end of the tokens, after `acc`.
pub open spec fn prog_items(ts: Seq<SpannedToken>, b: Seq<u8>, pos: int, acc: Seq<TopV>) -> Option<Seq<TopV>>
    decreases ts.len() - pos,
{
    if pos < 0 || pos > ts.len() {
        None
    } else if pos == ts.len() {
        Some(acc)
    } else {
        match ptop(ts, b, pos) {
            Some((v, p)) => if pos < p <= ts.len() { prog_items(ts, b, p, acc.push(v)) } else { None },
            None => None,
        }
    }
}

/// A file: an optional `reactor @ N;` or `reactor @ N Hz;` (the speed, read
/// as a `u32`, must not be zero), then top-level items to the end.
pub open spec fn pprogram(ts: Seq<SpannedToken>, b: Seq<u8>, pos: int) -> Option<(Option<u32>, Seq<TopV>)> {
    if tok(ts, pos) matches Some(Token::Identifier(n)) && n@ == "reactor"@ {
        if tok(ts, pos + 1) matches Some(Token::At) {
            match tok(ts, pos + 2) {
                Some(Token::Integer(v)) => {
                    let speed = v as u32;
                    let p = if tok(ts, pos + 3) matches Some(Token::Identifier(hz)) && hz@ == "Hz"@ { pos + 4 } else { pos + 3 };
                    if speed != 0 && (tok(ts, p) matches Some(Token::Semicolon)) {
                        match prog_items(ts, b, p + 1, seq![]) {
                            Some(items) => Some((Some(speed), items)),
                            None => None,
                        }
                    } else {
                        None
                    }
                },
                _ => None,
            }
        } else {
            None
        }
    } else {
        match prog_items(ts, b, pos, seq![]) {
            Some(items) => Some((None, items)),
            None => None,
        }
    }
}

pub open spec fn items_match(xs: Seq<TopLevel>, vs: Seq<TopV>) -> bool {
    xs.len() == vs.len() && forall|i: int| 0 <= i < xs.len() ==> #[trigger] top_matches(xs[i], vs[i])
}

fn prog_items_exec(ts: &Vec<SpannedToken>, src: &str, pos: usize, acc: Vec<TopLevel>, Ghost(av): Ghost<Seq<TopV>>)
    -> (r: Result<Vec<TopLevel>, SyntaxError>)
    requires
        pos <= ts@.len(),
        items_match(acc@, av),
    ensures
        match prog_items(ts@, src.spec_bytes(), pos as int, av) {
            Some(vs) => r matches Ok(xs) && items_match(xs@, vs),
            None => r is Err,
        },
    decreases ts@.len() - pos,
{
    if pos >= ts.len() {
        return Ok(acc);
    }
    match parse_top_level_at(ts, src, pos) {
        Ok((t, q)) => {
            if q <= pos {
                return Err(reason_err(ts, src, pos, owned("Unexpected token at top level")));
            }
            let ghost v = ptop(ts@, src.spec_bytes(), pos as int).unwrap().0;
            let ghost before = acc@;
            let mut acc = acc;
            acc.push(t);
            assert forall|i: int| 0 <= i < acc@.len() implies #[trigger] top_matches(acc@[i], av.push(v)[i]) by {
                if i < before.len() {
                    assert(top_matches(before[i], av[i]));
                }
            }
            prog_items_exec(ts, src, q, acc, Ghost(av.push(v)))
        },
        Err(x) => Err(x),
    }
}

/// A whole file from `pos` (see `pprogram`); it holds no comments.
pub fn parse_program_at(ts: &Vec<SpannedToken>, src: &str, pos: usize) -> (r: Result<Program, SyntaxError>)
    requires
        pos <= ts@.len(),
    ensures
        match pprogram(ts@, src.spec_bytes(), pos as int) {
            Some((sp, vs)) => r matches Ok(g) && g.reactor_speed == sp && items_match(g.items@, vs) && g.comments@.len() == 0,
            None => r is Err,
        },
{
    let empty: Vec<TopLevel> = Vec::new();
    let reactor = match tok_at(ts, pos) {
        Some(Token::Identifier(n)) => eq_str(chars_of(n.as_str()).as_slice(), "reactor"),
        _ => false,
    };
    let (speed, start) = if reactor {
        match tok_at(ts, pos + 1) {
            Some(Token::At) => {},
            _ => return Err(expected_err(ts, src, pos + 1, "At")),
        }
        let v = match tok_at(ts, pos + 2) {
            Some(Token::Integer(v)) => *v,
            Some(t) => return Err(SyntaxError::UnexpectedToken {
                expected: owned("numeric speed"),
                found: token_debug(t),
                span: span_at(ts, src, pos + 2),
            }),
            None => return Err(SyntaxError::UnexpectedEOF { expected: owned("numeric speed"), span: span_at(ts, src, pos + 2) }),
        };
        #[verifier::truncate]
        let speed = v as u32;
        let p = match tok_at(ts, pos + 3) {
            Some(Token::Identifier(hz)) => if eq_str(chars_of(hz.as_str()).as_slice(), "Hz") { pos + 4 } else { pos + 3 },
            _ => pos + 3,
        };
        if speed == 0 {
            return Err(reason_err(ts, src, p, owned("Reactor speed must be positive (> 0)")));
        }
        match tok_at(ts, p) {
            Some(Token::Semicolon) => {},
            _ => return Err(expected_err(ts, src, p, "Semicolon")),
        }
        (Some(speed), p + 1)
    } else {
        (None, pos)
    };
    match prog_items_exec(ts, src, start, empty, Ghost(Seq::empty())) {
        Ok(items) => Ok(Program { items: items, comments: Vec::new(), reactor_speed: speed }),
        Err(x) => Err(x),
    }
}

} // verus!
