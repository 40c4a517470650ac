//! The JavaScript and TypeScript analyzer: reads function declarations,
//! arrow functions and interface methods into function signatures, and maps
//! TypeScript types to Brief types.
//!
//! A declaration whose `)` comes before its `(` cannot be read: the
//! specifications give `Err` for it, and the functions require that it does
//! not occur.

use vstd::prelude::*;
use crate::text::{
    owned, chars_of, string_of, copy_chars, eq_str, trim, trim_slice, starts_with, starts_with_str,
    strip_prefix, strip_prefix_slice, drop_prefix, drop_suffix, drop_prefix_slice, drop_suffix_slice,
    find_char, find_char_slice, contains, contains_str, contains_char, contains_char_slice, lemma_find_char,
    before_any, is_char, before_char, strip_trailing, strip_trailing_slice, lemma_trim_len, decimal,
    push_decimal, lines, lines_of, views, trim_start, trim_start_slice, strip_all, strip_all_exec,
};
use crate::compiler::wrapper::function::{AnalyzedFunction, AnalyzedFunctionV, param_views, frgn_sig, frgn_sig_text};
use crate::compiler::wrapper::python::{name_end, name_end_exec, function_views};

verus! {

// ---------------------------------------------------------------------------
// Types

/// The Brief type that a (trimmed, first-of-a-union) TypeScript type names.
pub open spec fn js_named(t: Seq<char>) -> Seq<char> {
    if t == "void"@ || t == "undefined"@ || t == "null"@ || t == "never"@ {
        "Void"@
    } else if t == "string"@ || t == "String"@ {
        "String"@
    } else if t == "number"@ || t == "Number"@ || t == "bigint"@ || t == "BigInt"@ {
        "Int"@
    } else if t == "boolean"@ || t == "Boolean"@ {
        "Bool"@
    } else if t == "symbol"@ || t == "Symbol"@ {
        "Custom(Symbol)"@
    } else if t == "any"@ || t == "unknown"@ {
        "Value"@
    } else if t == "object"@ || t == "Object"@ || t == "{}"@ {
        "Data"@
    } else if t == "Array"@ || t == "array"@ {
        "List<Value>"@
    } else if t == "Map"@ || t == "Set"@ || t == "WeakMap"@ || t == "WeakSet"@ {
        "Data"@
    } else if t == "Promise"@ || t == "AsyncIterator"@ {
        "Void"@
    } else if t == "Buffer"@ || t == "ArrayBuffer"@ || t == "TypedArray"@ || t == "DataView"@ {
        "Data"@
    } else if t == "Date"@ {
        "Custom(Date)"@
    } else if t == "Error"@ || t == "EvalError"@ || t == "RangeError"@ || t == "ReferenceError"@
        || t == "SyntaxError"@ || t == "TypeError"@ {
        "Error"@
    } else if t == "Function"@ || t == "Callback"@ || t == "() => void"@ {
        "Value"@
    } else if t == "Element"@ || t == "HTMLElement"@ || t == "HTMLInputElement"@ || t == "HTMLButtonElement"@ {
        "Custom(Element)"@
    } else if t == "Event"@ || t == "MouseEvent"@ || t == "KeyboardEvent"@ {
        "Custom(Event)"@
    } else if t == "Node"@ || t == "Document"@ || t == "Window"@ {
        "Custom(Node)"@
    } else if t == "RegExp"@ {
        "Custom(RegExp)"@
    } else if t == "JSON"@ {
        "String"@
    } else if starts_with(t, "Array<"@) {
        "List<Value>"@
    } else if starts_with(t, "Map<"@) || starts_with(t, "Set<"@) {
        "Data"@
    } else if starts_with(t, "Promise<"@) {
        "Void"@
    } else if starts_with(t, "("@) {
        "Value"@
    } else {
        t
    }
}

/// The Brief type of a TypeScript type: of a union, its first member.
pub open spec fn js_brief(js: Seq<char>) -> Seq<char> {
    js_named(trim(before_any(trim(js), is_char('|'))))
}

fn js_named_exec(t: &[char]) -> (r: Vec<char>)
    ensures
        r@ == js_named(t@),
{
    proof {
        reveal_strlit("Array<");
        reveal_strlit("Map<");
        reveal_strlit("Set<");
        reveal_strlit("Promise<");
        reveal_strlit("(");
    }
    if eq_str(t, "void") || eq_str(t, "undefined") || eq_str(t, "null") || eq_str(t, "never") {
        chars_of("Void")
    } else if eq_str(t, "string") || eq_str(t, "String") {
        chars_of("String")
    } else if eq_str(t, "number") || eq_str(t, "Number") || eq_str(t, "bigint") || eq_str(t, "BigInt") {
        chars_of("Int")
    } else if eq_str(t, "boolean") || eq_str(t, "Boolean") {
        chars_of("Bool")
    } else if eq_str(t, "symbol") || eq_str(t, "Symbol") {
        chars_of("Custom(Symbol)")
    } else if eq_str(t, "any") || eq_str(t, "unknown") {
        chars_of("Value")
    } else if eq_str(t, "object") || eq_str(t, "Object") || eq_str(t, "{}") {
        chars_of("Data")
    } else if eq_str(t, "Array") || eq_str(t, "array") {
        chars_of("List<Value>")
    } else if eq_str(t, "Map") || eq_str(t, "Set") || eq_str(t, "WeakMap") || eq_str(t, "WeakSet") {
        chars_of("Data")
    } else if eq_str(t, "Promise") || eq_str(t, "AsyncIterator") {
        chars_of("Void")
    } else if eq_str(t, "Buffer") || eq_str(t, "ArrayBuffer") || eq_str(t, "TypedArray") || eq_str(t, "DataView") {
        chars_of("Data")
    } else if eq_str(t, "Date") {
        chars_of("Custom(Date)")
    } else if eq_str(t, "Error") || eq_str(t, "EvalError") || eq_str(t, "RangeError") || eq_str(t, "ReferenceError")
        || eq_str(t, "SyntaxError") || eq_str(t, "TypeError") {
        chars_of("Error")
    } else if eq_str(t, "Function") || eq_str(t, "Callback") || eq_str(t, "() => void") {
        chars_of("Value")
    } else if eq_str(t, "Element") || eq_str(t, "HTMLElement") || eq_str(t, "HTMLInputElement")
        || eq_str(t, "HTMLButtonElement") {
        chars_of("Custom(Element)")
    } else if eq_str(t, "Event") || eq_str(t, "MouseEvent") || eq_str(t, "KeyboardEvent") {
        chars_of("Custom(Event)")
    } else if eq_str(t, "Node") || eq_str(t, "Document") || eq_str(t, "Window") {
        chars_of("Custom(Node)")
    } else if eq_str(t, "RegExp") {
        chars_of("Custom(RegExp)")
    } else if eq_str(t, "JSON") {
        chars_of("String")
    } else if starts_with_str(t, "Array<") {
        chars_of("List<Value>")
    } else if starts_with_str(t, "Map<") || starts_with_str(t, "Set<") {
        chars_of("Data")
    } else if starts_with_str(t, "Promise<") {
        chars_of("Void")
    } else if starts_with_str(t, "(") {
        chars_of("Value")
    } else {
        copy_chars(t)
    }
}

fn js_brief_chars(js: &[char]) -> (r: Vec<char>)
    ensures
        r@ == js_brief(js@),
{
    let first = before_char(trim_slice(js), '|');
    js_named_exec(trim_slice(first))
}

/// The Brief type of a JavaScript or TypeScript type: the first member of a
/// union, with the primitive, object, DOM and error types mapped to their
/// Brief counterparts, `Array<..>` to `List<Value>`, `Map<..>` and `Set<..>`
/// to `Data`, `Promise<..>` to `Void`, a parenthesised type to `Value`; any
/// other name stands for itself.
pub fn js_type_to_brief(js_type: &str) -> (r: String)
    ensures
        r@ == js_brief(js_type@),
{
    let v = chars_of(js_type);
    let b = js_brief_chars(v.as_slice());
    string_of(b.as_slice())
}

// ---------------------------------------------------------------------------
// Parameters

pub open spec fn ts_opens(c: char) -> bool {
    c == '(' || c == '[' || c == '<'
}

pub open spec fn ts_closes(c: char) -> bool {
    c == ')' || c == ']' || c == '>'
}

/// The pieces of `p` from `start`, cut at the commas outside brackets; the
/// scan is at `i` with `depth` brackets open.
pub open spec fn ts_pieces(p: Seq<char>, i: int, depth: int, start: int) -> Seq<Seq<char>>
    decreases p.len() - i,
{
    if i < 0 || i >= p.len() {
        seq![p.subrange(start, p.len() as int)]
    } else if ts_opens(p[i]) {
        ts_pieces(p, i + 1, depth + 1, start)
    } else if ts_closes(p[i]) {
        ts_pieces(p, i + 1, depth - 1, start)
    } else if p[i] == ',' && depth == 0 {
        seq![p.subrange(start, i)] + ts_pieces(p, i + 1, depth, i + 1)
    } else {
        ts_pieces(p, i + 1, depth, start)
    }
}

/// The type of an annotated parameter, before it is mapped: the first
/// member of a union, without `[]`; `Array<..>` and `Promise<..>` are
/// replaced by the Brief types they stand for.
pub open spec fn ts_param_type(ty0: Seq<char>) -> Seq<char> {
    let ty = trim(drop_suffix(trim(before_any(ty0, is_char('|'))), "[]"@));
    if starts_with(ty, "Array<"@) {
        "List<Value>"@
    } else if starts_with(ty, "Promise<"@) {
        "Void"@
    } else {
        ty
    }
}

/// One parameter: `name: Type`, `name?: Type` or `...name: Type`; an
/// unannotated name is taken as `Int`.
pub open spec fn ts_param(p0: Seq<char>) -> (Seq<char>, Seq<char>) {
    let p = drop_suffix(drop_prefix(trim(p0), "..."@), "?"@);
    match find_char(p, ':') {
        Some(c) => (trim(p.subrange(0, c)), js_brief(ts_param_type(trim(p.subrange(c + 1, p.len() as int))))),
        None => (p, "Int"@),
    }
}

pub open spec fn ts_param_list(pieces: Seq<Seq<char>>) -> Seq<(Seq<char>, Seq<char>)> {
    pieces.map_values(|x: Seq<char>| ts_param(x))
}

/// The parameters of a parameter list: every piece before the last comma
/// outside brackets, and the last piece unless it is blank.
pub open spec fn ts_params(p: Seq<char>) -> Seq<(Seq<char>, Seq<char>)> {
    if trim(p).len() == 0 {
        seq![]
    } else {
        let pcs = ts_pieces(p, 0, 0, 0);
        let kept = if trim(pcs.last()).len() == 0 { pcs.drop_last() } else { pcs };
        ts_param_list(kept)
    }
}

fn ts_param_exec(p0: &[char]) -> (r: (String, String))
    ensures
        (r.0@, r.1@) == ts_param(p0@),
{
    let p = drop_suffix_slice(drop_prefix_slice(trim_slice(p0), "..."), "?");
    match find_char_slice(p, ':') {
        Some(c) => {
            proof { lemma_find_char(p@, ':'); }
            assert(c < p.len());
            let name = trim_slice(&p[0..c]);
            let ty0 = trim_slice(&p[c + 1..p.len()]);
            let ty = trim_slice(drop_suffix_slice(trim_slice(before_char(ty0, '|')), "[]"));
            proof {
                reveal_strlit("Array<");
                reveal_strlit("Promise<");
            }
            let b = if starts_with_str(ty, "Array<") {
                js_brief_chars(chars_of("List<Value>").as_slice())
            } else if starts_with_str(ty, "Promise<") {
                js_brief_chars(chars_of("Void").as_slice())
            } else {
                js_brief_chars(ty)
            };
            (string_of(name), string_of(b.as_slice()))
        }
        None => (string_of(p), owned("Int")),
    }
}

proof fn lemma_ts_pieces_nonempty(p: Seq<char>, i: int, depth: int, start: int)
    ensures
        ts_pieces(p, i, depth, start).len() >= 1,
    decreases p.len() - i,
{
    if 0 <= i < p.len() {
        if ts_opens(p[i]) {
            lemma_ts_pieces_nonempty(p, i + 1, depth + 1, start);
        } else if ts_closes(p[i]) {
            lemma_ts_pieces_nonempty(p, i + 1, depth - 1, start);
        } else if p[i] == ',' && depth == 0 {
            lemma_ts_pieces_nonempty(p, i + 1, depth, i + 1);
        } else {
            lemma_ts_pieces_nonempty(p, i + 1, depth, start);
        }
    }
}

/// Reads a TypeScript parameter list such as `a: number, b?: string`.
pub fn parse_ts_parameters(params_str: &str) -> (r: Vec<(String, String)>)
    ensures
        param_views(r@) == ts_params(params_str@),
{
    let v = chars_of(params_str);
    ts_params_exec(v.as_slice())
}

fn ts_params_exec(p: &[char]) -> (r: Vec<(String, String)>)
    ensures
        param_views(r@) == ts_params(p@),
{
    let mut out: Vec<(String, String)> = Vec::new();
    if trim_slice(p).len() == 0 {
        assert(param_views(out@) =~= Seq::<(Seq<char>, Seq<char>)>::empty());
        return out;
    }
    let n = p.len();
    let ghost pcs = ts_pieces(p@, 0, 0, 0);
    let mut depth: i128 = 0;
    let mut start: usize = 0;
    let mut i: usize = 0;
    let ghost done: Seq<Seq<char>> = seq![];
    assert(param_views(out@) =~= ts_param_list(done));
    while i < n
        invariant
            n == p@.len(),
            trim(p@).len() > 0,
            start <= i <= n,
            -(i as int) <= depth <= i,
            pcs == ts_pieces(p@, 0, 0, 0),
            pcs == done + ts_pieces(p@, i as int, depth as int, start as int),
            param_views(out@) == ts_param_list(done),
        decreases n - i,
    {
        let c = p[i];
        if c == '(' || c == '[' || c == '<' {
            depth = depth + 1;
        } else if c == ')' || c == ']' || c == '>' {
            depth = depth - 1;
        } else if c == ',' && depth == 0 {
            let piece = &p[start..i];
            let q = ts_param_exec(piece);
            let ghost before = out@;
            out.push(q);
            proof {
                assert(ts_pieces(p@, i as int, depth as int, start as int)
                    == seq![p@.subrange(start as int, i as int)] + ts_pieces(p@, i + 1, depth as int, i + 1));
                assert(param_views(out@) =~= param_views(before).push((q.0@, q.1@)));
                assert(ts_param_list(done.push(piece@)) =~= ts_param_list(done).push(ts_param(piece@)));
                assert(done + (seq![p@.subrange(start as int, i as int)] + ts_pieces(p@, i + 1, depth as int, i + 1))
                    =~= done.push(p@.subrange(start as int, i as int)) + ts_pieces(p@, i + 1, depth as int, i + 1));
                done = done.push(p@.subrange(start as int, i as int));
            }
            start = i + 1;
        }
        i = i + 1;
    }
    let last = &p[start..n];
    proof {
        assert(ts_pieces(p@, n as int, depth as int, start as int) == seq![p@.subrange(start as int, n as int)]);
        assert(pcs.last() == last@);
        assert(pcs.drop_last() =~= done);
    }
    if trim_slice(last).len() > 0 {
        let q = ts_param_exec(last);
        let ghost before = out@;
        out.push(q);
        proof {
            assert(pcs =~= done.push(last@));
            assert(param_views(out@) =~= param_views(before).push((q.0@, q.1@)));
            assert(ts_param_list(done.push(last@)) =~= ts_param_list(done).push(ts_param(last@)));
        }
    }
    out
}

/// Reads one TypeScript parameter.
pub fn parse_ts_single_param(param: &str) -> (r: Option<(String, String)>)
    ensures
        match r {
            Some(q) => (q.0@, q.1@) == ts_param(param@),
            None => false,
        },
{
    let v = chars_of(param);
    Some(ts_param_exec(v.as_slice()))
}

// ---------------------------------------------------------------------------
// Declarations

/// A return annotation without its trailing `;` and then its trailing `,`.
pub open spec fn ts_ret(s: Seq<char>) -> Seq<char> {
    strip_trailing(strip_trailing(s, ';'), ',')
}

/// `function NAME(PARAMS): RET` after `prefix`: `Ok(None)` when it is no
/// such declaration, `Err` when its `)` comes before its `(`.
pub open spec fn ts_decl(line: Seq<char>, prefix: Seq<char>) -> Result<Option<AnalyzedFunctionV>, ()> {
    match strip_prefix(line, prefix) {
        None => Ok(None),
        Some(l) => match name_end(l) {
            None => Ok(None),
            Some(ne) => {
                let rest = trim(l.subrange(ne, l.len() as int));
                match (find_char(rest, '('), find_char(rest, ')')) {
                    (Some(ps), Some(pe)) => if pe < ps + 1 {
                        Err(())
                    } else {
                        let params_str = rest.subrange(ps + 1, pe);
                        let after = rest.subrange(pe + 1, rest.len() as int);
                        let ret = match find_char(after, ':') {
                            Some(cp) => js_brief(ts_ret(trim(after.subrange(cp + 1, after.len() as int)))),
                            None => "Void"@,
                        };
                        Ok(Some(AnalyzedFunctionV {
                            name: l.subrange(0, ne),
                            return_type: ret,
                            parameters: ts_params(params_str),
                            is_variadic: contains(params_str, "..."@),
                            comments: seq![],
                        }))
                    },
                    _ => Ok(None),
                }
            },
        },
    }
}

/// `(PARAMS) => RET`: a function named `arrow_N` for its `N` parameters;
/// `Err` when its `)` comes before its `(`.
pub open spec fn ts_arrow(line: Seq<char>) -> Result<Option<AnalyzedFunctionV>, ()> {
    match (find_char(line, '('), find_char(line, ')')) {
        (Some(ps), Some(pe)) => if pe < ps + 1 {
            Err(())
        } else {
            let params_str = line.subrange(ps + 1, pe);
            let params = ts_params(params_str);
            let after_arrow = trim(line.subrange(pe + 1, line.len() as int));
            let ret = match strip_prefix(after_arrow, "=>"@) {
                Some(s) => js_brief(trim(s)),
                None => "Void"@,
            };
            Ok(Some(AnalyzedFunctionV {
                name: "arrow_"@ + decimal(params.len()),
                return_type: ret,
                parameters: params,
                is_variadic: contains(params_str, "..."@),
                comments: seq![],
            }))
        },
        _ => Ok(None),
    }
}

/// `NAME(PARAMS): RET`, as in an interface; `None` when the part before the
/// `(` is blank or holds a `:` or a `{`.
pub open spec fn ts_method(line: Seq<char>) -> Option<AnalyzedFunctionV> {
    match find_char(line, '(') {
        None => None,
        Some(bp) => {
            let name = trim(line.subrange(0, bp));
            let after_paren = trim(line.subrange(bp, line.len() as int));
            if name.len() == 0 || contains_char(name, ':') || contains_char(name, '{') {
                None
            } else if !starts_with(after_paren, "("@) {
                None
            } else {
                match find_char(after_paren, ')') {
                    None => None,
                    Some(pe) => {
                        let params_str = after_paren.subrange(1, pe);
                        let after = trim(after_paren.subrange(pe + 1, after_paren.len() as int));
                        let ret = if starts_with(after, ":"@) {
                            js_brief(ts_ret(trim(after.subrange(1, after.len() as int))))
                        } else {
                            "Void"@
                        };
                        Some(AnalyzedFunctionV {
                            name,
                            return_type: ret,
                            parameters: ts_params(params_str),
                            is_variadic: contains(params_str, "..."@),
                            comments: seq![],
                        })
                    },
                }
            }
        },
    }
}

/// What `parse_ts_function` reads from a line, after `export `, `declare `
/// and `async `: a `function` declaration, an arrow function, or an
/// interface method.
pub open spec fn ts_function(line: Seq<char>) -> Result<Option<AnalyzedFunctionV>, ()> {
    let l = drop_prefix(drop_prefix(drop_prefix(trim(line), "export "@), "declare "@), "async "@);
    if starts_with(l, "function "@) {
        ts_decl(l, "function "@)
    } else if contains(l, "=>"@) {
        ts_arrow(l)
    } else if contains_char(l, '(') && contains_char(l, ')') {
        Ok(ts_method(l))
    } else {
        Ok(None)
    }
}

pub open spec fn opt_view_is(r: Option<AnalyzedFunction>, v: Option<AnalyzedFunctionV>) -> bool {
    match (r, v) {
        (Some(f), Some(g)) => f@ == g,
        (None, None) => true,
        _ => false,
    }
}

fn ts_decl_exec(line: &[char], prefix: &str) -> (r: Option<AnalyzedFunction>)
    requires
        ts_decl(line@, prefix@) is Ok,
    ensures
        opt_view_is(r, ts_decl(line@, prefix@)->Ok_0),
{
    let l = match strip_prefix_slice(line, prefix) {
        Some(l) => l,
        None => return None,
    };
    let ne = match name_end_exec(l) {
        Some(ne) => ne,
        None => return None,
    };
    let rest = trim_slice(&l[ne..l.len()]);
    let ps = match find_char_slice(rest, '(') {
        Some(x) => x,
        None => return None,
    };
    let pe = match find_char_slice(rest, ')') {
        Some(x) => x,
        None => return None,
    };
    proof {
        lemma_find_char(rest@, '(');
        lemma_find_char(rest@, ')');
    }
    assert(ps < pe && pe < rest.len());
    let params_str = &rest[ps + 1..pe];
    let after = &rest[pe + 1..rest.len()];
    let return_type = match find_char_slice(after, ':') {
        Some(cp) => {
            proof { lemma_find_char(after@, ':'); }
            assert(cp < after.len());
            let r = strip_trailing_slice(strip_trailing_slice(trim_slice(&after[cp + 1..after.len()]), ';'), ',');
            let b = js_brief_chars(r);
            string_of(b.as_slice())
        }
        None => owned("Void"),
    };
    let f = AnalyzedFunction {
        name: string_of(&l[0..ne]),
        return_type,
        parameters: ts_params_exec(params_str),
        is_variadic: contains_str(params_str, "..."),
        comments: Vec::new(),
    };
    assert(f@.comments =~= Seq::<Seq<char>>::empty());
    Some(f)
}

/// Reads `PREFIX NAME(PARAMS): RET`, such as `function add(a: number): number`.
pub fn parse_ts_function_decl(line: &str, prefix: &str) -> (r: Option<AnalyzedFunction>)
    requires
        ts_decl(line@, prefix@) is Ok,
    ensures
        opt_view_is(r, ts_decl(line@, prefix@)->Ok_0),
{
    let v = chars_of(line);
    ts_decl_exec(v.as_slice(), prefix)
}

fn ts_arrow_exec(line: &[char]) -> (r: Option<AnalyzedFunction>)
    requires
        ts_arrow(line@) is Ok,
    ensures
        opt_view_is(r, ts_arrow(line@)->Ok_0),
{
    let ps = match find_char_slice(line, '(') {
        Some(x) => x,
        None => return None,
    };
    let pe = match find_char_slice(line, ')') {
        Some(x) => x,
        None => return None,
    };
    proof {
        lemma_find_char(line@, '(');
        lemma_find_char(line@, ')');
    }
    assert(ps < pe && pe < line.len());
    let params_str = &line[ps + 1..pe];
    let parameters = ts_params_exec(params_str);
    let after_arrow = trim_slice(&line[pe + 1..line.len()]);
    let return_type = match strip_prefix_slice(after_arrow, "=>") {
        Some(s) => {
            let b = js_brief_chars(trim_slice(s));
            string_of(b.as_slice())
        }
        None => owned("Void"),
    };
    let mut name = owned("arrow_");
    let count = parameters.len();
    proof { assert(param_views(parameters@).len() == parameters@.len()); }
    push_decimal(&mut name, count as u64);
    let f = AnalyzedFunction {
        name,
        return_type,
        parameters,
        is_variadic: contains_str(params_str, "..."),
        comments: Vec::new(),
    };
    assert(f@.comments =~= Seq::<Seq<char>>::empty());
    Some(f)
}

/// Reads an arrow function `(PARAMS) => RET` into a function named
/// `arrow_N`, for its `N` parameters.
pub fn parse_ts_arrow_function(line: &str) -> (r: Option<AnalyzedFunction>)
    requires
        ts_arrow(line@) is Ok,
    ensures
        opt_view_is(r, ts_arrow(line@)->Ok_0),
{
    let v = chars_of(line);
    ts_arrow_exec(v.as_slice())
}

fn ts_method_exec(line: &[char]) -> (r: Option<AnalyzedFunction>)
    ensures
        opt_view_is(r, ts_method(line@)),
{
    let bp = match find_char_slice(line, '(') {
        Some(x) => x,
        None => return None,
    };
    proof { lemma_find_char(line@, '('); }
    assert(bp < line.len());
    let name = trim_slice(&line[0..bp]);
    let after_paren = trim_slice(&line[bp..line.len()]);
    if name.len() == 0 || contains_char_slice(name, ':') || contains_char_slice(name, '{') {
        return None;
    }
    proof { reveal_strlit("("); }
    if !starts_with_str(after_paren, "(") {
        return None;
    }
    let pe = match find_char_slice(after_paren, ')') {
        Some(x) => x,
        None => return None,
    };
    proof { lemma_find_char(after_paren@, ')'); }
    assert(after_paren@.subrange(0, 1) == "("@);
    assert(after_paren@[0] == after_paren@.subrange(0, 1)[0]);
    assert(after_paren@[0] == '(');
    assert(1 <= pe && pe < after_paren.len());
    let params_str = &after_paren[1..pe];
    let after = trim_slice(&after_paren[pe + 1..after_paren.len()]);
    proof { reveal_strlit(":"); }
    let return_type = if starts_with_str(after, ":") {
        let r = strip_trailing_slice(strip_trailing_slice(trim_slice(&after[1..after.len()]), ';'), ',');
        let b = js_brief_chars(r);
        string_of(b.as_slice())
    } else {
        owned("Void")
    };
    let f = AnalyzedFunction {
        name: string_of(name),
        return_type,
        parameters: ts_params_exec(params_str),
        is_variadic: contains_str(params_str, "..."),
        comments: Vec::new(),
    };
    assert(f@.comments =~= Seq::<Seq<char>>::empty());
    Some(f)
}

/// Reads an interface method `NAME(PARAMS): RET`.
pub fn parse_ts_method(line: &str) -> (r: Option<AnalyzedFunction>)
    ensures
        opt_view_is(r, ts_method(line@)),
{
    let v = chars_of(line);
    ts_method_exec(v.as_slice())
}

fn ts_function_exec(line: &[char]) -> (r: Option<AnalyzedFunction>)
    requires
        ts_function(line@) is Ok,
    ensures
        opt_view_is(r, ts_function(line@)->Ok_0),
{
    let l = drop_prefix_slice(drop_prefix_slice(drop_prefix_slice(trim_slice(line), "export "), "declare "), "async ");
    if starts_with_str(l, "function ") {
        ts_decl_exec(l, "function ")
    } else if contains_str(l, "=>") {
        ts_arrow_exec(l)
    } else if contains_char_slice(l, '(') && contains_char_slice(l, ')') {
        ts_method_exec(l)
    } else {
        None
    }
}

/// Reads a line of TypeScript: after `export `, `declare ` and `async `, a
/// `function` declaration, else an arrow function, else an interface
/// method; anything else declares no function.
pub fn parse_ts_function(line: &str) -> (r: Option<AnalyzedFunction>)
    requires
        ts_function(line@) is Ok,
    ensures
        opt_view_is(r, ts_function(line@)->Ok_0),
{
    let v = chars_of(line);
    ts_function_exec(v.as_slice())
}

// ---------------------------------------------------------------------------
// Files

/// A TypeScript line that holds no declaration: blank or a comment.
pub open spec fn ts_skip(line: Seq<char>) -> bool {
    trim(line).len() == 0 || starts_with(trim(line), "//"@) || starts_with(trim(line), "/*"@)
}

/// The functions a sequence of TypeScript lines declares, in order; `Err`
/// where a line cannot be read.
pub open spec fn ts_functions(ls: Seq<Seq<char>>) -> Result<Seq<AnalyzedFunctionV>, ()>
    decreases ls.len(),
{
    if ls.len() == 0 {
        Ok(seq![])
    } else {
        match ts_functions(ls.drop_last()) {
            Err(()) => Err(()),
            Ok(fs) => {
                let l = ls.last();
                if ts_skip(l) {
                    Ok(fs)
                } else {
                    match ts_function(trim(l)) {
                        Ok(Some(f)) => Ok(fs.push(f)),
                        Ok(None) => Ok(fs),
                        Err(()) => Err(()),
                    }
                }
            },
        }
    }
}

proof fn lemma_ts_functions_prefix(ls: Seq<Seq<char>>, k: int)
    requires
        0 <= k <= ls.len(),
        ts_functions(ls) is Ok,
    ensures
        ts_functions(ls.subrange(0, k)) is Ok,
    decreases ls.len() - k,
{
    if k < ls.len() {
        assert(ls.subrange(0, k + 1).drop_last() =~= ls.subrange(0, k));
        lemma_ts_functions_prefix(ls, k + 1);
    } else {
        assert(ls.subrange(0, k) =~= ls);
    }
}

/// The functions declared in TypeScript source or a declaration file, line
/// by line; blank lines and comments are skipped. It always succeeds.
pub fn analyze_typescript(content: &str) -> (r: Result<Vec<AnalyzedFunction>, String>)
    requires
        ts_functions(lines(content@)) is Ok,
    ensures
        match r {
            Ok(v) => function_views(v@) == ts_functions(lines(content@))->Ok_0,
            Err(_) => false,
        },
{
    let chars = chars_of(content);
    let ls = lines_of(chars.as_slice());
    let ghost lv = views(ls@);
    let mut out: Vec<AnalyzedFunction> = Vec::new();
    let mut i: usize = 0;
    assert(function_views(out@) =~= Seq::<AnalyzedFunctionV>::empty());
    while i < ls.len()
        invariant
            i <= ls@.len(),
            lv == views(ls@),
            lv == lines(content@),
            ts_functions(lv) is Ok,
            ts_functions(lv.subrange(0, i as int)) == Ok::<Seq<AnalyzedFunctionV>, ()>(function_views(out@)),
        decreases ls@.len() - i,
    {
        proof {
            assert(lv.subrange(0, i + 1).drop_last() =~= lv.subrange(0, i as int));
            assert(lv.subrange(0, i + 1).last() == ls@[i as int]@);
            lemma_ts_functions_prefix(lv, i + 1);
        }
        let t = trim_slice(ls[i].as_slice());
        if t.len() == 0 || starts_with_str(t, "//") || starts_with_str(t, "/*") {
            i = i + 1;
            continue;
        }
        let ghost before = out@;
        match ts_function_exec(t) {
            Some(f) => {
                let ghost fv = f@;
                out.push(f);
                assert(function_views(out@) =~= function_views(before).push(fv));
            }
            None => {}
        }
        i = i + 1;
    }
    assert(lv.subrange(0, ls@.len() as int) =~= lv);
    Ok(out)
}


// ---------------------------------------------------------------------------
// JavaScript with JSDoc comments

/// The pieces of `p` cut at every `c`, scanning from `i`; the current piece
/// starts at `start`.
pub open spec fn split_from(p: Seq<char>, c: char, i: int, start: int) -> Seq<Seq<char>>
    decreases p.len() - i,
{
    if i < 0 || i >= p.len() {
        seq![p.subrange(start, p.len() as int)]
    } else if p[i] == c {
        seq![p.subrange(start, i)] + split_from(p, c, i + 1, i + 1)
    } else {
        split_from(p, c, i + 1, start)
    }
}

/// One untyped JavaScript parameter: without its default value and its
/// `...`; taken as `Int`.
pub open spec fn js_param(piece: Seq<char>) -> (Seq<char>, Seq<char>) {
    (drop_prefix(trim(before_any(trim(piece), is_char('='))), "..."@), "Int"@)
}

/// The parameters of the pieces that are not blank.
pub open spec fn js_param_items(pieces: Seq<Seq<char>>) -> Seq<(Seq<char>, Seq<char>)>
    decreases pieces.len(),
{
    if pieces.len() == 0 {
        seq![]
    } else if trim(pieces.last()).len() == 0 {
        js_param_items(pieces.drop_last())
    } else {
        js_param_items(pieces.drop_last()).push(js_param(pieces.last()))
    }
}

/// The parameters of a JavaScript parameter list, cut at every comma.
pub open spec fn js_params(p: Seq<char>) -> Seq<(Seq<char>, Seq<char>)> {
    if trim(p).len() == 0 {
        seq![]
    } else {
        js_param_items(split_from(p, ',', 0, 0))
    }
}

fn js_param_exec(piece: &[char]) -> (r: (String, String))
    ensures
        (r.0@, r.1@) == js_param(piece@),
{
    let name = drop_prefix_slice(trim_slice(before_char(trim_slice(piece), '=')), "...");
    (string_of(name), owned("Int"))
}

fn push_js_param(piece: &[char], out: &mut Vec<(String, String)>, done: Ghost<Seq<Seq<char>>>)
    requires
        param_views(old(out)@) == js_param_items(done@),
    ensures
        param_views(final(out)@) == js_param_items(done@.push(piece@)),
{
    assert(done@.push(piece@).drop_last() =~= done@);
    if trim_slice(piece).len() > 0 {
        let q = js_param_exec(piece);
        let ghost before = out@;
        out.push(q);
        assert(param_views(out@) =~= param_views(before).push((q.0@, q.1@)));
    }
}

/// Reads an untyped JavaScript parameter list such as `a, b = 1, ...rest`.
pub fn parse_js_parameters(params_str: &str) -> (r: Vec<(String, String)>)
    ensures
        param_views(r@) == js_params(params_str@),
{
    let v = chars_of(params_str);
    js_params_exec(v.as_slice())
}

fn js_params_exec(p: &[char]) -> (r: Vec<(String, String)>)
    ensures
        param_views(r@) == js_params(p@),
{
    let mut out: Vec<(String, String)> = Vec::new();
    if trim_slice(p).len() == 0 {
        assert(param_views(out@) =~= Seq::<(Seq<char>, Seq<char>)>::empty());
        return out;
    }
    let n = p.len();
    let ghost pcs = split_from(p@, ',', 0, 0);
    let mut start: usize = 0;
    let mut i: usize = 0;
    let ghost done: Seq<Seq<char>> = seq![];
    assert(param_views(out@) =~= js_param_items(done));
    while i < n
        invariant
            n == p@.len(),
            trim(p@).len() > 0,
            start <= i <= n,
            pcs == split_from(p@, ',', 0, 0),
            pcs == done + split_from(p@, ',', i as int, start as int),
            param_views(out@) == js_param_items(done),
        decreases n - i,
    {
        if p[i] == ',' {
            let piece = &p[start..i];
            push_js_param(piece, &mut out, Ghost(done));
            proof {
                assert(split_from(p@, ',', i as int, start as int)
                    == seq![p@.subrange(start as int, i as int)] + split_from(p@, ',', i + 1, i + 1));
                assert(done + (seq![piece@] + split_from(p@, ',', i + 1, i + 1))
                    =~= done.push(piece@) + split_from(p@, ',', i + 1, i + 1));
                done = done.push(piece@);
            }
            start = i + 1;
        }
        i = i + 1;
    }
    let last = &p[start..n];
    proof {
        assert(split_from(p@, ',', n as int, start as int) == seq![p@.subrange(start as int, n as int)]);
        assert(pcs =~= done.push(last@));
    }
    push_js_param(last, &mut out, Ghost(done));
    out
}

/// The return type a JSDoc line gives with `@returns {Type}` or
/// `@return {Type}`; `Err` when its `}` comes before its `{`.
pub open spec fn js_ret_line(l: Seq<char>) -> Option<Result<Seq<char>, ()>> {
    if contains(l, "@returns"@) || contains(l, "@return"@) {
        match find_char(l, '@') {
            Some(at) => {
                let a = l.subrange(at, l.len() as int);
                match (find_char(a, '{'), find_char(a, '}')) {
                    (Some(ts), Some(te)) => Some(if te < ts + 1 {
                        Err(())
                    } else {
                        Ok(js_brief(trim(a.subrange(ts + 1, te))))
                    }),
                    _ => None,
                }
            },
            None => None,
        }
    } else {
        None
    }
}

/// The return type that the first JSDoc line giving one gives; `Void`
/// without one.
pub open spec fn js_ret(doc: Seq<Seq<char>>) -> Result<Seq<char>, ()>
    decreases doc.len(),
{
    if doc.len() == 0 {
        Ok("Void"@)
    } else {
        match js_ret_line(doc[0]) {
            Some(r) => r,
            None => js_ret(doc.drop_first()),
        }
    }
}

pub open spec fn doc_views(doc: Seq<String>) -> Seq<Seq<char>> {
    doc.map_values(|s: String| s@)
}

fn js_ret_line_exec(l: &[char]) -> (r: Option<Vec<char>>)
    requires
        js_ret_line(l@) matches Some(x) ==> x is Ok,
    ensures
        match (r, js_ret_line(l@)) {
            (Some(a), Some(b)) => b == Ok::<Seq<char>, ()>(a@),
            (None, None) => true,
            _ => false,
        },
{
    if contains_str(l, "@returns") || contains_str(l, "@return") {
        match find_char_slice(l, '@') {
            Some(at) => {
                proof { lemma_find_char(l@, '@'); }
                assert(at < l.len());
                let a = &l[at..l.len()];
                match (find_char_slice(a, '{'), find_char_slice(a, '}')) {
                    (Some(ts), Some(te)) => {
                        proof {
                            lemma_find_char(a@, '{');
                            lemma_find_char(a@, '}');
                        }
                        assert(ts < te && te < a.len());
                        let b = js_brief_chars(trim_slice(&a[ts + 1..te]));
                        Some(b)
                    }
                    _ => None,
                }
            }
            None => None,
        }
    } else {
        None
    }
}

/// The return type that the JSDoc lines give with `@returns {Type}`, mapped
/// to Brief; `Void` without one.
pub fn infer_js_return_type(jsdoc: &[String]) -> (r: String)
    requires
        js_ret(doc_views(jsdoc@)) is Ok,
    ensures
        r@ == js_ret(doc_views(jsdoc@))->Ok_0,
{
    let ghost d = doc_views(jsdoc@);
    let mut i: usize = 0;
    assert(d.subrange(0, d.len() as int) =~= d);
    while i < jsdoc.len()
        invariant
            i <= jsdoc@.len(),
            d == doc_views(jsdoc@),
            js_ret(d) == js_ret(d.subrange(i as int, d.len() as int)),
            js_ret(d) is Ok,
        decreases jsdoc@.len() - i,
    {
        let v = chars_of(jsdoc[i].as_str());
        proof {
            let tail = d.subrange(i as int, d.len() as int);
            assert(tail[0] == jsdoc@[i as int]@);
            assert(tail.drop_first() =~= d.subrange(i + 1, d.len() as int));
        }
        match js_ret_line_exec(v.as_slice()) {
            Some(b) => return string_of(b.as_slice()),
            None => {}
        }
        i = i + 1;
    }
    owned("Void")
}

/// The leading name characters of `s`.
pub open spec fn take_name(s: Seq<char>) -> Seq<char> {
    match name_end(s) {
        Some(i) => s.subrange(0, i),
        None => s,
    }
}

/// `s` without its leading name characters.
pub open spec fn skip_name(s: Seq<char>) -> Seq<char> {
    match name_end(s) {
        Some(i) => s.subrange(i, s.len() as int),
        None => seq![],
    }
}

/// The function a JavaScript line declares, with `parameters` and the
/// return type and comments of the JSDoc lines before it.
pub open spec fn js_fn_params(line: Seq<char>, name: Seq<char>, doc: Seq<Seq<char>>) -> Result<Option<AnalyzedFunctionV>, ()> {
    match (find_char(line, '('), find_char(line, ')')) {
        (Some(ps), Some(pe)) => if pe < ps + 1 {
            Err(())
        } else {
            let params_str = line.subrange(ps + 1, pe);
            match js_ret(doc) {
                Err(()) => Err(()),
                Ok(rt) => Ok(Some(AnalyzedFunctionV {
                    name,
                    return_type: rt,
                    parameters: js_params(params_str),
                    is_variadic: contains(params_str, "..."@),
                    comments: doc.map_values(|d: Seq<char>| trim(d)),
                })),
            }
        },
        _ => Ok(None),
    }
}

/// The arrow function `const NAME = (PARAMS) => ...`, if the line is one.
pub open spec fn js_arrow(l: Seq<char>, doc: Seq<Seq<char>>) -> Option<Result<Option<AnalyzedFunctionV>, ()>> {
    if starts_with(l, "const "@) || starts_with(l, "let "@) || starts_with(l, "var "@) {
        match find_char(l, '=') {
            Some(e) => {
                let name = strip_all(strip_all(strip_all(l.subrange(0, e), "const "@), "let "@), "var "@);
                let rest = trim(l.subrange(e + 1, l.len() as int));
                if starts_with(rest, "("@) {
                    Some(js_fn_params(rest, name, doc))
                } else {
                    None
                }
            },
            None => None,
        }
    } else {
        None
    }
}

/// What `parse_js_function` reads from a line with the JSDoc lines before
/// it: a `function` declaration, a `const`/`let`/`var` arrow function, or
/// either after `export `.
pub open spec fn js_function(line: Seq<char>, doc: Seq<Seq<char>>) -> Result<Option<AnalyzedFunctionV>, ()>
    decreases line.len(),
{
    let t = trim(line);
    let l = drop_prefix(t, "async "@);
    match strip_prefix(l, "function "@) {
        Some(n0) => {
            let name = take_name(trim_start(skip_name(n0)));
            if name.len() == 0 {
                Ok(None)
            } else {
                js_fn_params(l, name, doc)
            }
        },
        None => match js_arrow(l, doc) {
            Some(r) => r,
            None => match strip_prefix(l, "export "@) {
                Some(x) => {
                    proof {
                        lemma_trim_len(line);
                        reveal_strlit("export ");
                        assert(l.len() <= t.len());
                        assert(x.len() < line.len());
                    }
                    js_function(x, doc)
                },
                None => Ok(None),
            },
        },
    }
}

fn js_fn_params_exec(line: &[char], name: &[char], jsdoc: &[String]) -> (r: Option<AnalyzedFunction>)
    requires
        js_fn_params(line@, name@, doc_views(jsdoc@)) is Ok,
    ensures
        opt_view_is(r, js_fn_params(line@, name@, doc_views(jsdoc@))->Ok_0),
{
    let ps = match find_char_slice(line, '(') {
        Some(x) => x,
        None => return None,
    };
    let pe = match find_char_slice(line, ')') {
        Some(x) => x,
        None => return None,
    };
    proof {
        lemma_find_char(line@, '(');
        lemma_find_char(line@, ')');
    }
    assert(ps < pe && pe < line.len());
    let params_str = &line[ps + 1..pe];
    let parameters = js_params_exec(params_str);
    let return_type = infer_js_return_type(jsdoc);
    let mut comments: Vec<String> = Vec::new();
    let mut i: usize = 0;
    while i < jsdoc.len()
        invariant
            i <= jsdoc@.len(),
            doc_views(comments@) == doc_views(jsdoc@).subrange(0, i as int).map_values(|d: Seq<char>| trim(d)),
        decreases jsdoc@.len() - i,
    {
        let v = chars_of(jsdoc[i].as_str());
        let t = string_of(trim_slice(v.as_slice()));
        let ghost before = comments@;
        assert(t@ == trim(doc_views(jsdoc@)[i as int]));
        comments.push(t);
        assert(doc_views(comments@) =~= doc_views(before).push(t@));
        assert(doc_views(comments@) =~= doc_views(jsdoc@).subrange(0, i + 1).map_values(|d: Seq<char>| trim(d)));
        i = i + 1;
    }
    assert(doc_views(jsdoc@).subrange(0, jsdoc@.len() as int) =~= doc_views(jsdoc@));
    let f = AnalyzedFunction {
        name: string_of(name),
        return_type,
        parameters,
        is_variadic: contains_str(params_str, "..."),
        comments,
    };
    assert(f@.comments =~= doc_views(jsdoc@).map_values(|d: Seq<char>| trim(d)));
    Some(f)
}

fn js_function_exec(line: &[char], jsdoc: &[String]) -> (r: Option<AnalyzedFunction>)
    requires
        js_function(line@, doc_views(jsdoc@)) is Ok,
    ensures
        opt_view_is(r, js_function(line@, doc_views(jsdoc@))->Ok_0),
    decreases line@.len(),
{
    let t = trim_slice(line);
    let l = drop_prefix_slice(t, "async ");
    match strip_prefix_slice(l, "function ") {
        Some(n0) => {
            let skipped = match name_end_exec(n0) {
                Some(i) => &n0[i..n0.len()],
                None => &n0[0..0],
            };
            let s = trim_start_slice(skipped);
            let name = match name_end_exec(s) {
                Some(i) => &s[0..i],
                None => s,
            };
            assert(skipped@ == skip_name(n0@));
            if name.len() == 0 {
                return None;
            }
            return js_fn_params_exec(l, name, jsdoc);
        }
        None => {}
    }
    if starts_with_str(l, "const ") || starts_with_str(l, "let ") || starts_with_str(l, "var ") {
        match find_char_slice(l, '=') {
            Some(e) => {
                proof { lemma_find_char(l@, '='); }
                assert(e < l.len());
                let name = strip_all_exec(strip_all_exec(strip_all_exec(&l[0..e], "const "), "let "), "var ");
                let rest = trim_slice(&l[e + 1..l.len()]);
                if starts_with_str(rest, "(") {
                    return js_fn_params_exec(rest, name, jsdoc);
                }
            }
            None => {}
        }
    }
    match strip_prefix_slice(l, "export ") {
        Some(x) => {
            proof {
                lemma_trim_len(line@);
                reveal_strlit("export ");
                assert(l@.len() <= t@.len());
                assert(x@.len() < line@.len());
            }
            js_function_exec(x, jsdoc)
        }
        None => None,
    }
}

/// Reads a line of JavaScript with the JSDoc lines before it: a
/// `function` declaration, or a `const`, `let` or `var` bound to an arrow
/// function, maybe after `async ` or `export `. The JSDoc lines give the
/// return type and the comments.
pub fn parse_js_function(line: &str, jsdoc: &[String]) -> (r: Option<AnalyzedFunction>)
    requires
        js_function(line@, doc_views(jsdoc@)) is Ok,
    ensures
        opt_view_is(r, js_function(line@, doc_views(jsdoc@))->Ok_0),
{
    let v = chars_of(line);
    js_function_exec(v.as_slice(), jsdoc)
}

/// The state of a pass over JavaScript lines: inside a block comment or
/// not, the JSDoc lines gathered, the functions found.
pub struct JsScan {
    pub in_comment: bool,
    pub doc: Seq<Seq<char>>,
    pub found: Seq<AnalyzedFunctionV>,
}

/// One line of the pass.
pub open spec fn js_step(st: JsScan, line: Seq<char>) -> Result<JsScan, ()> {
    let t = trim(line);
    if st.in_comment {
        Ok(JsScan { in_comment: !contains(t, "*/"@), ..st })
    } else if starts_with(t, "/*"@) {
        Ok(JsScan { in_comment: true, ..st })
    } else if starts_with(t, "//"@) {
        Ok(st)
    } else if contains(t, "/**"@) {
        Ok(JsScan { doc: seq![], ..st })
    } else if starts_with(t, " *"@) || starts_with(t, "*"@) {
        let d = match strip_prefix(t, " *"@) {
            Some(x) => x,
            None => drop_prefix(t, "*"@),
        };
        Ok(JsScan { doc: st.doc.push(d), ..st })
    } else {
        match js_function(t, st.doc) {
            Err(()) => Err(()),
            Ok(Some(f)) => Ok(JsScan { doc: seq![], found: st.found.push(f), ..st }),
            Ok(None) => Ok(st),
        }
    }
}

/// The pass over a sequence of lines.
pub open spec fn js_scan(ls: Seq<Seq<char>>) -> Result<JsScan, ()>
    decreases ls.len(),
{
    if ls.len() == 0 {
        Ok(JsScan { in_comment: false, doc: seq![], found: seq![] })
    } else {
        match js_scan(ls.drop_last()) {
            Err(()) => Err(()),
            Ok(st) => js_step(st, ls.last()),
        }
    }
}

proof fn lemma_js_scan_prefix(ls: Seq<Seq<char>>, k: int)
    requires
        0 <= k <= ls.len(),
        js_scan(ls) is Ok,
    ensures
        js_scan(ls.subrange(0, k)) is Ok,
    decreases ls.len() - k,
{
    if k < ls.len() {
        assert(ls.subrange(0, k + 1).drop_last() =~= ls.subrange(0, k));
        lemma_js_scan_prefix(ls, k + 1);
    } else {
        assert(ls.subrange(0, k) =~= ls);
    }
}

/// The functions declared in JavaScript source, with JSDoc comments: block
/// comments and `//` lines are skipped; JSDoc lines are gathered and given
/// to the next function found. It always succeeds.
pub fn analyze_javascript(content: &str) -> (r: Result<Vec<AnalyzedFunction>, String>)
    requires
        js_scan(lines(content@)) is Ok,
    ensures
        match r {
            Ok(v) => function_views(v@) == js_scan(lines(content@))->Ok_0.found,
            Err(_) => false,
        },
{
    let chars = chars_of(content);
    let ls = lines_of(chars.as_slice());
    let ghost lv = views(ls@);
    let mut out: Vec<AnalyzedFunction> = Vec::new();
    let mut doc: Vec<String> = Vec::new();
    let mut in_comment = false;
    let mut i: usize = 0;
    assert(function_views(out@) =~= Seq::<AnalyzedFunctionV>::empty());
    assert(doc_views(doc@) =~= Seq::<Seq<char>>::empty());
    while i < ls.len()
        invariant
            i <= ls@.len(),
            lv == views(ls@),
            lv == lines(content@),
            js_scan(lv) is Ok,
            js_scan(lv.subrange(0, i as int)) == Ok::<JsScan, ()>(JsScan {
                in_comment,
                doc: doc_views(doc@),
                found: function_views(out@),
            }),
        decreases ls@.len() - i,
    {
        proof {
            assert(lv.subrange(0, i + 1).drop_last() =~= lv.subrange(0, i as int));
            assert(lv.subrange(0, i + 1).last() == ls@[i as int]@);
            lemma_js_scan_prefix(lv, i + 1);
        }
        let t = trim_slice(ls[i].as_slice());
        if in_comment {
            if contains_str(t, "*/") {
                in_comment = false;
            }
        } else if starts_with_str(t, "/*") {
            in_comment = true;
        } else if starts_with_str(t, "//") {
        } else if contains_str(t, "/**") {
            doc = Vec::new();
            assert(doc_views(doc@) =~= Seq::<Seq<char>>::empty());
        } else if starts_with_str(t, " *") || starts_with_str(t, "*") {
            let d = match strip_prefix_slice(t, " *") {
                Some(x) => x,
                None => drop_prefix_slice(t, "*"),
            };
            let ghost before = doc@;
            doc.push(string_of(d));
            assert(doc_views(doc@) =~= doc_views(before).push(d@));
        } else {
            match js_function_exec(t, doc.as_slice()) {
                Some(f) => {
                    let ghost before = out@;
                    let ghost fv = f@;
                    out.push(f);
                    assert(function_views(out@) =~= function_views(before).push(fv));
                    doc = Vec::new();
                    assert(doc_views(doc@) =~= Seq::<Seq<char>>::empty());
                }
                None => {}
            }
        }
        i = i + 1;
    }
    assert(lv.subrange(0, ls@.len() as int) =~= lv);
    Ok(out)
}

/// The `frgn sig` declaration of a JavaScript function.
pub fn js_func_to_frgn_sig(func: &AnalyzedFunction) -> (s: String)
    ensures
        s@ == frgn_sig_text(func@),
{
    frgn_sig(func)
}

/// The functions of a JavaScript or TypeScript file with extension `ext`
/// and text `content`: `ts` and `d.ts` are read as TypeScript, `js`, `mjs`
/// and `jsx` as JavaScript; any other extension is refused.
pub fn analyze_js_content(ext: &str, content: &str) -> (r: Result<Vec<AnalyzedFunction>, String>)
    requires
        (ext@ == "ts"@ || ext@ == "d.ts"@) ==> ts_functions(lines(content@)) is Ok,
        (ext@ == "js"@ || ext@ == "mjs"@ || ext@ == "jsx"@) ==> js_scan(lines(content@)) is Ok,
    ensures
        if ext@ == "ts"@ || ext@ == "d.ts"@ {
            r matches Ok(v) && function_views(v@) == ts_functions(lines(content@))->Ok_0
        } else if ext@ == "js"@ || ext@ == "mjs"@ || ext@ == "jsx"@ {
            r matches Ok(v) && function_views(v@) == js_scan(lines(content@))->Ok_0.found
        } else {
            r matches Err(m) && m@ == "Unsupported JavaScript file type: "@ + ext@
        },
{
    let e = chars_of(ext);
    if eq_str(e.as_slice(), "ts") || eq_str(e.as_slice(), "d.ts") {
        analyze_typescript(content)
    } else if eq_str(e.as_slice(), "js") || eq_str(e.as_slice(), "mjs") || eq_str(e.as_slice(), "jsx") {
        analyze_javascript(content)
    } else {
        Err(crate::text::concat("Unsupported JavaScript file type: ", ext))
    }
}

} // verus!
