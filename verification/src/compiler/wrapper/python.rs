//! The Python analyzer: reads `def` lines (with their annotations) into
//! function signatures, and maps Python type annotations to Brief types.
//!
//! Reading a type annotation can run forever on some malformed input: an
//! `Optional[` or `Union[` annotation without its closing bracket is read
//! again unchanged. The specifications below give `None` (or `Err`) for
//! exactly those inputs, and the functions require that they do not occur.

use vstd::prelude::*;
use crate::text::{
    owned, chars_of, string_of, copy_chars, eq_str, trim, trim_slice, starts_with, starts_with_str, ends_with,
    strip_prefix, strip_suffix, strip_prefix_slice, strip_suffix_slice, find_char, find_char_slice, find,
    find_str, find_slice, contains_char, contains_char_slice, lemma_find_char, lemma_find, is_ws, is_whitespace,
    unicode_alphanumeric, unicode_alphabetic, is_alphanumeric, is_alphabetic, before_any, is_char, before_char,
    strip_trailing, strip_trailing_slice, lemma_trim_len,
};
use crate::seqs::{first_index, lemma_first_index, lemma_first_index_is, lemma_first_index_none, lemma_first_index_ext};
use crate::compiler::wrapper::function::{AnalyzedFunction, AnalyzedFunctionV, param_views, frgn_sig, frgn_sig_text};

verus! {

// ---------------------------------------------------------------------------
// Type annotations

/// The annotations that name a Brief type outright.
pub open spec fn py_simple(t: Seq<char>) -> Option<Seq<char>> {
    if t == "int"@ || t == "Int"@ || t == "Integer"@ {
        Some("Int"@)
    }
    else if t == "float"@ || t == "Float"@ {
        Some("Float"@)
    }
    else if t == "str"@ || t == "Str"@ || t == "String"@ {
        Some("String"@)
    }
    else if t == "bytes"@ || t == "Bytes"@ {
        Some("Data"@)
    }
    else if t == "bytearray"@ {
        Some("Data"@)
    }
    else if t == "bool"@ || t == "Bool"@ || t == "Boolean"@ {
        Some("Bool"@)
    }
    else if t == "complex"@ {
        Some("Custom(Complex)"@)
    }
    else if t == "object"@ || t == "Object"@ {
        Some("Value"@)
    }
    else if t == "type"@ || t == "Type"@ {
        Some("Custom(Type)"@)
    }
    else if t == "list"@ || t == "List"@ || t == "tuple"@ || t == "Tuple"@ {
        Some("List<Value>"@)
    }
    else if t == "dict"@ || t == "Dict"@ || t == "Dictionary"@ || t == "Mapping"@ || t == "MutableMapping"@ {
        Some("Data"@)
    }
    else if t == "set"@ || t == "Set"@ || t == "FrozenSet"@ || t == "MutableSet"@ {
        Some("Data"@)
    }
    else if t == "optional"@ || t == "Optional"@ {
        Some("Value"@)
    }
    else if t == "callable"@ || t == "Callable"@ || t == "Function"@ {
        Some("Value"@)
    }
    else if t == "iterator"@ || t == "Iterator"@ || t == "Iterable"@ || t == "Generator"@ || t == "AsyncGenerator"@ {
        Some("List<Value>"@)
    }
    else if t == "decimal"@ || t == "Decimal"@ || t == "Fraction"@ {
        Some("Float"@)
    }
    else if t == "datetime"@ || t == "date"@ || t == "time"@ || t == "timedelta"@ {
        Some("Custom(DateTime)"@)
    }
    else if t == "BaseException"@ || t == "Exception"@ || t == "Error"@ {
        Some("Error"@)
    }
    else if t == "TypeError"@ || t == "ValueError"@ || t == "RuntimeError"@ || t == "IOError"@ || t == "OSError"@ || t == "FileNotFoundError"@ {
        Some("Error"@)
    }
    else if t == "TextIO"@ || t == "BinaryIO"@ || t == "IO"@ || t == "FileIO"@ {
        Some("Custom(File)"@)
    } else {
        None
    }

}

/// A Python boolean is typed `Bool` and a Python integer `Int`, and no
/// other plain annotation is: `py_simple` gives `Bool` exactly for `bool`,
/// `Bool` and `Boolean`, and `Int` exactly for `int`, `Int` and `Integer`;
/// an annotation that trims to a boolean spelling is read as `Bool`.
pub proof fn law_py_bool_and_int(t: Seq<char>, t0: Seq<char>)
    ensures
        py_simple(t) == Some("Bool"@) <==> (t == "bool"@ || t == "Bool"@ || t == "Boolean"@),
        py_simple(t) == Some("Int"@) <==> (t == "int"@ || t == "Int"@ || t == "Integer"@),
        (trim(t0) == "bool"@ || trim(t0) == "Bool"@ || trim(t0) == "Boolean"@) ==> py_brief(t0) == Some("Bool"@),
{
    reveal_strlit("int");
    reveal_strlit("Int");
    reveal_strlit("Integer");
    reveal_strlit("float");
    reveal_strlit("Float");
    reveal_strlit("str");
    reveal_strlit("Str");
    reveal_strlit("String");
    reveal_strlit("bytes");
    reveal_strlit("Bytes");
    reveal_strlit("bytearray");
    reveal_strlit("bool");
    reveal_strlit("Bool");
    reveal_strlit("Boolean");
    reveal_strlit("complex");
    reveal_strlit("object");
    reveal_strlit("Object");
    reveal_strlit("type");
    reveal_strlit("Type");
    reveal_strlit("list");
    reveal_strlit("List");
    reveal_strlit("tuple");
    reveal_strlit("Tuple");
    reveal_strlit("dict");
    reveal_strlit("Dict");
    reveal_strlit("Dictionary");
    reveal_strlit("Mapping");
    reveal_strlit("MutableMapping");
    reveal_strlit("set");
    reveal_strlit("Set");
    reveal_strlit("FrozenSet");
    reveal_strlit("MutableSet");
    reveal_strlit("optional");
    reveal_strlit("Optional");
    reveal_strlit("callable");
    reveal_strlit("Callable");
    reveal_strlit("Function");
    reveal_strlit("iterator");
    reveal_strlit("Iterator");
    reveal_strlit("Iterable");
    reveal_strlit("Generator");
    reveal_strlit("AsyncGenerator");
    reveal_strlit("decimal");
    reveal_strlit("Decimal");
    reveal_strlit("Fraction");
    reveal_strlit("datetime");
    reveal_strlit("date");
    reveal_strlit("time");
    reveal_strlit("timedelta");
    reveal_strlit("BaseException");
    reveal_strlit("Exception");
    reveal_strlit("Error");
    reveal_strlit("TypeError");
    reveal_strlit("ValueError");
    reveal_strlit("RuntimeError");
    reveal_strlit("IOError");
    reveal_strlit("OSError");
    reveal_strlit("FileNotFoundError");
    reveal_strlit("TextIO");
    reveal_strlit("BinaryIO");
    reveal_strlit("IO");
    reveal_strlit("FileIO");
    reveal_strlit("Data");
    reveal_strlit("Custom(Complex)");
    reveal_strlit("Value");
    reveal_strlit("Custom(Type)");
    reveal_strlit("List<Value>");
    reveal_strlit("Custom(DateTime)");
    reveal_strlit("Custom(File)");
    reveal_strlit("None");
    assert("int"@.len() == 3);
    assert("Int"@.len() == 3);
    assert("Integer"@.len() == 7);
    assert("float"@.len() == 5);
    assert("Float"@.len() == 5);
    assert("str"@.len() == 3);
    assert("Str"@.len() == 3);
    assert("String"@.len() == 6);
    assert("bytes"@.len() == 5);
    assert("Bytes"@.len() == 5);
    assert("bytearray"@.len() == 9);
    assert("bool"@.len() == 4);
    assert("Bool"@.len() == 4);
    assert("Boolean"@.len() == 7);
    assert("Data"@.len() == 4);
    assert("Custom(Complex)"@.len() == 15);
    assert("Value"@.len() == 5);
    assert("Custom(Type)"@.len() == 12);
    assert("List<Value>"@.len() == 11);
    assert("Custom(DateTime)"@.len() == 16);
    assert("Custom(File)"@.len() == 12);
    assert("Error"@.len() == 5);
    assert("None"@.len() == 4);
    assert("Boolean"@[0] != "Integer"@[0]);
    assert("Data"@[0] != "Bool"@[0]);
    assert("None"@[0] != "bool"@[0] && "None"@[0] != "Bool"@[0]);
}

fn py_simple_exec(t: &[char]) -> (r: Option<&'static str>)
    ensures
        match (r, py_simple(t@)) {
            (Some(a), Some(b)) => a@ == b,
            (None, None) => true,
            _ => false,
        },
{
    if eq_str(t, "int") || eq_str(t, "Int") || eq_str(t, "Integer") {
        Some("Int")
    }
    else if eq_str(t, "float") || eq_str(t, "Float") {
        Some("Float")
    }
    else if eq_str(t, "str") || eq_str(t, "Str") || eq_str(t, "String") {
        Some("String")
    }
    else if eq_str(t, "bytes") || eq_str(t, "Bytes") {
        Some("Data")
    }
    else if eq_str(t, "bytearray") {
        Some("Data")
    }
    else if eq_str(t, "bool") || eq_str(t, "Bool") || eq_str(t, "Boolean") {
        Some("Bool")
    }
    else if eq_str(t, "complex") {
        Some("Custom(Complex)")
    }
    else if eq_str(t, "object") || eq_str(t, "Object") {
        Some("Value")
    }
    else if eq_str(t, "type") || eq_str(t, "Type") {
        Some("Custom(Type)")
    }
    else if eq_str(t, "list") || eq_str(t, "List") || eq_str(t, "tuple") || eq_str(t, "Tuple") {
        Some("List<Value>")
    }
    else if eq_str(t, "dict") || eq_str(t, "Dict") || eq_str(t, "Dictionary") || eq_str(t, "Mapping") || eq_str(t, "MutableMapping") {
        Some("Data")
    }
    else if eq_str(t, "set") || eq_str(t, "Set") || eq_str(t, "FrozenSet") || eq_str(t, "MutableSet") {
        Some("Data")
    }
    else if eq_str(t, "optional") || eq_str(t, "Optional") {
        Some("Value")
    }
    else if eq_str(t, "callable") || eq_str(t, "Callable") || eq_str(t, "Function") {
        Some("Value")
    }
    else if eq_str(t, "iterator") || eq_str(t, "Iterator") || eq_str(t, "Iterable") || eq_str(t, "Generator") || eq_str(t, "AsyncGenerator") {
        Some("List<Value>")
    }
    else if eq_str(t, "decimal") || eq_str(t, "Decimal") || eq_str(t, "Fraction") {
        Some("Float")
    }
    else if eq_str(t, "datetime") || eq_str(t, "date") || eq_str(t, "time") || eq_str(t, "timedelta") {
        Some("Custom(DateTime)")
    }
    else if eq_str(t, "BaseException") || eq_str(t, "Exception") || eq_str(t, "Error") {
        Some("Error")
    }
    else if eq_str(t, "TypeError") || eq_str(t, "ValueError") || eq_str(t, "RuntimeError") || eq_str(t, "IOError") || eq_str(t, "OSError") || eq_str(t, "FileNotFoundError") {
        Some("Error")
    }
    else if eq_str(t, "TextIO") || eq_str(t, "BinaryIO") || eq_str(t, "IO") || eq_str(t, "FileIO") {
        Some("Custom(File)")
    } else {
        None
    }

}

/// `Optional[X]` or `optional[X]` without its brackets, if it has both.
pub open spec fn unwrap_generic(t: Seq<char>, upper: Seq<char>, lower: Seq<char>) -> Seq<char> {
    let inner = match strip_prefix(t, upper) {
        Some(r) => Some(r),
        None => strip_prefix(t, lower),
    };
    match inner {
        Some(r) => match strip_suffix(r, "]"@) {
            Some(x) => x,
            None => t,
        },
        None => t,
    }
}

/// The Brief type of a Python annotation, or `None` where reading it would
/// not end.
pub open spec fn py_brief(t0: Seq<char>) -> Option<Seq<char>>
    decreases t0.len(),
{
    let t = trim(t0);
    if t == "None"@ {
        Some("Void"@)
    } else if py_simple(t) is Some {
        py_simple(t)
    } else if starts_with(t, "List["@) || starts_with(t, "list["@) {
        Some("List<Value>"@)
    } else if starts_with(t, "Optional["@) || starts_with(t, "optional["@) {
        let inner = unwrap_generic(t, "Optional["@, "optional["@);
        if inner.len() < t0.len() && inner.len() < t.len() {
            py_brief(inner)
        } else {
            None
        }
    } else if starts_with(t, "Union["@) || starts_with(t, "union["@) {
        let first = before_any(unwrap_generic(t, "Union["@, "union["@), is_char(','));
        if trim(first).len() < t.len() && first.len() < t0.len() {
            py_brief(first)
        } else {
            None
        }
    } else if starts_with(t, "Dict["@) || starts_with(t, "dict["@) || starts_with(t, "Mapping["@)
        || starts_with(t, "mapping["@) {
        Some("Data"@)
    } else if starts_with(t, "Tuple["@) || starts_with(t, "tuple["@) {
        Some("List<Value>"@)
    } else if starts_with(t, "Set["@) || starts_with(t, "set["@) {
        Some("Data"@)
    } else if starts_with(t, "Callable["@) || starts_with(t, "Callable("@) {
        Some("Value"@)
    } else if starts_with(t, "Generator["@) || starts_with(t, "generator["@) {
        Some("List<Value>"@)
    } else if starts_with(t, "Iterator["@) || starts_with(t, "iterator["@) {
        Some("List<Value>"@)
    } else if ends_with(t, "Error"@) || ends_with(t, "Exception"@) {
        Some("Error"@)
    } else {
        Some(t)
    }
}

proof fn lemma_before_any_len(s: Seq<char>, stop: spec_fn(char) -> bool)
    ensures
        before_any(s, stop).len() <= s.len(),
{
    lemma_first_index(s.len(), |i: int| stop(s[i]));
}

fn unwrap_generic_exec<'a>(t: &'a [char], upper: &str, lower: &str) -> (r: &'a [char])
    ensures
        r@ == unwrap_generic(t@, upper@, lower@),
        r@.len() <= t@.len(),
{
    let inner = match strip_prefix_slice(t, upper) {
        Some(r) => Some(r),
        None => strip_prefix_slice(t, lower),
    };
    match inner {
        Some(r) => match strip_suffix_slice(r, "]") {
            Some(x) => x,
            None => t,
        },
        None => t,
    }
}

/// The Brief type of a Python type annotation: `None` is `Void`, the
/// builtin and `typing` names map to their Brief counterparts,
/// `Optional[X]` to the type of `X`, `Union[X, ...]` to the type of `X`,
/// generic collections to `List<Value>` or `Data`, exception names to
/// `Error`; any other name stands for itself.
pub fn py_type_to_brief(py_type: &str) -> (r: String)
    requires
        py_brief(py_type@) is Some,
    ensures
        r@ == py_brief(py_type@)->0,
{
    let v = chars_of(py_type);
    let s = py_brief_chars(v.as_slice());
    string_of(s.as_slice())
}

/// The Brief type of a Python annotation, or `None` where reading it would
/// not end (an `Optional[` or `Union[` that is never closed).
pub fn py_type_to_brief_checked(py_type: &str) -> (r: Option<String>)
    ensures
        match r {
            Some(s) => py_brief(py_type@) == Some(s@),
            None => py_brief(py_type@) is None,
        },
{
    let v = chars_of(py_type);
    match py_brief_checked_chars(v.as_slice()) {
        Some(s) => Some(string_of(s.as_slice())),
        None => None,
    }
}

fn py_brief_checked_chars(t0: &[char]) -> (r: Option<Vec<char>>)
    ensures
        match r {
            Some(v) => py_brief(t0@) == Some(v@),
            None => py_brief(t0@) is None,
        },
    decreases t0@.len(),
{
    let t = trim_slice(t0);
    proof { lemma_trim_len(t0@); }
    if eq_str(t, "None") || py_simple_exec(t).is_some() || starts_with_str(t, "List[")
        || starts_with_str(t, "list[") {
        return Some(py_brief_chars(t0));
    }
    if starts_with_str(t, "Optional[") || starts_with_str(t, "optional[") {
        let inner = unwrap_generic_exec(t, "Optional[", "optional[");
        if inner.len() < t0.len() && inner.len() < t.len() {
            py_brief_checked_chars(inner)
        } else {
            None
        }
    } else if starts_with_str(t, "Union[") || starts_with_str(t, "union[") {
        let inner = unwrap_generic_exec(t, "Union[", "union[");
        let first = before_char(inner, ',');
        proof { lemma_before_any_len(inner@, is_char(',')); }
        let tf = trim_slice(first);
        if tf.len() < t.len() && first.len() < t0.len() {
            py_brief_checked_chars(first)
        } else {
            None
        }
    } else {
        Some(py_brief_chars(t0))
    }
}

fn py_brief_chars(t0: &[char]) -> (r: Vec<char>)
    requires
        py_brief(t0@) is Some,
    ensures
        r@ == py_brief(t0@)->0,
    decreases t0@.len(),
{
    let t = trim_slice(t0);
    proof { lemma_trim_len(t0@); }
    if eq_str(t, "None") {
        return chars_of("Void");
    }
    match py_simple_exec(t) {
        Some(r) => return chars_of(r),
        None => {},
    }
    if starts_with_str(t, "List[") || starts_with_str(t, "list[") {
        chars_of("List<Value>")
    } else if starts_with_str(t, "Optional[") || starts_with_str(t, "optional[") {
        let inner = unwrap_generic_exec(t, "Optional[", "optional[");
        py_brief_chars(inner)
    } else if starts_with_str(t, "Union[") || starts_with_str(t, "union[") {
        let inner = unwrap_generic_exec(t, "Union[", "union[");
        let first = before_char(inner, ',');
        proof { lemma_before_any_len(inner@, is_char(',')); }
        py_brief_chars(first)
    } else if starts_with_str(t, "Dict[") || starts_with_str(t, "dict[") || starts_with_str(t, "Mapping[")
        || starts_with_str(t, "mapping[") {
        chars_of("Data")
    } else if starts_with_str(t, "Tuple[") || starts_with_str(t, "tuple[") {
        chars_of("List<Value>")
    } else if starts_with_str(t, "Set[") || starts_with_str(t, "set[") {
        chars_of("Data")
    } else if starts_with_str(t, "Callable[") || starts_with_str(t, "Callable(") {
        chars_of("Value")
    } else if starts_with_str(t, "Generator[") || starts_with_str(t, "generator[") {
        chars_of("List<Value>")
    } else if starts_with_str(t, "Iterator[") || starts_with_str(t, "iterator[") {
        chars_of("List<Value>")
    } else if crate::text::ends_with_str(t, "Error") || crate::text::ends_with_str(t, "Exception") {
        chars_of("Error")
    } else {
        copy_chars(t)
    }
}

// ---------------------------------------------------------------------------
// Parameters

/// A character of a Python name: alphanumeric or `_`.
pub open spec fn name_char(c: char) -> bool {
    unicode_alphanumeric(c) || c == '_'
}

/// The first position from which the characters of `s` stop being name
/// characters.
pub open spec fn name_end(s: Seq<char>) -> Option<int> {
    first_index(s.len(), |i: int| !name_char(s[i]))
}

pub(crate) fn name_end_exec(s: &[char]) -> (r: Option<usize>)
    ensures
        match r {
            Some(i) => name_end(s@) == Some(i as int) && i < s@.len(),
            None => name_end(s@) == None::<int>,
        },
{
    let ghost p = |i: int| !name_char(s@[i]);
    let mut i: usize = 0;
    while i < s.len()
        invariant
            i <= s@.len(),
            p == (|i: int| !name_char(s@[i])),
            forall|j: int| 0 <= j < i ==> !#[trigger] p(j),
        decreases s@.len() - i,
    {
        if !(is_alphanumeric(s[i]) || s[i] == '_') {
            proof { lemma_first_index_is(s@.len(), p, i as int); }
            return Some(i);
        }
        i = i + 1;
    }
    proof { lemma_first_index_none(s@.len(), p); }
    None
}

pub open spec fn opens(c: char) -> bool {
    c == '[' || c == '(' || c == '{' || c == '<'
}

pub open spec fn closes(c: char) -> bool {
    c == ']' || c == ')' || c == '}' || c == '>'
}

/// The pieces of `p` from `start`, cut at the commas outside brackets; the
/// scan is at `i` with `depth` brackets open.
pub open spec fn pieces_from(p: Seq<char>, i: int, depth: int, start: int) -> Seq<Seq<char>>
    decreases p.len() - i,
{
    if i < 0 || i >= p.len() {
        seq![p.subrange(start, p.len() as int)]
    } else if opens(p[i]) {
        pieces_from(p, i + 1, depth + 1, start)
    } else if closes(p[i]) {
        pieces_from(p, i + 1, depth - 1, start)
    } else if p[i] == ',' && depth == 0 {
        seq![p.subrange(start, i)] + pieces_from(p, i + 1, depth, i + 1)
    } else {
        pieces_from(p, i + 1, depth, start)
    }
}

/// One parameter: `**name` and `*name` collect keyword and positional
/// arguments; otherwise `name: Type`, maybe with a default, or an untyped
/// `name`, taken as `Int`.
pub open spec fn py_param(p0: Seq<char>) -> Option<(Seq<char>, Seq<char>)> {
    let p = trim(p0);
    if starts_with(p, "**"@) {
        let name = trim(p.subrange(2, p.len() as int));
        Some((if name.len() == 0 { "kwargs"@ } else { name }, "Data"@))
    } else if starts_with(p, "*"@) {
        let name = trim(p.subrange(1, p.len() as int));
        Some((if name.len() == 0 { "args"@ } else { name }, "List<Value>"@))
    } else {
        let (name, ty) = match find_char(p, '=') {
            Some(e) => {
                let before = trim(p.subrange(0, e));
                match find_char(before, ':') {
                    Some(c) => (trim(before.subrange(0, c)), trim(before.subrange(c + 1, before.len() as int))),
                    None => (before, "Int"@),
                }
            },
            None => match find_char(p, ':') {
                Some(c) => (trim(p.subrange(0, c)), trim(p.subrange(c + 1, p.len() as int))),
                None => (p, "Int"@),
            },
        };
        match py_brief(ty) {
            Some(b) => Some((name, b)),
            None => None,
        }
    }
}

/// The parameters of each piece; `None` if one of them cannot be read.
pub open spec fn py_param_list(pieces: Seq<Seq<char>>) -> Option<Seq<(Seq<char>, Seq<char>)>>
    decreases pieces.len(),
{
    if pieces.len() == 0 {
        Some(seq![])
    } else {
        match (py_param_list(pieces.drop_last()), py_param(pieces.last())) {
            (Some(ps), Some(q)) => Some(ps.push(q)),
            _ => None,
        }
    }
}

/// The parameters of a parameter list: every piece before the last comma
/// outside brackets, and the last piece unless it is blank.
pub open spec fn py_params(p: Seq<char>) -> Option<Seq<(Seq<char>, Seq<char>)>> {
    if trim(p).len() == 0 {
        Some(seq![])
    } else {
        let pcs = pieces_from(p, 0, 0, 0);
        let kept = if trim(pcs.last()).len() == 0 { pcs.drop_last() } else { pcs };
        py_param_list(kept)
    }
}

fn py_param_exec(p0: &[char]) -> (r: (String, String))
    requires
        py_param(p0@) is Some,
    ensures
        (r.0@, r.1@) == py_param(p0@)->0,
{
    let p = trim_slice(p0);
    proof {
        reveal_strlit("**");
        reveal_strlit("*");
    }
    if starts_with_str(p, "**") {
        let name = trim_slice(&p[2..p.len()]);
        let n = if name.len() == 0 { owned("kwargs") } else { string_of(name) };
        return (n, owned("Data"));
    }
    if starts_with_str(p, "*") {
        let name = trim_slice(&p[1..p.len()]);
        let n = if name.len() == 0 { owned("args") } else { string_of(name) };
        return (n, owned("List<Value>"));
    }
    let (name, ty): (&[char], Vec<char>) = match find_char_slice(p, '=') {
        Some(e) => {
            proof { lemma_find_char(p@, '='); }
            let before = trim_slice(&p[0..e]);
            match find_char_slice(before, ':') {
                Some(c) => {
                    proof { lemma_find_char(before@, ':'); }
                    assert(c < before.len());
                    (trim_slice(&before[0..c]), copy_chars(trim_slice(&before[c + 1..before.len()])))
                }
                None => (before, chars_of("Int")),
            }
        }
        None => match find_char_slice(p, ':') {
            Some(c) => {
                proof { lemma_find_char(p@, ':'); }
                assert(c < p.len());
                (trim_slice(&p[0..c]), copy_chars(trim_slice(&p[c + 1..p.len()])))
            }
            None => (p, chars_of("Int")),
        },
    };
    let b = py_brief_chars(ty.as_slice());
    (string_of(name), string_of(b.as_slice()))
}

/// Reads a parameter list. Bracket depth is kept in a 32-bit counter, as
/// the lists this reads are short.
fn py_params_exec(p: &[char]) -> (r: Vec<(String, String)>)
    requires
        py_params(p@) is Some,
        p@.len() < 0x7fff_ffff,
    ensures
        param_views(r@) == py_params(p@)->0,
{
    let mut out: Vec<(String, String)> = Vec::new();
    if trim_slice(p).len() == 0 {
        assert(param_views(out@) =~= Seq::<(Seq<char>, Seq<char>)>::empty());
        return out;
    }
    let n = p.len();
    let ghost pcs = pieces_from(p@, 0, 0, 0);
    let mut depth: i32 = 0;
    let mut start: usize = 0;
    let mut i: usize = 0;
    let ghost done: Seq<Seq<char>> = seq![];
    assert(param_views(out@) =~= Seq::<(Seq<char>, Seq<char>)>::empty());
    while i < n
        invariant
            n == p@.len(),
            n < 0x7fff_ffff,
            py_params(p@) is Some,
            trim(p@).len() > 0,
            start <= i <= n,
            -(i as int) <= depth <= i,
            pcs == pieces_from(p@, 0, 0, 0),
            pcs == done + pieces_from(p@, i as int, depth as int, start as int),
            py_param_list(done) == Some(param_views(out@)),
        decreases n - i,
    {
        let c = p[i];
        if c == '[' || c == '(' || c == '{' || c == '<' {
            depth = depth + 1;
        } else if c == ']' || c == ')' || c == '}' || c == '>' {
            depth = depth - 1;
        } else if c == ',' && depth == 0 {
            let piece = &p[start..i];
            proof {
                assert(pieces_from(p@, i as int, depth as int, start as int)
                    == seq![p@.subrange(start as int, i as int)] + pieces_from(p@, i + 1, depth as int, i + 1));
                lemma_pieces_nonempty(p@, i + 1, depth as int, i + 1);
                lemma_piece_ok(p@, done, p@.subrange(start as int, i as int), pieces_from(p@, i + 1, depth as int, i + 1));
            }
            let q = py_param_exec(piece);
            let ghost before = out@;
            out.push(q);
            proof {
                assert(param_views(out@) =~= param_views(before).push((q.0@, q.1@)));
                assert((done.push(p@.subrange(start as int, i as int))).drop_last() =~= done);
                assert(done + (seq![p@.subrange(start as int, i as int)] + pieces_from(p@, i + 1, depth as int, i + 1))
                    =~= done.push(p@.subrange(start as int, i as int)) + pieces_from(p@, i + 1, depth as int, i + 1));
                done = done.push(p@.subrange(start as int, i as int));
            }
            start = i + 1;
        }
        i = i + 1;
    }
    let last = &p[start..n];
    proof {
        assert(pieces_from(p@, n as int, depth as int, start as int) == seq![p@.subrange(start as int, n as int)]);
        assert(pcs.last() == last@);
        assert(pcs.drop_last() =~= done);
    }
    if trim_slice(last).len() > 0 {
        proof {
            lemma_piece_ok(p@, done, last@, seq![]);
            assert(pcs =~= done.push(last@));
        }
        let q = py_param_exec(last);
        let ghost before = out@;
        out.push(q);
        assert(param_views(out@) =~= param_views(before).push((q.0@, q.1@)));
    }
    out
}

proof fn lemma_pieces_nonempty(p: Seq<char>, i: int, depth: int, start: int)
    ensures
        pieces_from(p, i, depth, start).len() >= 1,
    decreases p.len() - i,
{
    if 0 <= i < p.len() {
        if opens(p[i]) {
            lemma_pieces_nonempty(p, i + 1, depth + 1, start);
        } else if closes(p[i]) {
            lemma_pieces_nonempty(p, i + 1, depth - 1, start);
        } else if p[i] == ',' && depth == 0 {
            lemma_pieces_nonempty(p, i + 1, depth, i + 1);
        } else {
            lemma_pieces_nonempty(p, i + 1, depth, start);
        }
    }
}

/// When a list of pieces reads, so do its first pieces and each piece.
proof fn lemma_piece_ok(p: Seq<char>, done: Seq<Seq<char>>, piece: Seq<char>, rest: Seq<Seq<char>>)
    requires
        py_params(p) is Some,
        trim(p).len() > 0,
        pieces_from(p, 0, 0, 0) == done + (seq![piece] + rest),
        rest.len() > 0 || trim(piece).len() > 0,
    ensures
        py_param_list(done.push(piece)) is Some,
        py_param(piece) is Some,
{
    let pcs = pieces_from(p, 0, 0, 0);
    let kept = if trim(pcs.last()).len() == 0 { pcs.drop_last() } else { pcs };
    assert(kept.subrange(0, done.len() as int + 1) =~= done.push(piece)) by {
        if rest.len() == 0 {
            assert(pcs.last() == piece);
        }
    }
    lemma_param_list_prefix(kept, done.len() as int + 1);
    assert(done.push(piece).drop_last() =~= done);
}

proof fn lemma_param_list_prefix(s: Seq<Seq<char>>, k: int)
    requires
        0 <= k <= s.len(),
        py_param_list(s) is Some,
    ensures
        py_param_list(s.subrange(0, k)) is Some,
    decreases s.len() - k,
{
    if k < s.len() {
        assert(s.subrange(0, k + 1).drop_last() =~= s.subrange(0, k));
        lemma_param_list_prefix(s, k + 1);
    } else {
        assert(s.subrange(0, k) =~= s);
    }
}

// ---------------------------------------------------------------------------
// Function declarations

/// The line without a leading decorator: after `@`, the name, then up to
/// the next letter.
pub open spec fn undecorate(line: Seq<char>) -> Seq<char> {
    match strip_prefix(line, "@"@) {
        Some(l) => match name_end(l) {
            Some(i) => match first_index((l.len() - i) as nat, |j: int| unicode_alphabetic(l[i + j])) {
                Some(j) => l.subrange(i + j, l.len() as int),
                None => line,
            },
            None => line,
        },
        None => line,
    }
}

/// The return annotation: for `def`, up to the first `:`, `#` or white
/// space; for `async def`, without trailing colons and up to a `#`.
pub open spec fn ret_clean(r: Seq<char>, is_async: bool) -> Seq<char> {
    if is_async {
        trim(before_any(trim(strip_trailing(r, ':')), is_char('#')))
    } else {
        trim(before_any(r, |c: char| ret_stop(c)))
    }
}

/// Where a `def` return annotation ends.
pub open spec fn ret_stop(c: char) -> bool {
    c == ':' || c == '#' || is_ws(c)
}

/// What the part of a declaration after `def ` declares: `Ok(None)` when it
/// is no function, `Err` where reading it would fail or not end (a `)`
/// before the `(`, an annotation that does not end, a parameter list too
/// long to count brackets in).
pub open spec fn py_sig(l: Seq<char>, is_async: bool) -> Result<Option<AnalyzedFunctionV>, ()> {
    match name_end(l) {
        None => Ok(None),
        Some(ne) => {
            let name = l.subrange(0, ne);
            if name.len() == 0 {
                Ok(None)
            } else {
                let rest = trim(l.subrange(ne, l.len() as int));
                match (find_char(rest, '('), find_char(rest, ')')) {
                    (Some(ps), Some(pe)) => if pe < ps + 1 {
                        Err(())
                    } else {
                        let params_str = rest.subrange(ps + 1, pe);
                        let after = rest.subrange(pe + 1, rest.len() as int);
                        let ret = match find(after, "->"@) {
                            Some(ap) => py_brief(ret_clean(trim(after.subrange(ap + 2, after.len() as int)), is_async)),
                            None => Some("Void"@),
                        };
                        if params_str.len() >= 0x7fff_ffff {
                            Err(())
                        } else {
                            match (py_params(params_str), ret) {
                                (Some(params), Some(rt)) => Ok(Some(AnalyzedFunctionV {
                                    name,
                                    return_type: rt,
                                    parameters: params,
                                    is_variadic: contains_char(params_str, '*'),
                                    comments: seq![],
                                })),
                                _ => Err(()),
                            }
                        }
                    },
                    _ => Ok(None),
                }
            }
        },
    }
}

/// What `parse_py_function` reads from a line.
pub open spec fn py_def(line: Seq<char>) -> Result<Option<AnalyzedFunctionV>, ()> {
    match strip_prefix(undecorate(trim(line)), "def "@) {
        None => Ok(None),
        Some(l) => py_sig(l, false),
    }
}

/// What `parse_py_async_function` reads from a line: the function gets the
/// name `async_NAME` and the comment `async`.
pub open spec fn py_async_def(line: Seq<char>) -> Result<Option<AnalyzedFunctionV>, ()> {
    match strip_prefix(undecorate(trim(line)), "async def "@) {
        None => Ok(None),
        Some(l) => match py_sig(l, true) {
            Ok(Some(f)) => Ok(Some(AnalyzedFunctionV { name: "async_"@ + f.name, comments: f.comments.push("async"@), ..f })),
            other => other,
        },
    }
}

fn undecorate_exec(line: &[char]) -> (r: &[char])
    ensures
        r@ == undecorate(line@),
{
    match strip_prefix_slice(line, "@") {
        Some(l) => match name_end_exec(l) {
            Some(i) => {
                let ghost p = |j: int| unicode_alphabetic(l@[i + j]);
                let mut j: usize = 0;
                while j < l.len() - i
                    invariant
                        i < l@.len(),
                        j <= l@.len() - i,
                        strip_prefix(line@, "@"@) == Some(l@),
                        name_end(l@) == Some(i as int),
                        p == (|j: int| unicode_alphabetic(l@[i + j])),
                        forall|k: int| 0 <= k < j ==> !#[trigger] p(k),
                    decreases l@.len() - i - j,
                {
                    if is_alphabetic(l[i + j]) {
                        proof { lemma_first_index_is((l@.len() - i) as nat, p, j as int); }
                        return &l[i + j..l.len()];
                    }
                    j = j + 1;
                }
                proof { lemma_first_index_none((l@.len() - i) as nat, p); }
                line
            }
            None => line,
        },
        None => line,
    }
}

fn ret_clean_exec(r: &[char], is_async: bool) -> (out: &[char])
    ensures
        out@ == ret_clean(r@, is_async),
{
    if is_async {
        let a = trim_slice(strip_trailing_slice(r, ':'));
        trim_slice(before_char(a, '#'))
    } else {
        let mut i: usize = 0;
        while i < r.len()
            invariant
                !is_async,
                i <= r@.len(),
                forall|k: int| 0 <= k < i ==> !#[trigger] ret_stop(r@[k]),
            decreases r@.len() - i,
        {
            let c = r[i];
            if c == ':' || c == '#' || is_whitespace(c) {
                proof {
                    let q = |k: int| ret_stop(r@[k]);
                    lemma_first_index_is(r@.len(), q, i as int);
                    lemma_first_index_ext(r@.len(), q, |k: int| (|c: char| ret_stop(c))(r@[k]));
                    assert(before_any(r@, |c: char| ret_stop(c)) == r@.subrange(0, i as int));
                }
                return trim_slice(&r[0..i]);
            }
            i = i + 1;
        }
        proof {
            let q = |k: int| ret_stop(r@[k]);
            lemma_first_index_none(r@.len(), q);
            lemma_first_index_ext(r@.len(), q, |k: int| (|c: char| ret_stop(c))(r@[k]));
            assert(before_any(r@, |c: char| ret_stop(c)) == r@);
        }
        trim_slice(r)
    }
}

fn py_sig_exec(l: &[char], is_async: bool) -> (r: Option<AnalyzedFunction>)
    requires
        py_sig(l@, is_async) is Ok,
    ensures
        match (r, py_sig(l@, is_async)->Ok_0) {
            (Some(f), Some(v)) => f@ == v,
            (None, None) => true,
            _ => false,
        },
{
    let ne = match name_end_exec(l) {
        Some(ne) => ne,
        None => return None,
    };
    if ne == 0 {
        return None;
    }
    let name = &l[0..ne];
    let rest = trim_slice(&l[ne..l.len()]);
    let ps = match find_char_slice(rest, '(') {
        Some(x) => x,
        None => return None,
    };
    let pe = match find_char_slice(rest, ')') {
        Some(x) => x,
        None => return None,
    };
    proof {
        lemma_find_char(rest@, '(');
        lemma_find_char(rest@, ')');
    }
    assert(ps < pe && pe < rest.len());
    let params_str = &rest[ps + 1..pe];
    let after = &rest[pe + 1..rest.len()];
    let parameters = py_params_exec(params_str);
    let return_type = match find_str(after, "->") {
        Some(ap) => {
            proof {
                lemma_find(after@, "->"@);
                reveal_strlit("->");
            }
            let r = trim_slice(&after[ap + 2..after.len()]);
            let cleaned = ret_clean_exec(r, is_async);
            let b = py_brief_chars(cleaned);
            string_of(b.as_slice())
        }
        None => owned("Void"),
    };
    let f = AnalyzedFunction {
        name: string_of(name),
        return_type,
        parameters,
        is_variadic: contains_char_slice(params_str, '*'),
        comments: Vec::new(),
    };
    assert(f@.comments =~= Seq::<Seq<char>>::empty());
    Some(f)
}

/// Reads a `def` line (after any decorator): the name, the annotated
/// parameters, and the return annotation (`Void` without one). A line that
/// is no `def` gives `None`.
pub fn parse_py_function(line: &str, is_stub: bool) -> (r: Option<AnalyzedFunction>)
    requires
        py_def(line@) is Ok,
    ensures
        match (r, py_def(line@)->Ok_0) {
            (Some(f), Some(v)) => f@ == v,
            (None, None) => true,
            _ => false,
        },
{
    let v = chars_of(line);
    let l = undecorate_exec(trim_slice(v.as_slice()));
    match strip_prefix_slice(l, "def ") {
        None => None,
        Some(body) => py_sig_exec(body, false),
    }
}

/// Reads an `async def` line into a function named `async_NAME`, with the
/// comment `async`.
pub fn parse_py_async_function(line: &str, is_stub: bool) -> (r: Option<AnalyzedFunction>)
    requires
        py_async_def(line@) is Ok,
    ensures
        match (r, py_async_def(line@)->Ok_0) {
            (Some(f), Some(v)) => f@ == v,
            (None, None) => true,
            _ => false,
        },
{
    let v = chars_of(line);
    let l = undecorate_exec(trim_slice(v.as_slice()));
    match strip_prefix_slice(l, "async def ") {
        None => None,
        Some(body) => match py_sig_exec(body, true) {
            Some(f) => {
                let mut name = owned("async_");
                name.append(f.name.as_str());
                let mut comments = f.comments;
                let ghost c0 = comments@;
                comments.push(owned("async"));
                let g = AnalyzedFunction { name, return_type: f.return_type, parameters: f.parameters, is_variadic: f.is_variadic, comments };
                assert(g@.comments =~= c0.map_values(|s: String| s@).push("async"@));
                Some(g)
            }
            None => None,
        },
    }
}

/// The `frgn sig` declaration of a Python function.
pub fn py_func_to_frgn_sig(func: &AnalyzedFunction) -> (s: String)
    ensures
        s@ == frgn_sig_text(func@),
{
    frgn_sig(func)
}

// ---------------------------------------------------------------------------
// Files

/// A line that holds no declaration: blank or a comment.
pub open spec fn py_skip(line: Seq<char>) -> bool {
    trim(line).len() == 0 || starts_with(trim(line), "#"@)
}

/// The functions a sequence of lines declares, in order; `Err` where a line
/// cannot be read.
pub open spec fn py_functions(ls: Seq<Seq<char>>) -> Result<Seq<AnalyzedFunctionV>, ()>
    decreases ls.len(),
{
    if ls.len() == 0 {
        Ok(seq![])
    } else {
        match py_functions(ls.drop_last()) {
            Err(()) => Err(()),
            Ok(fs) => {
                let l = ls.last();
                if py_skip(l) {
                    Ok(fs)
                } else {
                    match (py_def(trim(l)), py_async_def(trim(l))) {
                        (Ok(a), Ok(b)) => {
                            let fs1 = match a { Some(f) => fs.push(f), None => fs };
                            Ok(match b { Some(f) => fs1.push(f), None => fs1 })
                        },
                        _ => Err(()),
                    }
                }
            },
        }
    }
}

pub open spec fn function_views(v: Seq<AnalyzedFunction>) -> Seq<AnalyzedFunctionV> {
    v.map_values(|f: AnalyzedFunction| f@)
}

proof fn lemma_py_functions_prefix(ls: Seq<Seq<char>>, k: int)
    requires
        0 <= k <= ls.len(),
        py_functions(ls) is Ok,
    ensures
        py_functions(ls.subrange(0, k)) is Ok,
    decreases ls.len() - k,
{
    if k < ls.len() {
        assert(ls.subrange(0, k + 1).drop_last() =~= ls.subrange(0, k));
        lemma_py_functions_prefix(ls, k + 1);
    } else {
        assert(ls.subrange(0, k) =~= ls);
    }
}

/// Appends what one declaration line declares: its `def`, then its
/// `async def`.
fn push_py_line(t: &[char], out: &mut Vec<AnalyzedFunction>)
    requires
        py_def(t@) is Ok,
        py_async_def(t@) is Ok,
    ensures
        function_views(final(out)@) == ({
            let fs = function_views(old(out)@);
            let fs1 = match py_def(t@)->Ok_0 { Some(f) => fs.push(f), None => fs };
            match py_async_def(t@)->Ok_0 { Some(f) => fs1.push(f), None => fs1 }
        }),
{
    let line = string_of(t);
    let ghost before = out@;
    match parse_py_function(line.as_str(), false) {
        Some(f) => {
            let ghost fv = f@;
            out.push(f);
            assert(function_views(out@) =~= function_views(before).push(fv));
        }
        None => {}
    }
    let ghost mid = out@;
    match parse_py_async_function(line.as_str(), false) {
        Some(f) => {
            let ghost fv = f@;
            out.push(f);
            assert(function_views(out@) =~= function_views(mid).push(fv));
        }
        None => {}
    }
}

/// The functions declared in the text of a Python file or stub, line by
/// line: each line that is neither blank nor a comment is read as a `def`
/// and as an `async def`.
pub fn analyze_python_source(content: &str) -> (r: Vec<AnalyzedFunction>)
    requires
        py_functions(crate::text::lines(content@)) is Ok,
    ensures
        function_views(r@) == py_functions(crate::text::lines(content@))->Ok_0,
{
    let chars = chars_of(content);
    let ls = crate::text::lines_of(chars.as_slice());
    let ghost lv = crate::text::views(ls@);
    let mut out: Vec<AnalyzedFunction> = Vec::new();
    let mut i: usize = 0;
    assert(function_views(out@) =~= Seq::<AnalyzedFunctionV>::empty());
    while i < ls.len()
        invariant
            i <= ls@.len(),
            lv == crate::text::views(ls@),
            lv == crate::text::lines(content@),
            py_functions(lv) is Ok,
            py_functions(lv.subrange(0, i as int)) == Ok::<Seq<AnalyzedFunctionV>, ()>(function_views(out@)),
        decreases ls@.len() - i,
    {
        proof {
            assert(lv.subrange(0, i + 1).drop_last() =~= lv.subrange(0, i as int));
            assert(lv.subrange(0, i + 1).last() == ls@[i as int]@);
            lemma_py_functions_prefix(lv, i + 1);
        }
        let t = trim_slice(ls[i].as_slice());
        if t.len() == 0 || starts_with_str(t, "#") {
            i = i + 1;
            continue;
        }
        push_py_line(t, &mut out);
        i = i + 1;
    }
    assert(lv.subrange(0, ls@.len() as int) =~= lv);
    out
}

/// The functions of a Python file with extension `ext` and text `content`:
/// stubs (`pyi`) and sources (`py`) are read alike; any other extension is
/// refused.
pub fn analyze_python_content(ext: &str, content: &str) -> (r: Result<Vec<AnalyzedFunction>, String>)
    requires
        (ext@ == "pyi"@ || ext@ == "py"@) ==> py_functions(crate::text::lines(content@)) is Ok,
    ensures
        if ext@ == "pyi"@ || ext@ == "py"@ {
            r matches Ok(v) && function_views(v@) == py_functions(crate::text::lines(content@))->Ok_0
        } else {
            r matches Err(m) && m@ == "Unsupported Python file type: "@ + ext@
        },
{
    let e = chars_of(ext);
    if eq_str(e.as_slice(), "pyi") || eq_str(e.as_slice(), "py") {
        Ok(analyze_python_source(content))
    } else {
        Err(crate::text::concat("Unsupported Python file type: ", ext))
    }
}

} // verus!
