//! The C analyzer: suggestions for the contract of a C function, read off
//! its declared types.

use vstd::prelude::*;
use crate::text::{owned, chars_of, contains, contains_str, lowercase, to_lowercase};
use crate::compiler::wrapper::function::AnalyzedFunction;

verus! {

/// The postcondition suggested for a C function with the given return type.
/// An integer or size result is read as a status that is not negative, a
/// `char*` or `void*` result as a pointer that is not null, and anything
/// else gives `true`.
pub open spec fn postcondition_for(return_type: Seq<char>) -> Seq<char> {
    let t = lowercase(return_type);
    if contains(t, "int"@) || contains(t, "size_t"@) {
        "result >= 0"@
    } else if contains(t, "char*"@) || contains(t, "void*"@) {
        "result != null"@
    } else {
        "true"@
    }
}

/// Suggested postconditions for a C function: exactly one, chosen by its
/// return type (see `postcondition_for`).
pub fn suggest_postconditions(func: &AnalyzedFunction) -> (r: Vec<String>)
    ensures
        r@.len() == 1,
        r@[0]@ == postcondition_for(func.return_type@),
{
    let lower = to_lowercase(func.return_type.as_str());
    let t = chars_of(lower.as_str());
    let mut out: Vec<String> = Vec::new();
    if contains_str(t.as_slice(), "int") || contains_str(t.as_slice(), "size_t") {
        out.push(owned("result >= 0"));
    } else if contains_str(t.as_slice(), "char*") || contains_str(t.as_slice(), "void*") {
        out.push(owned("result != null"));
    } else {
        out.push(owned("true"));
    }
    out
}

} // verus!
