//! Errors of the foreign function interface.

use vstd::prelude::*;
use crate::text::owned;

verus! {

/// Error kinds of FFI operations.
#[derive(Debug, Clone)]
pub enum FfiError {
    FileNotFound(String),
    TomlParseError(String),
    MissingField(String),
    TypeParseError(String),
    ValidationError(String),
    PathResolutionError(String),
    MapperNotFound(String),
}

pub open spec fn ffi_error_text(e: FfiError) -> Seq<char> {
    match e {
        FfiError::FileNotFound(p) => "FFI binding file not found: "@ + p@,
        FfiError::TomlParseError(p) => "TOML parse error: "@ + p@,
        FfiError::MissingField(p) => "Missing required field in TOML: "@ + p@,
        FfiError::TypeParseError(p) => "Type parse error: "@ + p@,
        FfiError::ValidationError(p) => "Binding validation error: "@ + p@,
        FfiError::PathResolutionError(p) => "Path resolution error: "@ + p@,
        FfiError::MapperNotFound(p) => "Mapper not found: "@ + p@,
    }
}

fn prefixed(pre: &str, s: &String) -> (r: String)
    ensures
        r@ == pre@ + s@,
{
    let mut r = owned(pre);
    r.append(s.as_str());
    r
}

impl FfiError {
    /// The message of the error.
    pub fn to_string(&self) -> (s: String)
        ensures
            s@ == ffi_error_text(*self),
    {
        match self {
            FfiError::FileNotFound(p) => prefixed("FFI binding file not found: ", p),
            FfiError::TomlParseError(p) => prefixed("TOML parse error: ", p),
            FfiError::MissingField(p) => prefixed("Missing required field in TOML: ", p),
            FfiError::TypeParseError(p) => prefixed("Type parse error: ", p),
            FfiError::ValidationError(p) => prefixed("Binding validation error: ", p),
            FfiError::PathResolutionError(p) => prefixed("Path resolution error: ", p),
            FfiError::MapperNotFound(p) => prefixed("Mapper not found: ", p),
        }
    }
}

} // verus!
