//! The sentinel that guards foreign calls with the binding's pre- and
//! postconditions. Conditions are recorded on bindings but not evaluated:
//! every call passes.

use vstd::prelude::*;
use crate::compiler::ast::ForeignBinding;
use crate::compiler::ffi::types::FfiValue;

verus! {

pub struct Sentinel;

impl Sentinel {
    pub fn new() -> (s: Self) {
        Sentinel
    }

    /// Checks a call's arguments against the binding's precondition.
    pub fn validate_precondition(&self, binding: &ForeignBinding, args: &[FfiValue]) -> (r: Result<(), String>)
        ensures
            r is Ok,
    {
        Ok(())
    }

    /// Checks a call's result against the binding's postcondition.
    pub fn validate_postcondition(&self, binding: &ForeignBinding, result: &FfiValue) -> (r: Result<(), String>)
        ensures
            r is Ok,
    {
        Ok(())
    }
}

} // verus!
