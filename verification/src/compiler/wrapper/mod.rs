//! Analyzers that read function signatures out of foreign sources, so that
//! `frgn sig` declarations can be written for them.

pub mod function;
pub mod python;
pub mod js;
pub mod c;
