//! The FFI library that ships with the compiler.

pub mod mappers;
pub mod native;
