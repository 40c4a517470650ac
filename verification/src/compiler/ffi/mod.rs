//! The foreign function interface: its error kinds, its type system, the
//! registry of built-in implementations, the mapper registry, and the
//! sentinel that guards calls.

pub mod error;
pub mod types;
pub mod registry;
pub mod sentinel;
pub mod mappers;
pub mod native_mapper;
pub mod toml_data;
