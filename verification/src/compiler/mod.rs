//! The Brief compiler's verified parts: diagnostics and their rendering,
//! the address-space analysis of memory-mapped state, the foreign function
//! interface's types and registries, and the analyzers that read foreign
//! signatures out of C, JavaScript and Python sources.

pub mod errors;
pub mod ast;
pub mod ffi;
pub mod resolver;
pub mod wrapper;
pub mod analysis;
pub mod hardware;
pub mod hardware_validator;
pub mod proof_engine;
pub mod sig_casting;
pub mod symbolic;
pub mod watch;
pub mod parser;
pub mod parser_items;
pub mod parser_html;
pub mod parser_top;
