//! The Moore shell: its proposition language, the tether engine that holds
//! the fabric state, and the command handling of the interactive loop.

pub mod parser;
pub mod tether;
pub mod shell;
