//! Brief Control: the language that places logic modules on the fabric's
//! partitions (`partition Imp_Core across Tile_0 as RP_0;`), its checks
//! against the board description, and the Writ of Execution it compiles to.

pub mod types;
pub mod lexer;
pub mod parser;
pub mod validator;
pub mod writ;
