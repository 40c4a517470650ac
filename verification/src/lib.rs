//! Verified core of the Brief toolchain and the Moore kernel: the kernel's
//! fence and boot bookkeeping, the Moore shell's proposition language, the
//! Brief Control (`.bvc`) compiler front end, and the analyses of the Brief
//! compiler.

pub mod seqs;
pub mod table;
pub mod paths;
pub mod text;
pub mod scan;
pub mod kernel;
pub mod msh;
pub mod bvc;
pub mod compiler;
pub mod ffi_lib;
