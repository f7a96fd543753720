//! A two-stage translator for a 16-bit stack machine: a VM-to-assembly code
//! generator and a two-pass assembler that turns symbolic assembly into
//! 16-bit binary instruction words.

pub mod assembler;
pub mod table;
pub mod text;
pub mod vm_translator;
