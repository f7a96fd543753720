//! The two-pass assembler: symbolic assembly text in, 16-bit binary
//! instruction words out.

pub mod assemble;
pub mod code;
pub mod parser;
pub mod symbol_table;
