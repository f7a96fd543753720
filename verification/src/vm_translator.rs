//! The VM-to-assembly stage: a token reader for the stack machine's
//! command language and the code generator that lowers each command to
//! assembly.

pub mod code_writer;
pub mod parser;
