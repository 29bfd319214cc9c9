//! The Nyx language toolchain: source handling, lexing, parsing and bytecode compilation.
pub mod span;
pub mod symbol;
pub mod text;
pub mod token;
pub mod source;
pub mod lexer;
pub mod ast;
pub mod parser;
pub mod compiler;
