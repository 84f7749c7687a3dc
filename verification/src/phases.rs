//! The phases of compilation.
pub mod lexer;
pub mod parser;
pub mod semantic;
pub mod codegen;
pub mod code_shape;
pub mod evaluation;
