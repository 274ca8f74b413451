//! Tara: a small scripting language with a lexer, a recursive-descent parser,
//! a tree-walking interpreter and the opcode tables of its virtual machine.
pub mod asm_helpers;
pub mod ast;
pub mod env;
pub mod interpreter;
pub mod laws;
pub mod lexer;
pub mod parser;
pub mod parser_spec;
pub mod semantics;
pub mod text;
pub mod token;
pub mod tvm;
pub mod value;
