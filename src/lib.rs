//! A small scripting-language engine: a lexer, a recursive-descent parser, a compiler to flat
//! bytecode and a stack machine that runs the bytecode one step at a time, handing every
//! host-visible effect out as an action.
//!
//! Each stage is stated over a mathematical model and proved against it: `lexer::lex`,
//! `grammar::program`, `compiler::compile_node_spec` and `machine::work_spec`.

pub mod lexer;
pub mod ast;
pub mod grammar;
pub mod parser;
pub mod types;
pub mod ident_map;
pub mod bytecode;
pub mod compiler;
pub mod scope;
pub mod machine;
pub mod vm;
pub mod pretty;
pub mod args;
pub mod component;
