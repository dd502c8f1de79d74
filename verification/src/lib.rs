//! Front end and lowering layer of a small expression language: a lexer, a
//! precedence-climbing parser whose operator table grows as operator
//! overloads are declared, and a lowering pass that turns syntax trees into
//! basic blocks of instructions over stack slots.

pub mod text;
pub mod lexer;
pub mod ast;
pub mod grammar;
pub mod parser;
pub mod scope;
pub mod ir;
pub mod backend;
pub mod lowering;
pub mod codegen;
pub mod driver;
pub mod laws;
pub mod progress;
pub mod shape;
pub mod sound;
