//! The language front end: token model, lexer, parser and the abstract
//! syntax tree they produce.

pub mod ast;
pub mod lexer;
pub mod parser;
pub mod token;

pub use ast::Program;
pub use lexer::Lexer;
pub use parser::Parser;
