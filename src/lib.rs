//! A small scripting language: a lexer, a recursive-descent parser and a
//! tree-walking interpreter, each with a contract over a mathematical model.
//!
//! The pieces fit together as `lexer::tokenize`, then `parser::Parser::parse`,
//! then `interpreter::Interpreter::run`; a run that enters a `forever` loop
//! hands its body back so that the caller can poll the keyboard and run one
//! pass at a time with `Interpreter::step_forever`.
pub mod ast;
pub mod interpreter;
pub mod lexer;
pub mod parser;
pub mod table;
