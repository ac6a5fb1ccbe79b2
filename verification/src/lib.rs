//! A verified lexer and recursive-descent parser for integer arithmetic
//! expressions with `+ - * /` and parentheses.

pub mod ast;
pub mod lexer;
pub mod parser;
pub mod token;
