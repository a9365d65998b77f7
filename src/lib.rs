//! A small expression language: a lexer, a precedence-climbing parser and a
//! typed evaluator with integer/float promotion, each with a specification.

pub mod agent;
pub mod error;
pub mod evaluator;
pub mod expression;
pub mod lexer;
pub mod parser;
pub mod render;
pub mod round_trip;
pub mod text;
pub mod token;
pub mod value;
pub mod whitespace;
