//! Lexing, parsing and the plain-value helpers of the json-formula expression language.

pub mod errors;
pub mod text;
pub mod foreign;
pub mod lexer_spec;
pub mod lexer;
pub mod ast;
pub mod display;
pub mod parser_spec;
pub mod parser;
pub mod types;
pub mod interpreter;
pub mod functions;
pub mod dates;
pub mod runtime;
pub mod utils;
