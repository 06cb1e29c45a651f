//! A scanner, an expression parser and a printer for a small scripting language.

pub mod ast_printer;
pub mod errors;
pub mod expr;
pub mod grammar;
pub mod grammar_facts;
pub mod lexical;
pub mod lexical_facts;
pub mod number;
pub mod number_facts;
pub mod parser;
pub mod precedence;
pub mod round_trip;
pub mod scanner;
pub mod text;
pub mod token;
pub mod visitor;
