//! A lexer and a recursive-descent parser for a small declarative rule
//! language, with every function specified and proved.
//!
//! A source text is a list of rules. Each rule has a name and holds
//! statements of the form `if <condition> then <action>`. [`lex`] splits a
//! text into tokens, and [`parse`] builds the program that the tokens write.

pub mod ast;
pub mod charclass;
pub mod grammar;
pub mod lex_laws;
pub mod lexer;
pub mod parser;
pub mod render;
pub mod round_trip;
pub mod text;
pub mod text_round_trip;
pub mod token;
pub mod unparse;
pub mod well_formed;

pub use ast::{Action, CompOp, Expr, Field, Operand, Program, Rule, Statement};
pub use lexer::{lex, LexError};
pub use parser::{parse, ParseError, Parser};
pub use render::tokens_to_text;
pub use token::Token;
