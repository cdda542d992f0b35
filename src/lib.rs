//! A small lambda-calculus front end: lexing, a two-stage parser, normal-order
//! beta reduction and rendering back to text.
pub mod syntax;
pub mod eval;
pub mod render;
pub mod lexer;
pub mod intermediate;
pub mod parser;
pub mod roundtrip;

pub use syntax::{LambdaNode, LambdaToken, NotQuiteLambdaToken, ParseError};
pub use eval::{beta_reduce, substitute};
pub use render::display_as_text;
pub use lexer::{lex, unrecognized_characters};
pub use parser::{parse_lexed, parse_string};
