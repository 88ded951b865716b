//! Parsing of single-line infix arithmetic expressions: numbers, the
//! operators `+ - * / ^`, the unary minus sign and parentheses.
//!
//! A text is cut into tokens by the [`tokenizer`], and the tokens are turned
//! into a syntax tree by the [`parser`], which climbs by precedence.  What the
//! two compute is defined over sequences of characters and of lexemes, in
//! [`tokenizer`] and in [`grammar`], and every function is proved to compute
//! just that.  The modules [`laws`], [`spelling`], [`faults`] and [`content`]
//! prove what follows from the definitions: how operators group, that every
//! tree can be written down, that no faulty text is accepted, and that a tree
//! holds the numbers and operators of its text in their order.
//!
//! The text must hold no white space.  A tree is not evaluated here.

pub mod ast;
pub mod content;
pub mod error;
pub mod faults;
pub mod grammar;
pub mod laws;
pub mod number;
pub mod parser;
pub mod precedence;
pub mod spelling;
pub mod token;
pub mod tokenizer;

pub use ast::Node;
pub use error::{Found, ParseError};
pub use number::NumLit;
pub use parser::{parse_expression, Parser};
pub use precedence::OperPrec;
pub use token::Token;
pub use tokenizer::{tokenize, Tokenizer};
