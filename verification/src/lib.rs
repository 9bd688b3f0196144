//! A tokenizer and an operator-precedence expression parser.
//!
//! Source text is split into line-tagged tokens by [`lexer::Lexer`]; the
//! token sequence is turned into one syntax tree per top-level expression by
//! [`pratt::Parser`].
pub mod decimal;
pub mod lexer;
pub mod nodes;
pub mod pratt;
mod text;
