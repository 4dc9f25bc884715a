//! A table-driven lexer: an ordered list of regular expressions, each tied to a
//! token kind or marked as ignored, turns a source text into a sequence of
//! classified spans.

pub mod matcher;
pub mod select;
pub mod lexer;

pub use select::pick_rule;
pub use lexer::{BuildError, Lexer, LexerBuilder, NoMatch, Token, Tokens};
pub use regex::Error;
