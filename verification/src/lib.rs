//! A verified tokenizer for a small C-like language.
//!
//! The library turns raw source text into a flat sequence of classified
//! tokens. A fixed, priority-ordered table of lexical patterns defines every
//! recognizable lexeme; at each cursor position the scanner picks the longest
//! anchored match, breaking ties by table order, and the driver repeats this
//! until the input is exhausted or no pattern matches.

pub mod driver;
pub mod patterns;
pub mod scanner;
pub mod token;

pub use driver::tokenize;
pub use scanner::longest_match;
pub use token::{SpecTok, Tok, TokKind};
