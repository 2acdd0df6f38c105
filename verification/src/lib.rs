//! A miniature line-oriented pattern matcher in the spirit of `grep -E`.
//!
//! A pattern string is compiled into a sequence of units, each a token with
//! its modifiers ([`Pattern::parse`]), and the sequence is evaluated against
//! the bytes of one line ([`Pattern::match_line`]). The matcher works byte
//! by byte and never goes back on a choice: a repetition takes what it can
//! and hands off to the unit after it as soon as that unit can start, and an
//! alternation keeps to its first branch that matches.
//!
//! # The dialect
//!
//! | pattern | meaning |
//! |---|---|
//! | `.` | any byte |
//! | `\d` `\D` `\w` `\W` `\s` `\S` | an ASCII digit, letter or digit, whitespace byte; or a byte that is none |
//! | `\x` | the byte `x` itself |
//! | `[abc]` `[^abc]` | one of the listed bytes; any byte but these |
//! | `(a\|b)` | the first of the branches that matches |
//! | `x?` | `x`, or nothing where `x` does not match |
//! | `x+` `x{n}` `x{n,}` `x{n,m}` | `x` repeated |
//! | `*` | any byte, repeated; a `.` right behind it is a literal |
//! | `^` as the first byte | the start of the line |
//! | `$` as the last byte | the end of the line |
//! | any other byte | the byte itself |
//!
//! # Contracts
//!
//! The functions of the library are verified against their contracts. The
//! contracts speak of patterns as plain values ([`model`]), of what a pattern
//! string compiles to ([`grammar`]) and of what matching means
//! ([`semantics`]); [`laws`] proves what follows for every pattern and every
//! line. One contract is believed and not proved: that of the question, put
//! to the standard library, whether the contents of `{..}` are well-formed
//! UTF-8.

pub mod ascii;
pub mod command;
pub mod error;
pub mod grammar;
pub mod laws;
pub mod match_pattern;
pub mod model;
pub mod pattern;
pub mod pattern_item;
pub mod pattern_list;
pub mod semantics;
pub mod text_token;
pub mod token;
pub mod token_modifier;

pub use command::Command;
pub use error::{MatchError, ParseError};
pub use pattern::Pattern;
pub use pattern_item::PatternItem;
pub use pattern_list::PatternList;
pub use text_token::TextToken;
pub use token::{CharToken, CharType, Token};
pub use token_modifier::TokenModifier;
