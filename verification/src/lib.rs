//! Matcher combinators for PEG-style grammars over a sequence of tokens.
//!
//! A matcher looks at an input sequence from a cursor position and either
//! fails or reports the position at which its match ends. Every combinator
//! here carries a mathematical description of that behaviour, and the
//! executable code is verified against it.

pub mod matcher;

pub use matcher::Matcher;
