//! A scanner for a small C-like scripting language: it turns source text into
//! a stream of tokens, one per call.

pub mod laws;
pub mod lexer;
pub mod model;
pub mod token;
