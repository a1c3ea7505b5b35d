//! A keyword redirector: a search query's first token selects a named
//! command, and the remaining words are substituted into that command's
//! destination URL template.
//!
//! The crate holds the command table model, its loader, the tokenizer and
//! the resolver; serving the result over HTTP is left to the embedding
//! program.

pub mod laws;
pub mod resolve;
pub mod table;
pub mod text;
pub mod tokenize;
