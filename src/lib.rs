//! A rule-based static-analysis engine for Rust source text.
//!
//! The input is tokenized (`lexer`), given a tree of items and blocks (`tree`),
//! and checked by a fixed sequence of rules (`rules`, `comments`, `structure`,
//! `duplication`). Inline directives then drop what they cover
//! (`suppression`), and `engine::analyze` returns the findings with the source
//! model. `containment` proves that every finding lies within the source;
//! `position` maps offsets to lines and columns and counts findings by
//! severity. `samples` holds small routines showing the patterns the rules
//! target.
pub mod span;
pub mod lexer;
pub mod words;
pub mod tree;
pub mod finding;
pub mod config;
pub mod rules;
pub mod structure;
pub mod comments;
pub mod duplication;
pub mod suppression;
pub mod engine;
pub mod samples;
pub mod position;
pub mod containment;
