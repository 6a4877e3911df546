//! Context ledger: a store for the output of tools, one per session.
//!
//! Large output is kept out of a conversation. It is stored under a handle, a
//! short preview takes its place, and commands bring back the parts that are
//! asked for. This crate holds what decides and what computes: when output is
//! intercepted, how it is compressed and previewed, how it is cached, searched
//! and shown. Programs around it read and write files, run queries and talk to
//! the outside.
//!
//! The specifications speak of text as sequences of characters ([`text`],
//! [`pieces`], [`search`], [`number`]), of JSON as trees ([`json`]), and of
//! results of other crates by name.

pub mod bytes;
pub mod cache;
pub mod calls;
pub mod clean;
pub mod cli;
pub mod compress;
pub mod db;
pub mod debug;
pub mod doctor;
pub mod error;
pub mod global_db;
pub mod index;
pub mod intercept;
pub mod intercept_grep;
pub mod json;
pub mod laws;
pub mod markup;
pub mod number;
pub mod order;
pub mod payload;
pub mod pieces;
pub mod preview;
pub mod query;
pub mod record;
pub mod retrieve;
pub mod search;
pub mod settings;
pub mod store;
pub mod tally;
pub mod text;

pub use error::CtxlError;
pub use query::{detect_regex_metacharacters, sanitize_fts5_query};
