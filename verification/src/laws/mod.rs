//! What the operations are for: laws that relate results to inputs, and results
//! of related inputs to each other.

pub mod capture;
pub mod code;
pub mod commands;
pub mod diff;
pub mod entities;
pub mod filter;
pub mod find;
pub mod grep;
pub mod manifest;
pub mod preview;
pub mod query;
pub mod report;
pub mod session;
pub mod text;
pub mod values;
pub mod window;
