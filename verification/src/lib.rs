//! A verified fuzzy-matching core.
//!
//! Given a user-typed search pattern and a candidate string, the library
//! computes a relevance score and the list of character positions that
//! contributed to the match. A pattern is compiled once and re-compiled
//! cheaply as it is edited; each candidate is then scored independently.

pub mod engine;
pub mod fold;
pub mod laws;
pub mod matcher;
pub mod options;
pub mod pattern;
pub mod text;
