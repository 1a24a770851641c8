//! A noise-tolerant multi-file text search engine driven by structured
//! boolean queries.
//!
//! Free-text atoms (possibly mixing Latin and CJK script) are compiled into
//! whitespace-tolerant regular expression sources, assembled into an
//! AND-of-OR query group, and evaluated against many texts, optionally
//! extracting a UTF-8-safe context window around the first match of the
//! leading pattern.

pub mod compiler;
pub mod evaluate;
pub mod laws;
pub mod pattern;
pub mod query;
pub mod scan;
pub mod window;
