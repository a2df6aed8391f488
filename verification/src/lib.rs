//! A network-request blocking oracle: EasyList-style filter rules are
//! parsed into structured `Rule` values, compiled into a `RuleIndex`, and
//! requests are evaluated against the index with exception-over-blocking
//! precedence.

pub mod bytes;
pub mod engine;
pub mod index;
pub mod laws;
pub mod oracle;
pub mod parser;
pub mod pattern;
pub mod request;
pub mod rule;
pub mod url;
