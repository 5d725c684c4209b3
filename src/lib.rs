//! A rule engine for declarative lint rules written as graph queries.
pub mod span;
pub mod rule;
pub mod diagnostic;
pub mod plugin;
pub mod locate;
pub mod harness;
pub mod linter;
pub mod compressor;
