//! Command-line grammar and logging policy of the Rustinel endpoint agent.
pub mod cli;
pub mod text;
pub mod runtime;
