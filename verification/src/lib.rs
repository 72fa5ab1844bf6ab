//! Filters log lines with a small query language.
//!
//! A query is split into tokens (`token`), parsed into a `Query` (`parser`)
//! and decided against each `LogRecord` (`record`, `evaluator`); `cli` runs a
//! query over the lines of a log and `args` reads the program's arguments.
pub mod args;
pub mod cli;
pub mod evaluator;
pub mod grammar_laws;
pub mod laws;
pub mod lexer_laws;
pub mod parser;
pub mod record;
pub mod semantics_laws;
pub mod text;
pub mod token;
