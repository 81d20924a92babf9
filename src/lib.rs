//! A single-table record store driven by a line-oriented command
//! interpreter.
pub mod codec;
pub mod text;
pub mod parser;
pub mod table;
pub mod engine;
pub mod execute;
