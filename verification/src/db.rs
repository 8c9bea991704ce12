//! A small in-memory database: its error values, the tokenizer of its
//! command language, table schemas and the parsing of commands.

pub mod errors;
pub mod tokens;
pub mod schema;
pub mod commands;
pub mod table;
pub mod run;
pub mod select;
pub mod laws;
