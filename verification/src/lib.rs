//! Verified building blocks: symbolic expressions, list utilities,
//! token parsing for a small query language, and the rules of a
//! turn-based empire game, a small database, and more.

pub mod text;
pub mod expr;
pub mod lists;
pub mod primes;
pub mod db;
pub mod machines;
pub mod numbers;
pub mod program;
pub mod game;
pub mod pointers;
pub mod borders;
pub mod transform;
pub mod units;
