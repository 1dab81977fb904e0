//! Small verified building blocks for a first tour of Rust: owned and borrowed
//! strings, records, enumerations, generic containers, a score table, simple
//! control flow and a number guessing game.
//!
//! Every executable function carries a contract over the mathematical view of
//! its arguments (`Seq<char>` for text, `Map` for the score table), and each
//! module keeps its lemmas next to the code that needs them.

pub mod collections;
pub mod control;
pub mod decimal;
pub mod enum_type;
pub mod error;
pub mod generic;
pub mod guessing_game;
pub mod module_test;
pub mod ownership;
pub mod struct_type;
