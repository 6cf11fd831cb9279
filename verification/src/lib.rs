//! Configuration handling for the YARlint linter, verified with Verus.

pub mod config;
pub mod keyed;
pub mod linter;
pub mod text;
