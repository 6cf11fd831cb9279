//! The parts of the linter that configuration needs to name: cop families and
//! finding severities.

pub mod cop;
pub mod finding;
pub mod name_case;
