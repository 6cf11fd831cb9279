//! Casing conventions for rule names.

use vstd::prelude::*;

verus! {

/// A casing convention that rule names can be required to follow.
#[derive(Clone, Copy, Debug, PartialEq, Eq, Structural)]
pub enum NameCase {
    /// `LikeThis`.
    PascalCase,
    /// `like_this`.
    SnakeCase,
}

} // verus!
