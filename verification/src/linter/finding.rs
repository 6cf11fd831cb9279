//! Finding severities.

use vstd::prelude::*;

verus! {

/// How serious a finding is.
#[derive(Clone, Copy, Debug, PartialEq, Eq, Structural, Hash)]
pub enum Severity {
    /// Worth knowing about.
    Info,
    /// Probably worth fixing.
    Warning,
    /// Must be fixed.
    Error,
}

} // verus!
