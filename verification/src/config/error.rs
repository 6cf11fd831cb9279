//! Fatal configuration failures.
//!
//! These stop the world. Problems *inside* an otherwise readable configuration
//! file are collected as [`Diagnostics`](crate::config::diagnostics::Diagnostics)
//! instead, so that the user sees every mistake at once rather than one per run.

use core::ops::Range;

use vstd::prelude::*;

use crate::text::concat3;

verus! {

/// `std::io::Error`, carried through unchanged as the cause of a read failure.
#[verifier::external_type_specification]
#[verifier::external_body]
pub struct ExIoError(std::io::Error);

/// A failure that prevents configuration from being loaded at all.
#[derive(Debug)]
pub enum ConfigError {
    /// The configuration file could not be read.
    Io {
        /// Path that could not be read.
        path: String,
        /// Underlying I/O failure.
        source: std::io::Error,
    },
    /// The configuration file is not valid TOML.
    Parse {
        /// Path that failed to parse.
        path: String,
        /// Message reported by the TOML parser.
        message: String,
        /// Byte range of the offending text, when the parser supplied one.
        span: Option<Range<usize>>,
    },
    /// A cop rejected its own parameters during construction, for invariants
    /// that span two parameters, such as a minimum that exceeds its maximum.
    Invalid {
        /// Qualified name of the cop that rejected its parameters.
        cop: String,
        /// Explanation of what is wrong.
        message: String,
    },
}

/// The rendering of a parse failure.
pub open spec fn parse_error_text(path: Seq<char>, message: Seq<char>) -> Seq<char> {
    "could not parse "@ + path + ": "@ + message
}

/// The rendering of a rejected cop configuration.
pub open spec fn invalid_error_text(cop: Seq<char>, message: Seq<char>) -> Seq<char> {
    "invalid configuration for "@ + cop + ": "@ + message
}

/// The start of the rendering of a read failure, before the cause.
pub open spec fn io_error_prefix(path: Seq<char>) -> Seq<char> {
    "could not read "@ + path + ": "@
}

/// The text that `std::io::Error`'s `Display` writes for `e`.
#[verifier::external_body]
fn io_error_text(e: &std::io::Error) -> String {
    format!("{e}")
}

impl ConfigError {
    /// Construct a [`ConfigError::Invalid`] for a cop that rejected its
    /// parameters.
    pub fn invalid(cop: &str, message: &str) -> (res: Self)
        ensures
            res matches ConfigError::Invalid { cop: c, message: m } && c@ == cop@ && m@ == message@,
    {
        ConfigError::Invalid { cop: cop.to_owned(), message: message.to_owned() }
    }

    /// The error as one line of text, as shown to the user.
    pub fn to_text(&self) -> (res: String)
        ensures
            self matches ConfigError::Parse { path, message, .. } ==> res@ == parse_error_text(
                path@,
                message@,
            ),
            self matches ConfigError::Invalid { cop, message } ==> res@ == invalid_error_text(
                cop@,
                message@,
            ),
            self matches ConfigError::Io { path, .. } ==> res@.len() >= io_error_prefix(path@).len()
                && res@.take(io_error_prefix(path@).len() as int) == io_error_prefix(path@),
    {
        match self {
            ConfigError::Io { path, source } => {
                let cause = io_error_text(source);
                let mut res = concat3("could not read ", path.as_str(), ": ");
                res.append(cause.as_str());
                assert(res@.take(io_error_prefix(path@).len() as int) =~= io_error_prefix(path@));
                res
            },
            ConfigError::Parse { path, message, .. } => {
                let mut res = concat3("could not parse ", path.as_str(), ": ");
                res.append(message.as_str());
                res
            },
            ConfigError::Invalid { cop, message } => {
                let mut res = concat3("invalid configuration for ", cop.as_str(), ": ");
                res.append(message.as_str());
                res
            },
        }
    }

    /// True if the error wraps an underlying cause, as a read failure does.
    pub fn has_source(&self) -> (res: bool)
        ensures
            res == (self is Io),
    {
        match self {
            ConfigError::Io { .. } => true,
            _ => false,
        }
    }
}

} // verus!
