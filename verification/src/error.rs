//! Error taxonomy of the client core.
//!
//! Every failure is terminal for the call that raised it: there is no retry
//! anywhere in the library, and no partial result accompanies an error.

use vstd::prelude::*;

verus! {

/// A fatal failure while parsing a URL or a response.
///
/// Connection and I/O failures happen outside the library and are surfaced
/// by the unverified transport; the variants here cover exactly the
/// malformed-input cases of the core logic.
#[derive(Debug, Clone, Copy, PartialEq, Eq, Structural)]
pub enum HttpError {
    /// The URL holds no `://` separator after the scheme.
    MissingSchemeSeparator,
    /// The URL holds no `/` after the authority.
    MissingPathSeparator,
    /// The response holds no blank line separating headers from the body.
    MissingBlankLine,
    /// A response header line holds no `:` between name and value.
    MissingHeaderColon,
}

impl HttpError {
    /// A short human-readable description of the failure.
    pub fn describe(&self) -> (r: &'static str)
        ensures
            r@ == match self {
                HttpError::MissingSchemeSeparator => "url is missing the :// separator"@,
                HttpError::MissingPathSeparator => "url is missing a / after the authority"@,
                HttpError::MissingBlankLine => "response is missing the blank line before the body"@,
                HttpError::MissingHeaderColon => "response header line is missing a colon"@,
            },
    {
        match self {
            HttpError::MissingSchemeSeparator => "url is missing the :// separator",
            HttpError::MissingPathSeparator => "url is missing a / after the authority",
            HttpError::MissingBlankLine => "response is missing the blank line before the body",
            HttpError::MissingHeaderColon => "response header line is missing a colon",
        }
    }
}

} // verus!
