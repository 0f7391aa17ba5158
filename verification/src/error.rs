//! Error taxonomy of the relay core.
//!
//! Every failure surfaced to a caller is one of these kinds, and each kind
//! maps to exactly one HTTP status at the boundary.

use vstd::prelude::*;

verus! {

/// The error kinds a caller of the core can observe.
///
/// - `AuthenticationError`: bad or missing credentials, an unsupported
///   scheme, or an expired/invalid token; surfaced as 401 with a generic
///   message that never reveals whether the username or the password was
///   wrong.
/// - `ValidationError`: a rejected registration (duplicate username, or a
///   username absent from the directory mirror); surfaced as 400 with a
///   specific message.
/// - `UpstreamError`: the external API answered but reported failure.
/// - `TransportError`: the external call itself did not complete; the only
///   kind for which a caller-side retry is reasonable.
/// - `StorageError`: the durable store misbehaved (constraint violation not
///   absorbed elsewhere, exhausted pool); surfaced as 500.
#[derive(Debug, Clone, PartialEq, Eq)]
pub enum CustomError {
    AuthenticationError(String),
    ValidationError(String),
    UpstreamError(String),
    TransportError(String),
    StorageError(String),
}

impl CustomError {
    /// The single HTTP status this error kind maps to.
    pub fn http_status(&self) -> (status: u16)
        ensures
            status == self.spec_http_status(),
    {
        match self {
            CustomError::AuthenticationError(_) => 401,
            CustomError::ValidationError(_) => 400,
            CustomError::UpstreamError(_) => 502,
            CustomError::TransportError(_) => 503,
            CustomError::StorageError(_) => 500,
        }
    }

    /// The status mapping as a mathematical function of the kind.
    pub open spec fn spec_http_status(&self) -> u16 {
        match self {
            CustomError::AuthenticationError(_) => 401u16,
            CustomError::ValidationError(_) => 400u16,
            CustomError::UpstreamError(_) => 502u16,
            CustomError::TransportError(_) => 503u16,
            CustomError::StorageError(_) => 500u16,
        }
    }

    /// Short textual body for the HTTP boundary: the message carried by the
    /// error, whatever its kind.
    pub fn message(&self) -> (msg: &String)
        ensures
            msg@ == self.spec_message(),
    {
        match self {
            CustomError::AuthenticationError(m) => m,
            CustomError::ValidationError(m) => m,
            CustomError::UpstreamError(m) => m,
            CustomError::TransportError(m) => m,
            CustomError::StorageError(m) => m,
        }
    }

    /// The carried message as a sequence of characters.
    pub open spec fn spec_message(&self) -> Seq<char> {
        match self {
            CustomError::AuthenticationError(m) => m@,
            CustomError::ValidationError(m) => m@,
            CustomError::UpstreamError(m) => m@,
            CustomError::TransportError(m) => m@,
            CustomError::StorageError(m) => m@,
        }
    }
}

/// The specific failure kinds of token verification.  Callers collapse these
/// to a single authentication failure in responses but may log the kind.
#[derive(Debug, Clone, Copy, PartialEq, Eq, Structural)]
pub enum TokenError {
    Malformed,
    SignatureInvalid,
    Expired,
}

} // verus!
