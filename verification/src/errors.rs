//! The error taxonomy every internal failure is coarsened to before it
//! crosses the boundary, each with its HTTP status.

use vstd::prelude::*;
use vstd::string::StringExecFns;

verus! {

/// Failure classes of the gateway core.
#[derive(Debug, Clone, Copy, PartialEq, Eq, Structural)]
pub enum ApiError {
    /// Bad, missing or expired credential.
    Authentication,
    /// The server lacks required identity configuration.
    Configuration,
    /// A bad request parameter.
    Validation,
    /// No free pool member is left.
    ResourceExhausted,
    /// A caller-specified value is already taken.
    Conflict,
    /// The queried handle is unknown.
    UserNotFound,
    /// The queried handle holds no ASN assignment.
    NoAsnAssigned,
    /// A store or identity-provider call failed.
    Upstream,
}

impl ApiError {
    /// The HTTP status each class maps to.
    pub open spec fn spec_status(self) -> u16 {
        match self {
            ApiError::Authentication => 401,
            ApiError::Configuration => 500,
            ApiError::Validation => 400,
            ApiError::ResourceExhausted => 503,
            ApiError::Conflict => 409,
            ApiError::UserNotFound => 404,
            ApiError::NoAsnAssigned => 404,
            ApiError::Upstream => 500,
        }
    }

    /// The generic message text of each class.
    pub open spec fn spec_message(self) -> Seq<char> {
        match self {
            ApiError::Authentication => "authentication failed"@,
            ApiError::Configuration => "server configuration error"@,
            ApiError::Validation => "invalid request parameter"@,
            ApiError::ResourceExhausted => "resource pool exhausted"@,
            ApiError::Conflict => "resource already taken"@,
            ApiError::UserNotFound => "user not found"@,
            ApiError::NoAsnAssigned => "user has no ASN assigned"@,
            ApiError::Upstream => "upstream failure"@,
        }
    }

    pub fn status(&self) -> (s: u16)
        ensures
            s == self.spec_status(),
    {
        match self {
            ApiError::Authentication => 401,
            ApiError::Configuration => 500,
            ApiError::Validation => 400,
            ApiError::ResourceExhausted => 503,
            ApiError::Conflict => 409,
            ApiError::UserNotFound => 404,
            ApiError::NoAsnAssigned => 404,
            ApiError::Upstream => 500,
        }
    }

    pub fn message(&self) -> (m: String)
        ensures
            m@ == self.spec_message(),
    {
        match self {
            ApiError::Authentication => String::from_str("authentication failed"),
            ApiError::Configuration => String::from_str("server configuration error"),
            ApiError::Validation => String::from_str("invalid request parameter"),
            ApiError::ResourceExhausted => String::from_str("resource pool exhausted"),
            ApiError::Conflict => String::from_str("resource already taken"),
            ApiError::UserNotFound => String::from_str("user not found"),
            ApiError::NoAsnAssigned => String::from_str("user has no ASN assigned"),
            ApiError::Upstream => String::from_str("upstream failure"),
        }
    }
}

} // verus!
