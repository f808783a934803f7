//! The error kinds a request can fail with, and the status code each maps to.
use vstd::prelude::*;

verus! {

/// Everything that can go wrong while ingesting, routing, or answering a
/// request. Each variant carries a short diagnostic text that is only ever
/// logged, never echoed to the caller.
#[derive(Debug)]
pub enum Error {
    /// No route matched the request path and method.
    RouteNotFound(String),
    /// The request body, its framing, or its encoding was unacceptable.
    InvalidRequestBody(String),
    /// A response body could not be serialized.
    ResponseSerializationError(String),
    /// A middleware reported a failure.
    MiddlewareError(String),
    /// An unexpected internal failure.
    InternalServerError(String),
    /// The process configuration was unusable.
    ConfigurationError(String),
    /// An upstream collaborator failed.
    ExternalServiceError(String),
    /// The caller is not authenticated.
    AuthenticationError(String),
    /// The caller is authenticated but not allowed.
    AuthorizationError(String),
    /// The declared or decompressed body size exceeds the configured ceiling.
    PayloadTooLarge(String),
    /// A header name or value failed validation.
    InvalidHeader(String),
    /// A cookie name or value failed validation.
    InvalidCookie(String),
}

/// The HTTP status code an error kind is reported with.
pub open spec fn spec_status_code(e: &Error) -> u16 {
    match e {
        Error::RouteNotFound(_) => 404,
        Error::InvalidRequestBody(_) => 400,
        Error::ResponseSerializationError(_) => 500,
        Error::MiddlewareError(_) => 500,
        Error::InternalServerError(_) => 500,
        Error::ConfigurationError(_) => 500,
        Error::ExternalServiceError(_) => 502,
        Error::AuthenticationError(_) => 401,
        Error::AuthorizationError(_) => 403,
        Error::PayloadTooLarge(_) => 413,
        Error::InvalidHeader(_) => 400,
        Error::InvalidCookie(_) => 400,
    }
}

impl Error {
    /// The HTTP status code this error is reported with.
    pub fn status_code(&self) -> (r: u16)
        ensures
            r == spec_status_code(self),
    {
        match self {
            Error::RouteNotFound(_) => 404,
            Error::InvalidRequestBody(_) => 400,
            Error::ResponseSerializationError(_) => 500,
            Error::MiddlewareError(_) => 500,
            Error::InternalServerError(_) => 500,
            Error::ConfigurationError(_) => 500,
            Error::ExternalServiceError(_) => 502,
            Error::AuthenticationError(_) => 401,
            Error::AuthorizationError(_) => 403,
            Error::PayloadTooLarge(_) => 413,
            Error::InvalidHeader(_) => 400,
            Error::InvalidCookie(_) => 400,
        }
    }
}

} // verus!
