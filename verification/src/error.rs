//! Error types, and the translation of HTTP responses into them.

use vstd::prelude::*;

use crate::text::{dec_str, u64_to_string};
use vstd::string::StringExecFns;

verus! {

/// Result type for client operations.
pub type Result<T> = core::result::Result<T, Error>;

/// The error taxonomy of the client.
///
/// Retryable conditions (timeouts aside) are resolved inside the request
/// executor and surface only once retries are exhausted; everything else
/// propagates to the caller as one of these.
#[derive(Debug)]
pub enum Error {
    /// The API returned an error response not covered by a more specific
    /// variant: the status code, the message, and additional detail.
    Api {
        /// HTTP status code.
        status: u16,
        /// Error message.
        message: String,
        /// Additional detail.
        detail: Option<String>,
    },
    /// Rate limit exceeded: how many seconds to wait, and the message.
    RateLimit {
        /// Seconds to wait before retrying.
        retry_after: u64,
        /// Error message.
        message: String,
    },
    /// Request validation failed: the message and the field-level errors,
    /// keyed by field name.
    Validation {
        /// Error message.
        message: String,
        /// Field-level errors.
        errors: Vec<(String, Vec<String>)>,
    },
    /// Authentication failed.
    Authentication(String),
    /// Access forbidden.
    Forbidden(String),
    /// Resource not found.
    NotFound(String),
    /// The API version is older than this client supports.
    UnsupportedApiVersion {
        /// The API version detected.
        api_version: String,
        /// Minimum supported version.
        min_version: String,
        /// Maximum known version.
        max_known_version: String,
    },
    /// Network or HTTP failure, as the transport reported it.
    Http(String),
    /// JSON serialization or deserialization failure, as reported.
    Json(String),
    /// Configuration error: the client was built with invalid options.
    Config(String),
    /// The request timed out; timeouts are never retried.
    Timeout,
}

/// The text an error reads as.
pub open spec fn spec_display(e: Error) -> Seq<char> {
    match e {
        Error::Api { status, message, detail } => "API error ("@ + dec_str(status as int) + "): "@
            + message@,
        Error::RateLimit { retry_after, message } => "Rate limited. Retry after "@ + dec_str(
            retry_after as int,
        ) + " seconds"@,
        Error::Validation { message, errors } => "Validation error: "@ + message@,
        Error::Authentication(m) => "Authentication failed: "@ + m@,
        Error::Forbidden(m) => "Access forbidden: "@ + m@,
        Error::NotFound(m) => "Not found: "@ + m@,
        Error::UnsupportedApiVersion { api_version, min_version, max_known_version } =>
            "Unsupported API version "@ + api_version@ + ". This SDK requires >= "@ + min_version@,
        Error::Http(m) => "HTTP error: "@ + m@,
        Error::Json(m) => "JSON error: "@ + m@,
        Error::Config(m) => "Configuration error: "@ + m@,
        Error::Timeout => "Request timed out"@,
    }
}

impl Error {
    /// The error as one line of text, as `spec_display` says.
    pub fn display_string(&self) -> (s: String)
        ensures
            s@ == spec_display(*self),
    {
        match self {
            Error::Api { status, message, detail: _ } => {
                let mut s = String::from_str("API error (");
                s.append(u64_to_string(*status as u64).as_str());
                s.append("): ");
                s.append(message.as_str());
                s
            },
            Error::RateLimit { retry_after, message } => {
                let mut s = String::from_str("Rate limited. Retry after ");
                s.append(u64_to_string(*retry_after).as_str());
                s.append(" seconds");
                s
            },
            Error::Validation { message, errors: _ } => {
                let mut s = String::from_str("Validation error: ");
                s.append(message.as_str());
                s
            },
            Error::Authentication(m) => {
                let mut s = String::from_str("Authentication failed: ");
                s.append(m.as_str());
                s
            },
            Error::Forbidden(m) => {
                let mut s = String::from_str("Access forbidden: ");
                s.append(m.as_str());
                s
            },
            Error::NotFound(m) => {
                let mut s = String::from_str("Not found: ");
                s.append(m.as_str());
                s
            },
            Error::UnsupportedApiVersion { api_version, min_version, max_known_version: _ } => {
                let mut s = String::from_str("Unsupported API version ");
                s.append(api_version.as_str());
                s.append(". This SDK requires >= ");
                s.append(min_version.as_str());
                s
            },
            Error::Http(m) => {
                let mut s = String::from_str("HTTP error: ");
                s.append(m.as_str());
                s
            },
            Error::Json(m) => {
                let mut s = String::from_str("JSON error: ");
                s.append(m.as_str());
                s
            },
            Error::Config(m) => {
                let mut s = String::from_str("Configuration error: ");
                s.append(m.as_str());
                s
            },
            Error::Timeout => String::from_str("Request timed out"),
        }
    }
}

/// Translate an error response into the typed error for its status code:
/// 400 carries the field errors, 401/403/404 carry the message, 429
/// carries the wait, and any other status becomes the general API error
/// with its detail.
pub fn error_from_status(
    status: u16,
    message: String,
    detail: Option<String>,
    errors: Vec<(String, Vec<String>)>,
    retry_after: u64,
) -> (r: Error)
    ensures
        status == 400 ==> r == (Error::Validation { message, errors }),
        status == 401 ==> r == Error::Authentication(message),
        status == 403 ==> r == Error::Forbidden(message),
        status == 404 ==> r == Error::NotFound(message),
        status == 429 ==> r == (Error::RateLimit { retry_after, message }),
        !(status == 400 || status == 401 || status == 403 || status == 404 || status == 429)
            ==> r == (Error::Api { status, message, detail }),
{
    if status == 400 {
        Error::Validation { message, errors }
    } else if status == 401 {
        Error::Authentication(message)
    } else if status == 403 {
        Error::Forbidden(message)
    } else if status == 404 {
        Error::NotFound(message)
    } else if status == 429 {
        Error::RateLimit { retry_after, message }
    } else {
        Error::Api { status, message, detail }
    }
}

} // verus!
