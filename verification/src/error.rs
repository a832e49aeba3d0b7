//! Error taxonomy of the library, with human-readable messages and the
//! retryability classification used by the fetch layer.
use vstd::prelude::*;

verus! {

/// What went wrong at the transport level, modelled as plain data so the
/// retry rules can be stated and checked.
#[derive(Debug, Clone)]
pub enum HttpFailure {
    /// The request timed out.
    Timeout,
    /// The connection could not be established.
    Connect,
    /// The server answered with this HTTP status.
    Status(u16),
    /// Any other transport failure, described in text.
    Other(String),
}

/// Error type for all scraper operations.
#[derive(Debug, Clone)]
pub enum PrehrajtoError {
    /// HTTP request failed.
    HttpError(HttpFailure),
    /// Failed to parse HTML content.
    ParseError(String),
    /// Expected HTML element was not found.
    ElementNotFound(String),
    /// Invalid URL format.
    InvalidUrl(String),
    /// Rate limited by the server.
    RateLimited,
    /// Video not found on the server.
    NotFound(String),
    /// Invalid video identifier or query supplied by the caller.
    InvalidId(String),
}

/// Result type alias for scraper operations.
pub type ScrapeResult<T> = Result<T, PrehrajtoError>;

/// The text describing a transport failure.
pub open spec fn http_failure_text(f: HttpFailure) -> Seq<char> {
    match f {
        HttpFailure::Timeout => "request timed out"@,
        HttpFailure::Connect => "connection failed"@,
        HttpFailure::Status(s) => "server returned status "@ + crate::numbers::dec_str(s as nat),
        HttpFailure::Other(m) => m@,
    }
}

/// The human-readable message of each error.
pub open spec fn error_message(e: PrehrajtoError) -> Seq<char> {
    match e {
        PrehrajtoError::HttpError(f) => "HTTP request failed: "@ + http_failure_text(f),
        PrehrajtoError::ParseError(m) => "Failed to parse HTML: "@ + m@,
        PrehrajtoError::ElementNotFound(m) => "Element not found: "@ + m@,
        PrehrajtoError::InvalidUrl(m) => "Invalid URL: "@ + m@,
        PrehrajtoError::RateLimited => "Rate limited - too many requests"@,
        PrehrajtoError::NotFound(m) => "Video not found: "@ + m@,
        PrehrajtoError::InvalidId(m) => "Invalid video ID: "@ + m@,
    }
}

impl PrehrajtoError {
    /// A human-readable description of the error, for cross-boundary
    /// reporting.
    pub fn message(&self) -> (r: String)
        ensures
            r@ == error_message(*self),
    {
        match self {
            PrehrajtoError::HttpError(f) => {
                let mut s = String::from_str("HTTP request failed: ");
                match f {
                    HttpFailure::Timeout => {
                        s.append("request timed out");
                    },
                    HttpFailure::Connect => {
                        s.append("connection failed");
                    },
                    HttpFailure::Status(code) => {
                        s.append("server returned status ");
                        crate::numbers::append_u32(&mut s, *code as u32);
                        assert(s@ =~= error_message(*self));
                    },
                    HttpFailure::Other(m) => {
                        s.append(m.as_str());
                    },
                }
                s
            },
            PrehrajtoError::ParseError(m) => String::from_str("Failed to parse HTML: ").concat(
                m.as_str(),
            ),
            PrehrajtoError::ElementNotFound(m) => String::from_str("Element not found: ").concat(
                m.as_str(),
            ),
            PrehrajtoError::InvalidUrl(m) => String::from_str("Invalid URL: ").concat(m.as_str()),
            PrehrajtoError::RateLimited => String::from_str("Rate limited - too many requests"),
            PrehrajtoError::NotFound(m) => String::from_str("Video not found: ").concat(
                m.as_str(),
            ),
            PrehrajtoError::InvalidId(m) => String::from_str("Invalid video ID: ").concat(
                m.as_str(),
            ),
        }
    }
}

} // verus!
