use prehrajto_core::error::{PrehrajtoError, HttpFailure};

#[test]
fn test_error_display_http_error() {
    let error = PrehrajtoError::ParseError("invalid HTML".to_string());
    assert_eq!(error.message(), "Failed to parse HTML: invalid HTML");
}

#[test]
fn test_error_display_parse_error() {
    let error = PrehrajtoError::ParseError("missing element".to_string());
    assert_eq!(error.message(), "Failed to parse HTML: missing element");
}

#[test]
fn test_error_display_element_not_found() {
    let error = PrehrajtoError::ElementNotFound("video-card".to_string());
    assert_eq!(error.message(), "Element not found: video-card");
}

#[test]
fn test_error_display_invalid_url() {
    let error = PrehrajtoError::InvalidUrl("not-a-url".to_string());
    assert_eq!(error.message(), "Invalid URL: not-a-url");
}

#[test]
fn test_error_display_rate_limited() {
    let error = PrehrajtoError::RateLimited;
    assert_eq!(error.message(), "Rate limited - too many requests");
}

#[test]
fn test_error_display_not_found() {
    let error = PrehrajtoError::NotFound("abc123".to_string());
    assert_eq!(error.message(), "Video not found: abc123");
}

#[test]
fn test_error_display_invalid_id() {
    let error = PrehrajtoError::InvalidId("".to_string());
    assert_eq!(error.message(), "Invalid video ID: ");
}

#[test]
fn test_error_display_transport_status() {
    let error = PrehrajtoError::HttpError(HttpFailure::Status(503));
    assert_eq!(error.message(), "HTTP request failed: server returned status 503");
}

#[test]
fn test_error_display_transport_timeout() {
    let error = PrehrajtoError::HttpError(HttpFailure::Timeout);
    assert_eq!(error.message(), "HTTP request failed: request timed out");
}
