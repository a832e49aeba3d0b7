use prehrajto_core::client::{RateLimiter, ClientConfig, ResponseDirective, classify_response,
    is_retryable, next_backoff_secs};
use prehrajto_core::error::{PrehrajtoError, HttpFailure};

#[test]
fn test_rate_limiter_creation() {
    let limiter = RateLimiter::new(2000);
    assert_eq!(limiter.min_interval_micros(), 500_000);
}

#[test]
fn test_rate_limiter_interval_calculation() {
    let limiter = RateLimiter::new(4000);
    assert_eq!(limiter.min_interval_micros(), 250_000);
}

#[test]
fn test_client_config_default() {
    let config = ClientConfig::default();
    assert_eq!(config.rate_milli_per_sec, 2000);
    assert_eq!(config.timeout_secs, 30);
    assert_eq!(config.max_retries, 3);
}

#[test]
fn test_rate_limiter_acquire() {
    let mut limiter = RateLimiter::new(10_000);
    assert_eq!(limiter.min_interval_micros(), 100_000);

    let wait1 = limiter.acquire_at(7);
    assert_eq!(wait1, 0);

    let wait2 = limiter.acquire_at(7);
    assert_eq!(wait2, 100_000);

    let wait3 = limiter.acquire_at(7 + 100_000 + 100_000);
    assert_eq!(wait3, 0);
}

#[test]
fn test_rate_limiter_spacing_across_grants() {
    let mut limiter = RateLimiter::new(2000);
    let w1 = limiter.acquire_at(1_000);
    let g1 = 1_000 + w1;
    let w2 = limiter.acquire_at(g1 + 123);
    let g2 = g1 + 123 + w2;
    assert!(g2 - g1 >= 500_000);
}

#[test]
fn test_classify_rate_limited() {
    let d = classify_response(429, None, "https://prehraj.to/x/y");
    match d {
        ResponseDirective::Fail(PrehrajtoError::RateLimited) => {}
        _ => panic!("Expected RateLimited failure"),
    }
}

#[test]
fn test_classify_not_found() {
    let d = classify_response(404, None, "https://prehraj.to/x/y");
    match d {
        ResponseDirective::Fail(PrehrajtoError::NotFound(u)) => {
            assert_eq!(u, "https://prehraj.to/x/y");
        }
        _ => panic!("Expected NotFound failure"),
    }
}

#[test]
fn test_classify_server_error() {
    let d = classify_response(503, None, "u");
    match d {
        ResponseDirective::Fail(PrehrajtoError::HttpError(HttpFailure::Status(503))) => {}
        _ => panic!("Expected transport failure carrying the status"),
    }
}

#[test]
fn test_classify_redirect_follow() {
    let d = classify_response(302, Some("https://prehraj.to/next"), "u");
    match d {
        ResponseDirective::Follow(loc) => assert_eq!(loc, "https://prehraj.to/next"),
        _ => panic!("Expected redirect follow"),
    }
}

#[test]
fn test_classify_redirect_to_cdn_stops() {
    let d = classify_response(302, Some("https://x.premiumcdn.net/file?token=1"), "u");
    match d {
        ResponseDirective::Body => {}
        _ => panic!("Expected the body to be kept instead of following"),
    }
}

#[test]
fn test_classify_success() {
    let d = classify_response(200, None, "u");
    match d {
        ResponseDirective::Body => {}
        _ => panic!("Expected body"),
    }
}

#[test]
fn test_retryable_classification() {
    assert!(is_retryable(&PrehrajtoError::RateLimited));
    assert!(is_retryable(&PrehrajtoError::HttpError(HttpFailure::Timeout)));
    assert!(is_retryable(&PrehrajtoError::HttpError(HttpFailure::Connect)));
    assert!(is_retryable(&PrehrajtoError::HttpError(HttpFailure::Status(500))));
    assert!(!is_retryable(&PrehrajtoError::HttpError(HttpFailure::Status(403))));
    assert!(!is_retryable(&PrehrajtoError::NotFound("x".to_string())));
    assert!(!is_retryable(&PrehrajtoError::InvalidId("".to_string())));
}

#[test]
fn test_backoff_doubles_per_attempt() {
    let e = PrehrajtoError::RateLimited;
    assert_eq!(next_backoff_secs(0, 3, &e), Some(1));
    assert_eq!(next_backoff_secs(1, 3, &e), Some(2));
    assert_eq!(next_backoff_secs(2, 3, &e), Some(4));
    assert_eq!(next_backoff_secs(3, 3, &e), None);
    let fatal = PrehrajtoError::NotFound("x".to_string());
    assert_eq!(next_backoff_secs(0, 3, &fatal), None);
}
