//! The fetch layer's verified decisions: request spacing under a shared
//! rate budget, response classification with the CDN redirect stop, and
//! the retry/backoff policy. The surrounding I/O (the HTTP calls, clock
//! reads and sleeps) lives outside the library and feeds these functions
//! plain values.
use vstd::prelude::*;
use crate::error::{PrehrajtoError, HttpFailure};
use crate::quality::{cdn_url_seq, is_cdn_url};

verus! {

/// Redirect hops followed before a fetch gives up.
pub const MAX_REDIRECTS: u32 = 5;

/// Configuration of the fetch layer. The request rate is carried in
/// thousandths of requests per second, so the default of two requests
/// per second reads 2000.
#[derive(Debug, Clone)]
pub struct ClientConfig {
    /// Requests per second, in thousandths.
    pub rate_milli_per_sec: u64,
    /// Total request timeout in seconds.
    pub timeout_secs: u64,
    /// Retry attempts allowed for transient errors.
    pub max_retries: u32,
}

impl Default for ClientConfig {
    /// Two requests per second, a thirty-second timeout, three retries.
    fn default() -> (r: Self)
        ensures
            r.rate_milli_per_sec == 2000,
            r.timeout_secs == 30,
            r.max_retries == 3,
    {
        ClientConfig { rate_milli_per_sec: 2000, timeout_secs: 30, max_retries: 3 }
    }
}

/// Enforces a minimum spacing between requests: every grant is at least
/// the minimum interval after the previous one.
#[derive(Debug, Clone)]
pub struct RateLimiter {
    /// Minimum spacing between grants, in microseconds.
    pub min_interval_micros: u64,
    /// The instant of the previous grant, once one was given.
    pub last_grant_micros: Option<u64>,
}

/// How one acquisition changes the limiter: the grant instant is the
/// current time, pushed forward to honour the spacing from the previous
/// grant, and is recorded as the new previous grant.
pub open spec fn acquire_rel(pre: RateLimiter, post: RateLimiter, now: u64, wait: u64) -> bool {
    &&& now + wait <= u64::MAX
    &&& post.min_interval_micros == pre.min_interval_micros
    &&& (match pre.last_grant_micros {
        None => wait == 0,
        Some(l) => if now >= l + pre.min_interval_micros {
            wait == 0
        } else {
            now + wait == l + pre.min_interval_micros
        },
    })
    &&& post.last_grant_micros == Some((now + wait) as u64)
}

impl RateLimiter {
    pub open spec fn min_interval_spec(&self) -> u64 {
        self.min_interval_micros
    }

    pub open spec fn last_grant_spec(&self) -> Option<u64> {
        self.last_grant_micros
    }

    /// Builds a limiter from a rate given in thousandths of requests per
    /// second. The minimum interval is the reciprocal of the rate:
    /// 2000 (two requests per second) gives 500000 microseconds.
    pub fn new(rate_milli_per_sec: u64) -> (r: Self)
        requires
            rate_milli_per_sec > 0,
        ensures
            r.min_interval_spec() == 1_000_000_000u64 / rate_milli_per_sec,
            r.last_grant_spec() is None,
    {
        RateLimiter {
            min_interval_micros: 1_000_000_000 / rate_milli_per_sec,
            last_grant_micros: None,
        }
    }

    /// The minimum interval between requests, in microseconds.
    pub fn min_interval_micros(&self) -> (r: u64)
        ensures
            r == self.min_interval_spec(),
    {
        self.min_interval_micros
    }

    /// Acquires permission to send at time `now` (microseconds on a
    /// monotone clock): yields the wait the caller must sleep before
    /// sending, and records the granted instant. The caller reads the
    /// clock again only after sleeping, so successive `now` values never
    /// precede the recorded grant.
    pub fn acquire_at(&mut self, now: u64) -> (wait: u64)
        requires
            (old(self).last_grant_spec() matches Some(l) ==> l <= now),
            now + old(self).min_interval_spec() <= u64::MAX,
        ensures
            acquire_rel(*old(self), *final(self), now, wait),
            now + wait <= u64::MAX,
    {
        match self.last_grant_micros {
            None => {
                self.last_grant_micros = Some(now);
                0
            },
            Some(l) => {
                let threshold: u64 = l + self.min_interval_micros;
                if now >= threshold {
                    self.last_grant_micros = Some(now);
                    0
                } else {
                    let wait: u64 = threshold - now;
                    self.last_grant_micros = Some(threshold);
                    wait
                }
            },
        }
    }
}

/// LAW: two sequential acquisitions are granted at least the minimum
/// interval apart — the second grant instant is at or after the first
/// plus the interval, whatever the clock readings were.
pub proof fn law_sequential_grant_spacing(
    s0: RateLimiter,
    s1: RateLimiter,
    s2: RateLimiter,
    now1: u64,
    wait1: u64,
    now2: u64,
    wait2: u64,
)
    requires
        acquire_rel(s0, s1, now1, wait1),
        acquire_rel(s1, s2, now2, wait2),
    ensures
        now2 + wait2 >= now1 + wait1 + s0.min_interval_spec(),
{
}

/// What a fetch does with one HTTP response.
#[derive(Debug, Clone)]
pub enum ResponseDirective {
    /// The attempt failed with this error.
    Fail(PrehrajtoError),
    /// The response body is the answer.
    Body,
    /// Follow the redirect to this location.
    Follow(String),
}

/// The classification of one response: a 429 is a rate limit, a 404 is
/// not-found for the requested URL, any 5xx is a server failure; a 3xx
/// is followed unless its location is on the CDN file-serving domain or
/// is missing, in which case the current body is the answer; anything
/// else is a success whose body is the answer.
pub open spec fn classify_spec(
    status: u16,
    location: Option<Seq<char>>,
    current_url: Seq<char>,
    d: ResponseDirective,
) -> bool {
    if status == 429 {
        d matches ResponseDirective::Fail(e) && e matches PrehrajtoError::RateLimited
    } else if status == 404 {
        d matches ResponseDirective::Fail(e) && e matches PrehrajtoError::NotFound(m) && m@
            == current_url
    } else if 500 <= status < 600 {
        d matches ResponseDirective::Fail(e) && e matches PrehrajtoError::HttpError(f)
            && f matches HttpFailure::Status(s) && s == status
    } else if 300 <= status < 400 {
        match location {
            Some(loc) => if cdn_url_seq(loc) {
                d is Body
            } else {
                d matches ResponseDirective::Follow(u) && u@ == loc
            },
            None => d is Body,
        }
    } else {
        d is Body
    }
}

/// Classifies one response of a fetch attempt.
pub fn classify_response(status: u16, location: Option<&str>, current_url: &str) -> (d:
    ResponseDirective)
    ensures
        classify_spec(
            status,
            match location {
                Some(l) => Some(l@),
                None => None,
            },
            current_url@,
            d,
        ),
{
    if status == 429 {
        return ResponseDirective::Fail(PrehrajtoError::RateLimited);
    }
    if status == 404 {
        return ResponseDirective::Fail(
            PrehrajtoError::NotFound(String::from_str(current_url)),
        );
    }
    if 500 <= status && status < 600 {
        return ResponseDirective::Fail(
            PrehrajtoError::HttpError(HttpFailure::Status(status)),
        );
    }
    if 300 <= status && status < 400 {
        match location {
            Some(loc) => {
                if is_cdn_url(loc) {
                    return ResponseDirective::Body;
                }
                return ResponseDirective::Follow(String::from_str(loc));
            },
            None => {
                return ResponseDirective::Body;
            },
        }
    }
    ResponseDirective::Body
}

/// Which errors a fetch retries: rate limits, and transport failures
/// from a timeout, a failed connection, or a 5xx status.
pub open spec fn retryable_spec(e: PrehrajtoError) -> bool {
    match e {
        PrehrajtoError::RateLimited => true,
        PrehrajtoError::HttpError(f) => match f {
            HttpFailure::Timeout => true,
            HttpFailure::Connect => true,
            HttpFailure::Status(s) => 500 <= s < 600,
            HttpFailure::Other(_) => false,
        },
        _ => false,
    }
}

/// Checks whether an error is worth retrying.
pub fn is_retryable(e: &PrehrajtoError) -> (r: bool)
    ensures
        r == retryable_spec(*e),
{
    match e {
        PrehrajtoError::RateLimited => true,
        PrehrajtoError::HttpError(f) => match f {
            HttpFailure::Timeout => true,
            HttpFailure::Connect => true,
            HttpFailure::Status(s) => 500 <= *s && *s < 600,
            HttpFailure::Other(_) => false,
        },
        _ => false,
    }
}

/// The retry decision after a failed attempt: retryable errors within
/// the attempt budget back off exponentially, doubling from one second;
/// everything else propagates at once.
pub fn next_backoff_secs(attempt: u32, max_retries: u32, e: &PrehrajtoError) -> (r: Option<u64>)
    requires
        attempt < 64,
    ensures
        (r matches Some(d) ==> retryable_spec(*e) && attempt < max_retries && d == (1u64
            << attempt)),
        r is None ==> !retryable_spec(*e) || attempt >= max_retries,
{
    if is_retryable(e) && attempt < max_retries {
        Some(1u64 << attempt)
    } else {
        None
    }
}

} // verus!
