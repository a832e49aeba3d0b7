//! Structured-metadata extraction for a video-hosting site: rate-limited
//! fetch planning with retry and redirect decisions, and pure markup
//! extractors for search results, streaming sources, subtitle tracks and
//! direct CDN links.
pub mod client;
pub mod direct_url;
pub mod entities;
pub mod error;
pub mod markup;
pub mod numbers;
pub mod quality;
pub mod scraper;
pub mod search;
pub mod sources;
pub mod subtitles;
pub mod text;
pub mod types;
pub mod url;

pub use client::{ClientConfig, RateLimiter};
pub use error::{PrehrajtoError, ScrapeResult};
pub use search::parse_search_results;
pub use types::VideoResult;
pub use url::{build_download_url, build_search_url, build_video_url, extract_video_info};
