//! Data model: search summaries, streaming sources, subtitle tracks, and
//! the paired per-page result, with their mathematical views.
use vstd::prelude::*;

verus! {

/// View of an optional owned string.
pub open spec fn opt_str_view(o: Option<String>) -> Option<Seq<char>> {
    match o {
        Some(s) => Some(s@),
        None => None,
    }
}

/// One video card from a search-results page.
#[derive(Debug, Clone)]
pub struct VideoResult {
    /// Video title.
    pub name: String,
    /// Full URL of the video page.
    pub url: String,
    /// Unique alphanumeric video identifier.
    pub video_id: String,
    /// URL-friendly video slug.
    pub video_slug: String,
    /// Download URL carrying the download query parameter.
    pub download_url: String,
    /// Duration text such as `00:44:20`, when the card shows one.
    pub duration: Option<String>,
    /// Quality badge such as `HD`, when the card shows one.
    pub quality: Option<String>,
    /// Human-readable file size such as `1.7 GB`, when the card shows one.
    pub file_size: Option<String>,
}

/// Mathematical view of a [`VideoResult`].
pub ghost struct VideoResultView {
    pub name: Seq<char>,
    pub url: Seq<char>,
    pub video_id: Seq<char>,
    pub video_slug: Seq<char>,
    pub download_url: Seq<char>,
    pub duration: Option<Seq<char>>,
    pub quality: Option<Seq<char>>,
    pub file_size: Option<Seq<char>>,
}

impl View for VideoResult {
    type V = VideoResultView;

    open spec fn view(&self) -> VideoResultView {
        VideoResultView {
            name: self.name@,
            url: self.url@,
            video_id: self.video_id@,
            video_slug: self.video_slug@,
            download_url: self.download_url@,
            duration: opt_str_view(self.duration),
            quality: opt_str_view(self.quality),
            file_size: opt_str_view(self.file_size),
        }
    }
}

/// One streaming quality variant of a video.
#[derive(Debug, Clone)]
pub struct VideoSource {
    /// CDN URL of this variant.
    pub url: String,
    /// Human label such as `1080p`.
    pub label: String,
    /// Vertical pixel count, 0 when unknown.
    pub resolution: u32,
    /// Whether the page marks this variant as the default.
    pub is_default: bool,
    /// Container format from a fixed whitelist, when derivable.
    pub format: Option<String>,
}

/// Mathematical view of a [`VideoSource`].
pub ghost struct VideoSourceView {
    pub url: Seq<char>,
    pub label: Seq<char>,
    pub resolution: u32,
    pub is_default: bool,
    pub format: Option<Seq<char>>,
}

impl View for VideoSource {
    type V = VideoSourceView;

    open spec fn view(&self) -> VideoSourceView {
        VideoSourceView {
            url: self.url@,
            label: self.label@,
            resolution: self.resolution,
            is_default: self.is_default,
            format: opt_str_view(self.format),
        }
    }
}

/// One subtitle track of a video.
#[derive(Debug, Clone)]
pub struct SubtitleTrack {
    /// CDN URL of the track file.
    pub url: String,
    /// Language code, taken from the page or derived from the label.
    pub language: String,
    /// Cleaned human label.
    pub label: String,
    /// Whether the page marks this track as the default.
    pub is_default: bool,
}

/// Mathematical view of a [`SubtitleTrack`].
pub ghost struct SubtitleTrackView {
    pub url: Seq<char>,
    pub language: Seq<char>,
    pub label: Seq<char>,
    pub is_default: bool,
}

impl View for SubtitleTrack {
    type V = SubtitleTrackView;

    open spec fn view(&self) -> SubtitleTrackView {
        SubtitleTrackView {
            url: self.url@,
            language: self.language@,
            label: self.label@,
            is_default: self.is_default,
        }
    }
}

/// Sources and subtitles of one video page, extracted from a single fetch.
#[derive(Debug, Clone)]
pub struct VideoPageData {
    pub sources: Vec<VideoSource>,
    pub subtitles: Vec<SubtitleTrack>,
}

} // verus!
