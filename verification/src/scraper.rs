//! The pure cores of the high-level operations: argument validation and
//! path building for search, video pages and downloads, and the one-fetch
//! pairing of sources with subtitles. The embedding fetch layer calls
//! these before and after its network work.
use vstd::prelude::*;
use vstd::string::StringSliceAdditionalSpecFns;
use vstd::utf8::encode_utf8;
use crate::error::PrehrajtoError;
use crate::types::VideoPageData;
use crate::text::{is_blank_chars, trim_seq, is_blank, chars_of, trim_bounds, string_of_range};
use crate::url::{pct_encode_bytes, encode_component, build_download_url};
use crate::numbers::dec_str_i32;
use crate::sources::{video_sources_spec, source_views, parse_video_sources_vec};
use crate::subtitles::{subtitle_tracks_spec, track_views, parse_subtitle_tracks_vec};

verus! {

/// The trimmed text of `s`, as an owned string.
fn trimmed(s: &str) -> (r: String)
    ensures
        r@ == trim_seq(s@),
{
    let t = chars_of(s);
    let (a, b) = trim_bounds(&t);
    string_of_range(&t, a, b)
}

/// Builds the download URL for a video, rejecting a blank identifier
/// before any network activity.
pub fn get_download_url(video_slug: &str, video_id: &str) -> (r: Result<String, PrehrajtoError>)
    ensures
        (r matches Ok(u) ==> !is_blank_chars(video_id@) && u@ == crate::url::base_url_seq()
            + "/"@ + video_slug@ + "/"@ + video_id@ + "?do=download"@),
        (r matches Err(_e) ==> is_blank_chars(video_id@)),
        (r matches Err(e) ==> e matches PrehrajtoError::InvalidId(m) && m@
            == "Video ID cannot be empty"@),
{
    if is_blank(video_id) {
        return Err(PrehrajtoError::InvalidId(String::from_str("Video ID cannot be empty")));
    }
    Ok(build_download_url(video_slug, video_id))
}

/// The request path of a search, rejecting a blank query before any
/// network activity; the query is trimmed and percent-encoded.
pub fn search_path(query: &str) -> (r: Result<String, PrehrajtoError>)
    ensures
        (r matches Ok(p) ==> !is_blank_chars(query@) && p@ == "/hledej/"@ + pct_encode_bytes(
            encode_utf8(trim_seq(query@)),
        )),
        (r matches Err(_e) ==> is_blank_chars(query@)),
        (r matches Err(e) ==> e matches PrehrajtoError::InvalidId(m) && m@
            == "Search query cannot be empty"@),
{
    if is_blank(query) {
        return Err(PrehrajtoError::InvalidId(String::from_str("Search query cannot be empty")));
    }
    let q = trimmed(query);
    let encoded = encode_component(q.as_str());
    let mut p = String::from_str("/hledej/");
    p.append(encoded.as_str());
    proof {
        assert(p@ =~= "/hledej/"@ + pct_encode_bytes(encode_utf8(trim_seq(query@))));
    }
    Ok(p)
}

/// The request path of a video page, rejecting a blank identifier before
/// any network activity.
pub fn video_page_path(video_slug: &str, video_id: &str) -> (r: Result<String, PrehrajtoError>)
    ensures
        (r matches Ok(p) ==> !is_blank_chars(video_id@) && p@ == "/"@ + video_slug@ + "/"@
            + video_id@),
        (r matches Err(_e) ==> is_blank_chars(video_id@)),
        (r matches Err(e) ==> e matches PrehrajtoError::InvalidId(m) && m@
            == "Video ID cannot be empty"@),
{
    if is_blank(video_id) {
        return Err(PrehrajtoError::InvalidId(String::from_str("Video ID cannot be empty")));
    }
    let mut p = String::from_str("/");
    p.append(video_slug);
    p.append("/");
    p.append(video_id);
    proof {
        assert(p@ =~= "/"@ + video_slug@ + "/"@ + video_id@);
    }
    Ok(p)
}

/// The request path of the download-redirect page, rejecting a blank
/// identifier before any network activity.
pub fn download_page_path(video_slug: &str, video_id: &str) -> (r: Result<String, PrehrajtoError>)
    ensures
        (r matches Ok(p) ==> !is_blank_chars(video_id@) && p@ == "/"@ + video_slug@ + "/"@
            + video_id@ + "?do=download"@),
        (r matches Err(_e) ==> is_blank_chars(video_id@)),
        (r matches Err(e) ==> e matches PrehrajtoError::InvalidId(m) && m@
            == "Video ID cannot be empty"@),
{
    match video_page_path(video_slug, video_id) {
        Ok(mut p) => {
            p.append("?do=download");
            Ok(p)
        },
        Err(e) => Err(e),
    }
}

/// The search query of a movie lookup: the trimmed name, with the year
/// appended after a space when one is given; a blank name is rejected
/// before any network activity.
pub fn build_movie_query(movie_name: &str, year: Option<i32>) -> (r: Result<
    String,
    PrehrajtoError,
>)
    ensures
        (r matches Ok(q) ==> !is_blank_chars(movie_name@) && q@ == (match year {
            Some(y) => trim_seq(movie_name@) + " "@ + dec_str_i32(y as int),
            None => trim_seq(movie_name@),
        })),
        (r matches Err(_e) ==> is_blank_chars(movie_name@)),
        (r matches Err(e) ==> e matches PrehrajtoError::InvalidId(m) && m@
            == "Movie name cannot be empty"@),
{
    if is_blank(movie_name) {
        return Err(PrehrajtoError::InvalidId(String::from_str("Movie name cannot be empty")));
    }
    let mut q = trimmed(movie_name);
    match year {
        Some(y) => {
            q.append(" ");
            crate::numbers::append_i32(&mut q, y);
            proof {
                assert(q@ =~= trim_seq(movie_name@) + " "@ + dec_str_i32(y as int));
            }
            Ok(q)
        },
        None => Ok(q),
    }
}

/// Extracts the sources and the subtitle tracks of one video page from a
/// single fetch of its markup.
pub fn parse_video_page_data(html: &str) -> (r: VideoPageData)
    ensures
        source_views(r.sources@) == video_sources_spec(html@),
        track_views(r.subtitles@) == subtitle_tracks_spec(html@),
{
    let t = chars_of(html);
    let sources = parse_video_sources_vec(&t);
    let subtitles = parse_subtitle_tracks_vec(&t);
    VideoPageData { sources, subtitles }
}

} // verus!
